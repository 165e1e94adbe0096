//! The screens of a menu-driven front end and the outcome of one visit.
//!
//! A front end shows the menu in [`menu`]'s order, turns the selected row
//! back into a page with [`Pages::from_index`], and reports how the visit
//! ended with [`HomeReturn`]. Only this mapping is logic; drawing the
//! screens is the front end's own business.

use vstd::prelude::*;

verus! {

/// One screen of the front end.
#[derive(Clone, Copy, Debug, PartialEq, Eq, Structural)]
pub enum Pages {
    PrintCircuit,
    GetFromJson,
    EditComponent,
    SaveAsJson,
    Exit,
}

/// How a visit to the home screen ended: leave, show the menu again, or
/// show it again over a message.
pub enum HomeReturn {
    Exit,
    Continue,
    ContinueWithMessage(String),
}

/// The menu rows, in the order they are shown.
pub fn menu() -> (r: Vec<Pages>)
    ensures
        r@ =~= seq![
            Pages::PrintCircuit,
            Pages::GetFromJson,
            Pages::EditComponent,
            Pages::SaveAsJson,
            Pages::Exit,
        ],
{
    let mut v: Vec<Pages> = Vec::new();
    v.push(Pages::PrintCircuit);
    v.push(Pages::GetFromJson);
    v.push(Pages::EditComponent);
    v.push(Pages::SaveAsJson);
    v.push(Pages::Exit);
    v
}

impl Pages {
    /// The page selected by a menu row, in [`menu`]'s order.
    pub fn from_index(i: usize) -> (r: Option<Pages>)
        ensures
            r == (if i == 0 {
                Some(Pages::PrintCircuit)
            } else if i == 1 {
                Some(Pages::GetFromJson)
            } else if i == 2 {
                Some(Pages::EditComponent)
            } else if i == 3 {
                Some(Pages::SaveAsJson)
            } else if i == 4 {
                Some(Pages::Exit)
            } else {
                None
            }),
    {
        if i == 0 {
            Some(Pages::PrintCircuit)
        } else if i == 1 {
            Some(Pages::GetFromJson)
        } else if i == 2 {
            Some(Pages::EditComponent)
        } else if i == 3 {
            Some(Pages::SaveAsJson)
        } else if i == 4 {
            Some(Pages::Exit)
        } else {
            None
        }
    }

    /// The label a menu shows for the page.
    pub fn label(&self) -> (r: &'static str)
        ensures
            *self == Pages::PrintCircuit ==> r@ == "Print Circuit"@,
            *self == Pages::GetFromJson ==> r@ == "Get From JSON"@,
            *self == Pages::EditComponent ==> r@ == "Edit Component"@,
            *self == Pages::SaveAsJson ==> r@ == "Save As JSON"@,
            *self == Pages::Exit ==> r@ == "Exit"@,
    {
        match self {
            Pages::PrintCircuit => "Print Circuit",
            Pages::GetFromJson => "Get From JSON",
            Pages::EditComponent => "Edit Component",
            Pages::SaveAsJson => "Save As JSON",
            Pages::Exit => "Exit",
        }
    }
}

} // verus!
