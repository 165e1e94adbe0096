use circuit_sim::pages::HomeReturn;
use circuit_sim::pages::Pages;
use circuit_sim::pages::menu;

#[test]
fn menu_order_matches_the_index_mapping() {
    let rows = menu();
    assert_eq!(rows.len(), 5);
    for (i, page) in rows.iter().enumerate() {
        assert_eq!(Pages::from_index(i), Some(*page));
    }
    assert_eq!(Pages::from_index(5), None);
}

#[test]
fn labels() {
    assert_eq!(Pages::PrintCircuit.label(), "Print Circuit");
    assert_eq!(Pages::GetFromJson.label(), "Get From JSON");
    assert_eq!(Pages::EditComponent.label(), "Edit Component");
    assert_eq!(Pages::SaveAsJson.label(), "Save As JSON");
    assert_eq!(Pages::Exit.label(), "Exit");
}

#[test]
fn home_return_carries_a_message() {
    let r = HomeReturn::ContinueWithMessage(String::from("Circuit loaded from JSON"));
    match r {
        HomeReturn::ContinueWithMessage(m) => assert_eq!(m, "Circuit loaded from JSON"),
        HomeReturn::Continue | HomeReturn::Exit => panic!("wrong variant"),
    }
}
