//! The circuit topology: a tree of series chains and parallel groups.
//!
//! A [`Series`] is an ordered chain of [`SeriesElement`]s; each element is
//! either an [`ElectronicComponent`] leaf or a parallel group of alternative
//! branch chains. Contracts speak of the spec-level mirror of the tree
//! ([`ElemModel`]), obtained through [`series_view`]. A well-formed tree has
//! strictly positive resistances and no empty parallel group or branch;
//! malformed trees are rejected where a node is built, never at evaluation
//! time.

use vstd::prelude::*;

use crate::rat::Frac;
use crate::rat::Rat;
use crate::rat::frac_pos;
use crate::rat::frac_wf;
use crate::rat::frac_zero;

verus! {

/// Why an operation on a circuit was refused.
#[derive(Clone, Copy, Debug, PartialEq, Eq, Structural)]
pub enum CircuitError {
    /// A parallel group or one of its branches is empty.
    MalformedTopology,
    /// A resistance was not strictly positive.
    NonPositiveResistance,
    /// An index path does not lead to a component leaf.
    InvalidPath,
    /// An exact intermediate value does not fit the machine representation.
    ArithmeticOverflow,
}

/// A resistor: its resistance and the voltage currently dropped across it.
#[derive(Clone, Copy, Debug, PartialEq, Eq, Structural)]
pub struct Resistor {
    pub resistance: Rat,
    pub tension_in_circuit: Rat,
}

/// A two-terminal component; resistors are the only kind modelled.
#[derive(Clone, Copy, Debug, PartialEq, Eq, Structural)]
pub enum ElectronicComponent {
    Resistor(Resistor),
}

/// One link of a series chain: a component leaf or a parallel group of
/// alternative branches.
pub enum SeriesElement {
    Component(ElectronicComponent),
    Parallel(Vec<Series>),
}

/// An ordered series chain; order is preserved for display, evaluation is
/// order-independent.
pub type Series = Vec<SeriesElement>;

/// An ideal voltage source.
#[derive(Clone, Copy, Debug, PartialEq, Eq, Structural)]
pub struct PowerSupply {
    pub voltage: Rat,
}

/// Spec-level mirror of one series element: the mathematical values of a
/// leaf, or the branches of a parallel group.
pub enum ElemModel {
    Res { resistance: Frac, tension: Frac },
    Par { branches: Seq<Seq<ElemModel>> },
}

/// Spec-level mirror of a series element.
pub open spec fn elem_view(e: SeriesElement) -> ElemModel
    decreases e,
{
    match e {
        SeriesElement::Component(c) => match c {
            ElectronicComponent::Resistor(r) => ElemModel::Res {
                resistance: r.resistance@,
                tension: r.tension_in_circuit@,
            },
        },
        SeriesElement::Parallel(bs) => ElemModel::Par { branches: branches_view(bs@) },
    }
}

/// Spec-level mirror of the branches of a parallel group.
pub open spec fn branches_view(bs: Seq<Series>) -> Seq<Seq<ElemModel>>
    decreases bs,
{
    if bs.len() == 0 {
        Seq::empty()
    } else {
        seq![series_view(bs[0]@)] + branches_view(bs.subrange(1, bs.len() as int))
    }
}

/// Spec-level mirror of a series chain.
pub open spec fn series_view(s: Seq<SeriesElement>) -> Seq<ElemModel>
    decreases s,
{
    if s.len() == 0 {
        Seq::empty()
    } else {
        seq![elem_view(s[0])] + series_view(s.subrange(1, s.len() as int))
    }
}

/// The mirror of a chain has the same length and mirrors element-wise.
pub proof fn lemma_series_view_props(s: Seq<SeriesElement>)
    ensures
        series_view(s).len() == s.len(),
        forall|i: int| 0 <= i < s.len() ==> series_view(s)[i] == elem_view(#[trigger] s[i]),
    decreases s,
{
    if s.len() > 0 {
        let rest = s.subrange(1, s.len() as int);
        lemma_series_view_props(rest);
        assert forall|i: int| 0 <= i < s.len() implies series_view(s)[i] == elem_view(
            #[trigger] s[i],
        ) by {
            if i > 0 {
                assert(rest[i - 1] == s[i]);
                assert(series_view(s)[i] == series_view(rest)[i - 1]);
            }
        }
    }
}

/// The mirror of a branch list has the same length and mirrors branch-wise.
pub proof fn lemma_branches_view_props(bs: Seq<Series>)
    ensures
        branches_view(bs).len() == bs.len(),
        forall|j: int| 0 <= j < bs.len() ==> branches_view(bs)[j] == series_view(
            (#[trigger] bs[j])@,
        ),
    decreases bs,
{
    if bs.len() > 0 {
        let rest = bs.subrange(1, bs.len() as int);
        lemma_branches_view_props(rest);
        assert forall|j: int| 0 <= j < bs.len() implies branches_view(bs)[j] == series_view(
            (#[trigger] bs[j])@,
        ) by {
            if j > 0 {
                assert(rest[j - 1] == bs[j]);
                assert(branches_view(bs)[j] == branches_view(rest)[j - 1]);
            }
        }
    }
}

/// A leaf is well formed when its resistance is strictly positive; a
/// parallel group when it has at least one branch and each branch is a
/// non-empty well-formed chain.
pub open spec fn elem_wf(e: ElemModel) -> bool
    decreases e,
{
    match e {
        ElemModel::Res { resistance, tension } => frac_wf(resistance) && frac_pos(resistance)
            && frac_wf(tension),
        ElemModel::Par { branches } => branches.len() >= 1 && branches_wf(branches),
    }
}

/// Every branch of a parallel group is a non-empty well-formed chain.
pub open spec fn branches_wf(bs: Seq<Seq<ElemModel>>) -> bool
    decreases bs,
{
    if bs.len() == 0 {
        true
    } else {
        bs[0].len() >= 1 && series_wf(bs[0]) && branches_wf(bs.subrange(1, bs.len() as int))
    }
}

/// Every element of a chain is well formed.
pub open spec fn series_wf(s: Seq<ElemModel>) -> bool
    decreases s,
{
    if s.len() == 0 {
        true
    } else {
        elem_wf(s[0]) && series_wf(s.subrange(1, s.len() as int))
    }
}

/// A chain is well formed exactly when each of its elements is.
pub proof fn lemma_series_wf_index(s: Seq<ElemModel>)
    ensures
        series_wf(s) <==> (forall|i: int| 0 <= i < s.len() ==> elem_wf(#[trigger] s[i])),
    decreases s,
{
    if s.len() > 0 {
        let rest = s.subrange(1, s.len() as int);
        lemma_series_wf_index(rest);
        assert(forall|i: int| 0 <= i < rest.len() ==> rest[i] == s[i + 1]);
        if series_wf(s) {
            assert forall|i: int| 0 <= i < s.len() implies elem_wf(#[trigger] s[i]) by {
                if i > 0 {
                    assert(elem_wf(rest[i - 1]));
                }
            }
        }
        if forall|i: int| 0 <= i < s.len() ==> elem_wf(#[trigger] s[i]) {
            assert forall|i: int| 0 <= i < rest.len() implies elem_wf(#[trigger] rest[i]) by {
                assert(elem_wf(s[i + 1]));
            }
        }
    }
}

/// A branch list is well formed exactly when each branch is non-empty and
/// well formed.
pub proof fn lemma_branches_wf_index(bs: Seq<Seq<ElemModel>>)
    ensures
        branches_wf(bs) <==> (forall|j: int|
            0 <= j < bs.len() ==> (#[trigger] bs[j]).len() >= 1 && series_wf(bs[j])),
    decreases bs,
{
    if bs.len() > 0 {
        let rest = bs.subrange(1, bs.len() as int);
        lemma_branches_wf_index(rest);
        assert(forall|j: int| 0 <= j < rest.len() ==> rest[j] == bs[j + 1]);
        if branches_wf(bs) {
            assert forall|j: int| 0 <= j < bs.len() implies (#[trigger] bs[j]).len() >= 1
                && series_wf(bs[j]) by {
                if j > 0 {
                    assert(rest[j - 1].len() >= 1 && series_wf(rest[j - 1]));
                }
            }
        }
        if forall|j: int| 0 <= j < bs.len() ==> (#[trigger] bs[j]).len() >= 1 && series_wf(bs[j]) {
            assert forall|j: int| 0 <= j < rest.len() implies (#[trigger] rest[j]).len() >= 1
                && series_wf(rest[j]) by {
                assert(bs[j + 1].len() >= 1 && series_wf(bs[j + 1]));
            }
        }
    }
}

/// Whether one element (and everything under it) is well formed.
#[verifier::loop_isolation(false)]
pub fn element_is_wf(e: &SeriesElement) -> (r: bool)
    ensures
        r == elem_wf(elem_view(*e)),
    decreases *e,
{
    match e {
        SeriesElement::Component(c) => match c {
            ElectronicComponent::Resistor(res) => res.resistance.den() >= 1 && res.resistance.num()
                >= 1 && res.tension_in_circuit.den() >= 1,
        },
        SeriesElement::Parallel(bs) => {
            proof {
                lemma_branches_view_props(bs@);
            }
            if bs.len() == 0 {
                return false;
            }
            let ghost bm = branches_view(bs@);
            let mut j: usize = 0;
            while j < bs.len()
                invariant
                    0 <= j <= bs.len(),
                    bm == branches_view(bs@),
                    bm.len() == bs@.len(),
                    forall|k: int| 0 <= k < bs@.len() ==> bm[k] == series_view((#[trigger] bs@[k])@),
                    forall|k: int| 0 <= k < j ==> (#[trigger] bm[k]).len() >= 1 && series_wf(bm[k]),
                decreases bs.len() - j,
            {
                proof {
                    assert((*e)->Parallel_0 == *bs);
                    assert(decreases_to!(*e => *bs));
                    assert(decreases_to!(*bs => bs@));
                    assert(decreases_to!(bs@ => bs@[j as int]));
                    assert(decreases_to!(bs@[j as int] => bs@[j as int]@));
                }
                let branch_ok = bs[j].len() >= 1 && series_is_wf(&bs[j]);
                proof {
                    lemma_series_view_props(bs@[j as int]@);
                }
                if !branch_ok {
                    proof {
                        lemma_branches_wf_index(bm);
                    }
                    return false;
                }
                j = j + 1;
            }
            proof {
                lemma_branches_wf_index(bm);
            }
            true
        },
    }
}

/// Whether every element of a chain is well formed.
#[verifier::loop_isolation(false)]
pub fn series_is_wf(s: &Series) -> (r: bool)
    ensures
        r == series_wf(series_view(s@)),
    decreases s@,
{
    proof {
        lemma_series_view_props(s@);
    }
    let ghost m = series_view(s@);
    let mut i: usize = 0;
    while i < s.len()
        invariant
            0 <= i <= s.len(),
            m == series_view(s@),
            m.len() == s@.len(),
            forall|k: int| 0 <= k < s@.len() ==> m[k] == elem_view(#[trigger] s@[k]),
            forall|k: int| 0 <= k < i ==> elem_wf(#[trigger] m[k]),
        decreases s.len() - i,
    {
        if !element_is_wf(&s[i]) {
            proof {
                lemma_series_wf_index(m);
            }
            return false;
        }
        i = i + 1;
    }
    proof {
        lemma_series_wf_index(m);
    }
    true
}

impl Resistor {
    /// Build a resistor with no voltage assigned yet; a resistance that is
    /// not strictly positive is rejected.
    pub fn new(resistance: Rat) -> (r: Result<Resistor, CircuitError>)
        requires
            resistance.wf(),
        ensures
            match r {
                Ok(res) => frac_pos(resistance@) && res.resistance == resistance
                    && res.tension_in_circuit@ == frac_zero(),
                Err(e) => !frac_pos(resistance@) && e == CircuitError::NonPositiveResistance,
            },
    {
        if resistance.is_positive() {
            Ok(Resistor { resistance, tension_in_circuit: Rat::zero() })
        } else {
            Err(CircuitError::NonPositiveResistance)
        }
    }

    pub fn get_resistance(&self) -> (r: Rat)
        ensures
            r == self.resistance,
    {
        self.resistance
    }

    pub fn get_tension(&self) -> (r: Rat)
        ensures
            r == self.tension_in_circuit,
    {
        self.tension_in_circuit
    }
}

impl ElectronicComponent {
    /// Build a resistor component; a resistance that is not strictly
    /// positive is rejected.
    pub fn new_resistor(resistance: Rat) -> (r: Result<ElectronicComponent, CircuitError>)
        requires
            resistance.wf(),
        ensures
            match r {
                Ok(c) => frac_pos(resistance@) && (match c {
                    ElectronicComponent::Resistor(res) => res.resistance == resistance
                        && res.tension_in_circuit@ == frac_zero(),
                }) && elem_wf(elem_view(SeriesElement::Component(c))),
                Err(e) => !frac_pos(resistance@) && e == CircuitError::NonPositiveResistance,
            },
    {
        match Resistor::new(resistance) {
            Ok(res) => Ok(ElectronicComponent::Resistor(res)),
            Err(e) => Err(e),
        }
    }

    /// Replace the resistance; a value that is not strictly positive is
    /// rejected and the component is left unchanged.
    pub fn set_resistance(&mut self, resistance: Rat) -> (r: Result<(), CircuitError>)
        requires
            resistance.wf(),
        ensures
            match r {
                Ok(()) => frac_pos(resistance@) && *final(self) == (match *old(self) {
                    ElectronicComponent::Resistor(res) => ElectronicComponent::Resistor(
                        Resistor { resistance, tension_in_circuit: res.tension_in_circuit },
                    ),
                }),
                Err(e) => !frac_pos(resistance@) && e == CircuitError::NonPositiveResistance
                    && *final(self) == *old(self),
            },
    {
        if !resistance.is_positive() {
            return Err(CircuitError::NonPositiveResistance);
        }
        match self {
            ElectronicComponent::Resistor(res) => {
                res.resistance = resistance;
            },
        }
        Ok(())
    }

    pub fn get_resistance(&self) -> (r: Rat)
        ensures
            match *self {
                ElectronicComponent::Resistor(res) => r == res.resistance,
            },
    {
        match self {
            ElectronicComponent::Resistor(res) => res.resistance,
        }
    }

    pub fn get_tension(&self) -> (r: Rat)
        ensures
            match *self {
                ElectronicComponent::Resistor(res) => r == res.tension_in_circuit,
            },
    {
        match self {
            ElectronicComponent::Resistor(res) => res.tension_in_circuit,
        }
    }

    /// Record the voltage dropped across the component.
    pub fn set_tension(&mut self, tension: Rat)
        ensures
            *final(self) == (match *old(self) {
                ElectronicComponent::Resistor(res) => ElectronicComponent::Resistor(
                    Resistor { resistance: res.resistance, tension_in_circuit: tension },
                ),
            }),
    {
        match self {
            ElectronicComponent::Resistor(res) => {
                res.tension_in_circuit = tension;
            },
        }
    }
}

impl SeriesElement {
    /// Wrap a component as a chain link.
    pub fn new(component: ElectronicComponent) -> (r: SeriesElement)
        ensures
            r == SeriesElement::Component(component),
    {
        SeriesElement::Component(component)
    }

    /// Build a parallel group; an empty group, an empty branch, or a branch
    /// holding a malformed subtree is rejected.
    pub fn new_parallel(parallel: Vec<Series>) -> (r: Result<SeriesElement, CircuitError>)
        ensures
            match r {
                Ok(e) => e == SeriesElement::Parallel(parallel) && elem_wf(elem_view(e)),
                Err(err) => !elem_wf(elem_view(SeriesElement::Parallel(parallel))) && err
                    == CircuitError::MalformedTopology,
            },
    {
        let e = SeriesElement::Parallel(parallel);
        if element_is_wf(&e) {
            Ok(e)
        } else {
            Err(CircuitError::MalformedTopology)
        }
    }
}

impl PowerSupply {
    pub fn new(voltage: Rat) -> (r: PowerSupply)
        requires
            voltage.wf(),
        ensures
            r.voltage == voltage,
            r.wf(),
    {
        PowerSupply { voltage }
    }

    pub open spec fn wf(self) -> bool {
        frac_wf(self.voltage@)
    }

    pub fn get_voltage(&self) -> (r: Rat)
        ensures
            r == self.voltage,
    {
        self.voltage
    }
}

} // verus!
