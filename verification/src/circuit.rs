//! The circuit aggregate: a power supply, a topology, and the cached
//! current.
//!
//! The aggregate owns its tree exclusively. Malformed trees are rejected
//! when the aggregate is built or a topology is installed. Edits through
//! [`Circuit::set_component_resistance`] deliberately do not recompute the
//! derived values, so bulk edits can be batched; [`Circuit::update`]
//! restores consistency and must run before the drops or the current are
//! read again.

use vstd::prelude::*;

use crate::rat::Frac;
use crate::rat::Rat;
use crate::rat::frac_div;
use crate::rat::frac_pos;
use crate::rat::frac_wf;
use crate::rat::frac_zero;
use crate::resistance::calculate_total_resistance;
use crate::resistance::frac_check;
use crate::resistance::lemma_series_resistance_props;
use crate::resistance::series_resistance;
use crate::tension::assign_series;
use crate::tension::lemma_assign_series_preserves_wf;
use crate::tension::set_tensions_in_circuit;
use crate::topology::CircuitError;
use crate::topology::ElectronicComponent;
use crate::topology::ElemModel;
use crate::topology::PowerSupply;
use crate::topology::Resistor;
use crate::topology::Series;
use crate::topology::SeriesElement;
use crate::topology::elem_view;
use crate::topology::elem_wf;
use crate::topology::lemma_branches_wf_index;
use crate::topology::lemma_series_view_props;
use crate::topology::lemma_series_wf_index;
use crate::topology::series_is_wf;
use crate::topology::series_view;
use crate::topology::series_wf;

verus! {

/// The circuit aggregate: one supply, one topology tree, and the current
/// computed at the last [`Circuit::update`].
pub struct Circuit {
    pub power_supply: PowerSupply,
    pub intensity: Rat,
    pub circuit: Series,
}

/// Current delivered by a supply of voltage `voltage` into a chain:
/// `voltage` over the total resistance, and `0` for an empty (no-load)
/// chain rather than a division by zero.
pub open spec fn current_of(voltage: Frac, m: Seq<ElemModel>) -> Option<Frac> {
    match series_resistance(m) {
        None => None,
        Some(rt) => if rt.num == 0 {
            Some(frac_zero())
        } else {
            frac_check(frac_div(voltage, rt))
        },
    }
}

/// One full re-evaluation: every leaf's drop under the supply voltage,
/// then the delivered current read from the refreshed tree.
pub open spec fn update_model(voltage: Frac, m: Seq<ElemModel>) -> Option<(Seq<ElemModel>, Frac)> {
    match assign_series(m, voltage) {
        None => None,
        Some(t) => match current_of(voltage, t) {
            None => None,
            Some(cur) => Some((t, cur)),
        },
    }
}

/// Replace the resistance of the leaf reached by following `path` from
/// position `k`: within a chain, the next index selects an element.
pub open spec fn edit_series(m: Seq<ElemModel>, path: Seq<usize>, k: int, value: Frac) -> Option<
    Seq<ElemModel>,
>
    decreases path.len() - k,
{
    if !(0 <= k < path.len()) {
        None
    } else {
        let i = path[k] as int;
        if !(i < m.len()) {
            None
        } else {
            match edit_elem(m[i], path, k + 1, value) {
                None => None,
                Some(e2) => Some(m.update(i, e2)),
            }
        }
    }
}

/// Replace the resistance of the leaf reached by following `path` from
/// position `k` within one element: a leaf must end the path; within a
/// parallel group, the next index selects a branch.
pub open spec fn edit_elem(e: ElemModel, path: Seq<usize>, k: int, value: Frac) -> Option<ElemModel>
    decreases path.len() - k,
{
    match e {
        ElemModel::Res { resistance, tension } => if k == path.len() {
            Some(ElemModel::Res { resistance: value, tension })
        } else {
            None
        },
        ElemModel::Par { branches } => if !(0 <= k < path.len()) {
            None
        } else {
            let j = path[k] as int;
            if !(j < branches.len()) {
                None
            } else {
                match edit_series(branches[j], path, k + 1, value) {
                    None => None,
                    Some(b2) => Some(ElemModel::Par { branches: branches.update(j, b2) }),
                }
            }
        },
    }
}

/// A successful edit with a positive value keeps the chain well formed and
/// of the same length.
pub proof fn lemma_edit_series_preserves_wf(m: Seq<ElemModel>, path: Seq<usize>, k: int, value: Frac)
    requires
        series_wf(m),
        frac_wf(value),
        frac_pos(value),
    ensures
        edit_series(m, path, k, value) matches Some(t) ==> series_wf(t) && t.len() == m.len(),
    decreases path.len() - k,
{
    if 0 <= k < path.len() {
        let i = path[k] as int;
        if i < m.len() {
            lemma_series_wf_index(m);
            lemma_edit_elem_preserves_wf(m[i], path, k + 1, value);
            match edit_elem(m[i], path, k + 1, value) {
                None => {},
                Some(e2) => {
                    let t = m.update(i, e2);
                    assert forall|x: int| 0 <= x < t.len() implies elem_wf(#[trigger] t[x]) by {
                        if x != i {
                            assert(t[x] == m[x]);
                        }
                    }
                    lemma_series_wf_index(t);
                },
            }
        }
    }
}

/// A successful edit with a positive value keeps the element well formed.
pub proof fn lemma_edit_elem_preserves_wf(e: ElemModel, path: Seq<usize>, k: int, value: Frac)
    requires
        elem_wf(e),
        frac_wf(value),
        frac_pos(value),
    ensures
        edit_elem(e, path, k, value) matches Some(e2) ==> elem_wf(e2),
    decreases path.len() - k,
{
    match e {
        ElemModel::Res { resistance, tension } => {},
        ElemModel::Par { branches } => {
            if 0 <= k < path.len() {
                let j = path[k] as int;
                if j < branches.len() {
                    lemma_branches_wf_index(branches);
                    lemma_edit_series_preserves_wf(branches[j], path, k + 1, value);
                    match edit_series(branches[j], path, k + 1, value) {
                        None => {},
                        Some(b2) => {
                            let bs2 = branches.update(j, b2);
                            assert forall|x: int|
                                0 <= x < bs2.len() implies (#[trigger] bs2[x]).len() >= 1
                                && series_wf(bs2[x]) by {
                                if x != j {
                                    assert(bs2[x] == branches[x]);
                                }
                            }
                            lemma_branches_wf_index(bs2);
                        },
                    }
                }
            }
        },
    }
}

/// The edit performed in place; on failure the chain denotes what it did
/// before.
fn edit_series_exec(s: &mut Series, path: &Vec<usize>, k: usize, value: Rat) -> (r: Result<
    (),
    CircuitError,
>)
    requires
        k <= path@.len(),
        value.wf(),
        frac_pos(value@),
    ensures
        match r {
            Ok(()) => edit_series(series_view(old(s)@), path@, k as int, value@) == Some(
                series_view(final (s)@),
            ),
            Err(e) => e == CircuitError::InvalidPath && series_view(final (s)@) == series_view(
                old(s)@,
            ) && edit_series(series_view(old(s)@), path@, k as int, value@) is None,
        },
    decreases path@.len() - k,
{
    proof {
        lemma_series_view_props(s@);
    }
    let ghost m = series_view(old(s)@);
    if k >= path.len() {
        return Err(CircuitError::InvalidPath);
    }
    let i = path[k];
    if i >= s.len() {
        return Err(CircuitError::InvalidPath);
    }
    let elem = s.remove(i);
    match elem {
        SeriesElement::Component(c) => {
            if k + 1 == path.len() {
                let c2 = match c {
                    ElectronicComponent::Resistor(res) => ElectronicComponent::Resistor(
                        Resistor { resistance: value, tension_in_circuit: res.tension_in_circuit },
                    ),
                };
                s.insert(i, SeriesElement::Component(c2));
                proof {
                    lemma_series_view_props(s@);
                    let t = m.update(i as int, elem_view(SeriesElement::Component(c2)));
                    assert(s@ =~= old(s)@.update(i as int, SeriesElement::Component(c2)));
                    assert forall|x: int| 0 <= x < t.len() implies series_view(s@)[x] == t[x] by {
                        assert(series_view(s@)[x] == elem_view(s@[x]));
                        if x != i {
                            assert(s@[x] == old(s)@[x]);
                            assert(m[x] == elem_view(old(s)@[x]));
                        } else {
                            assert(s@[x] == SeriesElement::Component(c2));
                        }
                    }
                    assert(series_view(s@) =~= t);
                }
                Ok(())
            } else {
                s.insert(i, SeriesElement::Component(c));
                proof {
                    assert(s@ =~= old(s)@);
                }
                Err(CircuitError::InvalidPath)
            }
        },
        SeriesElement::Parallel(bs) => {
            let mut bs = bs;
            if k + 1 >= path.len() {
                s.insert(i, SeriesElement::Parallel(bs));
                proof {
                    assert(s@ =~= old(s)@);
                }
                return Err(CircuitError::InvalidPath);
            }
            let j = path[k + 1];
            if j >= bs.len() {
                proof {
                    crate::topology::lemma_branches_view_props(bs@);
                }
                s.insert(i, SeriesElement::Parallel(bs));
                proof {
                    assert(s@ =~= old(s)@);
                }
                return Err(CircuitError::InvalidPath);
            }
            let ghost bs0 = bs@;
            let mut branch = bs.remove(j);
            let res = edit_series_exec(&mut branch, path, k + 2, value);
            bs.insert(j, branch);
            s.insert(i, SeriesElement::Parallel(bs));
            proof {
                crate::topology::lemma_branches_view_props(bs0);
                crate::topology::lemma_branches_view_props(bs@);
                lemma_series_view_props(s@);
                assert(bs@ =~= bs0.update(j as int, branch));
                assert(s@ =~= old(s)@.update(i as int, s@[i as int]));
            }
            let ghost bm0 = crate::topology::branches_view(bs0);
            let ghost b2 = series_view(branch@);
            proof {
                assert forall|x: int|
                    0 <= x < bs@.len() implies crate::topology::branches_view(bs@)[x]
                    == bm0.update(j as int, b2)[x] by {
                    assert(crate::topology::branches_view(bs@)[x] == series_view(bs@[x]@));
                    if x != j {
                        assert(bs@[x] == bs0[x]);
                        assert(bm0[x] == series_view(bs0[x]@));
                    } else {
                        assert(bs@[x] == branch);
                    }
                }
                assert(crate::topology::branches_view(bs@) =~= bm0.update(j as int, b2));
                assert(elem_view(s@[i as int]) == (ElemModel::Par {
                    branches: bm0.update(j as int, b2),
                }));
                assert(m[i as int] == elem_view(old(s)@[i as int]));
                assert(elem_view(old(s)@[i as int]) == (ElemModel::Par { branches: bm0 }));
            }
            match res {
                Ok(()) => {
                    proof {
                        let e2 = ElemModel::Par { branches: bm0.update(j as int, b2) };
                        let t = m.update(i as int, e2);
                        assert forall|x: int|
                            0 <= x < t.len() implies series_view(s@)[x] == t[x] by {
                            assert(series_view(s@)[x] == elem_view(s@[x]));
                            if x != i {
                                assert(s@[x] == old(s)@[x]);
                                assert(m[x] == elem_view(old(s)@[x]));
                            }
                        }
                        assert(series_view(s@) =~= t);
                    }
                    Ok(())
                },
                Err(e) => {
                    proof {
                        assert(b2 == series_view(bs0[j as int]@));
                        assert(bm0.update(j as int, b2) =~= bm0);
                        assert forall|x: int|
                            0 <= x < m.len() implies series_view(s@)[x] == m[x] by {
                            assert(series_view(s@)[x] == elem_view(s@[x]));
                            if x != i {
                                assert(s@[x] == old(s)@[x]);
                                assert(m[x] == elem_view(old(s)@[x]));
                            }
                        }
                        assert(series_view(s@) =~= m);
                    }
                    Err(e)
                },
            }
        },
    }
}

impl Circuit {
    /// The spec-level mirror of the owned topology.
    pub open spec fn topology_model(self) -> Seq<ElemModel> {
        series_view(self.circuit@)
    }

    /// A reachable aggregate: well-formed supply, cached current, and tree.
    pub open spec fn wf(self) -> bool {
        self.power_supply.wf() && frac_wf(self.intensity@) && series_wf(self.topology_model())
    }

    /// Build an aggregate and bring its derived values up to date at once.
    /// A malformed tree is rejected; so is one whose exact evaluation does
    /// not fit the machine representation.
    pub fn new(power_supply: PowerSupply, circuit: Series) -> (r: Result<Circuit, CircuitError>)
        requires
            power_supply.wf(),
        ensures
            match r {
                Ok(c) => series_wf(series_view(circuit@)) && update_model(
                    power_supply.voltage@,
                    series_view(circuit@),
                ) == Some((c.topology_model(), c.intensity@)) && c.power_supply == power_supply
                    && c.wf(),
                Err(e) => (e == CircuitError::MalformedTopology && !series_wf(
                    series_view(circuit@),
                )) || (e == CircuitError::ArithmeticOverflow && series_wf(series_view(circuit@))
                    && update_model(power_supply.voltage@, series_view(circuit@)) is None),
            },
    {
        if !series_is_wf(&circuit) {
            return Err(CircuitError::MalformedTopology);
        }
        let mut c = Circuit { power_supply, intensity: Rat::zero(), circuit };
        match c.update() {
            Ok(()) => Ok(c),
            Err(e) => Err(e),
        }
    }

    /// Refresh every leaf's drop, then the delivered current. On failure
    /// an error is returned and the drops that were already refreshed
    /// stay; the supply is never touched.
    pub fn update(&mut self) -> (r: Result<(), CircuitError>)
        requires
            old(self).wf(),
        ensures
            match r {
                Ok(()) => update_model(
                    old(self).power_supply.voltage@,
                    old(self).topology_model(),
                ) == Some((final (self).topology_model(), final (self).intensity@)) && final (
                self).power_supply == old(self).power_supply && final (self).wf(),
                Err(e) => e == CircuitError::ArithmeticOverflow && final (self).power_supply == old(
                    self,
                ).power_supply && update_model(
                    old(self).power_supply.voltage@,
                    old(self).topology_model(),
                ) is None && (match assign_series(
                    old(self).topology_model(),
                    old(self).power_supply.voltage@,
                ) {
                    None => *final (self) == *old(self),
                    Some(t) => final (self).topology_model() == t && final (self).intensity == old(
                        self,
                    ).intensity && final (self).wf(),
                }),
            },
    {
        match self.update_tensions() {
            Err(e) => Err(e),
            Ok(()) => match self.update_intensity() {
                Ok(_i) => Ok(()),
                Err(e) => Err(e),
            },
        }
    }

    /// Distribute the supply voltage over every leaf of the topology.
    pub fn update_tensions(&mut self) -> (r: Result<(), CircuitError>)
        requires
            old(self).wf(),
        ensures
            match r {
                Ok(()) => assign_series(
                    old(self).topology_model(),
                    old(self).power_supply.voltage@,
                ) == Some(final (self).topology_model()) && final (self).power_supply == old(
                    self,
                ).power_supply && final (self).intensity == old(self).intensity && final (
                self).wf(),
                Err(e) => e == CircuitError::ArithmeticOverflow && *final (self) == *old(self)
                    && assign_series(
                    old(self).topology_model(),
                    old(self).power_supply.voltage@,
                ) is None,
            },
    {
        let voltage = self.power_supply.get_voltage();
        proof {
            lemma_assign_series_preserves_wf(series_view(self.circuit@), voltage@);
        }
        set_tensions_in_circuit(&mut self.circuit, voltage)
    }

    /// Recompute the delivered current from the topology as it stands and
    /// cache it.
    pub fn update_intensity(&mut self) -> (r: Result<Rat, CircuitError>)
        requires
            old(self).wf(),
        ensures
            match r {
                Ok(i) => current_of(old(self).power_supply.voltage@, old(self).topology_model())
                    == Some(i@) && final (self).power_supply == old(self).power_supply && final (
                self).circuit@ == old(self).circuit@ && final (self).intensity == i && final (
                self).wf(),
                Err(e) => e == CircuitError::ArithmeticOverflow && *final (self) == *old(self)
                    && current_of(
                    old(self).power_supply.voltage@,
                    old(self).topology_model(),
                ) is None,
            },
    {
        match calculate_current(self) {
            Some(i) => {
                self.intensity = i;
                Ok(i)
            },
            None => Err(CircuitError::ArithmeticOverflow),
        }
    }

    pub fn get_intensity(&self) -> (r: Rat)
        ensures
            r == self.intensity,
    {
        self.intensity
    }

    pub fn get_series(&self) -> (r: &Series)
        ensures
            r@ == self.circuit@,
    {
        &self.circuit
    }

    pub fn get_power_supply(&self) -> (r: &PowerSupply)
        ensures
            *r == self.power_supply,
    {
        &self.power_supply
    }

    /// Install a different topology and bring the derived values up to
    /// date at once, as if the aggregate had been built afresh; on
    /// failure the aggregate is left unchanged.
    pub fn replace_topology(&mut self, new_series: Series) -> (r: Result<(), CircuitError>)
        requires
            old(self).wf(),
        ensures
            match r {
                Ok(()) => series_wf(series_view(new_series@)) && update_model(
                    old(self).power_supply.voltage@,
                    series_view(new_series@),
                ) == Some((final (self).topology_model(), final (self).intensity@)) && final (
                self).power_supply == old(self).power_supply && final (self).wf(),
                Err(e) => *final (self) == *old(self) && ((e == CircuitError::MalformedTopology
                    && !series_wf(series_view(new_series@))) || (e
                    == CircuitError::ArithmeticOverflow && series_wf(series_view(new_series@))
                    && update_model(
                    old(self).power_supply.voltage@,
                    series_view(new_series@),
                ) is None)),
            },
    {
        if !series_is_wf(&new_series) {
            return Err(CircuitError::MalformedTopology);
        }
        let mut cand = Circuit {
            power_supply: self.power_supply,
            intensity: self.intensity,
            circuit: new_series,
        };
        match cand.update() {
            Ok(()) => {
                *self = cand;
                Ok(())
            },
            Err(e) => Err(e),
        }
    }

    /// Replace the resistance of one leaf, reached by an index path that
    /// alternates element and branch selections. The derived values are
    /// deliberately not recomputed: call [`Circuit::update`] after a batch
    /// of edits.
    pub fn set_component_resistance(&mut self, path: &Vec<usize>, new_value: Rat) -> (r: Result<
        (),
        CircuitError,
    >)
        requires
            old(self).wf(),
            new_value.wf(),
        ensures
            match r {
                Ok(()) => frac_pos(new_value@) && edit_series(
                    old(self).topology_model(),
                    path@,
                    0,
                    new_value@,
                ) == Some(final (self).topology_model()) && final (self).power_supply == old(
                    self,
                ).power_supply && final (self).intensity == old(self).intensity && final (
                self).wf(),
                Err(e) => final (self).topology_model() == old(self).topology_model() && final (
                self).power_supply
                    == old(self).power_supply && final (self).intensity == old(self).intensity && ((
                e == CircuitError::NonPositiveResistance && !frac_pos(new_value@)) || (e
                    == CircuitError::InvalidPath && frac_pos(new_value@) && edit_series(
                    old(self).topology_model(),
                    path@,
                    0,
                    new_value@,
                ) is None)),
            },
    {
        if !new_value.is_positive() {
            return Err(CircuitError::NonPositiveResistance);
        }
        proof {
            lemma_edit_series_preserves_wf(series_view(self.circuit@), path@, 0, new_value@);
        }
        match edit_series_exec(&mut self.circuit, path, 0, new_value) {
            Ok(()) => Ok(()),
            Err(e) => Err(e),
        }
    }
}

/// Current delivered by the supply into the topology as it stands; `0` for
/// an empty topology, `None` exactly when the exact value does not fit the
/// machine representation.
pub fn calculate_current(circuit: &Circuit) -> (r: Option<Rat>)
    requires
        circuit.wf(),
    ensures
        match r {
            Some(q) => q.wf() && current_of(circuit.power_supply.voltage@, circuit.topology_model())
                == Some(q@),
            None => current_of(circuit.power_supply.voltage@, circuit.topology_model()) is None,
        },
{
    proof {
        lemma_series_resistance_props(circuit.topology_model());
    }
    match calculate_total_resistance(&circuit.circuit) {
        None => None,
        Some(rt) => {
            if rt.is_zero() {
                Some(Rat::zero())
            } else {
                circuit.power_supply.get_voltage().checked_div(&rt)
            }
        },
    }
}

} // verus!
