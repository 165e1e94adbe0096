//! The tension engine: distribute an applied voltage over every leaf.
//!
//! Under a voltage `V` across a chain of total resistance `R`, a leaf of
//! resistance `r` drops `V * r / R` (the voltage-divider law), and a
//! parallel group of equivalent resistance `p` sees the group voltage
//! `V * p / R`, which is applied identically to each of its branches. The
//! spec-level functions compute the assigned tree exactly as the executable
//! engine does, so the engine's result is pinned value for value, including
//! exactly when the computation fails for want of machine range.

use vstd::prelude::*;

use crate::rat::Frac;
use crate::rat::Rat;
use crate::rat::frac_div;
use crate::rat::frac_mul;
use crate::rat::frac_pos;
use crate::resistance::calculate_parallel_resistance;
use crate::resistance::calculate_total_resistance;
use crate::resistance::frac_check;
use crate::resistance::lemma_series_resistance_props;
use crate::resistance::parallel_resistance;
use crate::resistance::series_resistance;
use crate::topology::CircuitError;
use crate::topology::ElectronicComponent;
use crate::topology::ElemModel;
use crate::topology::Series;
use crate::topology::SeriesElement;
use crate::topology::branches_view;
use crate::topology::elem_view;
use crate::topology::elem_wf;
use crate::topology::lemma_branches_view_props;
use crate::topology::lemma_branches_wf_index;
use crate::topology::lemma_series_view_props;
use crate::topology::lemma_series_wf_index;
use crate::topology::series_view;
use crate::topology::series_wf;

verus! {

/// One element after the voltage across its chain has been distributed:
/// a leaf of resistance `r` under chain voltage `v` and chain resistance
/// `rt` drops `(v / rt) * r`; a parallel group of equivalent resistance `p`
/// sees the group voltage `(v * p) / rt`, applied to each branch alike.
pub open spec fn assign_elem(e: ElemModel, voltage: Frac, rt: Frac) -> Option<ElemModel>
    decreases e, 1int,
{
    match e {
        ElemModel::Res { resistance, tension } => match frac_check(frac_div(voltage, rt)) {
            None => None,
            Some(q) => match frac_check(frac_mul(q, resistance)) {
                None => None,
                Some(t) => Some(ElemModel::Res { resistance, tension: t }),
            },
        },
        ElemModel::Par { branches } => match parallel_resistance(branches) {
            None => None,
            Some(rp) => match frac_check(frac_mul(voltage, rp)) {
                None => None,
                Some(p) => match frac_check(frac_div(p, rt)) {
                    None => None,
                    Some(gv) => match assign_branches(branches, 0, gv) {
                        None => None,
                        Some(bs2) => Some(ElemModel::Par { branches: bs2 }),
                    },
                },
            },
        },
    }
}

/// Branches `j` onward, each assigned the same group voltage `gv`.
pub open spec fn assign_branches(branches: Seq<Seq<ElemModel>>, j: int, gv: Frac) -> Option<
    Seq<Seq<ElemModel>>,
>
    decreases branches, branches.len() - j,
{
    if !(0 <= j < branches.len()) {
        Some(branches)
    } else {
        match assign_series(branches[j], gv) {
            None => None,
            Some(b2) => match assign_branches(branches, j + 1, gv) {
                None => None,
                Some(rest) => Some(rest.update(j, b2)),
            },
        }
    }
}

/// A whole chain under an applied voltage: its total resistance, then each
/// element assigned in order. An empty chain is left as it is.
pub open spec fn assign_series(s: Seq<ElemModel>, voltage: Frac) -> Option<Seq<ElemModel>>
    decreases s, s.len() + 2,
{
    match series_resistance(s) {
        None => None,
        Some(rt) => assign_from(s, 0, voltage, rt),
    }
}

/// Elements `i` onward assigned under chain voltage `voltage` and chain
/// resistance `rt`.
pub open spec fn assign_from(s: Seq<ElemModel>, i: int, voltage: Frac, rt: Frac) -> Option<
    Seq<ElemModel>,
>
    decreases s, s.len() - i,
{
    if !(0 <= i < s.len()) {
        Some(s)
    } else {
        match assign_elem(s[i], voltage, rt) {
            None => None,
            Some(e2) => match assign_from(s, i + 1, voltage, rt) {
                None => None,
                Some(t) => Some(t.update(i, e2)),
            },
        }
    }
}

/// `assign_from` succeeds exactly when each remaining element does, keeps
/// the prefix, and assigns the rest element-wise.
pub proof fn lemma_assign_from_props(s: Seq<ElemModel>, i: int, voltage: Frac, rt: Frac)
    requires
        0 <= i <= s.len(),
    ensures
        assign_from(s, i, voltage, rt) is Some <==> (forall|k: int|
            i <= k < s.len() ==> (#[trigger] assign_elem(s[k], voltage, rt)) is Some),
        assign_from(s, i, voltage, rt) matches Some(t) ==> t.len() == s.len() && (forall|k: int|
            0 <= k < i ==> t[k] == s[k]) && (forall|k: int|
            i <= k < s.len() ==> #[trigger] assign_elem(s[k], voltage, rt) == Some(t[k])),
    decreases s.len() - i,
{
    if i < s.len() {
        lemma_assign_from_props(s, i + 1, voltage, rt);
        match assign_elem(s[i], voltage, rt) {
            None => {
                if forall|k: int|
                    i <= k < s.len() ==> (#[trigger] assign_elem(s[k], voltage, rt)) is Some {
                    assert(assign_elem(s[i], voltage, rt) is Some);
                }
            },
            Some(e2) => {
                match assign_from(s, i + 1, voltage, rt) {
                    None => {
                        if forall|k: int|
                            i <= k < s.len() ==> (#[trigger] assign_elem(
                                s[k],
                                voltage,
                                rt,
                            )) is Some {
                            assert(forall|k: int|
                                i + 1 <= k < s.len() ==> (#[trigger] assign_elem(
                                    s[k],
                                    voltage,
                                    rt,
                                )) is Some);
                        }
                    },
                    Some(t) => {
                        assert forall|k: int| i <= k < s.len() implies (#[trigger] assign_elem(
                            s[k],
                            voltage,
                            rt,
                        )) == Some(t.update(i, e2)[k]) by {
                            if k == i {
                                assert(t.update(i, e2)[k] == e2);
                            } else {
                                assert(t.update(i, e2)[k] == t[k]);
                            }
                        }
                    },
                }
            },
        }
    }
}

/// `assign_branches` succeeds exactly when each remaining branch does,
/// keeps the prefix, and assigns the rest branch-wise under the one group
/// voltage.
pub proof fn lemma_assign_branches_props(branches: Seq<Seq<ElemModel>>, j: int, gv: Frac)
    requires
        0 <= j <= branches.len(),
    ensures
        assign_branches(branches, j, gv) is Some <==> (forall|k: int|
            j <= k < branches.len() ==> (#[trigger] assign_series(branches[k], gv)) is Some),
        assign_branches(branches, j, gv) matches Some(t) ==> t.len() == branches.len() && (forall|
            k: int,
        |
            0 <= k < j ==> t[k] == branches[k]) && (forall|k: int|
            j <= k < branches.len() ==> #[trigger] assign_series(branches[k], gv) == Some(t[k])),
    decreases branches.len() - j,
{
    if j < branches.len() {
        lemma_assign_branches_props(branches, j + 1, gv);
        match assign_series(branches[j], gv) {
            None => {
                if forall|k: int|
                    j <= k < branches.len() ==> (#[trigger] assign_series(
                        branches[k],
                        gv,
                    )) is Some {
                    assert(assign_series(branches[j], gv) is Some);
                }
            },
            Some(b2) => {
                match assign_branches(branches, j + 1, gv) {
                    None => {
                        if forall|k: int|
                            j <= k < branches.len() ==> (#[trigger] assign_series(
                                branches[k],
                                gv,
                            )) is Some {
                            assert(forall|k: int|
                                j + 1 <= k < branches.len() ==> (#[trigger] assign_series(
                                    branches[k],
                                    gv,
                                )) is Some);
                        }
                    },
                    Some(t) => {
                        assert forall|k: int|
                            j <= k < branches.len() implies (#[trigger] assign_series(
                            branches[k],
                            gv,
                        )) == Some(t.update(j, b2)[k]) by {
                            if k == j {
                                assert(t.update(j, b2)[k] == b2);
                            } else {
                                assert(t.update(j, b2)[k] == t[k]);
                            }
                        }
                    },
                }
            },
        }
    }
}

/// Assignment never breaks well-formedness: resistances and the tree shape
/// are kept, and every assigned tension is representable.
pub proof fn lemma_assign_elem_preserves_wf(e: ElemModel, voltage: Frac, rt: Frac)
    requires
        elem_wf(e),
    ensures
        assign_elem(e, voltage, rt) matches Some(e2) ==> elem_wf(e2),
    decreases e, 2int,
{
    match e {
        ElemModel::Res { resistance, tension } => {},
        ElemModel::Par { branches } => {
            match assign_elem(e, voltage, rt) {
                None => {},
                Some(e2) => {
                    let gv = frac_div(frac_mul(voltage, parallel_resistance(branches)->0), rt);
                    lemma_assign_branches_props(branches, 0, gv);
                    lemma_branches_wf_index(branches);
                    match assign_branches(branches, 0, gv) {
                        None => {},
                        Some(bs2) => {
                            assert forall|k: int| 0 <= k < bs2.len() implies (#[trigger] bs2[
                            k]).len() >= 1 && series_wf(bs2[k]) by {
                                assert(assign_series(branches[k], gv) == Some(bs2[k]));
                                lemma_assign_series_preserves_wf(branches[k], gv);
                            }
                            lemma_branches_wf_index(bs2);
                        },
                    }
                },
            }
        },
    }
}

/// Assignment over a well-formed chain keeps the chain well formed and of
/// the same length.
pub proof fn lemma_assign_series_preserves_wf(s: Seq<ElemModel>, voltage: Frac)
    requires
        series_wf(s),
    ensures
        assign_series(s, voltage) matches Some(t) ==> series_wf(t) && t.len() == s.len(),
    decreases s, s.len() + 3,
{
    match series_resistance(s) {
        None => {},
        Some(rt) => {
            lemma_assign_from_props(s, 0, voltage, rt);
            lemma_series_wf_index(s);
            match assign_from(s, 0, voltage, rt) {
                None => {},
                Some(t) => {
                    assert forall|k: int| 0 <= k < t.len() implies elem_wf(#[trigger] t[k]) by {
                        assert(assign_elem(s[k], voltage, rt) == Some(t[k]));
                        lemma_assign_elem_preserves_wf(s[k], voltage, rt);
                    }
                    lemma_series_wf_index(t);
                },
            }
        },
    }
}

/// A chain after assignment, built afresh; `None` exactly when some exact
/// intermediate value does not fit the machine representation.
#[verifier::loop_isolation(false)]
pub fn assign_series_exec(s: &Series, voltage: &Rat) -> (r: Option<Series>)
    requires
        series_wf(series_view(s@)),
        voltage.wf(),
    ensures
        match r {
            Some(out) => assign_series(series_view(s@), voltage@) == Some(series_view(out@)),
            None => assign_series(series_view(s@), voltage@) is None,
        },
    decreases s@, 3int,
{
    let ghost m = series_view(s@);
    proof {
        lemma_series_view_props(s@);
        lemma_series_wf_index(m);
        lemma_series_resistance_props(m);
    }
    let rt_opt = calculate_total_resistance(s);
    let rt = match rt_opt {
        None => {
            return None;
        },
        Some(rt) => rt,
    };
    let mut out: Vec<SeriesElement> = Vec::new();
    let mut i: usize = 0;
    while i < s.len()
        invariant
            0 <= i <= s.len(),
            out@.len() == i as int,
            forall|k: int|
                0 <= k < i ==> assign_elem(m[k], voltage@, rt@) == Some(
                    elem_view(#[trigger] out@[k]),
                ),
        decreases s.len() - i,
    {
        let e2 = assign_element_exec(&s[i], voltage, &rt);
        match e2 {
            None => {
                proof {
                    lemma_assign_from_props(m, 0, voltage@, rt@);
                }
                return None;
            },
            Some(e2) => {
                out.push(e2);
            },
        }
        i = i + 1;
    }
    proof {
        lemma_assign_from_props(m, 0, voltage@, rt@);
        lemma_series_view_props(out@);
        assert forall|k: int| 0 <= k < m.len() implies (#[trigger] assign_elem(
            m[k],
            voltage@,
            rt@,
        )) is Some by {
            assert(assign_elem(m[k], voltage@, rt@) == Some(elem_view(out@[k])));
        }
        assert(assign_from(m, 0, voltage@, rt@) is Some);
        match assign_from(m, 0, voltage@, rt@) {
            Some(t) => {
                assert forall|k: int| 0 <= k < t.len() implies series_view(out@)[k] == t[k] by {
                    assert(assign_elem(m[k], voltage@, rt@) == Some(t[k]));
                    assert(assign_elem(m[k], voltage@, rt@) == Some(elem_view(out@[k])));
                }
                assert(series_view(out@) =~= t);
            },
            None => {},
        }
    }
    Some(out)
}

/// One element assigned under chain voltage `voltage` and positive chain
/// resistance `rt`.
#[verifier::loop_isolation(false)]
fn assign_element_exec(e: &SeriesElement, voltage: &Rat, rt: &Rat) -> (r: Option<SeriesElement>)
    requires
        elem_wf(elem_view(*e)),
        voltage.wf(),
        rt.wf(),
        frac_pos(rt@),
    ensures
        match r {
            Some(e2) => assign_elem(elem_view(*e), voltage@, rt@) == Some(elem_view(e2)),
            None => assign_elem(elem_view(*e), voltage@, rt@) is None,
        },
    decreases *e, 1int,
{
    match e {
        SeriesElement::Component(c) => {
            let q = match voltage.checked_div(rt) {
                None => {
                    return None;
                },
                Some(q) => q,
            };
            let t = match q.checked_mul(&c.get_resistance()) {
                None => {
                    return None;
                },
                Some(t) => t,
            };
            let mut c2 = *c;
            c2.set_tension(t);
            proof {
                match *c {
                    ElectronicComponent::Resistor(res) => {
                        assert(elem_view(*e) == (ElemModel::Res {
                            resistance: res.resistance@,
                            tension: res.tension_in_circuit@,
                        }));
                        assert(elem_view(SeriesElement::Component(c2)) == (ElemModel::Res {
                            resistance: res.resistance@,
                            tension: t@,
                        }));
                    },
                }
            }
            Some(SeriesElement::Component(c2))
        },
        SeriesElement::Parallel(bs) => {
            proof {
                assert((*e)->Parallel_0 == *bs);
                assert(decreases_to!(*e => *bs));
                assert(decreases_to!(*bs => bs@));
            }
            let ghost bm = branches_view(bs@);
            proof {
                lemma_branches_view_props(bs@);
                lemma_branches_wf_index(bm);
            }
            let rp = match calculate_parallel_resistance(bs) {
                None => {
                    return None;
                },
                Some(rp) => rp,
            };
            let p = match voltage.checked_mul(&rp) {
                None => {
                    return None;
                },
                Some(p) => p,
            };
            let gv = match p.checked_div(rt) {
                None => {
                    return None;
                },
                Some(gv) => gv,
            };
            let mut out: Vec<Series> = Vec::new();
            let mut j: usize = 0;
            while j < bs.len()
                invariant
                    0 <= j <= bs.len(),
                    out@.len() == j as int,
                    forall|k: int|
                        0 <= k < j ==> assign_series(bm[k], gv@) == Some(
                            series_view((#[trigger] out@[k])@),
                        ),
                decreases bs.len() - j,
            {
                proof {
                    assert(decreases_to!(bs@ => bs@[j as int]));
                    assert(decreases_to!(bs@[j as int] => bs@[j as int]@));
                }
                let b2 = assign_series_exec(&bs[j], &gv);
                match b2 {
                    None => {
                        proof {
                            lemma_assign_branches_props(bm, 0, gv@);
                        }
                        return None;
                    },
                    Some(b2) => {
                        out.push(b2);
                    },
                }
                j = j + 1;
            }
            proof {
                lemma_assign_branches_props(bm, 0, gv@);
                lemma_branches_view_props(out@);
                assert forall|k: int| 0 <= k < bm.len() implies (#[trigger] assign_series(
                    bm[k],
                    gv@,
                )) is Some by {
                    assert(assign_series(bm[k], gv@) == Some(series_view(out@[k]@)));
                }
                assert(assign_branches(bm, 0, gv@) is Some);
                match assign_branches(bm, 0, gv@) {
                    Some(t) => {
                        assert forall|k: int|
                            0 <= k < t.len() implies branches_view(out@)[k] == t[k] by {
                            assert(assign_series(bm[k], gv@) == Some(t[k]));
                            assert(assign_series(bm[k], gv@) == Some(series_view(out@[k]@)));
                        }
                        assert(branches_view(out@) =~= t);
                    },
                    None => {},
                }
            }
            Some(SeriesElement::Parallel(out))
        },
    }
}

/// Distribute the supply voltage over every leaf of the chain, in place.
/// On failure the chain is left unchanged.
pub fn set_tensions_in_circuit(elements: &mut Series, voltage: Rat) -> (r: Result<
    (),
    CircuitError,
>)
    requires
        series_wf(series_view(old(elements)@)),
        voltage.wf(),
    ensures
        match r {
            Ok(()) => assign_series(series_view(old(elements)@), voltage@) == Some(
                series_view(final (elements)@),
            ),
            Err(e) => e == CircuitError::ArithmeticOverflow && *final (elements) == *old(elements)
                && assign_series(series_view(old(elements)@), voltage@) is None,
        },
{
    match assign_series_exec(elements, &voltage) {
        Some(out) => {
            *elements = out;
            Ok(())
        },
        None => Err(CircuitError::ArithmeticOverflow),
    }
}

} // verus!
