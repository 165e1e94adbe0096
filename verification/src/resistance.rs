//! The resistance engine: reduce a series/parallel tree to its equivalent
//! resistance.
//!
//! A series chain adds its elements' resistances; a parallel group combines
//! its branches by the reciprocal of the sum of reciprocals. The spec-level
//! functions fold over the model exactly as the executable engine folds over
//! the tree, so the engine's result is pinned value for value, including
//! exactly when the fold fails for want of machine range.

use vstd::prelude::*;

use crate::rat::Frac;
use crate::rat::Rat;
use crate::rat::frac_add;
use crate::rat::frac_fits;
use crate::rat::frac_nonneg;
use crate::rat::frac_pos;
use crate::rat::frac_recip;
use crate::rat::frac_wf;
use crate::rat::frac_zero;
use crate::rat::lemma_frac_add_props;
use crate::rat::lemma_frac_recip_props;
use crate::topology::ElemModel;
use crate::topology::Series;
use crate::topology::SeriesElement;
use crate::topology::branches_view;
use crate::topology::branches_wf;
use crate::topology::elem_view;
use crate::topology::elem_wf;
use crate::topology::lemma_branches_view_props;
use crate::topology::lemma_branches_wf_index;
use crate::topology::lemma_series_view_props;
use crate::topology::lemma_series_wf_index;
use crate::topology::series_view;
use crate::topology::series_wf;

verus! {

/// The fraction itself when it is representable, nothing otherwise.
pub open spec fn frac_check(f: Frac) -> Option<Frac> {
    if frac_fits(f) {
        Some(f)
    } else {
        None
    }
}

/// Resistance contributed by one element: a leaf's own resistance, or the
/// parallel combination of a group's branches.
pub open spec fn elem_resistance(e: ElemModel) -> Option<Frac>
    decreases e, 0int,
{
    match e {
        ElemModel::Res { resistance, tension } => Some(resistance),
        ElemModel::Par { branches } => parallel_resistance(branches),
    }
}

/// Equivalent resistance of a parallel group: the reciprocal of the sum of
/// the branch resistances' reciprocals.
pub open spec fn parallel_resistance(branches: Seq<Seq<ElemModel>>) -> Option<Frac>
    decreases branches, branches.len() + 1,
{
    match recip_sum_from(branches, 0, frac_zero()) {
        Some(sum) => Some(frac_recip(sum)),
        None => None,
    }
}

/// Fold of the reciprocals of the branch resistances from branch `j` on,
/// starting from `acc`.
pub open spec fn recip_sum_from(branches: Seq<Seq<ElemModel>>, j: int, acc: Frac) -> Option<Frac>
    decreases branches, branches.len() - j,
{
    if !(0 <= j < branches.len()) {
        Some(acc)
    } else {
        match series_resistance(branches[j]) {
            None => None,
            Some(r) => match frac_check(frac_add(acc, frac_recip(r))) {
                None => None,
                Some(acc2) => recip_sum_from(branches, j + 1, acc2),
            },
        }
    }
}

/// Equivalent resistance of a series chain: the sum of its elements'
/// resistances; `0` for an empty chain.
pub open spec fn series_resistance(s: Seq<ElemModel>) -> Option<Frac>
    decreases s, s.len() + 1,
{
    series_resistance_from(s, 0, frac_zero())
}

/// Fold of the element resistances from position `i` on, starting from
/// `acc`.
pub open spec fn series_resistance_from(s: Seq<ElemModel>, i: int, acc: Frac) -> Option<Frac>
    decreases s, s.len() - i,
{
    if !(0 <= i < s.len()) {
        Some(acc)
    } else {
        match elem_resistance(s[i]) {
            None => None,
            Some(r) => match frac_check(frac_add(acc, r)) {
                None => None,
                Some(acc2) => series_resistance_from(s, i + 1, acc2),
            },
        }
    }
}

/// The resistance of a well-formed element is well formed and positive.
pub proof fn lemma_elem_resistance_props(e: ElemModel)
    requires
        elem_wf(e),
    ensures
        elem_resistance(e) matches Some(f) ==> frac_wf(f) && frac_pos(f),
    decreases e, 0int,
{
    match e {
        ElemModel::Res { resistance, tension } => {},
        ElemModel::Par { branches } => {
            lemma_branches_wf_index(branches);
            lemma_recip_sum_props(branches, 0, frac_zero());
            match recip_sum_from(branches, 0, frac_zero()) {
                Some(sum) => {
                    lemma_frac_recip_props(sum);
                },
                None => {},
            }
        },
    }
}

/// The reciprocal fold over well-formed non-empty branches stays well
/// formed, and is positive once a branch or a positive start went in.
pub proof fn lemma_recip_sum_props(branches: Seq<Seq<ElemModel>>, j: int, acc: Frac)
    requires
        0 <= j <= branches.len(),
        frac_wf(acc),
        frac_nonneg(acc),
        forall|k: int|
            j <= k < branches.len() ==> (#[trigger] branches[k]).len() >= 1 && series_wf(
                branches[k],
            ),
    ensures
        recip_sum_from(branches, j, acc) matches Some(f) ==> frac_wf(f) && frac_nonneg(f) && ((
        frac_pos(acc) || j < branches.len()) ==> frac_pos(f)),
    decreases branches, branches.len() - j,
{
    if j < branches.len() {
        lemma_series_resistance_props(branches[j]);
        match series_resistance(branches[j]) {
            None => {},
            Some(r) => {
                lemma_frac_recip_props(r);
                lemma_frac_add_props(acc, frac_recip(r));
                match frac_check(frac_add(acc, frac_recip(r))) {
                    None => {},
                    Some(acc2) => {
                        lemma_recip_sum_props(branches, j + 1, acc2);
                    },
                }
            },
        }
    }
}

/// The resistance of a well-formed chain is well formed, non-negative, and
/// positive when the chain is non-empty; an empty chain has resistance `0`.
pub proof fn lemma_series_resistance_props(s: Seq<ElemModel>)
    requires
        series_wf(s),
    ensures
        series_resistance(s) matches Some(f) ==> frac_wf(f) && frac_nonneg(f) && frac_fits(f) && (
        s.len() >= 1 ==> frac_pos(f)),
        s.len() == 0 ==> series_resistance(s) == Some(frac_zero()),
    decreases s, s.len() + 1,
{
    lemma_series_wf_index(s);
    lemma_series_resistance_from_props(s, 0, frac_zero());
}

/// The element fold over well-formed elements stays well formed, and is
/// positive once an element or a positive start went in.
pub proof fn lemma_series_resistance_from_props(s: Seq<ElemModel>, i: int, acc: Frac)
    requires
        0 <= i <= s.len(),
        frac_wf(acc),
        frac_nonneg(acc),
        forall|k: int| i <= k < s.len() ==> elem_wf(#[trigger] s[k]),
    ensures
        series_resistance_from(s, i, acc) matches Some(f) ==> frac_wf(f) && frac_nonneg(f) && ((
        frac_pos(acc) || i < s.len()) ==> frac_pos(f)) && (frac_fits(acc) ==> frac_fits(f)),
    decreases s, s.len() - i,
{
    if i < s.len() {
        lemma_elem_resistance_props(s[i]);
        match elem_resistance(s[i]) {
            None => {},
            Some(r) => {
                lemma_frac_add_props(acc, r);
                match frac_check(frac_add(acc, r)) {
                    None => {},
                    Some(acc2) => {
                        lemma_series_resistance_from_props(s, i + 1, acc2);
                    },
                }
            },
        }
    }
}

/// Equivalent resistance of a whole chain; `None` exactly when some exact
/// intermediate value does not fit the machine representation.
#[verifier::loop_isolation(false)]
pub fn calculate_total_resistance(elements: &Series) -> (r: Option<Rat>)
    requires
        series_wf(series_view(elements@)),
    ensures
        match r {
            Some(q) => q.wf() && series_resistance(series_view(elements@)) == Some(q@),
            None => series_resistance(series_view(elements@)) is None,
        },
    decreases elements@, 2int,
{
    let ghost m = series_view(elements@);
    proof {
        lemma_series_view_props(elements@);
        lemma_series_wf_index(m);
    }
    let mut acc = Rat::zero();
    let mut i: usize = 0;
    while i < elements.len()
        invariant
            0 <= i <= elements.len(),
            acc.wf(),
            series_resistance_from(m, i as int, acc@) == series_resistance_from(
                m,
                0,
                frac_zero(),
            ),
        decreases elements.len() - i,
    {
        let ev = element_resistance(&elements[i]);
        match ev {
            None => {
                return None;
            },
            Some(r) => {
                match acc.checked_add(&r) {
                    None => {
                        return None;
                    },
                    Some(acc2) => {
                        acc = acc2;
                        i = i + 1;
                    },
                }
            },
        }
    }
    Some(acc)
}

/// Resistance contributed by one element of a chain.
#[verifier::loop_isolation(false)]
fn element_resistance(e: &SeriesElement) -> (r: Option<Rat>)
    requires
        elem_wf(elem_view(*e)),
    ensures
        match r {
            Some(q) => q.wf() && elem_resistance(elem_view(*e)) == Some(q@),
            None => elem_resistance(elem_view(*e)) is None,
        },
    decreases *e, 1int,
{
    match e {
        SeriesElement::Component(c) => Some(c.get_resistance()),
        SeriesElement::Parallel(bs) => {
            proof {
                assert((*e)->Parallel_0 == *bs);
                assert(decreases_to!(*e => *bs));
                assert(decreases_to!(*bs => bs@));
            }
            calculate_parallel_resistance(bs)
        },
    }
}

/// Equivalent resistance of a parallel group; `None` exactly when some
/// exact intermediate value does not fit the machine representation.
#[verifier::loop_isolation(false)]
pub fn calculate_parallel_resistance(branches: &Vec<Series>) -> (r: Option<Rat>)
    requires
        branches_view(branches@).len() >= 1,
        branches_wf(branches_view(branches@)),
    ensures
        match r {
            Some(q) => q.wf() && parallel_resistance(branches_view(branches@)) == Some(q@),
            None => parallel_resistance(branches_view(branches@)) is None,
        },
    decreases branches@, 0int,
{
    let ghost bm = branches_view(branches@);
    proof {
        lemma_branches_view_props(branches@);
        lemma_branches_wf_index(bm);
    }
    let mut acc = Rat::zero();
    let mut j: usize = 0;
    while j < branches.len()
        invariant
            0 <= j <= branches.len(),
            acc.wf(),
            j >= 1 ==> frac_pos(acc@),
            j == 0 ==> acc@ == frac_zero(),
            recip_sum_from(bm, j as int, acc@) == recip_sum_from(bm, 0, frac_zero()),
        decreases branches.len() - j,
    {
        proof {
            assert(decreases_to!(branches@ => branches@[j as int]));
            assert(decreases_to!(branches@[j as int] => branches@[j as int]@));
        }
        let bt = calculate_total_resistance(&branches[j]);
        match bt {
            None => {
                return None;
            },
            Some(r) => {
                proof {
                    lemma_series_resistance_props(bm[j as int]);
                }
                let rec = r.recip();
                proof {
                    lemma_frac_add_props(acc@, rec@);
                }
                match acc.checked_add(&rec) {
                    None => {
                        return None;
                    },
                    Some(acc2) => {
                        acc = acc2;
                        j = j + 1;
                    },
                }
            },
        }
    }
    proof {
        lemma_recip_sum_props(bm, 0, frac_zero());
    }
    Some(acc.recip())
}

} // verus!
