//! The laws of the model, stated and proved once and for all.
//!
//! The central device is [`strip_series`], which erases every cached drop
//! from a tree. Evaluation reads only the shape and the resistances, so it
//! cannot tell a tree from its stripped form; and assignment writes every
//! leaf, so it cannot leak a stale drop into its result. Together these
//! give idempotence of a full re-evaluation and the round-trip law for
//! persisted circuits.

use vstd::prelude::*;

use crate::circuit::update_model;
use crate::rat::Frac;
use crate::rat::frac_add;
use crate::rat::frac_div;
use crate::rat::frac_eq;
use crate::rat::frac_fits;
use crate::rat::frac_mul;
use crate::rat::frac_recip;
use crate::rat::frac_wf;
use crate::rat::frac_zero;
use crate::rat::lemma_frac_add_assoc;
use crate::rat::lemma_frac_add_congr;
use crate::rat::lemma_frac_add_props;
use crate::rat::lemma_frac_add_zero;
use crate::rat::lemma_frac_div_mul_cancel;
use crate::rat::lemma_frac_div_props;
use crate::rat::lemma_frac_eq_trans;
use crate::rat::lemma_frac_mul_distrib;
use crate::rat::lemma_frac_mul_props;
use crate::rat::lemma_frac_recip_props;
use crate::resistance::elem_resistance;
use crate::resistance::frac_check;
use crate::resistance::lemma_series_resistance_props;
use crate::resistance::parallel_resistance;
use crate::resistance::recip_sum_from;
use crate::resistance::series_resistance;
use crate::resistance::series_resistance_from;
use crate::tension::assign_branches;
use crate::tension::assign_elem;
use crate::tension::assign_from;
use crate::tension::assign_series;
use crate::tension::lemma_assign_branches_props;
use crate::tension::lemma_assign_from_props;
use crate::topology::ElemModel;
use crate::topology::series_wf;

verus! {

/// The element with its cached drop erased.
pub open spec fn strip_elem(e: ElemModel) -> ElemModel
    decreases e, 1int,
{
    match e {
        ElemModel::Res { resistance, tension } => ElemModel::Res {
            resistance,
            tension: frac_zero(),
        },
        ElemModel::Par { branches } => ElemModel::Par { branches: strip_branches(branches) },
    }
}

/// Every branch with its cached drops erased.
pub open spec fn strip_branches(bs: Seq<Seq<ElemModel>>) -> Seq<Seq<ElemModel>>
    decreases bs, 0int,
{
    if bs.len() == 0 {
        Seq::empty()
    } else {
        seq![strip_series(bs[0])] + strip_branches(bs.subrange(1, bs.len() as int))
    }
}

/// The chain with every cached drop erased.
pub open spec fn strip_series(s: Seq<ElemModel>) -> Seq<ElemModel>
    decreases s, s.len() + 1,
{
    if s.len() == 0 {
        Seq::empty()
    } else {
        seq![strip_elem(s[0])] + strip_series(s.subrange(1, s.len() as int))
    }
}

/// Stripping a chain strips element-wise.
pub proof fn lemma_strip_series_props(s: Seq<ElemModel>)
    ensures
        strip_series(s).len() == s.len(),
        forall|i: int| 0 <= i < s.len() ==> strip_series(s)[i] == strip_elem(#[trigger] s[i]),
    decreases s,
{
    if s.len() > 0 {
        let rest = s.subrange(1, s.len() as int);
        lemma_strip_series_props(rest);
        assert forall|i: int| 0 <= i < s.len() implies strip_series(s)[i] == strip_elem(
            #[trigger] s[i],
        ) by {
            if i > 0 {
                assert(rest[i - 1] == s[i]);
                assert(strip_series(s)[i] == strip_series(rest)[i - 1]);
            }
        }
    }
}

/// Stripping a branch list strips branch-wise.
pub proof fn lemma_strip_branches_props(bs: Seq<Seq<ElemModel>>)
    ensures
        strip_branches(bs).len() == bs.len(),
        forall|j: int| 0 <= j < bs.len() ==> strip_branches(bs)[j] == strip_series(
            #[trigger] bs[j],
        ),
    decreases bs,
{
    if bs.len() > 0 {
        let rest = bs.subrange(1, bs.len() as int);
        lemma_strip_branches_props(rest);
        assert forall|j: int| 0 <= j < bs.len() implies strip_branches(bs)[j] == strip_series(
            #[trigger] bs[j],
        ) by {
            if j > 0 {
                assert(rest[j - 1] == bs[j]);
                assert(strip_branches(bs)[j] == strip_branches(rest)[j - 1]);
            }
        }
    }
}

/// Equivalent resistance reads no cached drop: an element and its stripped
/// form have the same resistance.
pub proof fn lemma_strip_elem_resistance(e: ElemModel)
    ensures
        elem_resistance(strip_elem(e)) == elem_resistance(e),
    decreases e, 2int,
{
    match e {
        ElemModel::Res { resistance, tension } => {},
        ElemModel::Par { branches } => {
            lemma_strip_recip_sum(branches, 0, frac_zero());
        },
    }
}

/// The reciprocal fold reads no cached drop.
pub proof fn lemma_strip_recip_sum(bs: Seq<Seq<ElemModel>>, j: int, acc: Frac)
    ensures
        recip_sum_from(strip_branches(bs), j, acc) == recip_sum_from(bs, j, acc),
    decreases bs, bs.len() - j,
{
    lemma_strip_branches_props(bs);
    if 0 <= j < bs.len() {
        lemma_strip_series_resistance(bs[j]);
        match series_resistance(bs[j]) {
            None => {},
            Some(r) => {
                match frac_check(frac_add(acc, frac_recip(r))) {
                    None => {},
                    Some(acc2) => {
                        lemma_strip_recip_sum(bs, j + 1, acc2);
                    },
                }
            },
        }
    }
}

/// Equivalent resistance of a chain reads no cached drop.
pub proof fn lemma_strip_series_resistance(s: Seq<ElemModel>)
    ensures
        series_resistance(strip_series(s)) == series_resistance(s),
    decreases s, s.len() + 2,
{
    lemma_strip_series_props(s);
    lemma_strip_series_resistance_from(s, 0, frac_zero());
}

/// The element fold reads no cached drop.
pub proof fn lemma_strip_series_resistance_from(s: Seq<ElemModel>, i: int, acc: Frac)
    ensures
        series_resistance_from(strip_series(s), i, acc) == series_resistance_from(s, i, acc),
    decreases s, s.len() - i,
{
    lemma_strip_series_props(s);
    if 0 <= i < s.len() {
        lemma_strip_elem_resistance(s[i]);
        match elem_resistance(s[i]) {
            None => {},
            Some(r) => {
                match frac_check(frac_add(acc, r)) {
                    None => {},
                    Some(acc2) => {
                        lemma_strip_series_resistance_from(s, i + 1, acc2);
                    },
                }
            },
        }
    }
}

/// Assignment reads no cached drop: an element and its stripped form are
/// assigned the same result.
pub proof fn lemma_assign_strip_elem(e: ElemModel, voltage: Frac, rt: Frac)
    ensures
        assign_elem(strip_elem(e), voltage, rt) == assign_elem(e, voltage, rt),
    decreases e, 2int,
{
    match e {
        ElemModel::Res { resistance, tension } => {},
        ElemModel::Par { branches } => {
            lemma_strip_branches_props(branches);
            lemma_strip_recip_sum(branches, 0, frac_zero());
            match parallel_resistance(branches) {
                None => {},
                Some(rp) => {
                    match frac_check(frac_mul(voltage, rp)) {
                        None => {},
                        Some(p) => {
                            match frac_check(frac_div(p, rt)) {
                                None => {},
                                Some(gv) => {
                                    let sb = strip_branches(branches);
                                    lemma_assign_branches_props(branches, 0, gv);
                                    lemma_assign_branches_props(sb, 0, gv);
                                    assert forall|k: int|
                                        0 <= k < branches.len() implies #[trigger] assign_series(
                                        sb[k],
                                        gv,
                                    ) == assign_series(branches[k], gv) by {
                                        lemma_assign_strip_series(branches[k], gv);
                                    }
                                    match assign_branches(branches, 0, gv) {
                                        None => {
                                            if assign_branches(sb, 0, gv) is Some {
                                                assert forall|k: int|
                                                    0 <= k < branches.len() implies (
                                                    #[trigger] assign_series(
                                                        branches[k],
                                                        gv,
                                                    )) is Some by {
                                                    assert(assign_series(sb[k], gv) is Some);
                                                }
                                            }
                                        },
                                        Some(bs2) => {
                                            assert forall|k: int|
                                                0 <= k < sb.len() implies (
                                                #[trigger] assign_series(sb[k], gv)) is Some by {
                                                assert(assign_series(branches[k], gv) is Some);
                                            }
                                            match assign_branches(sb, 0, gv) {
                                                None => {},
                                                Some(bs3) => {
                                                    assert forall|k: int|
                                                        0 <= k < bs2.len() implies bs2[k] == bs3[k]
                                                    by {
                                                        assert(assign_series(branches[k], gv)
                                                            == Some(bs2[k]));
                                                        assert(assign_series(sb[k], gv) == Some(
                                                            bs3[k],
                                                        ));
                                                    }
                                                    assert(bs2 =~= bs3);
                                                },
                                            }
                                        },
                                    }
                                },
                            }
                        },
                    }
                },
            }
        },
    }
}

/// Assignment over a chain reads no cached drop.
pub proof fn lemma_assign_strip_series(s: Seq<ElemModel>, voltage: Frac)
    ensures
        assign_series(strip_series(s), voltage) == assign_series(s, voltage),
    decreases s, s.len() + 3,
{
    let ss = strip_series(s);
    lemma_strip_series_props(s);
    lemma_strip_series_resistance(s);
    match series_resistance(s) {
        None => {},
        Some(rt) => {
            lemma_assign_from_props(s, 0, voltage, rt);
            lemma_assign_from_props(ss, 0, voltage, rt);
            assert forall|k: int|
                0 <= k < s.len() implies #[trigger] assign_elem(ss[k], voltage, rt) == assign_elem(
                s[k],
                voltage,
                rt,
            ) by {
                lemma_assign_strip_elem(s[k], voltage, rt);
            }
            match assign_from(s, 0, voltage, rt) {
                None => {
                    if assign_from(ss, 0, voltage, rt) is Some {
                        assert forall|k: int|
                            0 <= k < s.len() implies (#[trigger] assign_elem(
                            s[k],
                            voltage,
                            rt,
                        )) is Some by {
                            assert(assign_elem(ss[k], voltage, rt) is Some);
                        }
                    }
                },
                Some(t) => {
                    assert forall|k: int|
                        0 <= k < ss.len() implies (#[trigger] assign_elem(
                        ss[k],
                        voltage,
                        rt,
                    )) is Some by {
                        assert(assign_elem(s[k], voltage, rt) is Some);
                    }
                    match assign_from(ss, 0, voltage, rt) {
                        None => {},
                        Some(t2) => {
                            assert forall|k: int| 0 <= k < t.len() implies t[k] == t2[k] by {
                                assert(assign_elem(s[k], voltage, rt) == Some(t[k]));
                                assert(assign_elem(ss[k], voltage, rt) == Some(t2[k]));
                            }
                            assert(t =~= t2);
                        },
                    }
                },
            }
        },
    }
}

/// Assignment writes every leaf: no stale drop survives into the result,
/// so the result strips to the same tree as the input.
pub proof fn lemma_assign_keeps_strip_elem(e: ElemModel, voltage: Frac, rt: Frac)
    ensures
        assign_elem(e, voltage, rt) matches Some(e2) ==> strip_elem(e2) == strip_elem(e),
    decreases e, 2int,
{
    match e {
        ElemModel::Res { resistance, tension } => {},
        ElemModel::Par { branches } => {
            match assign_elem(e, voltage, rt) {
                None => {},
                Some(e2) => {
                    let gv = frac_div(frac_mul(voltage, parallel_resistance(branches)->0), rt);
                    lemma_assign_branches_props(branches, 0, gv);
                    match assign_branches(branches, 0, gv) {
                        None => {},
                        Some(bs2) => {
                            lemma_strip_branches_props(branches);
                            lemma_strip_branches_props(bs2);
                            assert forall|k: int|
                                0 <= k < bs2.len() implies strip_branches(bs2)[k]
                                == strip_branches(branches)[k] by {
                                assert(assign_series(branches[k], gv) == Some(bs2[k]));
                                lemma_assign_keeps_strip_series(branches[k], gv);
                            }
                            assert(strip_branches(bs2) =~= strip_branches(branches));
                        },
                    }
                },
            }
        },
    }
}

/// Assignment over a chain writes every leaf: the result strips to the
/// same chain as the input.
pub proof fn lemma_assign_keeps_strip_series(s: Seq<ElemModel>, voltage: Frac)
    ensures
        assign_series(s, voltage) matches Some(t) ==> strip_series(t) == strip_series(s),
    decreases s, s.len() + 3,
{
    match series_resistance(s) {
        None => {},
        Some(rt) => {
            lemma_assign_from_props(s, 0, voltage, rt);
            match assign_from(s, 0, voltage, rt) {
                None => {},
                Some(t) => {
                    lemma_strip_series_props(s);
                    lemma_strip_series_props(t);
                    assert forall|k: int|
                        0 <= k < t.len() implies strip_series(t)[k] == strip_series(s)[k] by {
                        assert(assign_elem(s[k], voltage, rt) == Some(t[k]));
                        lemma_assign_keeps_strip_elem(s[k], voltage, rt);
                    }
                    assert(strip_series(t) =~= strip_series(s));
                },
            }
        },
    }
}

/// The resistance of a leaf, `0` on a parallel group; meaningful for
/// chains made of leaves alone.
pub open spec fn leaf_resistance(e: ElemModel) -> Frac {
    match e {
        ElemModel::Res { resistance, tension } => resistance,
        ElemModel::Par { branches } => frac_zero(),
    }
}

/// The drop cached on a leaf, `0` on a parallel group; meaningful for
/// chains made of leaves alone.
pub open spec fn leaf_tension(e: ElemModel) -> Frac {
    match e {
        ElemModel::Res { resistance, tension } => tension,
        ElemModel::Par { branches } => frac_zero(),
    }
}

/// The plain sum of the leaf resistances from position `i` on.
pub open spec fn res_sum(m: Seq<ElemModel>, i: int) -> Frac
    decreases m.len() - i,
{
    if !(0 <= i < m.len()) {
        frac_zero()
    } else {
        frac_add(leaf_resistance(m[i]), res_sum(m, i + 1))
    }
}

/// The plain sum of the cached leaf drops from position `i` on.
pub open spec fn drops_sum(t: Seq<ElemModel>, i: int) -> Frac
    decreases t.len() - i,
{
    if !(0 <= i < t.len()) {
        frac_zero()
    } else {
        frac_add(leaf_tension(t[i]), drops_sum(t, i + 1))
    }
}

/// The element fold over a chain of leaves is the plain sum shifted by the
/// start value, exactly.
proof fn lemma_chain_resistance_from(m: Seq<ElemModel>, i: int, acc: Frac)
    requires
        0 <= i <= m.len(),
        forall|k: int| 0 <= k < m.len() ==> (#[trigger] m[k]) is Res,
    ensures
        series_resistance_from(m, i, acc) matches Some(f) ==> f == frac_add(acc, res_sum(m, i)),
    decreases m.len() - i,
{
    if i == m.len() {
        lemma_frac_add_zero(acc);
    } else {
        match m[i] {
            ElemModel::Res { resistance, tension } => {
                assert(elem_resistance(m[i]) == Some(resistance));
                assert(leaf_resistance(m[i]) == resistance);
            },
            ElemModel::Par { branches } => {
                assert(false);
            },
        }
        match frac_check(frac_add(acc, leaf_resistance(m[i]))) {
            None => {},
            Some(acc2) => {
                lemma_chain_resistance_from(m, i + 1, acc2);
                lemma_frac_add_assoc(acc, leaf_resistance(m[i]), res_sum(m, i + 1));
            },
        }
    }
}

/// Law of series combination: over a chain of `n` resistor leaves of
/// resistances `r1 ... rn`, the equivalent resistance is exactly the sum
/// `r1 + ... + rn`.
pub proof fn lemma_series_chain_resistance(m: Seq<ElemModel>)
    requires
        forall|k: int| 0 <= k < m.len() ==> (#[trigger] m[k]) is Res,
    ensures
        series_resistance(m) matches Some(f) ==> f == res_sum(m, 0),
{
    lemma_chain_resistance_from(m, 0, frac_zero());
    match series_resistance(m) {
        None => {},
        Some(f) => {
            lemma_frac_add_zero(res_sum(m, 0));
        },
    }
}

/// The plain sum of the reciprocals of the branch resistances from branch
/// `j` on.
pub open spec fn branch_recips_sum(bs: Seq<Seq<ElemModel>>, j: int) -> Frac
    decreases bs.len() - j,
{
    if !(0 <= j < bs.len()) {
        frac_zero()
    } else {
        frac_add(frac_recip(series_resistance(bs[j])->0), branch_recips_sum(bs, j + 1))
    }
}

/// The reciprocal fold is the plain reciprocal sum shifted by the start
/// value, exactly.
proof fn lemma_parallel_recip_sum(bs: Seq<Seq<ElemModel>>, j: int, acc: Frac)
    requires
        0 <= j <= bs.len(),
    ensures
        recip_sum_from(bs, j, acc) matches Some(f) ==> f == frac_add(acc, branch_recips_sum(bs, j)),
    decreases bs.len() - j,
{
    if j == bs.len() {
        lemma_frac_add_zero(acc);
    } else {
        match series_resistance(bs[j]) {
            None => {},
            Some(r) => {
                match frac_check(frac_add(acc, frac_recip(r))) {
                    None => {},
                    Some(acc2) => {
                        lemma_parallel_recip_sum(bs, j + 1, acc2);
                        lemma_frac_add_assoc(acc, frac_recip(r), branch_recips_sum(bs, j + 1));
                    },
                }
            },
        }
    }
}

/// Law of parallel combination: the equivalent resistance of a parallel
/// group of branches of resistances `R1 ... Rk` is exactly the reciprocal
/// of the sum `1/R1 + ... + 1/Rk`.
pub proof fn lemma_parallel_combination(branches: Seq<Seq<ElemModel>>)
    ensures
        parallel_resistance(branches) matches Some(p) ==> p == frac_recip(
            branch_recips_sum(branches, 0),
        ),
{
    lemma_parallel_recip_sum(branches, 0, frac_zero());
    match recip_sum_from(branches, 0, frac_zero()) {
        None => {},
        Some(sum) => {
            lemma_frac_add_zero(branch_recips_sum(branches, 0));
        },
    }
}

/// A parallel group of exactly one branch behaves as that branch alone:
/// the group's equivalent resistance is the branch's, with no halving and
/// no rounding.
pub proof fn lemma_parallel_singleton(branches: Seq<Seq<ElemModel>>)
    requires
        branches.len() == 1,
        branches[0].len() >= 1,
        series_wf(branches[0]),
    ensures
        parallel_resistance(branches) == series_resistance(branches[0]),
{
    lemma_series_resistance_props(branches[0]);
    match series_resistance(branches[0]) {
        None => {},
        Some(r) => {
            lemma_frac_recip_props(r);
            lemma_frac_add_zero(frac_recip(r));
            assert(frac_fits(frac_recip(r)));
            assert(recip_sum_from(branches, 0, frac_zero()) == Some(frac_recip(r)));
        },
    }
}

/// The voltage-divider sum from position `i` on: given the element-wise
/// divider facts, the drops add up to the scaled tail resistance sum.
proof fn lemma_divider_sum(m: Seq<ElemModel>, t: Seq<ElemModel>, c: Frac, i: int)
    requires
        0 <= i <= m.len(),
        t.len() == m.len(),
        frac_wf(c),
        forall|k: int| 0 <= k < m.len() ==> (#[trigger] m[k]) is Res,
        forall|k: int| 0 <= k < m.len() ==> frac_wf(leaf_resistance(#[trigger] m[k])),
        forall|k: int|
            0 <= k < m.len() ==> leaf_tension(#[trigger] t[k]) == frac_mul(
                c,
                leaf_resistance(m[k]),
            ),
    ensures
        frac_wf(res_sum(m, i)),
        frac_wf(drops_sum(t, i)),
        frac_eq(drops_sum(t, i), frac_mul(c, res_sum(m, i))),
    decreases m.len() - i,
{
    if i == m.len() {
        assert(0 * (c.den * 1) == (c.num * 0) * 1) by (nonlinear_arith);
        assert(frac_eq(drops_sum(t, i), frac_mul(c, res_sum(m, i))));
    } else {
        lemma_divider_sum(m, t, c, i + 1);
        let ri = leaf_resistance(m[i]);
        let rest = res_sum(m, i + 1);
        let drest = drops_sum(t, i + 1);
        lemma_frac_add_props(ri, rest);
        lemma_frac_mul_props(c, ri);
        lemma_frac_mul_props(c, rest);
        lemma_frac_mul_props(c, frac_add(ri, rest));
        lemma_frac_add_props(frac_mul(c, ri), drest);
        lemma_frac_add_props(frac_mul(c, ri), frac_mul(c, rest));
        lemma_frac_add_congr(frac_mul(c, ri), drest, frac_mul(c, rest));
        lemma_frac_mul_distrib(c, ri, rest);
        lemma_frac_eq_trans(
            drops_sum(t, i),
            frac_add(frac_mul(c, ri), frac_mul(c, rest)),
            frac_mul(c, res_sum(m, i)),
        );
    }
}

/// The voltage-divider law: over a chain of resistor leaves under an
/// applied voltage `V` with total resistance `R`, each leaf of resistance
/// `r` is assigned the drop `(V / R) * r` exactly, and the drops add up to
/// `V`.
pub proof fn lemma_voltage_divider(m: Seq<ElemModel>, voltage: Frac)
    requires
        series_wf(m),
        m.len() >= 1,
        frac_wf(voltage),
        forall|k: int| 0 <= k < m.len() ==> (#[trigger] m[k]) is Res,
    ensures
        assign_series(m, voltage) matches Some(t) ==> t.len() == m.len() && (forall|k: int|
            0 <= k < m.len() ==> leaf_tension(#[trigger] t[k]) == frac_mul(
                frac_div(voltage, series_resistance(m)->0),
                leaf_resistance(m[k]),
            )) && frac_eq(drops_sum(t, 0), voltage),
{
    match assign_series(m, voltage) {
        None => {},
        Some(t) => {
            let rt = series_resistance(m)->0;
            lemma_series_resistance_props(m);
            let c = frac_div(voltage, rt);
            lemma_frac_div_props(voltage, rt);
            lemma_assign_from_props(m, 0, voltage, rt);
            assert forall|k: int| 0 <= k < m.len() implies leaf_tension(#[trigger] t[k])
                == frac_mul(c, leaf_resistance(m[k])) by {
                assert(assign_elem(m[k], voltage, rt) == Some(t[k]));
            }
            crate::topology::lemma_series_wf_index(m);
            assert forall|k: int|
                0 <= k < m.len() implies frac_wf(leaf_resistance(#[trigger] m[k])) by {
                assert(crate::topology::elem_wf(m[k]));
            }
            lemma_divider_sum(m, t, c, 0);
            lemma_series_chain_resistance(m);
            lemma_frac_mul_props(c, rt);
            lemma_frac_div_mul_cancel(voltage, rt);
            lemma_frac_eq_trans(drops_sum(t, 0), frac_mul(c, rt), voltage);
        },
    }
}

/// The group voltage a parallel node sees: the applied voltage scaled by
/// the node's share of the chain resistance.
pub open spec fn group_voltage(branches: Seq<Seq<ElemModel>>, voltage: Frac, rt: Frac) -> Frac {
    frac_div(frac_mul(voltage, parallel_resistance(branches)->0), rt)
}

/// The parallel-sharing law: when a parallel node is assigned, every one
/// of its branches receives the identical group voltage.
pub proof fn lemma_parallel_shares_voltage(branches: Seq<Seq<ElemModel>>, voltage: Frac, rt: Frac)
    ensures
        assign_elem(ElemModel::Par { branches }, voltage, rt) matches Some(e2) ==> e2 matches
            ElemModel::Par { branches: bs2 } && bs2.len() == branches.len() && (forall|j: int|
            0 <= j < branches.len() ==> #[trigger] assign_series(
                branches[j],
                group_voltage(branches, voltage, rt),
            ) == Some(bs2[j])),
{
    match assign_elem(ElemModel::Par { branches }, voltage, rt) {
        None => {},
        Some(e2) => {
            lemma_assign_branches_props(branches, 0, group_voltage(branches, voltage, rt));
        },
    }
}

/// A full re-evaluation is idempotent: running it again on its own result,
/// with no edit in between, reproduces the tree and the current exactly.
pub proof fn lemma_update_idempotent(voltage: Frac, m: Seq<ElemModel>)
    ensures
        update_model(voltage, m) matches Some((t, cur)) ==> update_model(voltage, t) == Some(
            (t, cur),
        ),
{
    match update_model(voltage, m) {
        None => {},
        Some((t, cur)) => {
            lemma_assign_keeps_strip_series(m, voltage);
            lemma_assign_strip_series(t, voltage);
            lemma_assign_strip_series(m, voltage);
            assert(assign_series(t, voltage) == Some(t));
        },
    }
}

/// The round-trip law: a circuit saved after a re-evaluation and rebuilt
/// from the persisted supply voltage and topology re-evaluates to the very
/// same tree, total resistance and current. The snapshot's cached drops
/// and current never enter the computation, so stale persisted values
/// cannot corrupt a reloaded circuit.
pub proof fn lemma_snapshot_round_trip(voltage: Frac, m: Seq<ElemModel>, t: Seq<ElemModel>, cur: Frac)
    requires
        update_model(voltage, m) == Some((t, cur)),
    ensures
        update_model(voltage, t) == Some((t, cur)),
{
    lemma_update_idempotent(voltage, m);
}

} // verus!
