//! Exact rational arithmetic over machine integers.
//!
//! A [`Rat`] is a fraction of two `i64`s with a positive denominator; its
//! mathematical value is the unbounded [`Frac`] obtained through the view.
//! Arithmetic is exact and checked: an operation whose textbook result does
//! not fit the machine representation reports that instead of wrapping.

use vstd::prelude::*;

verus! {

/// Mathematical value of a rational number: an unbounded integer numerator
/// over an unbounded integer denominator.
pub struct Frac {
    pub num: int,
    pub den: int,
}

/// A well-formed fraction has a positive denominator.
pub open spec fn frac_wf(f: Frac) -> bool {
    f.den >= 1
}

/// Two fractions denote the same rational number (cross multiplication).
pub open spec fn frac_eq(a: Frac, b: Frac) -> bool {
    a.num * b.den == b.num * a.den
}

/// A well-formed fraction denotes a (strictly) positive rational.
pub open spec fn frac_pos(f: Frac) -> bool {
    f.num >= 1
}

/// A well-formed fraction denotes a non-negative rational.
pub open spec fn frac_nonneg(f: Frac) -> bool {
    f.num >= 0
}

pub open spec fn frac_zero() -> Frac {
    Frac { num: 0, den: 1 }
}

/// Exact sum of two fractions, on the product denominator.
pub open spec fn frac_add(a: Frac, b: Frac) -> Frac {
    Frac { num: a.num * b.den + b.num * a.den, den: a.den * b.den }
}

/// Exact product of two fractions.
pub open spec fn frac_mul(a: Frac, b: Frac) -> Frac {
    Frac { num: a.num * b.num, den: a.den * b.den }
}

/// Exact reciprocal; the sign stays on the numerator so that the
/// denominator stays positive.
pub open spec fn frac_recip(a: Frac) -> Frac {
    if a.num < 0 {
        Frac { num: -a.den, den: -a.num }
    } else {
        Frac { num: a.den, den: a.num }
    }
}

/// Exact quotient of two fractions.
pub open spec fn frac_div(a: Frac, b: Frac) -> Frac {
    frac_mul(a, frac_recip(b))
}

/// Whether a fraction is representable as a `Rat`.
pub open spec fn frac_fits(f: Frac) -> bool {
    &&& i64::MIN as int <= f.num <= i64::MAX as int
    &&& 1 <= f.den <= i64::MAX as int
}

/// An exact rational number held in machine integers.
///
/// The denominator is always positive; the fraction is not necessarily in
/// lowest terms, so value comparison goes through [`Rat::eqv`], not `==`.
#[derive(Clone, Copy, Debug, PartialEq, Eq, Structural)]
pub struct Rat {
    num: i64,
    den: i64,
}

impl View for Rat {
    type V = Frac;

    closed spec fn view(&self) -> Frac {
        Frac { num: self.num as int, den: self.den as int }
    }
}

impl Rat {
    /// The denominator of every reachable `Rat` is positive.
    pub open spec fn wf(self) -> bool {
        frac_wf(self@)
    }

    /// Build the rational `num / den` from a positive denominator.
    pub fn new(num: i64, den: i64) -> (r: Rat)
        requires
            1 <= den,
        ensures
            r.wf(),
            r@ == (Frac { num: num as int, den: den as int }),
    {
        Rat { num, den }
    }

    /// Build the rational `n / 1`.
    pub fn from_int(n: i64) -> (r: Rat)
        ensures
            r.wf(),
            r@ == (Frac { num: n as int, den: 1 }),
    {
        Rat { num: n, den: 1 }
    }

    /// The rational zero.
    pub fn zero() -> (r: Rat)
        ensures
            r.wf(),
            r@ == frac_zero(),
    {
        Rat { num: 0, den: 1 }
    }

    pub fn num(&self) -> (n: i64)
        ensures
            n as int == self@.num,
    {
        self.num
    }

    pub fn den(&self) -> (d: i64)
        ensures
            d as int == self@.den,
    {
        self.den
    }

    /// Whether the two rationals denote the same value.
    pub fn eqv(&self, other: &Rat) -> (r: bool)
        ensures
            r == frac_eq(self@, other@),
    {
        proof {
            lemma_i64_product_fits_i128(self.num as int, other.den as int);
            lemma_i64_product_fits_i128(other.num as int, self.den as int);
        }
        (self.num as i128) * (other.den as i128) == (other.num as i128) * (self.den as i128)
    }

    /// Whether the rational is strictly positive.
    pub fn is_positive(&self) -> (r: bool)
        requires
            self.wf(),
        ensures
            r == frac_pos(self@),
    {
        self.num >= 1
    }

    /// Whether the rational is zero.
    pub fn is_zero(&self) -> (r: bool)
        ensures
            r == (self@.num == 0),
    {
        self.num == 0
    }

    /// Exact sum; fails exactly when the textbook result does not fit.
    pub fn checked_add(&self, other: &Rat) -> (r: Option<Rat>)
        requires
            self.wf(),
            other.wf(),
        ensures
            match r {
                Some(q) => q.wf() && q@ == frac_add(self@, other@)
                    && frac_fits(frac_add(self@, other@)),
                None => !frac_fits(frac_add(self@, other@)),
            },
    {
        proof {
            lemma_scaled_product_bound(self.num as int, other.den as int);
            lemma_scaled_product_bound(other.num as int, self.den as int);
            lemma_pos_products_fit_i128(self.den as int, other.den as int);
        }
        let num128: i128 = (self.num as i128) * (other.den as i128)
            + (other.num as i128) * (self.den as i128);
        let den128: i128 = (self.den as i128) * (other.den as i128);
        if num128 < i64::MIN as i128 || num128 > i64::MAX as i128 || den128 > i64::MAX as i128 {
            None
        } else {
            Some(Rat { num: num128 as i64, den: den128 as i64 })
        }
    }

    /// Exact product; fails exactly when the textbook result does not fit.
    pub fn checked_mul(&self, other: &Rat) -> (r: Option<Rat>)
        requires
            self.wf(),
            other.wf(),
        ensures
            match r {
                Some(q) => q.wf() && q@ == frac_mul(self@, other@)
                    && frac_fits(frac_mul(self@, other@)),
                None => !frac_fits(frac_mul(self@, other@)),
            },
    {
        proof {
            lemma_i64_product_fits_i128(self.num as int, other.num as int);
            lemma_pos_products_fit_i128(self.den as int, other.den as int);
        }
        let num128: i128 = (self.num as i128) * (other.num as i128);
        let den128: i128 = (self.den as i128) * (other.den as i128);
        if num128 < i64::MIN as i128 || num128 > i64::MAX as i128 || den128 > i64::MAX as i128 {
            None
        } else {
            Some(Rat { num: num128 as i64, den: den128 as i64 })
        }
    }

    /// Exact reciprocal of a positive rational; always representable.
    pub fn recip(&self) -> (r: Rat)
        requires
            self.wf(),
            frac_pos(self@),
        ensures
            r.wf(),
            frac_pos(r@),
            r@ == frac_recip(self@),
    {
        Rat { num: self.den, den: self.num }
    }

    /// Exact quotient by a positive rational; fails exactly when the
    /// textbook result does not fit.
    pub fn checked_div(&self, other: &Rat) -> (r: Option<Rat>)
        requires
            self.wf(),
            other.wf(),
            frac_pos(other@),
        ensures
            match r {
                Some(q) => q.wf() && q@ == frac_div(self@, other@)
                    && frac_fits(frac_div(self@, other@)),
                None => !frac_fits(frac_div(self@, other@)),
            },
    {
        self.checked_mul(&other.recip())
    }
}

/// Sum of two well-formed fractions: well-formed, and positive as soon as
/// one summand is positive and the other non-negative.
pub proof fn lemma_frac_add_props(a: Frac, b: Frac)
    requires
        frac_wf(a),
        frac_wf(b),
    ensures
        frac_wf(frac_add(a, b)),
        frac_nonneg(a) && frac_nonneg(b) ==> frac_nonneg(frac_add(a, b)),
        frac_pos(a) && frac_nonneg(b) ==> frac_pos(frac_add(a, b)),
        frac_nonneg(a) && frac_pos(b) ==> frac_pos(frac_add(a, b)),
{
    assert(a.den >= 1 && b.den >= 1 ==> a.den * b.den >= 1) by (nonlinear_arith);
    assert(a.num >= 0 && a.den >= 1 && b.num >= 0 && b.den >= 1 ==> a.num * b.den + b.num * a.den
        >= 0) by (nonlinear_arith);
    assert(a.num >= 1 && a.den >= 1 && b.num >= 0 && b.den >= 1 ==> a.num * b.den + b.num * a.den
        >= 1) by (nonlinear_arith);
    assert(a.num >= 0 && a.den >= 1 && b.num >= 1 && b.den >= 1 ==> a.num * b.den + b.num * a.den
        >= 1) by (nonlinear_arith);
}

/// Product of two well-formed fractions: well-formed, positive when both
/// factors are.
pub proof fn lemma_frac_mul_props(a: Frac, b: Frac)
    requires
        frac_wf(a),
        frac_wf(b),
    ensures
        frac_wf(frac_mul(a, b)),
        frac_pos(a) && frac_pos(b) ==> frac_pos(frac_mul(a, b)),
{
    assert(a.den >= 1 && b.den >= 1 ==> a.den * b.den >= 1) by (nonlinear_arith);
    assert(a.num >= 1 && b.num >= 1 ==> a.num * b.num >= 1) by (nonlinear_arith);
}

/// The reciprocal of a positive fraction is well-formed and positive.
pub proof fn lemma_frac_recip_props(a: Frac)
    requires
        frac_wf(a),
        frac_pos(a),
    ensures
        frac_wf(frac_recip(a)),
        frac_pos(frac_recip(a)),
        frac_recip(frac_recip(a)) == a,
{
}

/// Zero is a unit of `frac_add`, exactly.
pub proof fn lemma_frac_add_zero(a: Frac)
    ensures
        frac_add(a, frac_zero()) == a,
        frac_add(frac_zero(), a) == a,
{
    assert(a.num * 1 + 0 * a.den == a.num) by (nonlinear_arith);
    assert(0 * a.den + a.num * 1 == a.num) by (nonlinear_arith);
    assert(a.den * 1 == a.den) by (nonlinear_arith);
    assert(1 * a.den == a.den) by (nonlinear_arith);
}

/// `frac_add` is associative, exactly.
pub proof fn lemma_frac_add_assoc(a: Frac, b: Frac, c: Frac)
    ensures
        frac_add(frac_add(a, b), c) == frac_add(a, frac_add(b, c)),
{
    assert((a.num * b.den + b.num * a.den) * c.den == (a.num * b.den) * c.den + (b.num * a.den)
        * c.den) by (nonlinear_arith);
    assert((a.num * b.den) * c.den == a.num * (b.den * c.den)) by (nonlinear_arith);
    assert((b.num * a.den) * c.den == (b.num * c.den) * a.den) by (nonlinear_arith);
    assert(c.num * (a.den * b.den) == (c.num * b.den) * a.den) by (nonlinear_arith);
    assert((b.num * c.den + c.num * b.den) * a.den == (b.num * c.den) * a.den + (c.num * b.den)
        * a.den) by (nonlinear_arith);
    assert((a.den * b.den) * c.den == a.den * (b.den * c.den)) by (nonlinear_arith);
}

/// Shuffling a factor across a product of three integers.
proof fn lemma_mul_shuffle(p: int, q: int, r: int)
    ensures
        p * (q * r) == (q * p) * r,
{
    assert(p * (q * r) == (q * p) * r) by (nonlinear_arith);
}

/// Replacing one summand by an equal rational keeps the sum equal.
pub proof fn lemma_frac_add_congr(a: Frac, b: Frac, b2: Frac)
    requires
        frac_wf(a),
        frac_wf(b),
        frac_wf(b2),
        frac_eq(b, b2),
    ensures
        frac_eq(frac_add(a, b), frac_add(a, b2)),
{
    assert((b.num * b2.den) * (a.den * a.den) == (b2.num * b.den) * (a.den * a.den))
        by (nonlinear_arith)
        requires
            b.num * b2.den == b2.num * b.den,
    ;
    assert((a.num * b.den + b.num * a.den) * (a.den * b2.den) == (a.num * b.den) * (a.den * b2.den)
        + (b.num * a.den) * (a.den * b2.den)) by (nonlinear_arith);
    assert((a.num * b2.den + b2.num * a.den) * (a.den * b.den) == (a.num * b2.den) * (a.den * b.den)
        + (b2.num * a.den) * (a.den * b.den)) by (nonlinear_arith);
    assert((a.num * b.den) * (a.den * b2.den) == (a.num * b2.den) * (a.den * b.den))
        by (nonlinear_arith);
    assert((b.num * a.den) * (a.den * b2.den) == (b.num * b2.den) * (a.den * a.den))
        by (nonlinear_arith);
    assert((b2.num * a.den) * (a.den * b.den) == (b2.num * b.den) * (a.den * a.den))
        by (nonlinear_arith);
}

/// Multiplication distributes over addition of rationals.
pub proof fn lemma_frac_mul_distrib(c: Frac, x: Frac, y: Frac)
    ensures
        frac_eq(frac_mul(c, frac_add(x, y)), frac_add(frac_mul(c, x), frac_mul(c, y))),
{
    let a = c.num * (x.num * y.den + y.num * x.den);
    let b = (c.den * x.den) * (c.den * y.den);
    let n2 = (c.num * x.num) * (c.den * y.den) + (c.num * y.num) * (c.den * x.den);
    let d = c.den * (x.den * y.den);
    assert(c.num * (x.num * y.den + y.num * x.den) == c.num * (x.num * y.den) + c.num * (y.num
        * x.den)) by (nonlinear_arith);
    assert(c.den * (c.num * (x.num * y.den) + c.num * (y.num * x.den)) == c.den * (c.num * (x.num
        * y.den)) + c.den * (c.num * (y.num * x.den))) by (nonlinear_arith);
    assert((c.num * x.num) * (c.den * y.den) == c.den * (c.num * (x.num * y.den)))
        by (nonlinear_arith);
    assert((c.num * y.num) * (c.den * x.den) == c.den * (c.num * (y.num * x.den)))
        by (nonlinear_arith);
    assert((c.den * x.den) * (c.den * y.den) == c.den * (c.den * (x.den * y.den)))
        by (nonlinear_arith);
    lemma_mul_shuffle(a, c.den, d);
    assert(a * b == n2 * d);
}

/// Dividing by a positive rational and multiplying by it again gives back
/// the original value.
pub proof fn lemma_frac_div_mul_cancel(v: Frac, rt: Frac)
    requires
        frac_wf(v),
        frac_wf(rt),
        frac_pos(rt),
    ensures
        frac_eq(frac_mul(frac_div(v, rt), rt), v),
{
    assert(((v.num * rt.den) * rt.num) * v.den == v.num * ((v.den * rt.num) * rt.den))
        by (nonlinear_arith);
}

/// The quotient by a positive rational is well formed.
pub proof fn lemma_frac_div_props(a: Frac, b: Frac)
    requires
        frac_wf(a),
        frac_wf(b),
        frac_pos(b),
    ensures
        frac_wf(frac_div(a, b)),
{
    assert(a.den >= 1 && b.num >= 1 ==> a.den * b.num >= 1) by (nonlinear_arith);
}

/// `frac_eq` is transitive across a well-formed middle term.
pub proof fn lemma_frac_eq_trans(a: Frac, b: Frac, c: Frac)
    requires
        frac_wf(b),
        frac_eq(a, b),
        frac_eq(b, c),
    ensures
        frac_eq(a, c),
{
    assert((a.num * b.den) * c.den == (b.num * a.den) * c.den) by (nonlinear_arith)
        requires
            a.num * b.den == b.num * a.den,
    ;
    assert((b.num * c.den) * a.den == (c.num * b.den) * a.den) by (nonlinear_arith)
        requires
            b.num * c.den == c.num * b.den,
    ;
    assert((a.num * c.den) * b.den == (c.num * a.den) * b.den) by (nonlinear_arith)
        requires
            (a.num * b.den) * c.den == (b.num * a.den) * c.den,
            (b.num * c.den) * a.den == (c.num * b.den) * a.den,
    ;
    assert(a.num * c.den == c.num * a.den) by (nonlinear_arith)
        requires
            (a.num * c.den) * b.den == (c.num * a.den) * b.den,
            b.den >= 1,
    ;
}

/// The product of an `i64`-range integer and a positive `i64`-range integer
/// stays strictly inside half the `i128` range, so a sum of two such
/// products fits an `i128`.
proof fn lemma_scaled_product_bound(a: int, d: int)
    requires
        i64::MIN as int <= a <= i64::MAX as int,
        1 <= d <= i64::MAX as int,
    ensures
        -0x3fff_ffff_ffff_ffff_ffff_ffff_ffff_ffff <= a * d
            <= 0x3fff_ffff_ffff_ffff_ffff_ffff_ffff_ffff,
{
    assert(-0x8000_0000_0000_0000 <= a <= 0x7fff_ffff_ffff_ffff && 1 <= d
        <= 0x7fff_ffff_ffff_ffff ==> -0x3fff_ffff_ffff_ffff_ffff_ffff_ffff_ffff <= a * d
        <= 0x3fff_ffff_ffff_ffff_ffff_ffff_ffff_ffff) by (nonlinear_arith);
}

/// Any product of two `i64`-range integers fits an `i128`.
proof fn lemma_i64_product_fits_i128(a: int, b: int)
    requires
        i64::MIN as int <= a <= i64::MAX as int,
        i64::MIN as int <= b <= i64::MAX as int,
    ensures
        i128::MIN as int <= a * b <= i128::MAX as int,
{
    assert(-0x8000_0000_0000_0000 <= a <= 0x7fff_ffff_ffff_ffff && -0x8000_0000_0000_0000
        <= b <= 0x7fff_ffff_ffff_ffff ==> -0x4000_0000_0000_0000_0000_0000_0000_0000 <= a * b
        <= 0x4000_0000_0000_0000_0000_0000_0000_0000) by (nonlinear_arith);
}

/// The product of two positive `i64`-range integers is positive and fits an
/// `i128`.
proof fn lemma_pos_products_fit_i128(a: int, b: int)
    requires
        1 <= a <= i64::MAX as int,
        1 <= b <= i64::MAX as int,
    ensures
        1 <= a * b <= i128::MAX as int,
{
    assert(1 <= a <= 0x7fff_ffff_ffff_ffff && 1 <= b <= 0x7fff_ffff_ffff_ffff ==> 1 <= a * b
        <= 0x3fff_ffff_ffff_ffff_0000_0000_0000_0001) by (nonlinear_arith);
}

} // verus!
