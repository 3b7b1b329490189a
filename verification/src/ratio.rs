//! Exact non-negative rational arithmetic for the portfolio simulator.
//!
//! A `Ratio` is `num / den` with `den >= 1`. Every operation returns the
//! mathematically exact value in lowest terms, or reports that no `u64/u64`
//! lowest-terms representation of the exact value exists. Equality of values
//! is cross-multiplication: `a/b == c/d` iff `a*d == c*b`.

use vstd::arithmetic::div_mod::{
    lemma_fundamental_div_mod,
    lemma_div_nonincreasing,
    lemma_div_multiples_vanish,
};
use vstd::prelude::*;

verus! {

/// `a/b` and `c/d` denote the same rational (for positive denominators).
pub open spec fn frac_eq(a: int, b: int, c: int, d: int) -> bool {
    a * d == c * b
}

/// `g` divides `a` exactly.
pub open spec fn divides(g: int, a: int) -> bool {
    exists|k: int| a == #[trigger] (g * k)
}

/// Euclid's greatest common divisor.
pub open spec fn gcd_spec(a: nat, b: nat) -> nat
    decreases b,
{
    if b == 0 {
        a
    } else {
        gcd_spec(b, a % b)
    }
}

pub proof fn lemma_gcd_pos(a: nat, b: nat)
    requires
        a > 0 || b > 0,
    ensures
        gcd_spec(a, b) > 0,
    decreases b,
{
    if b > 0 {
        if a % b == 0 {
            assert(gcd_spec(b, 0) == b);
        } else {
            lemma_gcd_pos(b, a % b);
        }
    }
}

pub proof fn lemma_gcd_divides(a: nat, b: nat)
    ensures
        divides(gcd_spec(a, b) as int, a as int),
        divides(gcd_spec(a, b) as int, b as int),
    decreases b,
{
    if b == 0 {
        assert(a as int == a as int * 1);
        assert(0int == a as int * 0);
    } else {
        lemma_gcd_divides(b, a % b);
        let g = gcd_spec(b, a % b) as int;
        let k1 = choose|k: int| a % b == #[trigger] (g * k);
        let k2 = choose|k: int| b as int == #[trigger] (g * k);
        lemma_fundamental_div_mod(a as int, b as int);
        let q = a as int / b as int;
        assert(a as int == b as int * q + g * k1);
        assert(a as int == g * (q * k2 + k1)) by (nonlinear_arith)
            requires
                a as int == b as int * q + g * k1,
                b as int == g * k2,
        {
        }
    }
}

/// The numerator of `n/d` in lowest terms.
pub open spec fn reduced_num(n: nat, d: nat) -> nat {
    n / gcd_spec(n, d)
}

/// The denominator of `n/d` in lowest terms.
pub open spec fn reduced_den(n: nat, d: nat) -> nat {
    d / gcd_spec(n, d)
}

/// The lowest-terms form of `n/d` fits in a `u64/u64` ratio.
pub open spec fn fits(n: nat, d: nat) -> bool {
    reduced_num(n, d) <= u64::MAX && reduced_den(n, d) <= u64::MAX
}

/// Greatest common divisor of two machine integers.
fn gcd(a0: u128, b0: u128) -> (g: u128)
    ensures
        g == gcd_spec(a0 as nat, b0 as nat),
{
    let mut a = a0;
    let mut b = b0;
    while b != 0
        invariant
            gcd_spec(a as nat, b as nat) == gcd_spec(a0 as nat, b0 as nat),
        decreases b,
    {
        let t = a % b;
        a = b;
        b = t;
    }
    a
}

/// A non-negative rational number; well formed when `den >= 1`.
#[derive(Clone, Copy, Debug, PartialEq, Eq, Structural)]
pub struct Ratio {
    pub num: u64,
    pub den: u64,
}

impl Ratio {
    /// Well-formedness: the denominator is positive.
    pub open spec fn wf(self) -> bool {
        self.den >= 1
    }

    /// The whole number `x`.
    pub fn from_u64(x: u64) -> (r: Ratio)
        ensures
            r.wf(),
            r.num == x,
            r.den == 1,
    {
        Ratio { num: x, den: 1 }
    }

    /// The fraction `n / d`, reduced to lowest terms. Always representable,
    /// since reduction only shrinks the parts.
    pub fn new_frac(n: u64, d: u64) -> (r: Ratio)
        requires
            d >= 1,
        ensures
            r.wf(),
            frac_eq(r.num as int, r.den as int, n as int, d as int),
            r.num as nat == reduced_num(n as nat, d as nat),
            r.den as nat == reduced_den(n as nat, d as nat),
            n >= 1 ==> r.num >= 1,
    {
        let (rn, rd) = reduce(n as u128, d as u128);
        proof {
            lemma_gcd_pos(n as nat, d as nat);
            lemma_div_nonincreasing(n as int, gcd_spec(n as nat, d as nat) as int);
            lemma_div_nonincreasing(d as int, gcd_spec(n as nat, d as nat) as int);
        }
        Ratio { num: rn as u64, den: rd as u64 }
    }
}

/// Divide out the greatest common divisor: the lowest-terms form of `n/d`,
/// with the same value.
fn reduce(n: u128, d: u128) -> (r: (u128, u128))
    requires
        d >= 1,
    ensures
        r.0 as nat == reduced_num(n as nat, d as nat),
        r.1 as nat == reduced_den(n as nat, d as nat),
        r.1 >= 1,
        n >= 1 ==> r.0 >= 1,
        frac_eq(r.0 as int, r.1 as int, n as int, d as int),
{
    let g = gcd(n, d);
    proof {
        lemma_gcd_pos(n as nat, d as nat);
        lemma_gcd_divides(n as nat, d as nat);
        let gi = g as int;
        let kn = choose|k: int| n as int == #[trigger] (gi * k);
        let kd = choose|k: int| d as int == #[trigger] (gi * k);
        assert(gi * kn == kn * gi) by (nonlinear_arith);
        assert(gi * kd == kd * gi) by (nonlinear_arith);
        lemma_div_multiples_vanish(kn, gi);
        lemma_div_multiples_vanish(kd, gi);
        assert(n as int / gi == kn);
        assert(d as int / gi == kd);
        // kd >= 1 because g * kd == d >= 1, and likewise for kn when n >= 1.
        assert(kd >= 1) by (nonlinear_arith)
            requires
                gi * kd == d as int,
                d >= 1,
                gi >= 1,
        {
        }
        if n >= 1 {
            assert(kn >= 1) by (nonlinear_arith)
                requires
                    gi * kn == n as int,
                    n >= 1,
                    gi >= 1,
            {
            }
        }
        // Value preservation: (n/g) * d == n * (d/g).
        assert(kn * (gi * kd) == (gi * kn) * kd) by (nonlinear_arith);
    }
    (n / g, d / g)
}

/// Product of two `u64` values, exact in `u128`.
fn wide_mul(x: u64, y: u64) -> (r: u128)
    ensures
        r == x as int * y as int,
{
    proof {
        assert(x as int * y as int <= u128::MAX) by (nonlinear_arith)
            requires
                x <= u64::MAX,
                y <= u64::MAX,
        {
        }
        assert(x as int * y as int >= 0) by (nonlinear_arith)
            requires
                x >= 0,
                y >= 0,
        {
        }
    }
    (x as u128) * (y as u128)
}

/// Build the lowest-terms `Ratio` for `n / d`, or `None` exactly when the
/// lowest-terms parts do not both fit in `u64`.
fn make(n: u128, d: u128) -> (r: Option<Ratio>)
    requires
        d >= 1,
    ensures
        match r {
            Some(q) => fits(n as nat, d as nat) && q.wf() && q.num as nat == reduced_num(
                n as nat,
                d as nat,
            ) && q.den as nat == reduced_den(n as nat, d as nat) && frac_eq(
                q.num as int,
                q.den as int,
                n as int,
                d as int,
            ) && (n >= 1 ==> q.num >= 1),
            None => !fits(n as nat, d as nat),
        },
{
    let (rn, rd) = reduce(n, d);
    if rn <= u64::MAX as u128 && rd <= u64::MAX as u128 {
        Some(Ratio { num: rn as u64, den: rd as u64 })
    } else {
        None
    }
}

impl Ratio {
    /// Exact sum `self + other`, in lowest terms; `None` exactly when the raw
    /// cross-multiplied sum exceeds `u128` or its lowest-terms form exceeds
    /// `u64/u64`.
    pub fn add(&self, other: &Ratio) -> (r: Option<Ratio>)
        requires
            self.wf(),
            other.wf(),
        ensures
            ({
                let rn = self.num as int * other.den as int + other.num as int * self.den as int;
                let rd = self.den as int * other.den as int;
                match r {
                    Some(q) => rn <= u128::MAX && q.wf() && frac_eq(
                        q.num as int,
                        q.den as int,
                        rn,
                        rd,
                    ) && fits(rn as nat, rd as nat) && q.num as nat == reduced_num(
                        rn as nat,
                        rd as nat,
                    ) && q.den as nat == reduced_den(rn as nat, rd as nat) && (rn >= 1 ==> q.num
                        >= 1),
                    None => rn > u128::MAX || !fits(rn as nat, rd as nat),
                }
            }),
    {
        let p1 = wide_mul(self.num, other.den);
        let p2 = wide_mul(other.num, self.den);
        if p1 > u128::MAX - p2 {
            return None;
        }
        let rn = p1 + p2;
        let rd = wide_mul(self.den, other.den);
        proof {
            assert(rd >= 1) by (nonlinear_arith)
                requires
                    rd == self.den as int * other.den as int,
                    self.den >= 1,
                    other.den >= 1,
            {
            }
        }
        make(rn, rd)
    }

    /// Exact sum `self + x` for a whole number `x`, in lowest terms; `None`
    /// exactly when the lowest-terms form exceeds `u64/u64`.
    pub fn add_u64(&self, x: u64) -> (r: Option<Ratio>)
        requires
            self.wf(),
        ensures
            ({
                let rn = self.num as int + x as int * self.den as int;
                match r {
                    Some(q) => q.wf() && frac_eq(q.num as int, q.den as int, rn, self.den as int)
                        && fits(rn as nat, self.den as nat) && (rn >= 1 ==> q.num >= 1)
                        && q.num as nat == reduced_num(rn as nat, self.den as nat)
                        && q.den as nat == reduced_den(rn as nat, self.den as nat),
                    None => !fits(rn as nat, self.den as nat),
                }
            }),
    {
        let p = wide_mul(x, self.den);
        proof {
            assert(self.num as int + x as int * self.den as int <= u128::MAX) by (nonlinear_arith)
                requires
                    self.num <= u64::MAX,
                    x <= u64::MAX,
                    self.den <= u64::MAX,
            {
            }
        }
        let rn = (self.num as u128) + p;
        make(rn, self.den as u128)
    }

    /// Exact difference `self - x` for a whole number `x <= self`, in lowest
    /// terms. Always representable: the numerator only shrinks.
    pub fn sub_u64(&self, x: u64) -> (r: Ratio)
        requires
            self.wf(),
            x as int * self.den as int <= self.num as int,
        ensures
            r.wf(),
            frac_eq(
                r.num as int,
                r.den as int,
                self.num as int - x as int * self.den as int,
                self.den as int,
            ),
            r.num as nat == reduced_num(
                (self.num as int - x as int * self.den as int) as nat,
                self.den as nat,
            ),
            r.den as nat == reduced_den(
                (self.num as int - x as int * self.den as int) as nat,
                self.den as nat,
            ),
    {
        let p = wide_mul(x, self.den);
        let rn = (self.num as u128) - p;
        let (qn, qd) = reduce(rn, self.den as u128);
        proof {
            let g = gcd_spec(rn as nat, self.den as nat);
            lemma_gcd_pos(rn as nat, self.den as nat);
            lemma_div_nonincreasing(rn as int, g as int);
            lemma_div_nonincreasing(self.den as int, g as int);
        }
        Ratio { num: qn as u64, den: qd as u64 }
    }

    /// Exact difference `x - self` for a whole number `x >= self`, in lowest
    /// terms; `None` exactly when the lowest-terms form exceeds `u64/u64`.
    pub fn u64_sub(&self, x: u64) -> (r: Option<Ratio>)
        requires
            self.wf(),
            self.num as int <= x as int * self.den as int,
        ensures
            ({
                let rn = x as int * self.den as int - self.num as int;
                match r {
                    Some(q) => q.wf() && frac_eq(q.num as int, q.den as int, rn, self.den as int)
                        && fits(rn as nat, self.den as nat) && (rn >= 1 ==> q.num >= 1)
                        && q.num as nat == reduced_num(rn as nat, self.den as nat)
                        && q.den as nat == reduced_den(rn as nat, self.den as nat),
                    None => !fits(rn as nat, self.den as nat),
                }
            }),
    {
        let p = wide_mul(x, self.den);
        let rn = p - (self.num as u128);
        make(rn, self.den as u128)
    }

    /// Exact product `self * x` for a whole number `x`, in lowest terms;
    /// `None` exactly when the lowest-terms form exceeds `u64/u64`.
    pub fn mul_u64(&self, x: u64) -> (r: Option<Ratio>)
        requires
            self.wf(),
        ensures
            ({
                let rn = self.num as int * x as int;
                match r {
                    Some(q) => q.wf() && frac_eq(q.num as int, q.den as int, rn, self.den as int)
                        && fits(rn as nat, self.den as nat) && (rn >= 1 ==> q.num >= 1)
                        && q.num as nat == reduced_num(rn as nat, self.den as nat)
                        && q.den as nat == reduced_den(rn as nat, self.den as nat),
                    None => !fits(rn as nat, self.den as nat),
                }
            }),
    {
        let rn = wide_mul(self.num, x);
        make(rn, self.den as u128)
    }

    /// Is the whole number `x` at most this value?
    pub fn ge_u64(&self, x: u64) -> (r: bool)
        requires
            self.wf(),
        ensures
            r == (x as int * self.den as int <= self.num as int),
    {
        let p = wide_mul(x, self.den);
        p <= self.num as u128
    }

    /// Does this value equal `n / d`?
    pub fn eq_frac(&self, n: u64, d: u64) -> (r: bool)
        requires
            self.wf(),
            d >= 1,
        ensures
            r == frac_eq(self.num as int, self.den as int, n as int, d as int),
    {
        let p1 = wide_mul(self.num, d);
        let p2 = wide_mul(n, self.den);
        p1 == p2
    }

    /// Is `self <= other`?
    pub fn le(&self, other: &Ratio) -> (r: bool)
        requires
            self.wf(),
            other.wf(),
        ensures
            r == (self.num as int * other.den as int <= other.num as int * self.den as int),
    {
        let p1 = wide_mul(self.num, other.den);
        let p2 = wide_mul(other.num, self.den);
        p1 <= p2
    }
}

// ---------------------------------------------------------------------------
// Mathematical fractions: the specification-level mirror of `Ratio`, with
// unbounded parts. Contracts of the portfolio are stated over these.
// ---------------------------------------------------------------------------

/// A mathematical fraction `n / d`; meaningful when `d >= 1`.
pub ghost struct Frac {
    pub n: int,
    pub d: int,
}

pub open spec fn fwf(a: Frac) -> bool {
    a.d >= 1
}

/// Value equality of fractions, by cross-multiplication.
pub open spec fn feq(a: Frac, b: Frac) -> bool {
    a.n * b.d == b.n * a.d
}

/// The fraction a `Ratio` denotes.
pub open spec fn rv(r: Ratio) -> Frac {
    Frac { n: r.num as int, d: r.den as int }
}

pub open spec fn fof(x: int) -> Frac {
    Frac { n: x, d: 1 }
}

pub open spec fn fadd(a: Frac, b: Frac) -> Frac {
    Frac { n: a.n * b.d + b.n * a.d, d: a.d * b.d }
}

/// `a + x` for a whole number `x`, on `a`'s own denominator.
pub open spec fn faddi(a: Frac, x: int) -> Frac {
    Frac { n: a.n + x * a.d, d: a.d }
}

/// `a - x` for a whole number `x`, on `a`'s own denominator.
pub open spec fn fsubi(a: Frac, x: int) -> Frac {
    Frac { n: a.n - x * a.d, d: a.d }
}

/// `x - a` for a whole number `x`, on `a`'s own denominator.
pub open spec fn fisub(x: int, a: Frac) -> Frac {
    Frac { n: x * a.d - a.n, d: a.d }
}

/// `a * x` for a whole number `x`.
pub open spec fn fmuli(a: Frac, x: int) -> Frac {
    Frac { n: a.n * x, d: a.d }
}

pub proof fn lemma_feq_sym(a: Frac, b: Frac)
    requires
        feq(a, b),
    ensures
        feq(b, a),
{
}

pub proof fn lemma_feq_trans(a: Frac, b: Frac, c: Frac)
    requires
        fwf(a),
        fwf(b),
        fwf(c),
        feq(a, b),
        feq(b, c),
    ensures
        feq(a, c),
{
    assert(a.n * c.d == c.n * a.d) by (nonlinear_arith)
        requires
            a.n * b.d == b.n * a.d,
            b.n * c.d == c.n * b.d,
            b.d >= 1,
    {
    }
}

/// Replacing the left summand by an equal fraction keeps the sum equal.
#[verifier::rlimit(60)]
pub proof fn lemma_fadd_congr_l(a: Frac, a2: Frac, b: Frac)
    requires
        fwf(a),
        fwf(a2),
        fwf(b),
        feq(a, a2),
    ensures
        feq(fadd(a, b), fadd(a2, b)),
{
    let an = a.n;
    let ad = a.d;
    let cn = a2.n;
    let cd = a2.d;
    let bn = b.n;
    let bd = b.d;
    assert((an * bd + bn * ad) * (cd * bd) == (an * bd) * (cd * bd) + (bn * ad) * (cd * bd))
        by (nonlinear_arith);
    assert((an * bd) * (cd * bd) == (an * cd) * (bd * bd)) by (nonlinear_arith);
    assert((bn * ad) * (cd * bd) == (bn * cd) * (ad * bd)) by (nonlinear_arith);
    assert((cn * bd + bn * cd) * (ad * bd) == (cn * bd) * (ad * bd) + (bn * cd) * (ad * bd))
        by (nonlinear_arith);
    assert((cn * bd) * (ad * bd) == (cn * ad) * (bd * bd)) by (nonlinear_arith);
    assert((an * cd) * (bd * bd) == (cn * ad) * (bd * bd));
}

/// Replacing the right summand by an equal fraction keeps the sum equal.
#[verifier::rlimit(60)]
pub proof fn lemma_fadd_congr_r(a: Frac, b: Frac, b2: Frac)
    requires
        fwf(a),
        fwf(b),
        fwf(b2),
        feq(b, b2),
    ensures
        feq(fadd(a, b), fadd(a, b2)),
{
    let an = a.n;
    let ad = a.d;
    let bn = b.n;
    let bd = b.d;
    let cn = b2.n;
    let cd = b2.d;
    assert((an * bd + bn * ad) * (ad * cd) == (an * bd) * (ad * cd) + (bn * ad) * (ad * cd))
        by (nonlinear_arith);
    assert((bn * ad) * (ad * cd) == (bn * cd) * (ad * ad)) by (nonlinear_arith);
    assert((an * cd + cn * ad) * (ad * bd) == (an * cd) * (ad * bd) + (cn * ad) * (ad * bd))
        by (nonlinear_arith);
    assert((an * cd) * (ad * bd) == (an * bd) * (ad * cd)) by (nonlinear_arith);
    assert((cn * ad) * (ad * bd) == (cn * bd) * (ad * ad)) by (nonlinear_arith);
    assert((bn * cd) * (ad * ad) == (cn * bd) * (ad * ad));
}

/// Adding a whole number to equal fractions keeps them equal.
pub proof fn lemma_faddi_congr(a: Frac, a2: Frac, x: int)
    requires
        fwf(a),
        fwf(a2),
        feq(a, a2),
    ensures
        feq(faddi(a, x), faddi(a2, x)),
{
    assert((a.n + x * a.d) * a2.d == (a2.n + x * a2.d) * a.d) by (nonlinear_arith)
        requires
            a.n * a2.d == a2.n * a.d,
    {
    }
}

/// Subtracting a whole number from equal fractions keeps them equal.
pub proof fn lemma_fsubi_congr(a: Frac, a2: Frac, x: int)
    requires
        fwf(a),
        fwf(a2),
        feq(a, a2),
    ensures
        feq(fsubi(a, x), fsubi(a2, x)),
{
    assert((a.n - x * a.d) * a2.d == (a2.n - x * a2.d) * a.d) by (nonlinear_arith)
        requires
            a.n * a2.d == a2.n * a.d,
    {
    }
}

/// Subtracting equal fractions from a whole number keeps the results equal.
pub proof fn lemma_fisub_congr(x: int, a: Frac, a2: Frac)
    requires
        fwf(a),
        fwf(a2),
        feq(a, a2),
    ensures
        feq(fisub(x, a), fisub(x, a2)),
{
    assert((x * a.d - a.n) * a2.d == (x * a2.d - a2.n) * a.d) by (nonlinear_arith)
        requires
            a.n * a2.d == a2.n * a.d,
    {
    }
}

/// A whole number may be added before or after a fraction sum.
pub proof fn lemma_faddi_fadd(a: Frac, p: Frac, x: int)
    requires
        fwf(a),
        fwf(p),
    ensures
        feq(faddi(fadd(a, p), x), fadd(faddi(a, x), p)),
{
    assert(((a.n * p.d + p.n * a.d) + x * (a.d * p.d)) * (a.d * p.d) == ((a.n + x * a.d) * p.d
        + p.n * a.d) * (a.d * p.d)) by (nonlinear_arith);
}

/// A sum of well-formed fractions is well formed.
pub proof fn lemma_fwf_fadd(a: Frac, b: Frac)
    requires
        fwf(a),
        fwf(b),
    ensures
        fwf(fadd(a, b)),
{
    assert(a.d * b.d >= 1) by (nonlinear_arith)
        requires
            a.d >= 1,
            b.d >= 1,
    {
    }
}

/// The two right summands of a double sum may be swapped.
#[verifier::rlimit(60)]
pub proof fn lemma_fadd_shuffle(x: Frac, y: Frac, z: Frac)
    requires
        fwf(x),
        fwf(y),
        fwf(z),
    ensures
        feq(fadd(fadd(x, y), z), fadd(fadd(x, z), y)),
{
    let lhs = fadd(fadd(x, y), z);
    let rhs = fadd(fadd(x, z), y);
    let xn = x.n;
    let xd = x.d;
    let yn = y.n;
    let yd = y.d;
    let zn = z.n;
    let zd = z.d;
    assert((xn * yd + yn * xd) * zd + zn * (xd * yd) == xn * (yd * zd) + yn * (xd * zd) + zn * (xd
        * yd)) by (nonlinear_arith);
    assert((xn * zd + zn * xd) * yd + yn * (xd * zd) == xn * (zd * yd) + zn * (xd * yd) + yn * (xd
        * zd)) by (nonlinear_arith);
    assert(yd * zd == zd * yd);
    assert((xd * yd) * zd == (xd * zd) * yd) by (nonlinear_arith);
    assert(lhs.n == rhs.n);
    assert(lhs.d == rhs.d);
}

/// Fraction addition is associative.
pub proof fn lemma_fadd_assoc(a: Frac, b: Frac, c: Frac)
    requires
        fwf(a),
        fwf(b),
        fwf(c),
    ensures
        feq(fadd(a, fadd(b, c)), fadd(fadd(a, b), c)),
{
    let lhs = fadd(a, fadd(b, c));
    let rhs = fadd(fadd(a, b), c);
    let an = a.n;
    let ad = a.d;
    let bn = b.n;
    let bd = b.d;
    let cn = c.n;
    let cd = c.d;
    assert(an * (bd * cd) + (bn * cd + cn * bd) * ad == an * (bd * cd) + bn * (ad * cd) + cn * (ad
        * bd)) by (nonlinear_arith);
    assert((an * bd + bn * ad) * cd + cn * (ad * bd) == an * (bd * cd) + bn * (ad * cd) + cn * (ad
        * bd)) by (nonlinear_arith);
    assert(ad * (bd * cd) == (ad * bd) * cd) by (nonlinear_arith);
    assert(lhs.n == rhs.n);
    assert(lhs.d == rhs.d);
}

/// Realizing a gain moves value without creating it: taking `b` out of the
/// whole-number slot of `x` and adding the fraction `p` is the same as
/// keeping `x` and adding `p - b`.
pub proof fn lemma_realize_shift(x: Frac, l: Frac, p: Frac, b: int)
    requires
        fwf(x),
        fwf(l),
        fwf(p),
    ensures
        feq(fadd(fadd(fsubi(x, b), l), p), fadd(fadd(x, l), fsubi(p, b))),
{
    let lhs = fadd(fadd(fsubi(x, b), l), p);
    let rhs = fadd(fadd(x, l), fsubi(p, b));
    let xn = x.n;
    let xd = x.d;
    let ln = l.n;
    let ld = l.d;
    let pn = p.n;
    let pd = p.d;
    assert(((xn - b * xd) * ld + ln * xd) * pd == xn * (ld * pd) + ln * (xd * pd) - b * (xd * (ld
        * pd))) by (nonlinear_arith);
    assert((xn * ld + ln * xd) * pd == xn * (ld * pd) + ln * (xd * pd)) by (nonlinear_arith);
    assert((pn - b * pd) * (xd * ld) == pn * (xd * ld) - b * (pd * (xd * ld)))
        by (nonlinear_arith);
    assert(xd * (ld * pd) == pd * (xd * ld)) by (nonlinear_arith);
    assert(lhs.n == rhs.n);
    assert(lhs.d == rhs.d);
}

/// Adding `p - b` and then `b - p` cancels exactly.
pub proof fn lemma_add_sub_cancel(y: Frac, p: Frac, b: int)
    requires
        fwf(y),
        fwf(p),
    ensures
        feq(fadd(fadd(y, fsubi(p, b)), fisub(b, p)), y),
{
    let lhs = fadd(fadd(y, fsubi(p, b)), fisub(b, p));
    let yn = y.n;
    let yd = y.d;
    let pn = p.n;
    let pd = p.d;
    assert((yn * pd + (pn - b * pd) * yd) * pd + (b * pd - pn) * (yd * pd) == yn * (pd * pd))
        by (nonlinear_arith);
    assert(lhs.n == yn * (pd * pd));
    assert(lhs.d == (yd * pd) * pd);
    assert((yn * (pd * pd)) * yd == yn * ((yd * pd) * pd)) by (nonlinear_arith);
}

} // verus!
