//! Exact complex amplitudes.
//!
//! An amplitude is kept as `a + b*sqrt(2) + (c + d*sqrt(2))*i` with 64-bit
//! integer coordinates; the state vector owning the amplitude supplies a
//! common positive scale.  Every gate of the engine (Hadamard, the Pauli
//! gates, controlled-not, the eighth roots of unity of the small Fourier
//! transform) maps this ring to itself, so gate application never rounds.

use vstd::prelude::*;

verus! {

/// Bound kept on every stored coordinate, so that squared magnitudes and
/// pairwise sums stay far away from overflow.
pub const COORD_LIMIT: i64 = 0x4000_0000_0000_0000;

/// Mathematical value of one amplitude: the four integer coordinates of
/// `a + b*sqrt(2) + (c + d*sqrt(2))*i`, unbounded.
pub struct AmpValue {
    pub a: int,
    pub b: int,
    pub c: int,
    pub d: int,
}

/// Stored amplitude: bounded coordinates of `a + b*sqrt(2) + (c + d*sqrt(2))*i`.
#[derive(Clone, Copy, Debug, PartialEq, Eq, Structural)]
pub struct Amp {
    pub a: i64,
    pub b: i64,
    pub c: i64,
    pub d: i64,
}

impl View for Amp {
    type V = AmpValue;

    open spec fn view(&self) -> AmpValue {
        AmpValue { a: self.a as int, b: self.b as int, c: self.c as int, d: self.d as int }
    }
}

/// Zero amplitude.
pub open spec fn amp_zero() -> AmpValue {
    AmpValue { a: 0, b: 0, c: 0, d: 0 }
}

/// Amplitude one.
pub open spec fn amp_one() -> AmpValue {
    AmpValue { a: 1, b: 0, c: 0, d: 0 }
}

/// Coordinatewise sum, the ring addition.
pub open spec fn amp_add(x: AmpValue, y: AmpValue) -> AmpValue {
    AmpValue { a: x.a + y.a, b: x.b + y.b, c: x.c + y.c, d: x.d + y.d }
}

/// Coordinatewise difference.
pub open spec fn amp_sub(x: AmpValue, y: AmpValue) -> AmpValue {
    AmpValue { a: x.a - y.a, b: x.b - y.b, c: x.c - y.c, d: x.d - y.d }
}

/// Ring negation.
pub open spec fn amp_neg(x: AmpValue) -> AmpValue {
    AmpValue { a: -x.a, b: -x.b, c: -x.c, d: -x.d }
}

/// Multiplication by the imaginary unit `i`.
pub open spec fn amp_mul_i(x: AmpValue) -> AmpValue {
    AmpValue { a: -x.c, b: -x.d, c: x.a, d: x.b }
}

/// Multiplication by `-i`.
pub open spec fn amp_mul_neg_i(x: AmpValue) -> AmpValue {
    AmpValue { a: x.c, b: x.d, c: -x.a, d: -x.b }
}

/// Multiplication by `sqrt(2)`.
pub open spec fn amp_mul_sqrt2(x: AmpValue) -> AmpValue {
    AmpValue { a: 2 * x.b, b: x.a, c: 2 * x.d, d: x.c }
}

/// Multiplication by an integer scalar.
pub open spec fn amp_scale(s: int, x: AmpValue) -> AmpValue {
    AmpValue { a: s * x.a, b: s * x.b, c: s * x.c, d: s * x.d }
}

/// Full ring multiplication:
/// `((a1 + b1 s) + (c1 + d1 s)i) * ((a2 + b2 s) + (c2 + d2 s)i)` with
/// `s = sqrt(2)`, expanded over the four coordinates.
pub open spec fn amp_mul(x: AmpValue, y: AmpValue) -> AmpValue {
    AmpValue {
        a: x.a * y.a + 2 * (x.b * y.b) - x.c * y.c - 2 * (x.d * y.d),
        b: x.a * y.b + x.b * y.a - x.c * y.d - x.d * y.c,
        c: x.a * y.c + 2 * (x.b * y.d) + x.c * y.a + 2 * (x.d * y.b),
        d: x.a * y.d + x.b * y.c + x.c * y.b + x.d * y.a,
    }
}

/// Rational part of the squared magnitude: for `x = (a + b*sqrt(2)) + (c + d*sqrt(2))i`,
/// `|x|^2 = (a^2 + 2b^2 + c^2 + 2d^2) + 2(ab + cd)*sqrt(2)`.
pub open spec fn norm_p(x: AmpValue) -> int {
    x.a * x.a + 2 * (x.b * x.b) + x.c * x.c + 2 * (x.d * x.d)
}

/// `sqrt(2)` part of the squared magnitude.
pub open spec fn norm_q(x: AmpValue) -> int {
    2 * (x.a * x.b + x.c * x.d)
}

/// All four coordinates within the stored-coordinate bound.
pub open spec fn in_limit(x: AmpValue) -> bool {
    &&& -(COORD_LIMIT as int) <= x.a <= COORD_LIMIT as int
    &&& -(COORD_LIMIT as int) <= x.b <= COORD_LIMIT as int
    &&& -(COORD_LIMIT as int) <= x.c <= COORD_LIMIT as int
    &&& -(COORD_LIMIT as int) <= x.d <= COORD_LIMIT as int
}

impl Amp {
    /// The zero amplitude.
    pub fn zero() -> (r: Amp)
        ensures
            r@ == amp_zero(),
    {
        Amp { a: 0, b: 0, c: 0, d: 0 }
    }

    /// The amplitude one.
    pub fn one() -> (r: Amp)
        ensures
            r@ == amp_one(),
    {
        Amp { a: 1, b: 0, c: 0, d: 0 }
    }

    /// Sum, if it stays within the coordinate bound.
    pub fn checked_add(&self, other: &Amp) -> (r: Option<Amp>)
        ensures
            r is Some <==> in_limit(amp_add(self@, other@)),
            r is Some ==> r->Some_0@ == amp_add(self@, other@),
    {
        let a = (self.a as i128) + (other.a as i128);
        let b = (self.b as i128) + (other.b as i128);
        let c = (self.c as i128) + (other.c as i128);
        let d = (self.d as i128) + (other.d as i128);
        let lim = COORD_LIMIT as i128;
        if -lim <= a && a <= lim && -lim <= b && b <= lim && -lim <= c && c <= lim && -lim <= d
            && d <= lim {
            Some(Amp { a: a as i64, b: b as i64, c: c as i64, d: d as i64 })
        } else {
            None
        }
    }

    /// Difference, if it stays within the coordinate bound.
    pub fn checked_sub(&self, other: &Amp) -> (r: Option<Amp>)
        ensures
            r is Some <==> in_limit(amp_sub(self@, other@)),
            r is Some ==> r->Some_0@ == amp_sub(self@, other@),
    {
        let a = (self.a as i128) - (other.a as i128);
        let b = (self.b as i128) - (other.b as i128);
        let c = (self.c as i128) - (other.c as i128);
        let d = (self.d as i128) - (other.d as i128);
        let lim = COORD_LIMIT as i128;
        if -lim <= a && a <= lim && -lim <= b && b <= lim && -lim <= c && c <= lim && -lim <= d
            && d <= lim {
            Some(Amp { a: a as i64, b: b as i64, c: c as i64, d: d as i64 })
        } else {
            None
        }
    }

    /// Full complex product in the ring, if it stays within the
    /// coordinate bound.
    pub fn checked_mul(&self, other: &Amp) -> (r: Option<Amp>)
        requires
            in_limit(self@),
            in_limit(other@),
        ensures
            r is Some <==> in_limit(amp_mul(self@, other@)),
            r is Some ==> r->Some_0@ == amp_mul(self@, other@),
    {
        proof {
            lemma_coord_pair_product(self.a as int, other.a as int);
            lemma_coord_pair_product(self.a as int, other.b as int);
            lemma_coord_pair_product(self.a as int, other.c as int);
            lemma_coord_pair_product(self.a as int, other.d as int);
            lemma_coord_pair_product(self.b as int, other.a as int);
            lemma_coord_pair_product(self.b as int, other.b as int);
            lemma_coord_pair_product(self.b as int, other.c as int);
            lemma_coord_pair_product(self.b as int, other.d as int);
            lemma_coord_pair_product(self.c as int, other.a as int);
            lemma_coord_pair_product(self.c as int, other.b as int);
            lemma_coord_pair_product(self.c as int, other.c as int);
            lemma_coord_pair_product(self.c as int, other.d as int);
            lemma_coord_pair_product(self.d as int, other.a as int);
            lemma_coord_pair_product(self.d as int, other.b as int);
            lemma_coord_pair_product(self.d as int, other.c as int);
            lemma_coord_pair_product(self.d as int, other.d as int);
        }
        let xa = self.a as i128;
        let xb = self.b as i128;
        let xc = self.c as i128;
        let xd = self.d as i128;
        let ya = other.a as i128;
        let yb = other.b as i128;
        let yc = other.c as i128;
        let yd = other.d as i128;
        let a = xa * ya + 2 * (xb * yb) - xc * yc - 2 * (xd * yd);
        let b = xa * yb + xb * ya - xc * yd - xd * yc;
        let c = xa * yc + 2 * (xb * yd) + xc * ya + 2 * (xd * yb);
        let d = xa * yd + xb * yc + xc * yb + xd * ya;
        let lim = COORD_LIMIT as i128;
        if -lim <= a && a <= lim && -lim <= b && b <= lim && -lim <= c && c <= lim && -lim <= d
            && d <= lim {
            Some(Amp { a: a as i64, b: b as i64, c: c as i64, d: d as i64 })
        } else {
            None
        }
    }

    /// Negation; exact within the symmetric coordinate bound.
    pub fn neg(&self) -> (r: Amp)
        requires
            in_limit(self@),
        ensures
            r@ == amp_neg(self@),
            in_limit(r@),
    {
        Amp { a: -self.a, b: -self.b, c: -self.c, d: -self.d }
    }

    /// Multiplication by `i`; exact within the symmetric coordinate bound.
    pub fn mul_i(&self) -> (r: Amp)
        requires
            in_limit(self@),
        ensures
            r@ == amp_mul_i(self@),
            in_limit(r@),
    {
        Amp { a: -self.c, b: -self.d, c: self.a, d: self.b }
    }

    /// Multiplication by `-i`; exact within the symmetric coordinate bound.
    pub fn mul_neg_i(&self) -> (r: Amp)
        requires
            in_limit(self@),
        ensures
            r@ == amp_mul_neg_i(self@),
            in_limit(r@),
    {
        Amp { a: self.c, b: self.d, c: -self.a, d: -self.b }
    }
}

/// The product of two stored coordinates is bounded by the squared
/// coordinate limit.
proof fn lemma_coord_pair_product(u: int, v: int)
    by (nonlinear_arith)
    requires
        -(COORD_LIMIT as int) <= u <= COORD_LIMIT as int,
        -(COORD_LIMIT as int) <= v <= COORD_LIMIT as int,
    ensures
        -0x1000_0000_0000_0000_0000_0000_0000_0000 <= u * v
            <= 0x1000_0000_0000_0000_0000_0000_0000_0000,
{
}

/// Squared magnitudes of the two constant amplitudes.
pub proof fn lemma_norm_constants()
    by (nonlinear_arith)
    ensures
        norm_p(amp_zero()) == 0,
        norm_q(amp_zero()) == 0,
        norm_p(amp_one()) == 1,
        norm_q(amp_one()) == 0,
{
}

/// A Hadamard pair keeps exactly twice the squared magnitude of the pair it
/// replaces, in both the rational and the `sqrt(2)` coordinate.
pub proof fn lemma_hadamard_pair_norm(x: AmpValue, y: AmpValue)
    ensures
        norm_p(amp_add(x, y)) + norm_p(amp_sub(x, y)) == 2 * (norm_p(x) + norm_p(y)),
        norm_q(amp_add(x, y)) + norm_q(amp_sub(x, y)) == 2 * (norm_q(x) + norm_q(y)),
{
    lemma_square_pair(x.a, y.a);
    lemma_square_pair(x.b, y.b);
    lemma_square_pair(x.c, y.c);
    lemma_square_pair(x.d, y.d);
    lemma_product_pair(x.a, x.b, y.a, y.b);
    lemma_product_pair(x.c, x.d, y.c, y.d);
}

proof fn lemma_square_pair(u: int, v: int)
    by (nonlinear_arith)
    ensures
        (u + v) * (u + v) + (u - v) * (u - v) == 2 * (u * u + v * v),
{
}

proof fn lemma_product_pair(u1: int, v1: int, u2: int, v2: int)
    by (nonlinear_arith)
    ensures
        (u1 + u2) * (v1 + v2) + (u1 - u2) * (v1 - v2) == 2 * (u1 * v1 + u2 * v2),
{
}

/// Negation keeps the squared magnitude.
pub proof fn lemma_neg_norm(x: AmpValue)
    by (nonlinear_arith)
    ensures
        norm_p(amp_neg(x)) == norm_p(x),
        norm_q(amp_neg(x)) == norm_q(x),
{
}

/// Multiplication by `i` or `-i` keeps the squared magnitude.
pub proof fn lemma_mul_i_norm(x: AmpValue)
    by (nonlinear_arith)
    ensures
        norm_p(amp_mul_i(x)) == norm_p(x),
        norm_q(amp_mul_i(x)) == norm_q(x),
        norm_p(amp_mul_neg_i(x)) == norm_p(x),
        norm_q(amp_mul_neg_i(x)) == norm_q(x),
{
}

/// Scaling composes multiplicatively.
pub proof fn lemma_scale_compose(u: int, v: int, x: AmpValue)
    ensures
        amp_scale(u, amp_scale(v, x)) == amp_scale(u * v, x),
{
    assert(u * (v * x.a) == (u * v) * x.a) by (nonlinear_arith);
    assert(u * (v * x.b) == (u * v) * x.b) by (nonlinear_arith);
    assert(u * (v * x.c) == (u * v) * x.c) by (nonlinear_arith);
    assert(u * (v * x.d) == (u * v) * x.d) by (nonlinear_arith);
}

} // verus!
