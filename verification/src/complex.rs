//! Exact complex numbers for the catalog of gates.
//!
//! Every amplitude produced by the catalog gates is an integer
//! combination of the powers of `w = e^(i*pi/4)` (the primitive eighth
//! root of unity), divided by a power of `sqrt(2)`.  Since `w^4 == -1`,
//! the powers `1, w, w^2, w^3` form a basis: a value is written
//! `a + b*w + c*w^2 + d*w^3`.  Note `w^2 == i` and `w == (1 + i)/sqrt(2)`.
//!
//! The numerator `a + b*w + c*w^2 + d*w^3` is kept as four integers; the
//! `sqrt(2)` denominator exponent is tracked separately (per state, see
//! `quantum_state`).  All arithmetic on numerators is exact.

use vstd::prelude::*;

verus! {

/// Mathematical value of a numerator: `a + b*w + c*w^2 + d*w^3`
/// with unbounded integer coefficients.
pub struct Cx {
    pub a: int,
    pub b: int,
    pub c: int,
    pub d: int,
}

pub open spec fn cx_zero() -> Cx {
    Cx { a: 0, b: 0, c: 0, d: 0 }
}

pub open spec fn cx_one() -> Cx {
    Cx { a: 1, b: 0, c: 0, d: 0 }
}

pub open spec fn cx_add(x: Cx, y: Cx) -> Cx {
    Cx { a: x.a + y.a, b: x.b + y.b, c: x.c + y.c, d: x.d + y.d }
}

pub open spec fn cx_neg(x: Cx) -> Cx {
    Cx { a: -x.a, b: -x.b, c: -x.c, d: -x.d }
}

pub open spec fn cx_scale(n: int, x: Cx) -> Cx {
    Cx { a: n * x.a, b: n * x.b, c: n * x.c, d: n * x.d }
}

/// Product in the ring: polynomial multiplication modulo `w^4 == -1`.
pub open spec fn cx_mul(x: Cx, y: Cx) -> Cx {
    Cx {
        a: x.a * y.a - x.b * y.d - x.c * y.c - x.d * y.b,
        b: x.a * y.b + x.b * y.a - x.c * y.d - x.d * y.c,
        c: x.a * y.c + x.b * y.b + x.c * y.a - x.d * y.d,
        d: x.a * y.d + x.b * y.c + x.c * y.b + x.d * y.a,
    }
}

/// Multiplication by `sqrt(2) == w - w^3`.
pub open spec fn cx_sqrt2(x: Cx) -> Cx {
    Cx { a: x.b - x.d, b: x.a + x.c, c: x.b + x.d, d: x.c - x.a }
}

/// `n`-fold multiplication by `sqrt(2)`.
pub open spec fn cx_sqrt2_pow(x: Cx, n: nat) -> Cx
    decreases n,
{
    if n == 0 {
        x
    } else {
        cx_sqrt2(cx_sqrt2_pow(x, (n - 1) as nat))
    }
}

/// All four coefficients have magnitude at most `m`.
pub open spec fn cx_abs_le(x: Cx, m: int) -> bool {
    &&& -m <= x.a <= m
    &&& -m <= x.b <= m
    &&& -m <= x.c <= m
    &&& -m <= x.d <= m
}

/// Scaling by `sqrt(2)` twice doubles every coefficient.
pub proof fn lemma_sqrt2_twice(x: Cx)
    ensures
        cx_sqrt2(cx_sqrt2(x)) == cx_scale(2, x),
{
}

/// Exact amplitude numerator: `a + b*w + c*w^2 + d*w^3` with machine
/// integer coefficients.
#[derive(Clone, Copy, Debug, PartialEq, Eq, Structural)]
pub struct Amplitude {
    pub a: i64,
    pub b: i64,
    pub c: i64,
    pub d: i64,
}

impl View for Amplitude {
    type V = Cx;

    open spec fn view(&self) -> Cx {
        Cx { a: self.a as int, b: self.b as int, c: self.c as int, d: self.d as int }
    }
}

impl DeepView for Amplitude {
    type V = Cx;

    open spec fn deep_view(&self) -> Cx {
        self.view()
    }
}

/// The numerator can be held in four `i64` coefficients.
pub open spec fn cx_fits(z: Cx) -> bool {
    &&& i64::MIN <= z.a <= i64::MAX
    &&& i64::MIN <= z.b <= i64::MAX
    &&& i64::MIN <= z.c <= i64::MAX
    &&& i64::MIN <= z.d <= i64::MAX
}

/// Every numerator of the sequence fits in machine integers.
pub open spec fn cx_seq_fits(s: Seq<Cx>) -> bool {
    forall|i: int| 0 <= i < s.len() ==> cx_fits(#[trigger] s[i])
}

impl Amplitude {
    /// The additive zero.
    pub fn zero() -> (r: Amplitude)
        ensures
            r@ == cx_zero(),
    {
        Amplitude { a: 0, b: 0, c: 0, d: 0 }
    }

    /// The multiplicative one.
    pub fn one() -> (r: Amplitude)
        ensures
            r@ == cx_one(),
    {
        Amplitude { a: 1, b: 0, c: 0, d: 0 }
    }
}

} // verus!
