//! Saturating fixed-point scalars.
//!
//! Every length, time and multiplier of the controller is a [`Fixed`]: a whole
//! number of millionths, kept within [`LIMIT`] on both sides of zero. A result
//! that would leave that range stops at its border, and a quotient or product
//! that falls between two millionths is rounded toward zero. The view of a
//! scalar is its number of millionths.

use vstd::prelude::*;

verus! {

/// Raw units per whole unit.
pub const SCALE: i64 = 1_000_000;

/// Largest magnitude, in raw units, that a scalar can hold.
pub const LIMIT: i64 = 1_000_000_000_000;

/// Whether `v` raw units fit in a scalar.
pub open spec fn in_range(v: int) -> bool {
    -LIMIT <= v <= LIMIT
}

/// `v` brought to the nearest value in range.
pub open spec fn saturate(v: int) -> int {
    if v > LIMIT {
        LIMIT as int
    } else if v < -LIMIT {
        -(LIMIT as int)
    } else {
        v
    }
}

/// The magnitude of `v`.
pub open spec fn magnitude(v: int) -> int {
    if v < 0 {
        -v
    } else {
        v
    }
}

/// The quotient of `n` by `d`, rounded toward zero (`d` is not zero).
pub open spec fn trunc_div(n: int, d: int) -> int {
    if (n >= 0) == (d > 0) {
        magnitude(n) / magnitude(d)
    } else {
        -(magnitude(n) / magnitude(d))
    }
}

/// The sum of two scalars, in raw units.
pub open spec fn fx_add(a: int, b: int) -> int {
    saturate(a + b)
}

/// The difference of two scalars, in raw units.
pub open spec fn fx_sub(a: int, b: int) -> int {
    saturate(a - b)
}

/// The product of two scalars, in raw units.
pub open spec fn fx_mul(a: int, b: int) -> int {
    saturate(trunc_div(a * b, SCALE as int))
}

/// The quotient of two scalars, in raw units. Dividing by zero gives the
/// border of the range on the side of the dividend, and zero for zero.
pub open spec fn fx_div(a: int, b: int) -> int {
    if b == 0 {
        if a > 0 {
            LIMIT as int
        } else if a < 0 {
            -(LIMIT as int)
        } else {
            0
        }
    } else {
        saturate(trunc_div(a * SCALE, b))
    }
}

/// The sign of a scalar as a whole number: zero counts as positive.
pub open spec fn sign_of(a: int) -> int {
    if a >= 0 {
        1
    } else {
        -1
    }
}

/// `v` held between `lo` and `hi`.
pub open spec fn clamp_between(v: int, lo: int, hi: int) -> int {
    if v < lo {
        lo
    } else if v > hi {
        hi
    } else {
        v
    }
}

/// The view of a scalar that may be absent.
pub open spec fn option_view(v: Option<Fixed>) -> Option<int> {
    match v {
        Some(v) => Some(v@),
        None => None,
    }
}

/// A number of millionths between `-LIMIT` and `LIMIT`.
#[derive(Clone, Copy, Debug, PartialEq, Eq, Structural, Hash)]
pub struct Fixed {
    raw: i64,
}

impl View for Fixed {
    type V = int;

    closed spec fn view(&self) -> int {
        self.raw as int
    }
}

impl Default for Fixed {
    fn default() -> (r: Fixed)
        ensures
            r@ == 0,
    {
        Fixed { raw: 0 }
    }
}

impl Fixed {
    #[verifier::type_invariant]
    spec fn inv(self) -> bool {
        in_range(self.raw as int)
    }

    fn from_wide(v: i128) -> (r: Fixed)
        ensures
            r@ == saturate(v as int),
    {
        if v > LIMIT as i128 {
            Fixed { raw: LIMIT }
        } else if v < -(LIMIT as i128) {
            Fixed { raw: -LIMIT }
        } else {
            Fixed { raw: v as i64 }
        }
    }

    /// The scalar of `raw` millionths, stopped at the border of the range.
    pub fn from_raw(raw: i64) -> (r: Fixed)
        ensures
            r@ == saturate(raw as int),
    {
        Fixed::from_wide(raw as i128)
    }

    /// The scalar that stands for the whole number `n`.
    pub fn from_int(n: i32) -> (r: Fixed)
        ensures
            r@ == saturate(n * SCALE),
    {
        proof {
            lemma_product_bound(n as int, SCALE as int, 0x8000_0000, SCALE as int);
        }
        Fixed::from_wide((n as i128) * (SCALE as i128))
    }

    /// Zero.
    pub fn zero() -> (r: Fixed)
        ensures
            r@ == 0,
    {
        Fixed { raw: 0 }
    }

    /// One whole unit.
    pub fn one() -> (r: Fixed)
        ensures
            r@ == SCALE,
    {
        Fixed { raw: SCALE }
    }

    /// The number of millionths, which is in range.
    pub fn raw(self) -> (r: i64)
        ensures
            r == self@,
            in_range(r as int),
    {
        proof {
            use_type_invariant(&self);
        }
        self.raw
    }

    /// The sum, stopped at the border of the range.
    pub fn add(self, rhs: Fixed) -> (r: Fixed)
        ensures
            r@ == fx_add(self@, rhs@),
    {
        proof {
            use_type_invariant(&self);
            use_type_invariant(&rhs);
        }
        Fixed::from_wide(self.raw as i128 + rhs.raw as i128)
    }

    /// The difference, stopped at the border of the range.
    pub fn sub(self, rhs: Fixed) -> (r: Fixed)
        ensures
            r@ == fx_sub(self@, rhs@),
    {
        proof {
            use_type_invariant(&self);
            use_type_invariant(&rhs);
        }
        Fixed::from_wide(self.raw as i128 - rhs.raw as i128)
    }

    /// The scalar with its sign turned.
    pub fn neg(self) -> (r: Fixed)
        ensures
            r@ == -self@,
    {
        proof {
            use_type_invariant(&self);
        }
        Fixed { raw: -self.raw }
    }

    /// The magnitude.
    pub fn abs(self) -> (r: Fixed)
        ensures
            r@ == magnitude(self@),
    {
        proof {
            use_type_invariant(&self);
        }
        if self.raw < 0 {
            Fixed { raw: -self.raw }
        } else {
            self
        }
    }

    /// One for a scalar that is zero or more, minus one for a negative one.
    pub fn signum(self) -> (r: Fixed)
        ensures
            r@ == sign_of(self@) * SCALE,
    {
        if self.raw >= 0 {
            Fixed { raw: SCALE }
        } else {
            Fixed { raw: -SCALE }
        }
    }

    /// The product, rounded toward zero and stopped at the border of the
    /// range.
    pub fn mul(self, rhs: Fixed) -> (r: Fixed)
        ensures
            r@ == fx_mul(self@, rhs@),
    {
        proof {
            use_type_invariant(&self);
            use_type_invariant(&rhs);
            lemma_product_bound(self.raw as int, rhs.raw as int, LIMIT as int, LIMIT as int);
        }
        let p: i128 = (self.raw as i128) * (rhs.raw as i128);
        Fixed::from_wide(p / (SCALE as i128))
    }

    /// The quotient, rounded toward zero and stopped at the border of the
    /// range. A quotient by zero is the border on the side of `self`, and zero
    /// for zero by zero.
    pub fn div(self, rhs: Fixed) -> (r: Fixed)
        ensures
            r@ == fx_div(self@, rhs@),
    {
        proof {
            use_type_invariant(&self);
            use_type_invariant(&rhs);
        }
        if rhs.raw == 0 {
            if self.raw > 0 {
                Fixed { raw: LIMIT }
            } else if self.raw < 0 {
                Fixed { raw: -LIMIT }
            } else {
                Fixed { raw: 0 }
            }
        } else {
            proof {
                lemma_product_bound(self.raw as int, SCALE as int, LIMIT as int, SCALE as int);
            }
            let p: i128 = (self.raw as i128) * (SCALE as i128);
            if rhs.raw > 0 {
                Fixed::from_wide(p / (rhs.raw as i128))
            } else {
                let q: i128 = p / (-(rhs.raw as i128));
                Fixed::from_wide(-q)
            }
        }
    }

    /// The scalar taken `n` times, stopped at the border of the range.
    pub fn mul_int(self, n: i32) -> (r: Fixed)
        ensures
            r@ == saturate(self@ * n),
    {
        proof {
            use_type_invariant(&self);
            lemma_product_bound(self.raw as int, n as int, LIMIT as int, 0x8000_0000);
        }
        Fixed::from_wide((self.raw as i128) * (n as i128))
    }

    /// The `n`-th part of the scalar, rounded toward zero.
    pub fn div_int(self, n: i32) -> (r: Fixed)
        requires
            n > 0,
        ensures
            r@ == trunc_div(self@, n as int),
    {
        proof {
            use_type_invariant(&self);
        }
        let q: i64 = self.raw / (n as i64);
        proof {
            lemma_trunc_div_shrinks(self.raw as int, n as int);
        }
        Fixed { raw: q }
    }

    /// Whether `self` is less than `rhs`.
    pub fn lt(self, rhs: Fixed) -> (r: bool)
        ensures
            r == (self@ < rhs@),
    {
        self.raw < rhs.raw
    }

    /// Whether `self` is no more than `rhs`.
    pub fn le(self, rhs: Fixed) -> (r: bool)
        ensures
            r == (self@ <= rhs@),
    {
        self.raw <= rhs.raw
    }

    /// Whether `self` is more than `rhs`.
    pub fn gt(self, rhs: Fixed) -> (r: bool)
        ensures
            r == (self@ > rhs@),
    {
        self.raw > rhs.raw
    }

    /// Whether `self` is no less than `rhs`.
    pub fn ge(self, rhs: Fixed) -> (r: bool)
        ensures
            r == (self@ >= rhs@),
    {
        self.raw >= rhs.raw
    }

    /// Whether the scalar is zero.
    pub fn is_zero(self) -> (r: bool)
        ensures
            r == (self@ == 0),
    {
        self.raw == 0
    }

    /// Whether the scalar is more than zero.
    pub fn is_positive(self) -> (r: bool)
        ensures
            r == (self@ > 0),
    {
        self.raw > 0
    }

    /// Whether the scalar is less than zero.
    pub fn is_negative(self) -> (r: bool)
        ensures
            r == (self@ < 0),
    {
        self.raw < 0
    }

    /// The larger of two scalars.
    pub fn max(self, rhs: Fixed) -> (r: Fixed)
        ensures
            r@ == vstd::math::max(self@, rhs@),
    {
        if self.raw >= rhs.raw {
            self
        } else {
            rhs
        }
    }

    /// The smaller of two scalars.
    pub fn min(self, rhs: Fixed) -> (r: Fixed)
        ensures
            r@ == vstd::math::min(self@, rhs@),
    {
        if self.raw <= rhs.raw {
            self
        } else {
            rhs
        }
    }

    /// The scalar held between `lo` and `hi`.
    pub fn clamp(self, lo: Fixed, hi: Fixed) -> (r: Fixed)
        requires
            lo@ <= hi@,
        ensures
            r@ == clamp_between(self@, lo@, hi@),
    {
        if self.raw < lo.raw {
            lo
        } else if self.raw > hi.raw {
            hi
        } else {
            self
        }
    }
}

/// A product is bounded by the product of the bounds of its factors.
pub proof fn lemma_product_bound(a: int, b: int, bound_a: int, bound_b: int)
    by (nonlinear_arith)
    requires
        -bound_a <= a <= bound_a,
        -bound_b <= b <= bound_b,
    ensures
        -(bound_a * bound_b) <= a * b <= bound_a * bound_b,
{
}

/// A quotient by a positive whole number is no larger in magnitude than the
/// dividend, and lies on the same side of zero.
pub proof fn lemma_trunc_div_shrinks(n: int, d: int)
    by (nonlinear_arith)
    requires
        d > 0,
    ensures
        n >= 0 ==> 0 <= trunc_div(n, d) <= n,
        n <= 0 ==> n <= trunc_div(n, d) <= 0,
{
}

} // verus!
