//! Exact rational numbers over `i64` fields.
//!
//! The engine's numeric domain. Every operation returns the mathematically
//! exact result, or `None` when that result does not fit the fixed-width
//! fields; results are never rounded.

use vstd::prelude::*;

verus! {

/// An exact rational number standing for the value `num / den`.
#[derive(Debug, Clone, Copy, PartialEq, Eq, Structural)]
pub struct Rat {
    pub num: i64,
    pub den: i64,
}

/// A rational is valid when its denominator is positive.
pub open spec fn rat_valid(r: Rat) -> bool {
    r.den > 0
}

/// `a` and `b` stand for the same value: `a.num / a.den == b.num / b.den`,
/// stated by cross-multiplication.
pub open spec fn rat_same_value(a: Rat, b: Rat) -> bool {
    a.num * b.den == b.num * a.den
}

pub open spec fn fits_i64(x: int) -> bool {
    i64::MIN as int <= x <= i64::MAX as int
}

/// The exact sum, unless a field overflows.
pub open spec fn rat_add(a: Rat, b: Rat) -> Option<Rat> {
    let n = a.num * b.den + b.num * a.den;
    let d = a.den * b.den;
    if fits_i64(n) && fits_i64(d) {
        Some(Rat { num: n as i64, den: d as i64 })
    } else {
        None
    }
}

/// The exact difference, unless a field overflows.
pub open spec fn rat_sub(a: Rat, b: Rat) -> Option<Rat> {
    let n = a.num * b.den - b.num * a.den;
    let d = a.den * b.den;
    if fits_i64(n) && fits_i64(d) {
        Some(Rat { num: n as i64, den: d as i64 })
    } else {
        None
    }
}

/// The exact product, unless a field overflows.
pub open spec fn rat_mul(a: Rat, b: Rat) -> Option<Rat> {
    let n = a.num * b.num;
    let d = a.den * b.den;
    if fits_i64(n) && fits_i64(d) {
        Some(Rat { num: n as i64, den: d as i64 })
    } else {
        None
    }
}

/// The exact quotient `a / b` with the sign moved into the numerator,
/// unless a field overflows. Meaningful only for `b.num != 0`.
pub open spec fn rat_div(a: Rat, b: Rat) -> Option<Rat> {
    let n = if b.num < 0 { -(a.num * b.den) } else { a.num * b.den };
    let d = if b.num < 0 { -(a.den * b.num) } else { a.den * b.num };
    if fits_i64(n) && fits_i64(d) {
        Some(Rat { num: n as i64, den: d as i64 })
    } else {
        None
    }
}

proof fn lemma_i64_prod_bound(a: int, b: int)
    requires
        i64::MIN as int <= a <= i64::MAX as int,
        i64::MIN as int <= b <= i64::MAX as int,
    ensures
        -(0x4000_0000_0000_0000_0000_0000_0000_0000 as int) <= a * b
            <= 0x4000_0000_0000_0000_0000_0000_0000_0000 as int,
{
    assert(-(0x4000_0000_0000_0000_0000_0000_0000_0000 as int) <= a * b
        <= 0x4000_0000_0000_0000_0000_0000_0000_0000 as int) by (nonlinear_arith)
        requires
            -(0x8000_0000_0000_0000 as int) <= a <= 0x7fff_ffff_ffff_ffff as int,
            -(0x8000_0000_0000_0000 as int) <= b <= 0x7fff_ffff_ffff_ffff as int,
    ;
}

proof fn lemma_i64_prod_bound_pos(a: int, b: int)
    requires
        i64::MIN as int <= a <= i64::MAX as int,
        1 <= b <= i64::MAX as int,
    ensures
        -(0x3fff_ffff_ffff_ffff_8000_0000_0000_0000 as int) <= a * b
            <= 0x3fff_ffff_ffff_ffff_0000_0000_0000_0001 as int,
{
    assert(-(0x3fff_ffff_ffff_ffff_8000_0000_0000_0000 as int) <= a * b
        <= 0x3fff_ffff_ffff_ffff_0000_0000_0000_0001 as int) by (nonlinear_arith)
        requires
            -(0x8000_0000_0000_0000 as int) <= a <= 0x7fff_ffff_ffff_ffff as int,
            1 <= b <= 0x7fff_ffff_ffff_ffff as int,
    ;
}

proof fn lemma_pos_prod(a: int, b: int)
    requires
        1 <= a,
        1 <= b,
    ensures
        1 <= a * b,
{
    assert(1 <= a * b) by (nonlinear_arith)
        requires
            1 <= a,
            1 <= b,
    ;
}

impl Rat {
    /// The integer `n` as a rational.
    pub fn from_int(n: i64) -> (r: Rat)
        ensures
            r == (Rat { num: n, den: 1 }),
            rat_valid(r),
    {
        Rat { num: n, den: 1 }
    }

    /// The rational `num / den`.
    pub fn new(num: i64, den: i64) -> (r: Rat)
        requires
            den > 0,
        ensures
            r == (Rat { num, den }),
            rat_valid(r),
    {
        Rat { num, den }
    }

    /// Whether the value is zero.
    pub fn is_zero(&self) -> (r: bool)
        ensures
            r == (self.num == 0),
    {
        self.num == 0
    }

    /// Whether `self` and `other` stand for the same value.
    pub fn same_value(&self, other: &Rat) -> (r: bool)
        requires
            rat_valid(*self),
            rat_valid(*other),
        ensures
            r == rat_same_value(*self, *other),
    {
        proof {
            lemma_i64_prod_bound(self.num as int, other.den as int);
            lemma_i64_prod_bound(other.num as int, self.den as int);
        }
        (self.num as i128) * (other.den as i128) == (other.num as i128) * (self.den as i128)
    }

    /// The exact sum, or `None` on overflow.
    pub fn checked_add(self, other: Rat) -> (r: Option<Rat>)
        requires
            rat_valid(self),
            rat_valid(other),
        ensures
            r == rat_add(self, other),
            r matches Some(v) ==> rat_valid(v),
    {
        proof {
            lemma_i64_prod_bound_pos(self.num as int, other.den as int);
            lemma_i64_prod_bound_pos(other.num as int, self.den as int);
            lemma_i64_prod_bound_pos(self.den as int, other.den as int);
            lemma_pos_prod(self.den as int, other.den as int);
        }
        let n: i128 = (self.num as i128) * (other.den as i128)
            + (other.num as i128) * (self.den as i128);
        let d: i128 = (self.den as i128) * (other.den as i128);
        if n >= i64::MIN as i128 && n <= i64::MAX as i128 && d <= i64::MAX as i128 {
            Some(Rat { num: n as i64, den: d as i64 })
        } else {
            None
        }
    }

    /// The exact difference, or `None` on overflow.
    pub fn checked_sub(self, other: Rat) -> (r: Option<Rat>)
        requires
            rat_valid(self),
            rat_valid(other),
        ensures
            r == rat_sub(self, other),
            r matches Some(v) ==> rat_valid(v),
    {
        proof {
            lemma_i64_prod_bound_pos(self.num as int, other.den as int);
            lemma_i64_prod_bound_pos(other.num as int, self.den as int);
            lemma_i64_prod_bound_pos(self.den as int, other.den as int);
            lemma_pos_prod(self.den as int, other.den as int);
        }
        let n: i128 = (self.num as i128) * (other.den as i128)
            - (other.num as i128) * (self.den as i128);
        let d: i128 = (self.den as i128) * (other.den as i128);
        if n >= i64::MIN as i128 && n <= i64::MAX as i128 && d <= i64::MAX as i128 {
            Some(Rat { num: n as i64, den: d as i64 })
        } else {
            None
        }
    }

    /// The exact product, or `None` on overflow.
    pub fn checked_mul(self, other: Rat) -> (r: Option<Rat>)
        requires
            rat_valid(self),
            rat_valid(other),
        ensures
            r == rat_mul(self, other),
            r matches Some(v) ==> rat_valid(v),
    {
        proof {
            lemma_i64_prod_bound(self.num as int, other.num as int);
            lemma_i64_prod_bound_pos(self.den as int, other.den as int);
            lemma_pos_prod(self.den as int, other.den as int);
        }
        let n: i128 = (self.num as i128) * (other.num as i128);
        let d: i128 = (self.den as i128) * (other.den as i128);
        if n >= i64::MIN as i128 && n <= i64::MAX as i128 && d <= i64::MAX as i128 {
            Some(Rat { num: n as i64, den: d as i64 })
        } else {
            None
        }
    }

    /// The exact quotient, or `None` on overflow. The divisor must not be zero.
    pub fn checked_div(self, other: Rat) -> (r: Option<Rat>)
        requires
            rat_valid(self),
            rat_valid(other),
            other.num != 0,
        ensures
            r == rat_div(self, other),
            r matches Some(v) ==> rat_valid(v),
    {
        proof {
            lemma_i64_prod_bound_pos(self.num as int, other.den as int);
            lemma_i64_prod_bound(self.den as int, other.num as int);
        }
        let n0: i128 = (self.num as i128) * (other.den as i128);
        let d0: i128 = (self.den as i128) * (other.num as i128);
        let n: i128 = if other.num < 0 { -n0 } else { n0 };
        let d: i128 = if other.num < 0 { -d0 } else { d0 };
        proof {
            if other.num < 0 {
                lemma_pos_prod(self.den as int, -(other.num as int));
                assert((self.den as int) * (-(other.num as int))
                    == -((self.den as int) * (other.num as int))) by (nonlinear_arith);
            } else {
                lemma_pos_prod(self.den as int, other.num as int);
            }
        }
        if n >= i64::MIN as i128 && n <= i64::MAX as i128 && d <= i64::MAX as i128 {
            Some(Rat { num: n as i64, den: d as i64 })
        } else {
            None
        }
    }
}

} // verus!
