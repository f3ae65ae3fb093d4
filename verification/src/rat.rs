//! Exact rational numbers with an `i64` numerator and a positive `i64`
//! denominator. Query positions, slopes and interpolated channel values are
//! rationals, so every result of the evaluator is exact.

use vstd::prelude::*;

verus! {

/// Mathematical value of a rational: a numerator over a positive denominator,
/// both unbounded integers. This is the model that all contracts speak of.
pub struct RatVal {
    pub num: int,
    pub den: int,
}

/// A well-formed rational value keeps its denominator positive.
pub open spec fn rat_wf(v: RatVal) -> bool {
    v.den > 0
}

/// Two rationals denote the same value when their cross products agree.
pub open spec fn rat_eq(a: RatVal, b: RatVal) -> bool {
    a.num * b.den == b.num * a.den
}

/// Strict value order on rationals with positive denominators.
pub open spec fn rat_lt(a: RatVal, b: RatVal) -> bool {
    a.num * b.den < b.num * a.den
}

/// The rational denoting the integer `i`.
pub open spec fn int_rat(i: int) -> RatVal {
    RatVal { num: i, den: 1 }
}

/// Additive inverse.
pub open spec fn rat_neg(a: RatVal) -> RatVal {
    RatVal { num: -a.num, den: a.den }
}

/// Sum, on the product of the denominators.
pub open spec fn rat_add(a: RatVal, b: RatVal) -> RatVal {
    RatVal { num: a.num * b.den + b.num * a.den, den: a.den * b.den }
}

/// Difference, on the product of the denominators.
pub open spec fn rat_sub(a: RatVal, b: RatVal) -> RatVal {
    RatVal { num: a.num * b.den - b.num * a.den, den: a.den * b.den }
}

/// Product.
pub open spec fn rat_mul(a: RatVal, b: RatVal) -> RatVal {
    RatVal { num: a.num * b.num, den: a.den * b.den }
}

/// Quotient, with the sign moved into the numerator so that a well-formed
/// divisor with a nonzero numerator yields a well-formed result.
pub open spec fn rat_div(a: RatVal, b: RatVal) -> RatVal {
    if b.num >= 0 {
        RatVal { num: a.num * b.den, den: a.den * b.num }
    } else {
        RatVal { num: -(a.num * b.den), den: -(a.den * b.num) }
    }
}

/// Largest integer not above the value (`/` on `int` is Euclidean, which
/// floors when the divisor is positive).
pub open spec fn rat_floor(v: RatVal) -> int {
    v.num / v.den
}

/// Smallest integer not below the value.
pub open spec fn rat_ceil(v: RatVal) -> int {
    if v.num % v.den == 0 {
        v.num / v.den
    } else {
        v.num / v.den + 1
    }
}

/// Whether the value is an integer, i.e. its fractional part is zero.
pub open spec fn rat_is_whole(v: RatVal) -> bool {
    v.num % v.den == 0
}

/// Integer part of the value, rounded toward zero.
pub open spec fn rat_trunc(v: RatVal) -> int {
    if v.num >= 0 {
        v.num / v.den
    } else {
        -((-v.num) / v.den)
    }
}

/// Whether an unbounded integer fits in an `i64`.
pub open spec fn fits_i64(v: int) -> bool {
    i64::MIN <= v <= i64::MAX
}

/// The floor of a fraction whose numerator fits in an `i64` fits in an `i64`.
pub proof fn lemma_floor_fits(num: int, den: int)
    requires
        den >= 1,
        i64::MIN <= num <= i64::MAX,
    ensures
        i64::MIN <= num / den <= i64::MAX,
{
    let q: int = num / den;
    let r: int = num % den;
    vstd::arithmetic::div_mod::lemma_fundamental_div_mod(num, den);
    vstd::arithmetic::div_mod::lemma_mod_division_less_than_divisor(num, den);
    assert(i64::MIN <= q <= i64::MAX) by (nonlinear_arith)
        requires
            num == den * q + r,
            0 <= r < den,
            1 <= den,
            i64::MIN <= num <= i64::MAX,
    ;
}

/// When the value is not an integer, its ceiling also fits in an `i64`:
/// a nonzero remainder forces a denominator of at least two, which keeps
/// the quotient far from the upper bound.
pub proof fn lemma_ceil_fits(num: int, den: int)
    requires
        den >= 1,
        i64::MIN <= num <= i64::MAX,
        num % den != 0,
    ensures
        num / den + 1 <= i64::MAX,
{
    let q: int = num / den;
    let r: int = num % den;
    vstd::arithmetic::div_mod::lemma_fundamental_div_mod(num, den);
    vstd::arithmetic::div_mod::lemma_mod_division_less_than_divisor(num, den);
    assert(q + 1 <= i64::MAX) by (nonlinear_arith)
        requires
            num == den * q + r,
            0 < r < den,
            1 <= den,
            num <= i64::MAX,
    ;
}

/// A product of two `i64` values stays well inside `i128`.
pub proof fn lemma_i64_product_fits(a: int, b: int)
    requires
        i64::MIN <= a <= i64::MAX,
        i64::MIN <= b <= i64::MAX,
    ensures
        -0x40000000000000000000000000000000 <= a * b <= 0x40000000000000000000000000000000,
{
    assert(-0x40000000000000000000000000000000 <= a * b <= 0x40000000000000000000000000000000)
        by (nonlinear_arith)
        requires
            i64::MIN <= a <= i64::MAX,
            i64::MIN <= b <= i64::MAX,
    ;
}

/// An exact rational with machine-word parts. The denominator is kept
/// positive; the fraction is not necessarily in lowest terms, and `==`
/// compares the representation, not the value (see [`Rat::value_eq`]).
#[derive(Debug, Clone, Copy, PartialEq, Eq, Structural)]
pub struct Rat {
    pub num: i64,
    pub den: i64,
}

impl View for Rat {
    type V = RatVal;

    open spec fn view(&self) -> RatVal {
        RatVal { num: self.num as int, den: self.den as int }
    }
}

impl Rat {
    /// Well-formedness: the denominator is positive.
    pub open spec fn wf(self) -> bool {
        rat_wf(self@)
    }

    /// The rational `n / 1`.
    pub fn whole(n: i64) -> (r: Rat)
        ensures
            r@ == int_rat(n as int),
            r.wf(),
    {
        Rat { num: n, den: 1 }
    }

    /// Largest integer not above the value.
    pub fn floor_int(&self) -> (q: i64)
        requires
            self.wf(),
        ensures
            q == rat_floor(self@),
    {
        proof {
            lemma_floor_fits(self.num as int, self.den as int);
        }
        self.num.checked_div_euclid(self.den).unwrap()
    }

    /// Numerator of the fractional part: the Euclidean remainder of the
    /// numerator by the denominator, always in `[0, den)`.
    pub fn fract_numerator(&self) -> (r: i64)
        requires
            self.wf(),
        ensures
            r == self@.num % self@.den,
            0 <= r < self.den,
    {
        proof {
            vstd::arithmetic::div_mod::lemma_mod_division_less_than_divisor(
                self.num as int,
                self.den as int,
            );
        }
        self.num.checked_rem_euclid(self.den).unwrap()
    }

    /// Integer part of the value, rounded toward zero.
    pub fn trunc_int(&self) -> (t: i64)
        requires
            self.wf(),
            self.num > i64::MIN,
        ensures
            t == rat_trunc(self@),
    {
        if self.num >= 0 {
            proof {
                lemma_floor_fits(self.num as int, self.den as int);
            }
            self.num.checked_div_euclid(self.den).unwrap()
        } else {
            let neg: i64 = -self.num;
            proof {
                lemma_floor_fits(neg as int, self.den as int);
                vstd::arithmetic::div_mod::lemma_div_pos_is_pos(neg as int, self.den as int);
            }
            -neg.checked_div_euclid(self.den).unwrap()
        }
    }

    /// Exact product.
    pub fn times(&self, other: &Rat) -> (r: Rat)
        requires
            self.wf(),
            other.wf(),
            fits_i64(rat_mul(self@, other@).num),
            fits_i64(rat_mul(self@, other@).den),
        ensures
            r@ == rat_mul(self@, other@),
            r.wf(),
    {
        proof {
            lemma_i64_product_fits(self.num as int, other.num as int);
            lemma_i64_product_fits(self.den as int, other.den as int);
            assert(self.den as int * other.den as int > 0) by (nonlinear_arith)
                requires
                    self.den > 0,
                    other.den > 0,
            ;
        }
        let n: i128 = self.num as i128 * other.num as i128;
        let d: i128 = self.den as i128 * other.den as i128;
        Rat { num: n as i64, den: d as i64 }
    }

    /// Whether two rationals denote the same value, however represented.
    pub fn value_eq(&self, other: &Rat) -> (b: bool)
        ensures
            b == rat_eq(self@, other@),
    {
        proof {
            lemma_i64_product_fits(self.num as int, other.den as int);
            lemma_i64_product_fits(other.num as int, self.den as int);
        }
        self.num as i128 * other.den as i128 == other.num as i128 * self.den as i128
    }
}

} // verus!
