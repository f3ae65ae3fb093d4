//! The piecewise-linear evaluator: slopes through pairs of points, the
//! nearest whole numbers around a query position, and the interpolated
//! value of a channel at an arbitrary rational position.

use vstd::prelude::*;
use crate::rat::{
    fits_i64, int_rat, lemma_ceil_fits, lemma_i64_product_fits, rat_add, rat_ceil, rat_div,
    rat_eq, rat_floor, rat_is_whole, rat_mul, rat_neg, rat_sub, rat_wf, Rat, RatVal,
};

verus! {

/// Signal of an out-of-range query: the evaluator neither clamps nor
/// extrapolates, it reports the bounds violation.
#[derive(Debug, Clone, Copy, PartialEq, Eq, Structural)]
pub struct BoundsViolation;

/// Largest query denominator the evaluator accepts; keeps every intermediate
/// product of the interpolation inside an `i64`.
pub const MAX_QUERY_DEN: i64 = 0x10000000000000;

/// Whether the query position lies within `[0, len - 1]`, the range on which
/// both evaluator branches index validly.
pub open spec fn query_in_range(x: RatVal, len: int) -> bool {
    0 <= x.num && x.num <= (len - 1) * x.den
}

/// The exact interpolated value of a channel at a rational position.
/// At a whole position it is the known value there; in between, the known
/// value on the left plus the slope times the fractional part.
pub open spec fn eval_val(x: RatVal, known: Seq<i8>) -> RatVal {
    let n = rat_floor(x);
    if rat_is_whole(x) {
        int_rat(known[n] as int)
    } else {
        RatVal {
            num: known[n] * x.den + (known[n + 1] - known[n]) * (x.num % x.den),
            den: x.den,
        }
    }
}

/// A pair of rational coordinates, used as an intermediate value for slope
/// computation.
#[derive(Debug, Clone, Copy, PartialEq, Eq, Structural)]
pub struct Point {
    pub x: Rat,
    pub y: Rat,
}

/// Mathematical value of a point: both coordinates as rational values.
pub struct PointVal {
    pub x: RatVal,
    pub y: RatVal,
}

impl View for Point {
    type V = PointVal;

    open spec fn view(&self) -> PointVal {
        PointVal { x: self.x@, y: self.y@ }
    }
}

impl Point {
    /// Well-formedness: both coordinates keep a positive denominator.
    pub open spec fn wf(self) -> bool {
        self.x.wf() && self.y.wf()
    }
}

/// The slope of the line through two points with distinct x-values:
/// the difference of the y-values over the difference of the x-values.
pub open spec fn slope_val(first: PointVal, second: PointVal) -> RatVal {
    rat_div(rat_sub(second.y, first.y), rat_sub(second.x, first.x))
}

/// The slope through two points does not depend on their order: reversing
/// the arguments negates both differences, leaving the quotient unchanged.
pub proof fn lemma_slope_swap(a: PointVal, b: PointVal)
    requires
        rat_wf(a.x),
        rat_wf(a.y),
        rat_wf(b.x),
        rat_wf(b.y),
        !rat_eq(a.x, b.x),
    ensures
        rat_wf(slope_val(a, b)),
        rat_wf(slope_val(b, a)),
        rat_eq(slope_val(a, b), slope_val(b, a)),
{
    let dy = rat_sub(b.y, a.y);
    let dx = rat_sub(b.x, a.x);
    let s1 = slope_val(a, b);
    let s2 = slope_val(b, a);
    assert(dx.num != 0);
    assert(rat_wf(s1) && rat_wf(s2) && rat_eq(s1, s2)) by (nonlinear_arith)
        requires
            a.x.den > 0,
            a.y.den > 0,
            b.x.den > 0,
            b.y.den > 0,
            rat_sub(b.x, a.x).num != 0,
            s1 == slope_val(a, b),
            s2 == slope_val(b, a),
            dy == rat_sub(b.y, a.y),
            dx == rat_sub(b.x, a.x),
    ;
}

/// Negating the reversed slope gives the slope back only at height-equal
/// points, where both slopes are zero.
pub proof fn lemma_slope_negation_at_equal_heights(a: PointVal, b: PointVal)
    requires
        rat_wf(a.x),
        rat_wf(a.y),
        rat_wf(b.x),
        rat_wf(b.y),
        !rat_eq(a.x, b.x),
        rat_eq(a.y, b.y),
    ensures
        rat_eq(slope_val(a, b), rat_neg(slope_val(b, a))),
{
    let s1 = slope_val(a, b);
    let s2 = slope_val(b, a);
    assert(rat_eq(s1, rat_neg(s2))) by (nonlinear_arith)
        requires
            a.x.den > 0,
            a.y.den > 0,
            b.x.den > 0,
            b.y.den > 0,
            rat_eq(a.y, b.y),
            s1 == slope_val(a, b),
            s2 == slope_val(b, a),
    ;
}

/// Calculates the slope of the line through two points with distinct
/// x-values, exactly.
pub fn find_slope(first: Point, second: Point) -> (slope: Rat)
    requires
        first.wf(),
        second.wf(),
        rat_sub(second.x@, first.x@).num != 0,
        fits_i64(rat_sub(second.y@, first.y@).num),
        fits_i64(rat_sub(second.y@, first.y@).den),
        fits_i64(rat_sub(second.x@, first.x@).num),
        fits_i64(rat_sub(second.x@, first.x@).den),
        fits_i64(slope_val(first@, second@).num),
        fits_i64(slope_val(first@, second@).den),
    ensures
        slope@ == slope_val(first@, second@),
        slope.wf(),
{
    proof {
        lemma_i64_product_fits(second.y.num as int, first.y.den as int);
        lemma_i64_product_fits(first.y.num as int, second.y.den as int);
        lemma_i64_product_fits(first.y.den as int, second.y.den as int);
        lemma_i64_product_fits(second.x.num as int, first.x.den as int);
        lemma_i64_product_fits(first.x.num as int, second.x.den as int);
        lemma_i64_product_fits(first.x.den as int, second.x.den as int);
        lemma_i64_product_fits(rat_sub(second.y@, first.y@).num, rat_sub(second.x@, first.x@).den);
        lemma_i64_product_fits(rat_sub(second.y@, first.y@).den, rat_sub(second.x@, first.x@).num);
    }
    let dy_num: i128 = second.y.num as i128 * first.y.den as i128
        - first.y.num as i128 * second.y.den as i128;
    let dy_den: i128 = first.y.den as i128 * second.y.den as i128;
    let dx_num: i128 = second.x.num as i128 * first.x.den as i128
        - first.x.num as i128 * second.x.den as i128;
    let dx_den: i128 = first.x.den as i128 * second.x.den as i128;
    let raw_num: i128 = dy_num * dx_den;
    let raw_den: i128 = dy_den * dx_num;
    if dx_num >= 0 {
        proof {
            assert(rat_wf(slope_val(first@, second@))) by (nonlinear_arith)
                requires
                    first.x.den > 0,
                    first.y.den > 0,
                    second.x.den > 0,
                    second.y.den > 0,
                    rat_sub(second.x@, first.x@).num > 0,
            ;
        }
        Rat { num: raw_num as i64, den: raw_den as i64 }
    } else {
        proof {
            assert(rat_wf(slope_val(first@, second@))) by (nonlinear_arith)
                requires
                    first.x.den > 0,
                    first.y.den > 0,
                    second.x.den > 0,
                    second.y.den > 0,
                    rat_sub(second.x@, first.x@).num < 0,
            ;
        }
        Rat { num: (-raw_num) as i64, den: (-raw_den) as i64 }
    }
}

/// Returns the whole numbers nearest to the query position on either side:
/// its floor and its ceiling, as rationals.
pub fn closest_whole_numbers(x: Rat) -> (bounds: (Rat, Rat))
    requires
        x.wf(),
    ensures
        bounds.0@ == int_rat(rat_floor(x@)),
        bounds.1@ == int_rat(rat_ceil(x@)),
        bounds.0.wf(),
        bounds.1.wf(),
{
    let q: i64 = x.floor_int();
    let r: i64 = x.fract_numerator();
    if r == 0 {
        (Rat::whole(q), Rat::whole(q))
    } else {
        proof {
            lemma_ceil_fits(x.num as int, x.den as int);
        }
        (Rat::whole(q), Rat::whole(q + 1))
    }
}

/// At a whole position within bounds, the evaluator returns the known value
/// there exactly.
pub proof fn lemma_eval_exact_at_integer(i: int, known: Seq<i8>)
    requires
        0 <= i < known.len(),
    ensures
        eval_val(int_rat(i), known) == int_rat(known[i] as int),
{
    vstd::arithmetic::div_mod::lemma_fundamental_div_mod_converse(i, 1, i, 0);
}

/// Between two adjacent knots `n` and `n + 1`, the evaluator is linear: at
/// `x == n + f` with `0 < f < 1` it returns
/// `known[n] + f * (known[n + 1] - known[n])`.
pub proof fn lemma_eval_linear_between_knots(x: RatVal, known: Seq<i8>, n: int, f_num: int)
    requires
        rat_wf(x),
        x.num == n * x.den + f_num,
        0 < f_num < x.den,
        0 <= n,
        n + 1 < known.len(),
    ensures
        eval_val(x, known) == rat_add(
            int_rat(known[n] as int),
            rat_mul(
                rat_sub(int_rat(known[n + 1] as int), int_rat(known[n] as int)),
                RatVal { num: f_num, den: x.den },
            ),
        ),
{
    vstd::arithmetic::div_mod::lemma_fundamental_div_mod_converse(x.num, x.den, n, f_num);
    let lhs = eval_val(x, known);
    let rhs = rat_add(
        int_rat(known[n] as int),
        rat_mul(
            rat_sub(int_rat(known[n + 1] as int), int_rat(known[n] as int)),
            RatVal { num: f_num, den: x.den },
        ),
    );
    let kn: int = known[n] as int;
    let kn1: int = known[n + 1] as int;
    assert(lhs.num == kn * x.den + (kn1 - kn) * f_num) by (nonlinear_arith)
        requires
            lhs.num == kn * x.den + (kn1 - kn) * (x.num % x.den),
            x.num % x.den == f_num,
    ;
    assert(rhs.num == kn * x.den + (kn1 - kn) * f_num) by (nonlinear_arith)
        requires
            rhs.num == kn * (1 * x.den) + ((kn1 * 1 - kn * 1) * f_num) * 1,
    ;
    assert(lhs.den == rhs.den);
    assert(lhs == rhs);
}

/// Evaluates the channel's piecewise-linear curve at position `x`. The
/// `known` values are the y-values at the whole positions `0 .. known.len()`.
/// A whole `x` returns the known value there exactly; any other in-range `x`
/// returns the linear interpolation between the two nearest whole positions;
/// an out-of-range `x` reports a bounds violation.
///
/// The whole-position fast path intercepts every `x` whose floor and ceiling
/// coincide, so the interpolation branch always works on two distinct
/// support points; were the fast path ever bypassed for a whole `x`, the
/// slope's denominator would be zero.
pub fn find_y(x: Rat, known: &Vec<i8>) -> (result: Result<Rat, BoundsViolation>)
    requires
        x.wf(),
        x.den <= MAX_QUERY_DEN,
    ensures
        match result {
            Ok(y) => query_in_range(x@, known@.len() as int) && y.wf() && y@ == eval_val(
                x@,
                known@,
            ),
            Err(_) => !query_in_range(x@, known@.len() as int),
        },
{
    if x.num < 0 {
        return Err(BoundsViolation);
    }
    let len = known.len();
    if len == 0 {
        return Err(BoundsViolation);
    }
    proof {
        assert(0 <= (len - 1) as int * (x.den as int) < 0x80000000000000000000000000000000)
            by (nonlinear_arith)
            requires
                0 <= len as int - 1 < (0x10000000000000000 as int),
                0 < x.den <= MAX_QUERY_DEN,
        ;
    }
    let bound: i128 = (len - 1) as i128 * (x.den as i128);
    if x.num as i128 > bound {
        return Err(BoundsViolation);
    }
    let q: i64 = x.floor_int();
    let r: i64 = x.fract_numerator();
    proof {
        vstd::arithmetic::div_mod::lemma_fundamental_div_mod(x.num as int, x.den as int);
        vstd::arithmetic::div_mod::lemma_div_pos_is_pos(x.num as int, x.den as int);
        vstd::arithmetic::div_mod::lemma_div_is_ordered(
            x.num as int,
            (len - 1) as int * (x.den as int),
            x.den as int,
        );
        vstd::arithmetic::div_mod::lemma_div_by_multiple((len - 1) as int, x.den as int);
    }
    if r == 0 {
        let index: usize = q as usize;
        Ok(Rat::whole(known[index] as i64))
    } else {
        proof {
            vstd::arithmetic::div_mod::lemma_mod_multiples_basic(
                (len - 1) as int,
                x.den as int,
            );
            assert((q as int) + 1 <= len as int - 1) by (nonlinear_arith)
                requires
                    x.num as int == (x.den as int) * (q as int) + (r as int),
                    0 < (r as int) < (x.den as int),
                    (x.num as int) < (len as int - 1) * (x.den as int),
            ;
        }
        let (left_x, right_x) = closest_whole_numbers(x);
        let left_y: i8 = known[left_x.num as usize];
        let right_y: i8 = known[right_x.num as usize];
        let slope = find_slope(
            Point { x: left_x, y: Rat::whole(left_y as i64) },
            Point { x: right_x, y: Rat::whole(right_y as i64) },
        );
        proof {
            assert(slope@.den == 1);
            assert(slope@.num == (right_y as int) - (left_y as int));
            lemma_i64_product_fits(left_y as int, x.den as int);
            lemma_i64_product_fits(slope.num as int, r as int);
            assert(-0x7fffffffffffffff <= (left_y as int) * (x.den as int) + (slope.num as int)
                * (r as int) <= 0x7fffffffffffffff) by (nonlinear_arith)
                requires
                    -128 <= (left_y as int) <= 127,
                    -255 <= (slope.num as int) <= 255,
                    0 <= (r as int) < (x.den as int),
                    0 < x.den <= MAX_QUERY_DEN,
            ;
        }
        let wide: i128 = left_y as i128 * x.den as i128 + slope.num as i128 * r as i128;
        let y = Rat { num: wide as i64, den: x.den };
        proof {
            let n: int = x@.num / x@.den;
            assert(y@.num == known@[n] * x@.den + (known@[n + 1] - known@[n]) * (x@.num % x@.den))
                by (nonlinear_arith)
                requires
                    y@.num == (left_y as int) * (x.den as int) + (slope.num as int) * (r as int),
                    left_y as int == known@[n] as int,
                    slope.num as int == known@[n + 1] as int - known@[n] as int,
                    r as int == x@.num % x@.den,
                    x.den as int == x@.den,
            ;
            assert(y@ == eval_val(x@, known@));
        }
        Ok(y)
    }
}

} // verus!
