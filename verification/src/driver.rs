//! The gradient driver: splits the anchor colors into channels once, then
//! evaluates every channel at one hundred evenly spaced query positions and
//! reassembles the interpolated values into output colors.

use vstd::prelude::*;
use crate::color::{blues_of, get_channels, greens_of, reds_of, RGB};
use crate::interp::{eval_val, find_y, query_in_range, BoundsViolation, MAX_QUERY_DEN};
use crate::rat::{int_rat, rat_lt, rat_trunc, rat_wf, Rat, RatVal};

verus! {

/// Number of output samples in every gradient.
pub const NUM_SAMPLES: usize = 100;

/// Most anchors a gradient accepts; keeps every query numerator inside an
/// `i64`.
pub const MAX_ANCHORS: u64 = 0x1000000000000;

/// The query position of output sample `i` over `count` anchors: the sample
/// index times the step `(count - 1) / 100`.
pub open spec fn sample_pos(i: int, count: int) -> RatVal {
    RatVal { num: i * (count - 1), den: 100 }
}

/// The channel value of output sample `i`: the channel's interpolated value
/// at the sample's query position, truncated toward zero.
pub open spec fn channel_sample(known: Seq<i8>, i: int) -> int {
    rat_trunc(eval_val(sample_pos(i, known.len() as int), known))
}

/// Whether an output color holds, in each component, the sampled value of
/// the matching channel of the anchor sequence at sample index `i`.
pub open spec fn sample_color_matches(c: RGB, colors: Seq<RGB>, i: int) -> bool {
    &&& c.r as int == channel_sample(reds_of(colors), i)
    &&& c.g as int == channel_sample(greens_of(colors), i)
    &&& c.b as int == channel_sample(blues_of(colors), i)
}

/// An in-range interpolated value lies between the smallest and largest
/// 8-bit channel value, scaled by its denominator.
pub proof fn lemma_eval_in_channel_range(x: RatVal, known: Seq<i8>)
    requires
        rat_wf(x),
        query_in_range(x, known.len() as int),
    ensures
        rat_wf(eval_val(x, known)),
        -128 * eval_val(x, known).den <= eval_val(x, known).num <= 127 * eval_val(x, known).den,
{
    let len: int = known.len() as int;
    assert(len >= 1) by (nonlinear_arith)
        requires
            0 <= x.num,
            x.num <= (len - 1) * x.den,
            x.den > 0,
            len >= 0,
    ;
    let n: int = x.num / x.den;
    let m: int = x.num % x.den;
    vstd::arithmetic::div_mod::lemma_fundamental_div_mod(x.num, x.den);
    vstd::arithmetic::div_mod::lemma_mod_division_less_than_divisor(x.num, x.den);
    vstd::arithmetic::div_mod::lemma_div_pos_is_pos(x.num, x.den);
    vstd::arithmetic::div_mod::lemma_div_is_ordered(x.num, (len - 1) * x.den, x.den);
    vstd::arithmetic::div_mod::lemma_div_by_multiple(len - 1, x.den);
    if m == 0 {
    } else {
        vstd::arithmetic::div_mod::lemma_mod_multiples_basic(len - 1, x.den);
        assert(n + 1 <= len - 1) by (nonlinear_arith)
            requires
                x.num == x.den * n + m,
                0 < m < x.den,
                x.num < (len - 1) * x.den,
        ;
        let kn: int = known[n] as int;
        let kn1: int = known[n + 1] as int;
        assert(-128 * x.den <= kn * x.den + (kn1 - kn) * m <= 127 * x.den) by (nonlinear_arith)
            requires
                -128 <= kn <= 127,
                -128 <= kn1 <= 127,
                0 < m < x.den,
                0 < x.den,
        ;
    }
}

/// Truncating a value that lies within the scaled 8-bit channel range lands
/// in the 8-bit channel range.
pub proof fn lemma_trunc_in_channel_range(v: RatVal)
    requires
        rat_wf(v),
        -128 * v.den <= v.num <= 127 * v.den,
    ensures
        -128 <= rat_trunc(v) <= 127,
{
    if v.num >= 0 {
        vstd::arithmetic::div_mod::lemma_div_pos_is_pos(v.num, v.den);
        vstd::arithmetic::div_mod::lemma_div_is_ordered(v.num, 127 * v.den, v.den);
        vstd::arithmetic::div_mod::lemma_div_by_multiple(127, v.den);
    } else {
        vstd::arithmetic::div_mod::lemma_div_pos_is_pos(-v.num, v.den);
        vstd::arithmetic::div_mod::lemma_div_is_ordered(-v.num, 128 * v.den, v.den);
        vstd::arithmetic::div_mod::lemma_div_by_multiple(128, v.den);
    }
}

/// Truncates one interpolated channel value to its 8-bit component.
fn channel_value(y: &Rat) -> (c: i8)
    requires
        y.wf(),
        y@.den <= MAX_QUERY_DEN,
        -128 * y@.den <= y@.num <= 127 * y@.den,
    ensures
        c as int == rat_trunc(y@),
{
    proof {
        lemma_trunc_in_channel_range(y@);
    }
    let t: i64 = y.trunc_int();
    t as i8
}

/// With at least two anchors, the position of the last output sample stays
/// strictly below the index of the last anchor.
pub proof fn lemma_last_sample_before_last_anchor(count: int)
    requires
        count >= 2,
    ensures
        rat_lt(sample_pos(NUM_SAMPLES as int - 1, count), int_rat(count - 1)),
{
    assert((99 * (count - 1)) * 1 < (count - 1) * 100) by (nonlinear_arith)
        requires
            count >= 2,
    ;
}

/// With a single anchor, every sample's query position is zero, so every
/// output color that samples the anchor sequence equals the anchor itself.
pub proof fn lemma_single_anchor_sample(colors: Seq<RGB>, c: RGB, i: int)
    requires
        colors.len() == 1,
        0 <= i < NUM_SAMPLES,
        sample_color_matches(c, colors, i),
    ensures
        c == colors[0],
{
    assert(sample_pos(i, 1) == (RatVal { num: 0, den: 100 }));
    vstd::arithmetic::div_mod::lemma_fundamental_div_mod_converse(0, 100, 0, 0);
    lemma_trunc_of_whole(colors[0].r as int);
    lemma_trunc_of_whole(colors[0].g as int);
    lemma_trunc_of_whole(colors[0].b as int);
}

/// Truncation of the rational `v / 1` is `v` itself.
proof fn lemma_trunc_of_whole(v: int)
    ensures
        rat_trunc(int_rat(v)) == v,
{
    vstd::arithmetic::div_mod::lemma_fundamental_div_mod_converse(v, 1, v, 0);
    vstd::arithmetic::div_mod::lemma_fundamental_div_mod_converse(-v, 1, -v, 0);
}

/// Computes the gradient: exactly one hundred output colors whose channels
/// sample the piecewise-linear interpolation of the anchors' channels at
/// positions `i * (count - 1) / 100`. The first output color equals the
/// first anchor exactly. With no anchors at all, every query position is
/// out of range and the bounds violation is reported instead.
#[verifier::loop_isolation(false)]
pub fn calculate_gradient(original_colors: Vec<RGB>) -> (result: Result<Vec<RGB>, BoundsViolation>)
    requires
        original_colors@.len() <= MAX_ANCHORS,
    ensures
        match result {
            Ok(out) => {
                &&& original_colors@.len() >= 1
                &&& out@.len() == NUM_SAMPLES
                &&& forall|i: int|
                    0 <= i < NUM_SAMPLES ==> sample_color_matches(
                        #[trigger] out@[i],
                        original_colors@,
                        i,
                    )
                &&& out@[0] == original_colors@[0]
            },
            Err(_) => original_colors@.len() == 0,
        },
{
    let ghost cs: Seq<RGB> = original_colors@;
    let count: usize = original_colors.len();
    let num: usize = NUM_SAMPLES;
    let step = Rat { num: count as i64 - 1, den: 100 };
    let channels = get_channels(original_colors);
    let mut colors: Vec<RGB> = Vec::new();

    let mut i: usize = 0;
    while i < num
        invariant
            i <= 100,
            num == 100,
            count == cs.len(),
            count <= MAX_ANCHORS,
            i > 0 ==> count >= 1,
            step.num == count as int - 1,
            step.den == 100,
            channels.red@ == reds_of(cs),
            channels.green@ == greens_of(cs),
            channels.blue@ == blues_of(cs),
            colors@.len() == i,
            forall|j: int| 0 <= j < i ==> sample_color_matches(#[trigger] colors@[j], cs, j),
        decreases 100 - i,
    {
        proof {
            assert(-99 <= (i as int) * (count as int - 1) <= 99 * (MAX_ANCHORS as int))
                by (nonlinear_arith)
                requires
                    0 <= i <= 99,
                    -1 <= count as int - 1 <= MAX_ANCHORS as int,
            ;
        }
        let xi = Rat::whole(i as i64).times(&step);
        proof {
            assert(xi@ == sample_pos(i as int, count as int));
            if count >= 1 {
                assert(0 <= (i as int) * (count as int - 1)) by (nonlinear_arith)
                    requires
                        0 <= i,
                        count >= 1,
                ;
                assert((i as int) * (count as int - 1) <= (count as int - 1) * 100)
                    by (nonlinear_arith)
                    requires
                        0 <= i <= 100,
                        count >= 1,
                ;
                assert(query_in_range(xi@, count as int));
            }
        }
        let red_y = match find_y(xi, &channels.red) {
            Ok(y) => y,
            Err(e) => {
                proof {
                    assert(channels.red@.len() == cs.len());
                    assert(count == 0);
                }
                return Err(e);
            },
        };
        let green_y = match find_y(xi, &channels.green) {
            Ok(y) => y,
            Err(e) => {
                proof {
                    assert(channels.green@.len() == cs.len());
                    assert(count == 0);
                }
                return Err(e);
            },
        };
        let blue_y = match find_y(xi, &channels.blue) {
            Ok(y) => y,
            Err(e) => {
                proof {
                    assert(channels.blue@.len() == cs.len());
                    assert(count == 0);
                }
                return Err(e);
            },
        };
        proof {
            lemma_eval_in_channel_range(xi@, reds_of(cs));
            lemma_eval_in_channel_range(xi@, greens_of(cs));
            lemma_eval_in_channel_range(xi@, blues_of(cs));
        }
        let c = RGB {
            r: channel_value(&red_y),
            g: channel_value(&green_y),
            b: channel_value(&blue_y),
        };
        colors.push(c);
        proof {
            assert(sample_color_matches(c, cs, i as int));
        }
        i = i + 1;
    }
    proof {
        assert(sample_color_matches(colors@[0], cs, 0));
        assert(sample_pos(0, count as int) == (RatVal { num: 0, den: 100 }));
        vstd::arithmetic::div_mod::lemma_fundamental_div_mod_converse(0, 100, 0, 0);
        lemma_trunc_of_whole(cs[0].r as int);
        lemma_trunc_of_whole(cs[0].g as int);
        lemma_trunc_of_whole(cs[0].b as int);
        assert(colors@[0] == cs[0]);
    }
    Ok(colors)
}

} // verus!
