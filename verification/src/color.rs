//! Colors and the channel splitter: an ordered sequence of RGB anchors is
//! decomposed into three index-aligned per-channel sequences.

use vstd::prelude::*;
use vstd::assert_seqs_equal;

verus! {

/// One color: three independent 8-bit signed components.
#[derive(Debug, Clone, Copy, PartialEq, Eq, Structural)]
pub struct RGB {
    pub r: i8,
    pub g: i8,
    pub b: i8,
}

/// Three index-aligned per-channel sequences; the i-th element of each
/// corresponds to the i-th input color.
#[derive(Debug)]
pub struct Channels {
    pub red: Vec<i8>,
    pub green: Vec<i8>,
    pub blue: Vec<i8>,
}

/// The red components of a color sequence, in order.
pub open spec fn reds_of(colors: Seq<RGB>) -> Seq<i8> {
    colors.map(|i: int, c: RGB| c.r)
}

/// The green components of a color sequence, in order.
pub open spec fn greens_of(colors: Seq<RGB>) -> Seq<i8> {
    colors.map(|i: int, c: RGB| c.g)
}

/// The blue components of a color sequence, in order.
pub open spec fn blues_of(colors: Seq<RGB>) -> Seq<i8> {
    colors.map(|i: int, c: RGB| c.b)
}

/// Zips three equally long channel sequences back into colors.
pub open spec fn zip_channels(red: Seq<i8>, green: Seq<i8>, blue: Seq<i8>) -> Seq<RGB> {
    Seq::new(red.len(), |i: int| RGB { r: red[i], g: green[i], b: blue[i] })
}

/// Splitting a color sequence and zipping the three channel sequences back
/// together index by index reconstructs the original sequence exactly.
pub proof fn lemma_split_zip_roundtrip(colors: Seq<RGB>)
    ensures
        zip_channels(reds_of(colors), greens_of(colors), blues_of(colors)) == colors,
{
    assert_seqs_equal!(
        zip_channels(reds_of(colors), greens_of(colors), blues_of(colors)),
        colors
    );
}

/// Pulls the individual components out of each color and collects them in
/// the respective channel sequence, preserving input order.
pub fn get_channels(colors: Vec<RGB>) -> (channels: Channels)
    ensures
        channels.red@ == reds_of(colors@),
        channels.green@ == greens_of(colors@),
        channels.blue@ == blues_of(colors@),
{
    let mut red: Vec<i8> = Vec::new();
    let mut green: Vec<i8> = Vec::new();
    let mut blue: Vec<i8> = Vec::new();

    let mut i: usize = 0;
    while i < colors.len()
        invariant
            i <= colors@.len(),
            red@ == reds_of(colors@).take(i as int),
            green@ == greens_of(colors@).take(i as int),
            blue@ == blues_of(colors@).take(i as int),
        decreases colors@.len() - i,
    {
        red.push(colors[i].r);
        green.push(colors[i].g);
        blue.push(colors[i].b);
        proof {
            assert_seqs_equal!(red@, reds_of(colors@).take(i as int + 1));
            assert_seqs_equal!(green@, greens_of(colors@).take(i as int + 1));
            assert_seqs_equal!(blue@, blues_of(colors@).take(i as int + 1));
        }
        i = i + 1;
    }
    proof {
        assert_seqs_equal!(red@, reds_of(colors@));
        assert_seqs_equal!(green@, greens_of(colors@));
        assert_seqs_equal!(blue@, blues_of(colors@));
    }
    Channels { red, green, blue }
}

/// An integer narrowed to the signed 8-bit range by two's-complement
/// wraparound: the value modulo 256, shifted into `[-128, 127]`.
pub open spec fn wrap_i8(v: int) -> int {
    if v % 256 <= 127 {
        v % 256
    } else {
        v % 256 - 256
    }
}

/// Narrows one component to `i8`, wrapping around instead of clamping.
fn wrap_to_i8(v: i64) -> (c: i8)
    ensures
        c as int == wrap_i8(v as int),
{
    proof {
        vstd::arithmetic::div_mod::lemma_mod_division_less_than_divisor(v as int, 256);
    }
    let m: i64 = v.checked_rem_euclid(256).unwrap();
    if m <= 127 {
        m as i8
    } else {
        (m - 256) as i8
    }
}

/// Builds a color from a 3-element numeric sequence, narrowing each entry
/// to its 8-bit component by wraparound, without a range check.
pub fn rgb_from_triple(values: &Vec<i64>) -> (c: RGB)
    requires
        values@.len() == 3,
    ensures
        c.r as int == wrap_i8(values@[0] as int),
        c.g as int == wrap_i8(values@[1] as int),
        c.b as int == wrap_i8(values@[2] as int),
{
    RGB { r: wrap_to_i8(values[0]), g: wrap_to_i8(values[1]), b: wrap_to_i8(values[2]) }
}

/// Whether two channel sequences hold the same values in the same order.
fn channel_seq_eq(a: &Vec<i8>, b: &Vec<i8>) -> (eq: bool)
    ensures
        eq == (a@ == b@),
{
    if a.len() != b.len() {
        return false;
    }
    let mut i: usize = 0;
    while i < a.len()
        invariant
            i <= a@.len(),
            a@.len() == b@.len(),
            forall|j: int| 0 <= j < i ==> a@[j] == b@[j],
        decreases a@.len() - i,
    {
        if a[i] != b[i] {
            return false;
        }
        i = i + 1;
    }
    proof {
        assert_seqs_equal!(a@, b@);
    }
    true
}

impl PartialEq for Channels {
    /// Channel sets are equal when all three channel sequences agree.
    fn eq(&self, other: &Channels) -> (eq: bool) {
        channel_seq_eq(&self.red, &other.red) && channel_seq_eq(&self.green, &other.green)
            && channel_seq_eq(&self.blue, &other.blue)
    }
}

impl vstd::std_specs::cmp::PartialEqSpecImpl for Channels {
    open spec fn obeys_eq_spec() -> bool {
        true
    }

    open spec fn eq_spec(&self, other: &Channels) -> bool {
        self.red@ == other.red@ && self.green@ == other.green@ && self.blue@ == other.blue@
    }
}

} // verus!
