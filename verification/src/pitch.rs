//! Equal-tempered pitch: the frequency of a note number.
//!
//! Note 69 sounds at 440 Hz and each step multiplies the frequency by the
//! twelfth root of two. Frequencies are in micro-hertz, rounded down. The
//! twelve notes of the highest octave are tabulated; a lower octave halves
//! them, which keeps the rounding exact.

use vstd::arithmetic::div_mod::lemma_fundamental_div_mod;
use vstd::arithmetic::mul::{lemma_mul_inequality_converse, lemma_mul_strict_inequality_converse};
use vstd::arithmetic::power2::{lemma2_to64, lemma2_to64_rest, lemma_pow2_adds, lemma_pow2_pos, pow2};
use vstd::bits::lemma_u64_shr_is_div;
use vstd::prelude::*;

verus! {

/// The note number of concert pitch.
pub const CONCERT_NOTE: u8 = 69;

/// The frequency of concert pitch, 440 Hz, in micro-hertz.
pub const CONCERT_PITCH: u64 = 440_000_000;

/// The octave of the tabulated notes: note numbers 252 to 263.
pub const TOP_OCTAVE: u8 = 21;

/// The twelfth power of `x`.
pub open spec fn pow12(x: int) -> int {
    let x2 = x * x;
    let x4 = x2 * x2;
    x4 * x4 * x4
}

/// `f` is `440 · 10⁶ · 2^((note − 69) / 12)` rounded down: the frequency of
/// `note` in micro-hertz. The bounds `f ≤ … < f + 1` are stated with both
/// sides raised to the twelfth power and multiplied by `2^69`, which leaves
/// only integers.
pub open spec fn is_note_frequency(note: nat, f: int) -> bool {
    &&& 0 <= f
    &&& pow12(f) * pow2(CONCERT_NOTE as nat) <= pow12(CONCERT_PITCH as int) * pow2(note)
    &&& pow12(CONCERT_PITCH as int) * pow2(note) < pow12(f + 1) * pow2(CONCERT_NOTE as nat)
}

/// The frequency of `note` in micro-hertz.
pub open spec fn note_frequency(note: nat) -> int {
    choose|f: int| is_note_frequency(note, f)
}

/// The frequency of note `252 + k`, for `k` below 12.
pub open spec fn top_octave(k: u8) -> u64 {
    match k {
        0 => 17_145_893_047_540,
        1 => 18_165_440_903_700,
        2 => 19_245_614_230_235,
        3 => 20_390_018_005_210,
        4 => 21_602_471_569_841,
        5 => 22_887_021_375_193,
        6 => 24_247_954_486_829,
        7 => 25_689_812_892_499,
        8 => 27_217_408_660_599,
        9 => 28_835_840_000_000,
        10 => 30_550_508_274_849,
        _ => 32_367_136_031_121,
    }
}

/// The twelfth power of a product is the product of the twelfth powers.
proof fn lemma_pow12_product(a: int, b: int)
    ensures
        pow12(a * b) == pow12(a) * pow12(b),
{
    let a2 = a * a;
    let b2 = b * b;
    let a4 = a2 * a2;
    let b4 = b2 * b2;
    assert((a * b) * (a * b) == a2 * b2) by (nonlinear_arith)
        requires
            a2 == a * a,
            b2 == b * b,
    ;
    assert((a2 * b2) * (a2 * b2) == a4 * b4) by (nonlinear_arith)
        requires
            a4 == a2 * a2,
            b4 == b2 * b2,
    ;
    assert((a4 * b4) * (a4 * b4) * (a4 * b4) == (a4 * a4 * a4) * (b4 * b4 * b4))
        by (nonlinear_arith);
}

/// The twelfth power does not fall as a non-negative number grows.
proof fn lemma_pow12_monotonic(a: int, b: int)
    requires
        0 <= a <= b,
    ensures
        0 <= pow12(a) <= pow12(b),
{
    let a2 = a * a;
    let b2 = b * b;
    let a4 = a2 * a2;
    let b4 = b2 * b2;
    assert(0 <= a2 <= b2) by (nonlinear_arith)
        requires
            0 <= a <= b,
            a2 == a * a,
            b2 == b * b,
    ;
    assert(0 <= a4 <= b4) by (nonlinear_arith)
        requires
            0 <= a2 <= b2,
            a4 == a2 * a2,
            b4 == b2 * b2,
    ;
    assert(0 <= a4 * a4 * a4 <= b4 * b4 * b4) by (nonlinear_arith)
        requires
            0 <= a4 <= b4,
    ;
}

/// The twelfth power of `2^s` is `2^(12·s)`.
proof fn lemma_pow12_of_pow2(s: nat)
    ensures
        pow12(pow2(s) as int) == pow2(12 * s),
{
    lemma_pow2_adds(s, s);
    lemma_pow2_adds(2 * s, 2 * s);
    lemma_pow2_adds(4 * s, 4 * s);
    lemma_pow2_adds(8 * s, 4 * s);
    let p = pow2(s) as int;
    assert(p * p == pow2(2 * s));
    assert((p * p) * (p * p) == pow2(4 * s));
    assert(pow2(4 * s) * pow2(4 * s) * pow2(4 * s) == pow2(12 * s));
}

/// The table holds the frequencies of the notes 252 to 263.
proof fn lemma_top_octave(k: u8)
    requires
        k < 12,
    ensures
        is_note_frequency(252 + k as nat, top_octave(k) as int),
{
    let t = top_octave(k) as int;
    let a12 = pow12(CONCERT_PITCH as int);
    let p61 = pow2(61) as int;
    let p = pow2(183 + k as nat) as int;
    let p69 = pow2(69) as int;
    lemma2_to64();
    lemma2_to64_rest();
    lemma_pow2_adds(61, 61);
    lemma_pow2_adds(122, 61);
    lemma_pow2_adds(183, k as nat);
    lemma_pow2_adds(69, 183 + k as nat);
    lemma_pow2_pos(69);
    assert(p == p61 * p61 * p61 * pow2(k as nat)) by (nonlinear_arith)
        requires
            p == pow2(183) * pow2(k as nat),
            pow2(183) == pow2(122) * p61,
            pow2(122) == p61 * p61,
    ;
    if k == 0 {
        assert(pow12(t) <= a12 * p && a12 * p < pow12(t + 1)) by (nonlinear_arith)
            requires
                t == 17_145_893_047_540,
                a12 == pow12(440_000_000),
                p == p61 * p61 * p61 * 1,
                p61 == 0x2000_0000_0000_0000,
        ;
    } else if k == 1 {
        assert(pow12(t) <= a12 * p && a12 * p < pow12(t + 1)) by (nonlinear_arith)
            requires
                t == 18_165_440_903_700,
                a12 == pow12(440_000_000),
                p == p61 * p61 * p61 * 2,
                p61 == 0x2000_0000_0000_0000,
        ;
    } else if k == 2 {
        assert(pow12(t) <= a12 * p && a12 * p < pow12(t + 1)) by (nonlinear_arith)
            requires
                t == 19_245_614_230_235,
                a12 == pow12(440_000_000),
                p == p61 * p61 * p61 * 4,
                p61 == 0x2000_0000_0000_0000,
        ;
    } else if k == 3 {
        assert(pow12(t) <= a12 * p && a12 * p < pow12(t + 1)) by (nonlinear_arith)
            requires
                t == 20_390_018_005_210,
                a12 == pow12(440_000_000),
                p == p61 * p61 * p61 * 8,
                p61 == 0x2000_0000_0000_0000,
        ;
    } else if k == 4 {
        assert(pow12(t) <= a12 * p && a12 * p < pow12(t + 1)) by (nonlinear_arith)
            requires
                t == 21_602_471_569_841,
                a12 == pow12(440_000_000),
                p == p61 * p61 * p61 * 16,
                p61 == 0x2000_0000_0000_0000,
        ;
    } else if k == 5 {
        assert(pow12(t) <= a12 * p && a12 * p < pow12(t + 1)) by (nonlinear_arith)
            requires
                t == 22_887_021_375_193,
                a12 == pow12(440_000_000),
                p == p61 * p61 * p61 * 32,
                p61 == 0x2000_0000_0000_0000,
        ;
    } else if k == 6 {
        assert(pow12(t) <= a12 * p && a12 * p < pow12(t + 1)) by (nonlinear_arith)
            requires
                t == 24_247_954_486_829,
                a12 == pow12(440_000_000),
                p == p61 * p61 * p61 * 64,
                p61 == 0x2000_0000_0000_0000,
        ;
    } else if k == 7 {
        assert(pow12(t) <= a12 * p && a12 * p < pow12(t + 1)) by (nonlinear_arith)
            requires
                t == 25_689_812_892_499,
                a12 == pow12(440_000_000),
                p == p61 * p61 * p61 * 128,
                p61 == 0x2000_0000_0000_0000,
        ;
    } else if k == 8 {
        assert(pow12(t) <= a12 * p && a12 * p < pow12(t + 1)) by (nonlinear_arith)
            requires
                t == 27_217_408_660_599,
                a12 == pow12(440_000_000),
                p == p61 * p61 * p61 * 256,
                p61 == 0x2000_0000_0000_0000,
        ;
    } else if k == 9 {
        assert(pow12(t) <= a12 * p && a12 * p < pow12(t + 1)) by (nonlinear_arith)
            requires
                t == 28_835_840_000_000,
                a12 == pow12(440_000_000),
                p == p61 * p61 * p61 * 512,
                p61 == 0x2000_0000_0000_0000,
        ;
    } else if k == 10 {
        assert(pow12(t) <= a12 * p && a12 * p < pow12(t + 1)) by (nonlinear_arith)
            requires
                t == 30_550_508_274_849,
                a12 == pow12(440_000_000),
                p == p61 * p61 * p61 * 1024,
                p61 == 0x2000_0000_0000_0000,
        ;
    } else if k == 11 {
        assert(pow12(t) <= a12 * p && a12 * p < pow12(t + 1)) by (nonlinear_arith)
            requires
                t == 32_367_136_031_121,
                a12 == pow12(440_000_000),
                p == p61 * p61 * p61 * 2048,
                p61 == 0x2000_0000_0000_0000,
        ;
    }
    assert(pow12(t) * p69 <= a12 * (p69 * p) && a12 * (p69 * p) < pow12(t + 1) * p69)
        by (nonlinear_arith)
        requires
            pow12(t) <= a12 * p,
            a12 * p < pow12(t + 1),
            p69 > 0,
    ;
}

/// An octave down halves the frequency: if `t` is the frequency of the note
/// `s` octaves above `note`, then `t / 2^s` is the frequency of `note`.
proof fn lemma_octaves_down(note: nat, s: nat, t: int)
    requires
        is_note_frequency(note + 12 * s, t),
    ensures
        is_note_frequency(note, t / (pow2(s) as int)),
{
    let d = pow2(s) as int;
    let f = t / d;
    let a12 = pow12(CONCERT_PITCH as int);
    let p69 = pow2(69) as int;
    let pn = pow2(note) as int;
    let d12 = pow12(d);
    lemma_pow2_pos(s);
    lemma_pow2_pos(12 * s);
    lemma_pow2_adds(note, 12 * s);
    lemma_pow12_of_pow2(s);
    lemma_fundamental_div_mod(t, d);
    assert(0 <= f && f * d <= t && t + 1 <= (f + 1) * d) by (nonlinear_arith)
        requires
            t == d * f + t % d,
            0 <= t % d < d,
            0 <= t,
    ;
    lemma_pow12_monotonic(f * d, t);
    lemma_pow12_monotonic(t + 1, (f + 1) * d);
    lemma_pow12_product(f, d);
    lemma_pow12_product(f + 1, d);
    // Both bounds hold when multiplied by the twelfth power of 2^s.
    assert((pow12(f) * p69) * d12 <= (a12 * pn) * d12) by (nonlinear_arith)
        requires
            pow12(f) * d12 <= pow12(t),
            pow12(t) * p69 <= a12 * (pn * d12),
            p69 >= 0,
    ;
    assert((a12 * pn) * d12 < (pow12(f + 1) * p69) * d12) by (nonlinear_arith)
        requires
            pow12(t + 1) <= pow12(f + 1) * d12,
            a12 * (pn * d12) < pow12(t + 1) * p69,
            p69 >= 0,
    ;
    lemma_mul_inequality_converse(pow12(f) * p69, a12 * pn, d12);
    lemma_mul_strict_inequality_converse(a12 * pn, pow12(f + 1) * p69, d12);
}

/// A note has one frequency only.
pub proof fn lemma_note_frequency_unique(note: nat, f: int, g: int)
    requires
        is_note_frequency(note, f),
        is_note_frequency(note, g),
    ensures
        f == g,
{
    let p69 = pow2(69) as int;
    lemma_pow2_pos(69);
    if f < g {
        lemma_pow12_monotonic(f + 1, g);
        assert(pow12(f + 1) * p69 <= pow12(g) * p69) by (nonlinear_arith)
            requires
                pow12(f + 1) <= pow12(g),
                p69 >= 0,
        ;
    } else if g < f {
        lemma_pow12_monotonic(g + 1, f);
        assert(pow12(g + 1) * p69 <= pow12(f) * p69) by (nonlinear_arith)
            requires
                pow12(g + 1) <= pow12(f),
                p69 >= 0,
        ;
    }
}

/// Whatever meets the definition of a note's frequency is its frequency.
pub proof fn lemma_note_frequency_is(note: nat, f: int)
    requires
        is_note_frequency(note, f),
    ensures
        note_frequency(note) == f,
{
    lemma_note_frequency_unique(note, f, note_frequency(note));
}

/// Every note number up to 255 has a frequency, and it fits in 64 bits.
pub proof fn lemma_note_frequency_in_range(note: nat)
    requires
        note <= 255,
    ensures
        is_note_frequency(note, note_frequency(note)),
        0 <= note_frequency(note) <= u64::MAX,
{
    let k = (note % 12) as u8;
    let shift = (TOP_OCTAVE - note / 12) as nat;
    let top = top_octave(k);
    lemma_top_octave(k);
    lemma_octaves_down(note, shift, top as int);
    lemma_pow2_pos(shift);
    let f = top as int / (pow2(shift) as int);
    lemma_note_frequency_is(note, f);
    vstd::arithmetic::div_mod::lemma_div_is_ordered_by_denominator(top as int, 1, pow2(shift) as int);
}

/// Concert pitch is exact: note 69 sounds at 440 Hz.
pub proof fn lemma_concert_pitch()
    ensures
        is_note_frequency(CONCERT_NOTE as nat, CONCERT_PITCH as int),
        note_frequency(CONCERT_NOTE as nat) == CONCERT_PITCH,
{
    let p69 = pow2(69) as int;
    lemma_pow2_pos(69);
    lemma_pow12_monotonic(CONCERT_PITCH as int, CONCERT_PITCH + 1);
    assert(pow12(440_000_000) < pow12(440_000_001)) by (nonlinear_arith);
    assert(pow12(440_000_000) * p69 < pow12(440_000_001) * p69) by (nonlinear_arith)
        requires
            pow12(440_000_000) < pow12(440_000_001),
            p69 > 0,
    ;
    lemma_note_frequency_is(CONCERT_NOTE as nat, CONCERT_PITCH as int);
}

/// The frequency of `note` in micro-hertz: `440 Hz · 2^((note − 69) / 12)`,
/// rounded down.
pub fn frequency(note: u8) -> (f: u64)
    ensures
        f == note_frequency(note as nat),
        is_note_frequency(note as nat, f as int),
{
    let k: u8 = note % 12;
    let octave: u8 = note / 12;
    let top: u64 = match k {
        0 => 17_145_893_047_540,
        1 => 18_165_440_903_700,
        2 => 19_245_614_230_235,
        3 => 20_390_018_005_210,
        4 => 21_602_471_569_841,
        5 => 22_887_021_375_193,
        6 => 24_247_954_486_829,
        7 => 25_689_812_892_499,
        8 => 27_217_408_660_599,
        9 => 28_835_840_000_000,
        10 => 30_550_508_274_849,
        _ => 32_367_136_031_121,
    };
    let shift: u64 = (TOP_OCTAVE - octave) as u64;
    proof {
        assert(top == top_octave(k));
        lemma_top_octave(k);
        lemma_octaves_down(note as nat, shift as nat, top as int);
        lemma_u64_shr_is_div(top, shift);
        lemma_note_frequency_is(note as nat, (top >> shift) as int);
    }
    top >> shift
}

} // verus!
