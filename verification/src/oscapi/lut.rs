//! Addressing of the host's constant tables.
//!
//! The tables hold single-precision numbers and stay with the host. What is
//! computed here is where a position falls in a table: which entries to
//! read, and how far between them the position lies. A position is a
//! single-precision number, carried as its bit pattern.

use vstd::arithmetic::div_mod::{
    lemma_div_by_multiple, lemma_div_by_multiple_is_strongly_ordered, lemma_div_is_ordered,
    lemma_mod_add_multiples_vanish, lemma_mod_multiples_basic,
};
use vstd::arithmetic::power2::{
    lemma2_to64, lemma2_to64_rest, lemma_pow2_adds, lemma_pow2_pos, pow2,
};
use vstd::prelude::*;

use crate::dsp::{
    below_pow2, exponent, fraction, is_finite, is_nan, lemma_below_one, lemma_scaled_is_injective,
    lemma_scaled_strictly_increases, scaled_magnitude, sign_bit, split_pow2, unit,
    INFINITY_BITS, ONE_BITS, SIGN_MASK, TWO_POW_32_BITS, TWO_POW_64_BITS,
};

verus! {

/// Entries of a wavetable. The last repeats the first.
pub const WAVE_LEN: usize = 129;

/// Steps of one cycle through a wavetable.
pub const WAVE_STEPS: usize = 128;

/// Entries of the table of bit-crush resolutions.
pub const BITRES_LUT_LEN: usize = 129;

/// Entries of the table of note frequencies.
pub const MIDI_TO_HZ_LUT_LEN: usize = 152;

/// The index that the scaled position `xf` names, as a cast to an unsigned
/// integer reads it: zero for a negative number and for a NaN, the whole part
/// for any other number. Positive infinity reads as 2^128, past every index.
pub open spec fn index_of(xf: u32) -> nat {
    if sign_bit(xf) || is_nan(xf) {
        0
    } else {
        scaled_magnitude(xf) / unit()
    }
}

/// The option that the scaled position `xf` selects among `opts`: the one at
/// its index, or none where the index is past the last option.
pub open spec fn picked<T>(opts: Seq<T>, xf: u32) -> Option<T> {
    if index_of(xf) < opts.len() {
        Some(opts[index_of(xf) as int])
    } else {
        None
    }
}

/// How the fields of an encoding without sign bit tell a NaN and an infinity apart.
proof fn lemma_classify(bits: u32)
    requires
        bits < 0x8000_0000,
    ensures
        is_nan(bits) <==> bits > INFINITY_BITS,
        is_finite(bits) <==> bits < INFINITY_BITS,
        !sign_bit(bits),
{
}

/// The encoding of 2^64 stands for 2^64.
proof fn lemma_two_pow_64()
    ensures
        scaled_magnitude(TWO_POW_64_BITS) == pow2(64) * unit(),
        pow2(64) == 0x1_0000_0000_0000_0000,
{
    lemma2_to64();
    lemma_pow2_adds(23, 41);
    lemma_pow2_adds(64, 149);
    lemma_pow2_adds(23, 190);
    lemma2_to64_rest();
    assert(exponent(TWO_POW_64_BITS) == 191 && fraction(TWO_POW_64_BITS) == 0);
}

/// Reads the index that the scaled position `xf` names, or `None` for an
/// index of 2^64 or more.
pub fn position_index(xf: u32) -> (index: Option<u64>)
    ensures
        match index {
            Some(index) => index == index_of(xf),
            None => index_of(xf) >= 0x1_0000_0000_0000_0000,
        },
{
    if xf >= SIGN_MASK {
        Some(0)
    } else if xf > INFINITY_BITS {
        proof {
            lemma_classify(xf);
        }
        Some(0)
    } else if xf >= TWO_POW_64_BITS {
        proof {
            lemma_classify(xf);
            lemma_two_pow_64();
            if xf > TWO_POW_64_BITS {
                lemma_scaled_strictly_increases(TWO_POW_64_BITS, xf);
            }
            lemma_pow2_pos(149);
            lemma_div_is_ordered(
                pow2(64) * unit() as int,
                scaled_magnitude(xf) as int,
                unit() as int,
            );
            lemma_div_by_multiple(pow2(64) as int, unit() as int);
        }
        None
    } else {
        proof {
            lemma_classify(xf);
            lemma2_to64();
            assert(scaled_magnitude(xf) * 1 == scaled_magnitude(xf));
        }
        Some(split_pow2(xf, 0).0)
    }
}

/// Selects one of `opts` by the scaled position `xf`: the position in
/// `[0, 1]` times the last index, which the caller forms in single precision.
pub fn pick1<T: Copy>(opts: &[T], xf: u32) -> (opt: Option<T>)
    ensures
        opt == picked(opts@, xf),
{
    match position_index(xf) {
        Some(index) => {
            if index < opts.len() as u64 {
                Some(opts[index as usize])
            } else {
                None
            }
        },
        None => {
            assert(opts@.len() == opts.len());
            None
        },
    }
}

/// Selects as `pick1` does, for a caller who has made sure that the position
/// names an option.
pub fn pick1_in_bounds<T: Copy>(opts: &[T], xf: u32) -> (opt: T)
    requires
        picked(opts@, xf).is_some(),
    ensures
        Some(opt) == picked(opts@, xf),
{
    let index = position_index(xf);
    assert(opts@.len() == opts.len());
    opts[index.unwrap() as usize]
}

/// A position of zero selects the first option.
pub proof fn lemma_pick1_first<T>(opts: Seq<T>)
    requires
        opts.len() > 0,
    ensures
        picked(opts, 0) == Some(opts[0]),
{
    lemma_pow2_pos(149);
}

/// The position of the last index selects the last option.
pub proof fn lemma_pick1_last<T>(opts: Seq<T>, xf: u32)
    requires
        opts.len() > 0,
        xf <= INFINITY_BITS,
        scaled_magnitude(xf) == (opts.len() - 1) * unit(),
    ensures
        picked(opts, xf) == Some(opts.last()),
{
    lemma_classify(xf);
    lemma_pow2_pos(149);
    lemma_div_by_multiple(opts.len() - 1, unit() as int);
}

/// Where there is one option, it is selected whatever the position was: a
/// product with the last index, zero, is a zero of either sign or a NaN.
pub proof fn lemma_pick1_single<T>(opts: Seq<T>, xf: u32)
    requires
        opts.len() == 1,
        xf == 0 || xf == SIGN_MASK || is_nan(xf),
    ensures
        picked(opts, xf) == Some(opts[0]),
{
    lemma_pow2_pos(149);
}

/// Where a position falls in a table.
#[derive(Clone, Copy, Debug, PartialEq, Eq, Structural)]
pub enum Lookup {
    /// At or past the last entry: the value is that entry.
    Last { index: usize },
    /// Between two neighbours: the value lies `fraction` of the way from
    /// entry `lo` to entry `hi`, `fraction` being a number in `[0, 1)`.
    Between { lo: usize, hi: usize, fraction: u32 },
}

/// `found` is where the position `x` times 2^`shift` falls in a table of `len` entries.
pub open spec fn is_lookup(len: nat, x: u32, shift: nat, found: Lookup) -> bool {
    let position = scaled_magnitude(x) * pow2(shift);
    let index = position / unit();
    if index + 1 >= len {
        found == (Lookup::Last { index: (len - 1) as usize })
    } else {
        found matches Lookup::Between { lo, hi, fraction } && lo == index && hi == index + 1
            && fraction < ONE_BITS && scaled_magnitude(fraction) == position % unit()
    }
}

/// Finds the position `x` times 2^`shift` in a table of `len` entries.
///
/// For a table whose last index is a power of two, `x` is the position in
/// `[0, 1]` and `shift` that power; for any other table, `x` is the position
/// times the last index, which the caller forms in single precision, and
/// `shift` is zero. The product must be below 2^32.
pub fn lut_lookup(len: usize, x: u32, shift: u32) -> (found: Lookup)
    requires
        len >= 1,
        shift <= 31,
        below_pow2(x, 32 - shift),
    ensures
        is_lookup(len as nat, x, shift as nat, found),
{
    let (whole, fraction) = split_pow2(x, shift);
    if whole >= (len - 1) as u64 {
        Lookup::Last { index: len - 1 }
    } else {
        Lookup::Between { lo: whole as usize, hi: whole as usize + 1, fraction }
    }
}

/// Finds a bit-crush amount in `[0, 1]` in the table of resolutions.
pub fn bitres_lookup(x: u32) -> (found: Lookup)
    requires
        x <= ONE_BITS,
    ensures
        is_lookup(BITRES_LUT_LEN as nat, x, 7, found),
{
    lut_lookup(BITRES_LUT_LEN, x, 7)
}

/// A position has one place in a table.
pub proof fn lemma_lookup_is_unique(len: nat, x: u32, shift: nat, a: Lookup, b: Lookup)
    requires
        is_lookup(len, x, shift, a),
        is_lookup(len, x, shift, b),
    ensures
        a == b,
{
    if let Lookup::Between { fraction: fa, .. } = a {
        if let Lookup::Between { fraction: fb, .. } = b {
            lemma_scaled_is_injective(fa, fb);
        }
    }
}

/// A position at or past the last entry gives that entry itself.
pub proof fn lemma_lookup_top(len: nat, x: u32, shift: nat, found: Lookup)
    requires
        len >= 1,
        is_lookup(len, x, shift, found),
        scaled_magnitude(x) * pow2(shift) >= (len - 1) * unit(),
    ensures
        found == (Lookup::Last { index: (len - 1) as usize }),
{
    lemma_pow2_pos(149);
    lemma_div_is_ordered(
        (len - 1) * unit(),
        (scaled_magnitude(x) * pow2(shift)) as int,
        unit() as int,
    );
    lemma_div_by_multiple(len - 1, unit() as int);
}

/// A position that is exactly entry `k`, not the last, gives that entry: it
/// lies none of the way towards the next.
pub proof fn lemma_lookup_entry(len: nat, x: u32, shift: nat, k: nat, found: Lookup)
    requires
        is_lookup(len, x, shift, found),
        scaled_magnitude(x) * pow2(shift) == k * unit(),
        k + 1 < len,
        k <= usize::MAX,
    ensures
        found == (Lookup::Between { lo: k as usize, hi: (k + 1) as usize, fraction: 0 }),
{
    lemma_pow2_pos(149);
    lemma_div_by_multiple(k as int, unit() as int);
    lemma_mod_multiples_basic(k as int, unit() as int);
    if let Lookup::Between { fraction, .. } = found {
        lemma_scaled_is_injective(fraction, 0);
    }
}

/// Where a phase falls in a wavetable: between entries `lo` and `hi`,
/// `fraction` of the way from the one to the other.
#[derive(Clone, Copy, Debug, PartialEq, Eq, Structural)]
pub struct WaveScan {
    pub lo: usize,
    pub hi: usize,
    pub fraction: u32,
}

/// The step of the cycle that the phase `x` falls in. Only the fraction of
/// `x` counts: a wavetable is periodic.
pub open spec fn wave_index(x: u32) -> nat {
    (scaled_magnitude(x) % unit()) * 128 / unit()
}

/// How far into its step the phase `x` lies, in units of 2^-149 of a step.
pub open spec fn wave_fraction(x: u32) -> nat {
    (scaled_magnitude(x) % unit()) * 128 % unit()
}

/// Finds the phase `x` in a wavetable. The step after the last is the first.
pub fn wave_scan(x: u32) -> (scan: WaveScan)
    requires
        x < TWO_POW_32_BITS,
    ensures
        scan.lo == wave_index(x),
        scan.lo < WAVE_STEPS,
        scan.hi == (scan.lo + 1) % 128,
        scan.fraction < ONE_BITS,
        scaled_magnitude(scan.fraction) == wave_fraction(x),
{
    proof {
        lemma2_to64();
        assert(scaled_magnitude(x) * 1 == scaled_magnitude(x));
    }
    let (_, p) = split_pow2(x, 0);
    proof {
        lemma_below_one(p);
        lemma_pow2_pos(149);
        let s = scaled_magnitude(p) as int;
        let u = unit() as int;
        assert(s * 128 < 128 * u) by (nonlinear_arith)
            requires
                s < u,
        ;
        lemma_div_by_multiple_is_strongly_ordered(s * 128, 128 * u, 128, u);
        lemma_div_by_multiple(128, u);
    }
    let (whole, fraction) = split_pow2(p, 7);
    let x0: u32 = (whole as u32) & 127;
    assert(x0 == whole) by (bit_vector)
        requires
            x0 == (whole as u32) & 127,
            whole < 128,
    ;
    let x1: u32 = (x0 + 1) & 127;
    assert(x1 == (x0 + 1) % 128) by (bit_vector)
        requires
            x1 == ((x0 + 1) as u32) & 127,
            x0 < 128,
    ;
    WaveScan { lo: x0 as usize, hi: x1 as usize, fraction }
}

/// A phase and the phase one whole cycle later fall in the same place of a wavetable.
pub proof fn lemma_wave_scan_is_periodic(x: u32, y: u32)
    requires
        scaled_magnitude(y) == scaled_magnitude(x) + unit(),
    ensures
        wave_index(y) == wave_index(x),
        wave_fraction(y) == wave_fraction(x),
{
    lemma_pow2_pos(149);
    lemma_mod_add_multiples_vanish(scaled_magnitude(x) as int, unit() as int);
}

/// The entry of the table of note frequencies that holds `note`: the note
/// itself, or the last entry for a note past it.
pub fn note_index(note: u8) -> (index: usize)
    ensures
        index == if note < MIDI_TO_HZ_LUT_LEN { note as int } else { MIDI_TO_HZ_LUT_LEN - 1 },
{
    if (note as usize) < MIDI_TO_HZ_LUT_LEN {
        note as usize
    } else {
        MIDI_TO_HZ_LUT_LEN - 1
    }
}

/// The entries between which a pitch lies: that of its note and that of the note above.
pub fn note_span(note: u8) -> (span: (usize, usize))
    ensures
        span.0 == if note < MIDI_TO_HZ_LUT_LEN { note as int } else { MIDI_TO_HZ_LUT_LEN - 1 },
        span.1 == if note + 1 < MIDI_TO_HZ_LUT_LEN { note + 1 } else { MIDI_TO_HZ_LUT_LEN - 1 },
{
    let lo = note_index(note);
    let hi = if note as usize + 1 < MIDI_TO_HZ_LUT_LEN {
        note as usize + 1
    } else {
        MIDI_TO_HZ_LUT_LEN - 1
    };
    (lo, hi)
}

} // verus!
