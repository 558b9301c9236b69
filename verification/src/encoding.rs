//! The mathematical model of the codec: which 16-bit code units are
//! surrogates, how a code point is laid out as bytes, and the two
//! directions of the conversion as functions over sequences.

use vstd::prelude::*;

verus! {

/// A high (leading) surrogate code unit.
pub open spec fn is_high_surrogate(u: u16) -> bool {
    0xD800 <= u && u <= 0xDBFF
}

/// A low (trailing) surrogate code unit.
pub open spec fn is_low_surrogate(u: u16) -> bool {
    0xDC00 <= u && u <= 0xDFFF
}

/// The scalar value encoded by a surrogate pair; always in
/// `0x10000 ..= 0x10FFFF`.
pub open spec fn pair_value(hi: u16, lo: u16) -> int {
    0x10000 + (hi - 0xD800) * 0x400 + (lo - 0xDC00)
}

/// How many bytes the code point `cp` occupies.
pub open spec fn utf8_len(cp: int) -> int {
    if cp < 0x80 {
        1
    } else if cp < 0x800 {
        2
    } else if cp < 0x10000 {
        3
    } else {
        4
    }
}

/// The byte layout of the code point `cp` (`0 <= cp <= 0x10FFFF`), using
/// the standard UTF-8 formula. A code point in the surrogate range gets
/// the 3-byte pattern that the formula assigns it, although well-formed
/// UTF-8 forbids it: this is the extended form that keeps unpaired
/// surrogates representable.
pub open spec fn utf8_bytes(cp: int) -> Seq<u8> {
    if cp < 0x80 {
        seq![cp as u8]
    } else if cp < 0x800 {
        seq![(0xC0 + cp / 0x40) as u8, (0x80 + cp % 0x40) as u8]
    } else if cp < 0x10000 {
        seq![
            (0xE0 + cp / 0x1000) as u8,
            (0x80 + (cp / 0x40) % 0x40) as u8,
            (0x80 + cp % 0x40) as u8,
        ]
    } else {
        seq![
            (0xF0 + cp / 0x40000) as u8,
            (0x80 + (cp / 0x1000) % 0x40) as u8,
            (0x80 + (cp / 0x40) % 0x40) as u8,
            (0x80 + cp % 0x40) as u8,
        ]
    }
}

/// The byte form of a wide string: each correctly paired high/low
/// surrogate becomes the 4-byte layout of its scalar value, and every
/// other code unit — ordinary scalars and unpaired surrogate halves
/// alike — becomes its own 1- to 3-byte layout.
pub open spec fn encode_wide(w: Seq<u16>) -> Seq<u8>
    decreases w.len(),
{
    if w.len() == 0 {
        Seq::empty()
    } else if is_high_surrogate(w[0]) && w.len() >= 2 && is_low_surrogate(w[1]) {
        utf8_bytes(pair_value(w[0], w[1])) + encode_wide(w.skip(2))
    } else {
        utf8_bytes(w[0] as int) + encode_wide(w.skip(1))
    }
}

/// The byte length of the encoding: the sum of the per-unit byte counts.
pub open spec fn encoded_len(w: Seq<u16>) -> int
    decreases w.len(),
{
    if w.len() == 0 {
        0
    } else if is_high_surrogate(w[0]) && w.len() >= 2 && is_low_surrogate(w[1]) {
        4 + encoded_len(w.skip(2))
    } else {
        utf8_len(w[0] as int) + encoded_len(w.skip(1))
    }
}

/// A continuation byte.
pub open spec fn is_cont(b: u8) -> bool {
    0x80 <= b && b <= 0xBF
}

/// How many bytes the well-formed sequence at the front of `b` occupies,
/// or `0` when the front is malformed. Well-formed means one of: an
/// ASCII byte; a 2- to 4-byte sequence with the right continuation
/// bytes, not overlong, and valued at most `0x10FFFF`. The 3-byte
/// surrogate patterns (lead `0xED`, second byte `0xA0..=0xBF`) count as
/// well-formed: they are the extended form's unpaired surrogates.
pub open spec fn head_len(b: Seq<u8>) -> int
    recommends
        b.len() > 0,
{
    let b0 = b[0];
    if b0 < 0x80 {
        1
    } else if 0xC2 <= b0 && b0 <= 0xDF {
        if b.len() >= 2 && is_cont(b[1]) {
            2
        } else {
            0
        }
    } else if 0xE0 <= b0 && b0 <= 0xEF {
        if b.len() >= 3 && is_cont(b[1]) && is_cont(b[2]) && (b0 != 0xE0 || b[1] >= 0xA0) {
            3
        } else {
            0
        }
    } else if 0xF0 <= b0 && b0 <= 0xF4 {
        if b.len() >= 4 && is_cont(b[1]) && is_cont(b[2]) && is_cont(b[3]) && (b0 != 0xF0
            || b[1] >= 0x90) && (b0 != 0xF4 || b[1] <= 0x8F) {
            4
        } else {
            0
        }
    } else {
        0
    }
}

/// The code point at the front of `b`, assuming `head_len(b) > 0`.
pub open spec fn head_value(b: Seq<u8>) -> int
    recommends
        b.len() > 0,
        head_len(b) > 0,
{
    let b0 = b[0];
    if head_len(b) == 1 {
        b0 as int
    } else if head_len(b) == 2 {
        (b0 - 0xC0) * 0x40 + (b[1] - 0x80)
    } else if head_len(b) == 3 {
        (b0 - 0xE0) * 0x1000 + (b[1] - 0x80) * 0x40 + (b[2] - 0x80)
    } else {
        (b0 - 0xF0) * 0x40000 + (b[1] - 0x80) * 0x1000 + (b[2] - 0x80) * 0x40 + (b[3] - 0x80)
    }
}

/// The code unit form of the code point `cp`: one unit when it fits in
/// 16 bits (surrogate values included), a surrogate pair above that.
pub open spec fn units_of(cp: int) -> Seq<u16> {
    if cp < 0x10000 {
        seq![cp as u16]
    } else {
        seq![
            (0xD800 + (cp - 0x10000) / 0x400) as u16,
            (0xDC00 + (cp - 0x10000) % 0x400) as u16,
        ]
    }
}

/// The wide form of a byte string: each well-formed front sequence
/// becomes the code unit form of its value, and a malformed front byte
/// becomes the replacement character and is skipped. On bytes produced
/// by `encode_wide` the malformed branch is never taken; on other bytes
/// it makes the function total and deterministic, so that the round-trip
/// comparison can decide acceptance.
pub open spec fn decode_bytes(b: Seq<u8>) -> Seq<u16>
    decreases b.len(),
{
    if b.len() == 0 {
        Seq::empty()
    } else if head_len(b) == 0 {
        seq![0xFFFDu16] + decode_bytes(b.skip(1))
    } else {
        units_of(head_value(b)) + decode_bytes(b.skip(head_len(b)))
    }
}

} // verus!
