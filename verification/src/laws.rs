//! The laws of the codec: every wide string survives the byte round
//! trip unchanged, a byte string is accepted exactly when it is some
//! wide string's encoding, the encoding's length is the per-unit sum,
//! and an unpaired high surrogate keeps its own 3-byte form.

use vstd::prelude::*;

use crate::encoding::{
    decode_bytes, encode_wide, encoded_len, head_len, head_value, is_high_surrogate,
    is_low_surrogate, pair_value, units_of, utf8_bytes, utf8_len,
};
use vstd::arithmetic::div_mod::{lemma_div_denominator, lemma_fundamental_div_mod};

verus! {

/// The front of `utf8_bytes(cp) + rest` parses back to `cp` exactly,
/// whatever follows it.
proof fn lemma_head_of_encoding(cp: int, rest: Seq<u8>)
    requires
        0 <= cp <= 0x10FFFF,
    ensures
        utf8_bytes(cp).len() == utf8_len(cp),
        head_len(utf8_bytes(cp) + rest) == utf8_len(cp),
        head_value(utf8_bytes(cp) + rest) == cp,
        (utf8_bytes(cp) + rest).skip(utf8_len(cp)) == rest,
{
    let b = utf8_bytes(cp) + rest;
    let n = utf8_len(cp);
    assert(b.skip(n) =~= rest);
    if cp < 0x80 {
        assert(b[0] == cp as u8);
    } else if cp < 0x800 {
        let q = cp / 0x40;
        let r = cp % 0x40;
        lemma_fundamental_div_mod(cp, 0x40);
        assert(2 <= q <= 0x1F);
        assert(b[0] == (0xC0 + q) as u8);
        assert(b[1] == (0x80 + r) as u8);
        assert(head_len(b) == 2);
        assert(head_value(b) == q * 0x40 + r);
    } else if cp < 0x10000 {
        let q1 = cp / 0x40;
        let r1 = cp % 0x40;
        let q2 = cp / 0x1000;
        lemma_fundamental_div_mod(cp, 0x40);
        lemma_fundamental_div_mod(q1, 0x40);
        lemma_div_denominator(cp, 0x40, 0x40);
        assert(q1 / 0x40 == q2);
        assert(0x20 <= q1 <= 0x3FF);
        assert(0 <= q2 <= 0xF);
        assert(b[0] == (0xE0 + q2) as u8);
        assert(b[1] == (0x80 + q1 % 0x40) as u8);
        assert(b[2] == (0x80 + r1) as u8);
        if q2 == 0 {
            assert(q1 < 0x40);
            assert(q1 % 0x40 == q1);
            assert(b[1] >= 0xA0);
        }
        assert(head_len(b) == 3);
        assert(head_value(b) == q2 * 0x1000 + (q1 % 0x40) * 0x40 + r1);
        assert(cp == (q1 / 0x40 * 0x40 + q1 % 0x40) * 0x40 + r1);
    } else {
        let q1 = cp / 0x40;
        let r1 = cp % 0x40;
        let q2 = cp / 0x1000;
        let q3 = cp / 0x40000;
        lemma_fundamental_div_mod(cp, 0x40);
        lemma_fundamental_div_mod(q1, 0x40);
        lemma_fundamental_div_mod(q2, 0x40);
        lemma_div_denominator(cp, 0x40, 0x40);
        lemma_div_denominator(cp, 0x1000, 0x40);
        assert(q1 / 0x40 == q2);
        assert(q2 / 0x40 == q3);
        assert(0x10 <= q2 <= 0x10F);
        assert(0 <= q3 <= 4);
        assert(b[0] == (0xF0 + q3) as u8);
        assert(b[1] == (0x80 + q2 % 0x40) as u8);
        assert(b[2] == (0x80 + q1 % 0x40) as u8);
        assert(b[3] == (0x80 + r1) as u8);
        if q3 == 0 {
            assert(q2 < 0x40);
            assert(q2 % 0x40 == q2);
            assert(b[1] >= 0x90);
        }
        if q3 == 4 {
            assert(q2 >= 0x100);
            assert(q2 <= 0x10F);
            assert(q2 % 0x40 == q2 - 0x100);
            assert(b[1] <= 0x8F);
        }
        assert(head_len(b) == 4);
        assert(head_value(b) == q3 * 0x40000 + (q2 % 0x40) * 0x1000 + (q1 % 0x40) * 0x40 + r1);
        assert(cp == ((q2 / 0x40 * 0x40 + q2 % 0x40) * 0x40 + q1 % 0x40) * 0x40 + r1);
    }
}

/// The code unit form of a pair's scalar value is that very pair.
proof fn lemma_units_of_pair(hi: u16, lo: u16)
    requires
        is_high_surrogate(hi),
        is_low_surrogate(lo),
    ensures
        0x10000 <= pair_value(hi, lo) <= 0x10FFFF,
        units_of(pair_value(hi, lo)) == seq![hi, lo],
{
    let v = pair_value(hi, lo) - 0x10000;
    assert(v == (hi - 0xD800) * 0x400 + (lo - 0xDC00));
    lemma_fundamental_div_mod(v, 0x400);
    assert(v / 0x400 == hi - 0xD800 && v % 0x400 == lo - 0xDC00) by {
        vstd::arithmetic::div_mod::lemma_fundamental_div_mod_converse(
            v,
            0x400,
            hi - 0xD800,
            lo - 0xDC00,
        );
    }
    assert(units_of(pair_value(hi, lo)) =~= seq![hi, lo]);
}

/// Decoding the bytes of a wide string gives that wide string back:
/// the heart of every round-trip guarantee.
pub proof fn lemma_decode_encode(w: Seq<u16>)
    ensures
        decode_bytes(encode_wide(w)) == w,
    decreases w.len(),
{
    if w.len() == 0 {
        assert(decode_bytes(encode_wide(w)) =~= w);
    } else if is_high_surrogate(w[0]) && w.len() >= 2 && is_low_surrogate(w[1]) {
        let cp = pair_value(w[0], w[1]);
        let rest = encode_wide(w.skip(2));
        lemma_units_of_pair(w[0], w[1]);
        lemma_head_of_encoding(cp, rest);
        lemma_decode_encode(w.skip(2));
        assert(decode_bytes(encode_wide(w)) == seq![w[0], w[1]] + w.skip(2));
        assert(seq![w[0], w[1]] + w.skip(2) =~= w);
    } else {
        let cp = w[0] as int;
        let rest = encode_wide(w.skip(1));
        lemma_head_of_encoding(cp, rest);
        lemma_decode_encode(w.skip(1));
        assert(units_of(cp) =~= seq![w[0]]);
        assert(decode_bytes(encode_wide(w)) == seq![w[0]] + w.skip(1));
        assert(seq![w[0]] + w.skip(1) =~= w);
    }
}

/// A wide string's byte form is always accepted on the way back, and
/// gives the original wide string: the re-encoding of what the bytes
/// decode to is those bytes themselves — the checked entry point's
/// acceptance condition — and the decoding is the wide string one
/// started from, code unit for code unit.
pub proof fn lemma_round_trip_wide(w: Seq<u16>)
    ensures
        encode_wide(decode_bytes(encode_wide(w))) == encode_wide(w),
        decode_bytes(encode_wide(w)) == w,
{
    lemma_decode_encode(w);
}

/// The encoding is as long as the sum of the byte counts of the units
/// it spends: 4 for each surrogate pair, 1 to 3 for everything else.
pub proof fn lemma_encoded_len(w: Seq<u16>)
    ensures
        encode_wide(w).len() == encoded_len(w),
    decreases w.len(),
{
    if w.len() == 0 {
    } else if is_high_surrogate(w[0]) && w.len() >= 2 && is_low_surrogate(w[1]) {
        lemma_encoded_len(w.skip(2));
    } else {
        lemma_encoded_len(w.skip(1));
    }
}

/// A byte string round-trips exactly when it is the encoding of some
/// wide string: the accepted inputs are precisely the representable
/// ones, and everything else — invalid UTF-8 that is not an unpaired
/// surrogate's 3-byte form — is turned away.
pub proof fn lemma_accepted_iff_representable(b: Seq<u8>)
    ensures
        encode_wide(decode_bytes(b)) == b <==> exists|w: Seq<u16>| encode_wide(w) == b,
{
    if encode_wide(decode_bytes(b)) == b {
        let w0 = decode_bytes(b);
        assert(encode_wide(w0) == b);
    }
    if exists|w: Seq<u16>| encode_wide(w) == b {
        let w = choose|w: Seq<u16>| encode_wide(w) == b;
        lemma_decode_encode(w);
    }
}

/// A high surrogate with no low surrogate after it is encoded on its
/// own: the bytes are the ones before it, then its own 3-byte form,
/// then the ones after it — never a replacement, never dropped.
pub proof fn lemma_lone_high_surrogate(w: Seq<u16>, i: int)
    requires
        0 <= i < w.len(),
        is_high_surrogate(w[i]),
        i + 1 == w.len() || !is_low_surrogate(w[i + 1]),
    ensures
        utf8_bytes(w[i] as int).len() == 3,
        encode_wide(w) == encode_wide(w.take(i)) + utf8_bytes(w[i] as int) + encode_wide(
            w.skip(i + 1),
        ),
    decreases i,
{
    if i == 0 {
        assert(encode_wide(w) == utf8_bytes(w[0] as int) + encode_wide(w.skip(1)));
        assert(encode_wide(w.take(0)) =~= Seq::<u8>::empty());
        assert(encode_wide(w.take(0)) + utf8_bytes(w[0] as int) + encode_wide(w.skip(1))
            =~= utf8_bytes(w[0] as int) + encode_wide(w.skip(1)));
    } else if is_high_surrogate(w[0]) && w.len() >= 2 && is_low_surrogate(w[1]) {
        // the pair at the front cannot reach `w[i]`: a high surrogate is
        // no low surrogate, so `i >= 2` here
        let cp = pair_value(w[0], w[1]);
        let t = w.skip(2);
        lemma_lone_high_surrogate(t, i - 2);
        assert(t[i - 2] == w[i]);
        assert(w.take(i).skip(2) =~= t.take(i - 2));
        assert(w.take(i).len() >= 2 && w.take(i)[0] == w[0] && w.take(i)[1] == w[1]);
        assert(encode_wide(w.take(i)) == utf8_bytes(cp) + encode_wide(t.take(i - 2)));
        assert(t.skip(i - 1) =~= w.skip(i + 1));
        assert(encode_wide(w) == utf8_bytes(cp) + encode_wide(t));
        assert(utf8_bytes(cp) + (encode_wide(t.take(i - 2)) + utf8_bytes(t[i - 2] as int)
            + encode_wide(t.skip(i - 1))) =~= (utf8_bytes(cp) + encode_wide(t.take(i - 2)))
            + utf8_bytes(t[i - 2] as int) + encode_wide(t.skip(i - 1)));
    } else {
        let cp = w[0] as int;
        let t = w.skip(1);
        lemma_lone_high_surrogate(t, i - 1);
        assert(t[i - 1] == w[i]);
        assert(w.take(i).skip(1) =~= t.take(i - 1));
        assert(w.take(i).len() >= 1 && w.take(i)[0] == w[0]);
        if is_high_surrogate(w.take(i)[0]) && w.take(i).len() >= 2 && is_low_surrogate(
            w.take(i)[1],
        ) {
            assert(false);
        }
        assert(encode_wide(w.take(i)) == utf8_bytes(cp) + encode_wide(t.take(i - 1)));
        assert(t.skip(i) =~= w.skip(i + 1));
        assert(encode_wide(w) == utf8_bytes(cp) + encode_wide(t));
        assert(utf8_bytes(cp) + (encode_wide(t.take(i - 1)) + utf8_bytes(t[i - 1] as int)
            + encode_wide(t.skip(i))) =~= (utf8_bytes(cp) + encode_wide(t.take(i - 1)))
            + utf8_bytes(t[i - 1] as int) + encode_wide(t.skip(i)));
    }
}

} // verus!
