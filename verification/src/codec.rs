//! The executable codec: a wide string to its byte form, a byte string
//! to its wide form, each a single linear pass proved equal to the
//! model in `encoding`.

use vstd::prelude::*;

use crate::encoding::{
    decode_bytes, encode_wide, encoded_len, head_len, head_value, is_cont, pair_value, units_of,
    utf8_bytes,
};
use crate::laws::lemma_encoded_len;

verus! {

/// The byte form of the wide string `w`: standard UTF-8 for every
/// scalar value, the extended 3-byte form for every unpaired surrogate.
/// No input can fail.
pub fn decode_utf16(w: &[u16]) -> (r: Vec<u8>)
    ensures
        r@ == encode_wide(w@),
        r@.len() == encoded_len(w@),
{
    let mut out: Vec<u8> = Vec::new();
    let mut i: usize = 0;
    proof {
        assert(w@.skip(0) =~= w@);
        assert(out@ + encode_wide(w@) =~= encode_wide(w@));
    }
    while i < w.len()
        invariant
            i <= w.len(),
            out@ + encode_wide(w@.skip(i as int)) == encode_wide(w@),
        decreases w.len() - i,
    {
        let ghost prev = out@;
        let ghost tail = w@.skip(i as int);
        let u = w[i];
        if u >= 0xD800 && u <= 0xDBFF && i + 1 < w.len() && w[i + 1] >= 0xDC00 && w[i + 1]
            <= 0xDFFF {
            let lo = w[i + 1];
            let cp: u32 = 0x10000 + ((u - 0xD800) as u32) * 0x400 + ((lo - 0xDC00) as u32);
            assert(cp == pair_value(u, lo));
            out.push((0xF0 + cp / 0x40000) as u8);
            out.push((0x80 + (cp / 0x1000) % 0x40) as u8);
            out.push((0x80 + (cp / 0x40) % 0x40) as u8);
            out.push((0x80 + cp % 0x40) as u8);
            proof {
                assert(out@ =~= prev + utf8_bytes(cp as int));
                assert(tail.skip(2) =~= w@.skip(i + 2));
                assert(encode_wide(tail) == utf8_bytes(cp as int) + encode_wide(tail.skip(2)));
                assert(prev + encode_wide(tail) =~= out@ + encode_wide(w@.skip(i + 2)));
            }
            i = i + 2;
        } else {
            if u < 0x80 {
                out.push(u as u8);
            } else if u < 0x800 {
                out.push((0xC0 + u / 0x40) as u8);
                out.push((0x80 + u % 0x40) as u8);
            } else {
                out.push((0xE0 + u / 0x1000) as u8);
                out.push((0x80 + (u / 0x40) % 0x40) as u8);
                out.push((0x80 + u % 0x40) as u8);
            }
            proof {
                assert(out@ =~= prev + utf8_bytes(u as int));
                assert(tail.skip(1) =~= w@.skip(i + 1));
                assert(encode_wide(tail) == utf8_bytes(u as int) + encode_wide(tail.skip(1)));
                assert(prev + encode_wide(tail) =~= out@ + encode_wide(w@.skip(i + 1)));
            }
            i = i + 1;
        }
    }
    proof {
        assert(w@.skip(w@.len() as int) =~= Seq::<u16>::empty());
        assert(out@ + encode_wide(w@.skip(w@.len() as int)) =~= out@);
        lemma_encoded_len(w@);
    }
    out
}

/// The wide form of the byte string `b`: each well-formed sequence —
/// standard UTF-8 or the extended surrogate form — becomes its code
/// units, and each malformed byte becomes the replacement character.
/// Callers that need exactness must check the round trip; this function
/// alone accepts anything.
pub fn encode_utf16(b: &[u8]) -> (r: Vec<u16>)
    ensures
        r@ == decode_bytes(b@),
{
    let mut out: Vec<u16> = Vec::new();
    let mut i: usize = 0;
    proof {
        assert(b@.skip(0) =~= b@);
        assert(out@ + decode_bytes(b@) =~= decode_bytes(b@));
    }
    while i < b.len()
        invariant
            i <= b.len(),
            out@ + decode_bytes(b@.skip(i as int)) == decode_bytes(b@),
        decreases b.len() - i,
    {
        let ghost prev = out@;
        let ghost tail = b@.skip(i as int);
        let b0 = b[i];
        let rem = b.len() - i;
        let n: usize = if b0 < 0x80 {
            1
        } else if b0 >= 0xC2 && b0 <= 0xDF {
            if rem >= 2 && cont(b[i + 1]) {
                2
            } else {
                0
            }
        } else if b0 >= 0xE0 && b0 <= 0xEF {
            if rem >= 3 && cont(b[i + 1]) && cont(b[i + 2]) && (b0 != 0xE0 || b[i + 1] >= 0xA0) {
                3
            } else {
                0
            }
        } else if b0 >= 0xF0 && b0 <= 0xF4 {
            if rem >= 4 && cont(b[i + 1]) && cont(b[i + 2]) && cont(b[i + 3]) && (b0 != 0xF0 || b[i
                + 1] >= 0x90) && (b0 != 0xF4 || b[i + 1] <= 0x8F) {
                4
            } else {
                0
            }
        } else {
            0
        };
        assert(n == head_len(tail));
        if n == 0 {
            out.push(0xFFFD);
            proof {
                assert(out@ =~= prev + seq![0xFFFDu16]);
                assert(tail.skip(1) =~= b@.skip(i + 1));
                assert(decode_bytes(tail) == seq![0xFFFDu16] + decode_bytes(tail.skip(1)));
                assert(prev + decode_bytes(tail) =~= out@ + decode_bytes(b@.skip(i + 1)));
            }
            i = i + 1;
        } else {
            let cp: u32 = if n == 1 {
                b0 as u32
            } else if n == 2 {
                ((b0 - 0xC0) as u32) * 0x40 + ((b[i + 1] - 0x80) as u32)
            } else if n == 3 {
                ((b0 - 0xE0) as u32) * 0x1000 + ((b[i + 1] - 0x80) as u32) * 0x40 + ((b[i + 2]
                    - 0x80) as u32)
            } else {
                ((b0 - 0xF0) as u32) * 0x40000 + ((b[i + 1] - 0x80) as u32) * 0x1000 + ((b[i + 2]
                    - 0x80) as u32) * 0x40 + ((b[i + 3] - 0x80) as u32)
            };
            assert(cp == head_value(tail));
            assert(n == 4 ==> 0x10000 <= cp <= 0x10FFFF);
            assert(n <= 3 ==> cp < 0x10000);
            if cp < 0x10000 {
                out.push(cp as u16);
                proof {
                    assert(out@ =~= prev + units_of(cp as int));
                }
            } else {
                out.push((0xD800 + ((cp - 0x10000) / 0x400)) as u16);
                out.push((0xDC00 + ((cp - 0x10000) % 0x400)) as u16);
                proof {
                    assert(out@ =~= prev + units_of(cp as int));
                }
            }
            proof {
                assert(tail.skip(n as int) =~= b@.skip(i + n));
                assert(decode_bytes(tail) == units_of(cp as int) + decode_bytes(tail.skip(n as int)));
                assert(prev + decode_bytes(tail) =~= out@ + decode_bytes(b@.skip(i + n)));
            }
            i = i + n;
        }
    }
    proof {
        assert(b@.skip(b@.len() as int) =~= Seq::<u8>::empty());
        assert(out@ + decode_bytes(b@.skip(b@.len() as int)) =~= out@);
    }
    out
}

/// Whether `b` is a continuation byte.
fn cont(b: u8) -> (r: bool)
    ensures
        r == is_cont(b),
{
    b >= 0x80 && b <= 0xBF
}

/// Whether two byte strings hold the same bytes.
pub(crate) fn bytes_eq(a: &[u8], b: &[u8]) -> (r: bool)
    ensures
        r == (a@ == b@),
{
    if a.len() != b.len() {
        return false;
    }
    let mut i: usize = 0;
    while i < a.len()
        invariant
            i <= a.len(),
            a@.len() == b@.len(),
            forall|j: int| 0 <= j < i ==> a@[j] == b@[j],
        decreases a.len() - i,
    {
        if a[i] != b[i] {
            return false;
        }
        i = i + 1;
    }
    proof {
        assert(a@ =~= b@);
    }
    true
}

} // verus!
