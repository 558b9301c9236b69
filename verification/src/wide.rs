//! The public face of the codec: a wide string value, its byte form,
//! and the checked and unchecked ways back from bytes.

use vstd::prelude::*;

use crate::codec::{bytes_eq, decode_utf16, encode_utf16};
use crate::encoding::{decode_bytes, encode_wide, encoded_len};
use crate::laws::lemma_accepted_iff_representable;

verus! {

/// Conversion from bytes failed: the byte string is not the encoding
/// of any wide string, so accepting it would lose information. The
/// error carries nothing beyond that fact.
#[derive(Clone, Copy, Debug, PartialEq, Eq, Structural)]
pub struct EncodingError;

/// A wide string: an owned sequence of 16-bit code units, exactly as a
/// platform's native string holds them. No well-formedness is assumed —
/// surrogate halves may stand unpaired, in either order, anywhere.
#[derive(Debug)]
pub struct WideString {
    units: Vec<u16>,
}

impl View for WideString {
    type V = Seq<u16>;

    closed spec fn view(&self) -> Seq<u16> {
        self.units@
    }
}

impl WideString {
    /// A wide string holding the given code units.
    pub fn from_wide(w: &[u16]) -> (r: WideString)
        ensures
            r@ == w@,
    {
        let mut units: Vec<u16> = Vec::new();
        let mut i: usize = 0;
        while i < w.len()
            invariant
                i <= w.len(),
                units@ == w@.take(i as int),
            decreases w.len() - i,
        {
            units.push(w[i]);
            proof {
                assert(w@.take(i as int).push(w@[i as int]) =~= w@.take(i + 1));
            }
            i = i + 1;
        }
        proof {
            assert(w@.take(w@.len() as int) =~= w@);
        }
        WideString { units }
    }

    /// The code units, by reference.
    pub fn as_wide(&self) -> (r: &[u16])
        ensures
            r@ == self@,
    {
        self.units.as_slice()
    }

    /// The code units, owned.
    pub fn into_wide(self) -> (r: Vec<u16>)
        ensures
            r@ == self@,
    {
        self.units
    }

    /// The byte form of this wide string. Never fails: every wide
    /// string, however ill-formed, has exactly one byte encoding, and
    /// its length is the sum of the per-unit byte counts.
    pub fn to_bytes(&self) -> (r: Vec<u8>)
        ensures
            r@ == encode_wide(self@),
            r@.len() == encoded_len(self@),
    {
        decode_utf16(self.units.as_slice())
    }

    /// The byte form of this wide string, consuming it.
    pub fn into_vec(self) -> (r: Vec<u8>)
        ensures
            r@ == encode_wide(self@),
            r@.len() == encoded_len(self@),
    {
        decode_utf16(self.units.as_slice())
    }

    /// The checked way from bytes: decode, re-encode, and accept only
    /// when the round trip reproduces `s` exactly. Succeeds precisely
    /// on the byte strings that are the encoding of some wide string;
    /// every other input — bytes invalid even under the extended
    /// surrogate form — is refused with `EncodingError`.
    pub fn from_bytes(s: &[u8]) -> (r: Result<WideString, EncodingError>)
        ensures
            match r {
                Ok(n) => n@ == decode_bytes(s@) && encode_wide(n@) == s@,
                Err(_) => encode_wide(decode_bytes(s@)) != s@,
            },
            r is Ok <==> exists|w: Seq<u16>| encode_wide(w) == s@,
    {
        proof {
            lemma_accepted_iff_representable(s@);
        }
        let units = encode_utf16(s);
        let back = decode_utf16(units.as_slice());
        if bytes_eq(back.as_slice(), s) {
            Ok(WideString { units })
        } else {
            Err(EncodingError)
        }
    }

    /// The unchecked way from bytes, for callers who already know `s`
    /// was produced by this codec: the round-trip check is skipped. On
    /// any other input the result is still deterministic and safe, but
    /// its byte form need not reproduce `s`.
    pub fn from_bytes_unchecked(s: &[u8]) -> (r: WideString)
        ensures
            r@ == decode_bytes(s@),
    {
        WideString { units: encode_utf16(s) }
    }

    /// As `from_bytes`, taking the bytes by value.
    pub fn from_vec(s: Vec<u8>) -> (r: Result<WideString, EncodingError>)
        ensures
            match r {
                Ok(n) => n@ == decode_bytes(s@) && encode_wide(n@) == s@,
                Err(_) => encode_wide(decode_bytes(s@)) != s@,
            },
            r is Ok <==> exists|w: Seq<u16>| encode_wide(w) == s@,
    {
        Self::from_bytes(s.as_slice())
    }

    /// As `from_bytes_unchecked`, taking the bytes by value.
    pub fn from_vec_unchecked(s: Vec<u8>) -> (r: WideString)
        ensures
            r@ == decode_bytes(s@),
    {
        Self::from_bytes_unchecked(s.as_slice())
    }

    /// How many code units the wide string holds.
    pub fn len(&self) -> (r: usize)
        ensures
            r == self@.len(),
    {
        self.units.len()
    }
}

} // verus!
