//! Lossless conversion between wide (16-bit code unit) strings and byte
//! sequences.
//!
//! Wide strings on some platforms may contain unpaired surrogate halves,
//! which no well-formed UTF-8 byte sequence can represent. This crate
//! encodes such strings with an extension of UTF-8 that spends a 3-byte
//! sequence on each unpaired surrogate, so that every wide string has
//! exactly one byte form and can be reconstructed from it bit for bit.
//! Arbitrary bytes of unknown provenance are accepted only when a full
//! round trip reproduces them exactly.

pub mod codec;
pub mod encoding;
pub mod laws;
pub mod wide;
