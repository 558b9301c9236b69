use wtf8_codec::wide::EncodingError;
use wtf8_codec::wide::WideString;

const INVALID_STRING: &[u8] = b"\xF1foo\xF1\x80bar\xF1\x80\x80baz";

#[test]
fn test_invalid_bytes() {
    assert_eq!(
        Err(EncodingError),
        WideString::from_bytes(INVALID_STRING).map(|s| s.into_wide()),
    );
    assert_eq!(
        Err(EncodingError),
        WideString::from_bytes(INVALID_STRING).map(|s| s.into_vec()),
    );
}

#[test]
fn test_invalid_vec() {
    assert_eq!(
        Err(EncodingError),
        WideString::from_vec(INVALID_STRING.to_vec()).map(|s| s.into_wide()),
    );
}

#[test]
fn mixed_scalars_and_lone_surrogate() {
    // an ASCII run, an unpaired high surrogate's 3-byte form, a 4-byte
    // scalar, and another ASCII run
    let bytes = b"foo\xED\xA0\xBD\xF0\x9F\x92\xA9bar";
    let wide = WideString::from_bytes(bytes).unwrap();
    assert_eq!(
        wide.as_wide(),
        &[0x66, 0x6F, 0x6F, 0xD83D, 0xD83D, 0xDCA9, 0x62, 0x61, 0x72],
    );
    assert_eq!(wide.to_bytes().as_slice(), bytes.as_slice());
}

#[test]
fn empty_round_trip() {
    let wide = WideString::from_bytes(b"").unwrap();
    assert_eq!(wide.len(), 0);
    assert_eq!(wide.as_wide(), &[] as &[u16]);
    assert_eq!(wide.to_bytes(), Vec::<u8>::new());
}

#[test]
fn round_trip_from_wide() {
    // unpaired surrogates in every position and order survive the trip
    let units: &[u16] = &[0xD800, 0x0041, 0xDFFF, 0xDC00, 0xD83D];
    let bytes = WideString::from_wide(units).to_bytes();
    let back = WideString::from_bytes(bytes.as_slice()).unwrap();
    assert_eq!(back.as_wide(), units);
    assert_eq!(back.to_bytes(), bytes);
}

#[test]
fn lone_high_surrogate_keeps_its_form() {
    let wide = WideString::from_wide(&[0xD83D]);
    let bytes = wide.to_bytes();
    assert_eq!(bytes.as_slice(), &[0xED, 0xA0, 0xBD]);
    let back = WideString::from_bytes(bytes.as_slice()).unwrap();
    assert_eq!(back.as_wide(), &[0xD83D]);
}

#[test]
fn byte_length_is_per_unit_sum() {
    // 1 + 2 + 3 + 4 (pair) + 3 (lone surrogate) bytes
    let units: &[u16] = &[0x24, 0xA2, 0x20AC, 0xD801, 0xDC37, 0xD800];
    let bytes = WideString::from_wide(units).to_bytes();
    assert_eq!(bytes.len(), 13);
    assert_eq!(
        bytes.as_slice(),
        &[0x24, 0xC2, 0xA2, 0xE2, 0x82, 0xAC, 0xF0, 0x90, 0x90, 0xB7, 0xED, 0xA0, 0x80],
    );
}

#[test]
fn rejects_lone_continuation_byte() {
    assert_eq!(
        Err(EncodingError),
        WideString::from_bytes(&[0x80]).map(|s| s.into_wide()),
    );
}

#[test]
fn rejects_overlong_encodings() {
    assert_eq!(
        Err(EncodingError),
        WideString::from_bytes(&[0xC0, 0xAF]).map(|s| s.into_wide()),
    );
    assert_eq!(
        Err(EncodingError),
        WideString::from_bytes(&[0xE0, 0x80, 0x80]).map(|s| s.into_wide()),
    );
    assert_eq!(
        Err(EncodingError),
        WideString::from_bytes(&[0xF0, 0x80, 0x80, 0x80]).map(|s| s.into_wide()),
    );
}

#[test]
fn rejects_truncated_and_out_of_range() {
    // a 4-byte lead with too few continuations
    assert_eq!(
        Err(EncodingError),
        WideString::from_bytes(&[0xF0, 0x9F, 0x92]).map(|s| s.into_wide()),
    );
    // beyond U+10FFFF
    assert_eq!(
        Err(EncodingError),
        WideString::from_bytes(&[0xF4, 0x90, 0x80, 0x80]).map(|s| s.into_wide()),
    );
}

#[test]
fn unchecked_accepts_trusted_bytes() {
    let wide = WideString::from_bytes_unchecked(b"abc\xED\xA0\xBD");
    assert_eq!(wide.as_wide(), &[0x61, 0x62, 0x63, 0xD83D]);
    let owned = WideString::from_vec_unchecked(b"abc\xED\xA0\xBD".to_vec());
    assert_eq!(owned.into_wide(), vec![0x61, 0x62, 0x63, 0xD83D]);
}

#[test]
fn unchecked_replaces_malformed_bytes() {
    // the unchecked path never fails; a malformed byte comes out as the
    // replacement character, so the byte form no longer matches
    let wide = WideString::from_bytes_unchecked(&[0x61, 0xFF]);
    assert_eq!(wide.as_wide(), &[0x61, 0xFFFD]);
    assert_ne!(wide.to_bytes().as_slice(), &[0x61, 0xFF]);
}

#[test]
fn two_and_three_byte_scalars() {
    let wide = WideString::from_bytes(&[0xC2, 0xA2, 0xE2, 0x82, 0xAC]).unwrap();
    assert_eq!(wide.as_wide(), &[0xA2, 0x20AC]);
    assert_eq!(wide.into_vec().as_slice(), &[0xC2, 0xA2, 0xE2, 0x82, 0xAC]);
}

#[test]
fn paired_surrogates_become_four_bytes() {
    // a well-paired high/low couple is one scalar, not two lone forms
    let bytes = WideString::from_wide(&[0xD83D, 0xDCA9]).to_bytes();
    assert_eq!(bytes.as_slice(), &[0xF0, 0x9F, 0x92, 0xA9]);
    let back = WideString::from_bytes(bytes.as_slice()).unwrap();
    assert_eq!(back.into_wide(), vec![0xD83D, 0xDCA9]);
}

#[test]
fn low_before_high_stays_two_lone_forms() {
    // in the wrong order the two halves stay unpaired: 3 bytes each
    let units: &[u16] = &[0xDCA9, 0xD83D];
    let bytes = WideString::from_wide(units).to_bytes();
    assert_eq!(bytes.len(), 6);
    let back = WideString::from_bytes(bytes.as_slice()).unwrap();
    assert_eq!(back.as_wide(), units);
}
