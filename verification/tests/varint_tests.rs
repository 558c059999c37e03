use bitcoin::consensus::encode::{deserialize_partial, serialize, VarInt};
use bitcoin_client::bytes::{append, bytes_eq, clone_bytes, lex_le_exec, push_be_u32, push_le};
use bitcoin_client::varint::{decode, decode_bytes, decode_string, encode, push};

#[test]
fn encoding_has_four_forms() {
    assert_eq!(encode(0), vec![0x00]);
    assert_eq!(encode(0xFC), vec![0xFC]);
    assert_eq!(encode(0xFD), vec![0xFD, 0xFD, 0x00]);
    assert_eq!(encode(0xFFFF), vec![0xFD, 0xFF, 0xFF]);
    assert_eq!(encode(0x1_0000), vec![0xFE, 0x00, 0x00, 0x01, 0x00]);
    assert_eq!(encode(0xFFFF_FFFF), vec![0xFE, 0xFF, 0xFF, 0xFF, 0xFF]);
    assert_eq!(
        encode(0x1_0000_0000),
        vec![0xFF, 0x00, 0x00, 0x00, 0x00, 0x01, 0x00, 0x00, 0x00]
    );
    assert_eq!(encode(u64::MAX), vec![0xFF; 9]);
}

#[test]
fn encoding_agrees_with_the_primitives_library() {
    let values = [
        0u64,
        1,
        0xFC,
        0xFD,
        0xFE,
        0xFF,
        0x100,
        0xFFFF,
        0x1_0000,
        0x1234_5678,
        0xFFFF_FFFF,
        0x1_0000_0000,
        0x0123_4567_89AB_CDEF,
        u64::MAX,
    ];
    for value in values {
        let expected = serialize(&VarInt(value));
        assert_eq!(encode(value), expected);
        let mut out = vec![0xAA];
        push(&mut out, value);
        assert_eq!(out[0], 0xAA);
        assert_eq!(&out[1..], &expected[..]);
        let mut followed = expected.clone();
        followed.extend_from_slice(&[1, 2, 3]);
        assert_eq!(decode(&followed), Some((value, expected.len())));
        let (theirs, used): (VarInt, usize) = deserialize_partial(&followed).unwrap();
        assert_eq!((theirs.0, used), (value, expected.len()));
    }
}

#[test]
fn decoding_refuses_what_is_cut_short() {
    assert_eq!(decode(&[]), None);
    assert_eq!(decode(&[0xFD]), None);
    assert_eq!(decode(&[0xFD, 0xFF]), None);
    assert_eq!(decode(&[0xFE, 0, 0, 1]), None);
    assert_eq!(decode(&[0xFF, 0, 0, 0, 0, 1, 0, 0]), None);
}

#[test]
fn decoding_refuses_longer_forms_than_needed() {
    let cases: [&[u8]; 4] = [
        &[0xFD, 0xFC, 0x00],
        &[0xFD, 0x00, 0x00],
        &[0xFE, 0xFF, 0xFF, 0x00, 0x00],
        &[0xFF, 0xFF, 0xFF, 0xFF, 0xFF, 0x00, 0x00, 0x00, 0x00],
    ];
    for case in cases {
        assert_eq!(decode(case), None);
        assert!(deserialize_partial::<VarInt>(case).is_err());
    }
}

#[test]
fn byte_strings_carry_their_length() {
    assert_eq!(decode_bytes(&[0]), Some((vec![], 1)));
    assert_eq!(decode_bytes(&[3, 7, 8, 9, 10]), Some((vec![7, 8, 9], 4)));
    assert_eq!(decode_bytes(&[3, 7, 8]), None);
    assert_eq!(decode_bytes(&[]), None);
    let data = [2u8, 0xC3, 0x28, 5];
    let (theirs, used): (Vec<u8>, usize) = deserialize_partial(&data).unwrap();
    assert_eq!(decode_bytes(&data), Some((theirs, used)));
}

#[test]
fn texts_must_be_utf8() {
    assert_eq!(decode_string(&[2, b'h', b'i', b'!']), Some(("hi".to_string(), 3)));
    assert_eq!(decode_string(&[2, 0xC3, 0xA9]), Some(("\u{e9}".to_string(), 3)));
    assert_eq!(decode_string(&[2, 0xC3, 0x28]), None);
    assert!(deserialize_partial::<String>(&[2, 0xC3, 0x28]).is_err());
    assert_eq!(decode_string(&[2, b'h']), None);
    assert_eq!(decode_string(&[0]), Some((String::new(), 1)));
}

#[test]
fn texts_have_a_longest_encoding() {
    let mut fits = vec![0xFE, 0, 0, 0, 0];
    let length: u32 = 4_000_000 - 5;
    fits[1..5].copy_from_slice(&length.to_le_bytes());
    fits.resize(4_000_000, b'a');
    let read = decode_string(&fits).unwrap();
    assert_eq!(read.1, 4_000_000);
    assert_eq!(read.0.len(), 3_999_995);
    assert!(deserialize_partial::<String>(&fits).is_ok());

    let mut too_long = vec![0xFE, 0, 0, 0, 0];
    let length: u32 = 4_000_000 - 4;
    too_long[1..5].copy_from_slice(&length.to_le_bytes());
    too_long.resize(4_000_001, b'a');
    assert_eq!(decode_string(&too_long), None);
    assert!(deserialize_partial::<String>(&too_long).is_err());
    assert_eq!(decode_bytes(&too_long).map(|read| read.1), Some(4_000_001));
}

#[test]
fn integers_of_fixed_width() {
    let mut out = Vec::new();
    push_le(&mut out, 0x0102_0304_0506_0708, 8);
    assert_eq!(out, 0x0102_0304_0506_0708u64.to_le_bytes());
    let mut out = vec![9];
    push_le(&mut out, 1000, 4);
    assert_eq!(out, vec![9, 0xE8, 0x03, 0, 0]);
    let mut out = Vec::new();
    push_le(&mut out, 0x1234, 1);
    assert_eq!(out, vec![0x34]);
    let mut out = Vec::new();
    push_be_u32(&mut out, 0x8000_002C);
    assert_eq!(out, vec![0x80, 0x00, 0x00, 0x2C]);
}

#[test]
fn byte_strings_compare_as_in_a_dictionary() {
    assert!(lex_le_exec(&[], &[]));
    assert!(lex_le_exec(&[], &[0]));
    assert!(!lex_le_exec(&[0], &[]));
    assert!(lex_le_exec(&[1, 2], &[1, 2]));
    assert!(lex_le_exec(&[1, 2], &[1, 2, 0]));
    assert!(!lex_le_exec(&[1, 3], &[1, 2, 9]));
    assert!(lex_le_exec(&[1, 0xFF], &[2]));
    for (a, b) in [(&[1u8, 2][..], &[1u8, 3][..]), (&[5u8][..], &[][..]), (&[7u8][..], &[7u8][..])] {
        assert_eq!(lex_le_exec(a, b), a <= b);
    }
    assert!(bytes_eq(&[1, 2], &[1, 2]));
    assert!(!bytes_eq(&[1, 2], &[1, 3]));
    assert!(!bytes_eq(&[1, 2], &[1]));
    assert_eq!(clone_bytes(&[1, 2, 3, 4]), vec![1, 2, 3, 4]);
    let mut out = vec![1u8];
    append(&mut out, &[2, 3]);
    assert_eq!(out, vec![1, 2, 3]);
}
