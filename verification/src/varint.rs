//! The variable-length integer of the Bitcoin wire format, and the byte
//! strings and texts that carry one as their length.
//!
//! A number below `0xFD` is one byte. Larger numbers are a marker byte
//! (`0xFD`, `0xFE`, `0xFF`) followed by 2, 4 or 8 bytes, least significant
//! first. Only the shortest form of a number is accepted when reading.

use crate::bytes::{
    copy_range, le_bytes, le_value, lemma_le_bytes_len, lemma_le_round_trip,
    lemma_le_value_round_trip, pow256, push_le, read_le,
};
use vstd::prelude::*;
use vstd::slice::slice_subrange;
use vstd::utf8::*;

verus! {

/// The longest encoding of a text that `decode_string` accepts, its length
/// prefix included.
pub const MAX_TEXT_ENCODING: usize = 4_000_000;

/// The encoding of `value`.
pub open spec fn encoding(value: u64) -> Seq<u8> {
    if value < 0xFD {
        seq![value as u8]
    } else if value <= 0xFFFF {
        seq![0xFDu8] + le_bytes(value as nat, 2)
    } else if value <= 0xFFFF_FFFF {
        seq![0xFEu8] + le_bytes(value as nat, 4)
    } else {
        seq![0xFFu8] + le_bytes(value as nat, 8)
    }
}

/// How many bytes an encoding takes that starts with `first`.
pub open spec fn width(first: u8) -> int {
    if first < 0xFD {
        1
    } else if first == 0xFD {
        3
    } else if first == 0xFE {
        5
    } else {
        9
    }
}

/// The least number that the form starting with `first` may spell.
pub open spec fn least(first: u8) -> nat {
    if first < 0xFD {
        0
    } else if first == 0xFD {
        0xFD
    } else if first == 0xFE {
        0x1_0000
    } else {
        0x1_0000_0000
    }
}

/// The number at the start of `bytes` and the length of its encoding, or
/// `None` where `bytes` end too early or do not use the shortest form.
pub open spec fn decoding(bytes: Seq<u8>) -> Option<(u64, int)> {
    if bytes.len() == 0 {
        None
    } else if bytes[0] < 0xFD {
        Some((bytes[0] as u64, 1))
    } else if bytes.len() < width(bytes[0]) {
        None
    } else {
        let value = le_value(bytes.subrange(1, width(bytes[0])));
        if value < least(bytes[0]) {
            None
        } else {
            Some((value as u64, width(bytes[0])))
        }
    }
}

/// The byte string at the start of `bytes`, written as its length and then
/// its content, and the length of both together.
pub open spec fn bytes_decoding(bytes: Seq<u8>) -> Option<(Seq<u8>, int)> {
    match decoding(bytes) {
        Some((len, used)) => if used + len <= bytes.len() {
            Some((bytes.subrange(used, used + len), used + len))
        } else {
            None
        },
        None => None,
    }
}

/// The text at the start of `bytes`: a byte string of at most
/// `MAX_TEXT_ENCODING` bytes, prefix included, that is valid UTF-8.
pub open spec fn text_decoding(bytes: Seq<u8>) -> Option<(Seq<char>, int)> {
    match bytes_decoding(bytes) {
        Some((content, used)) => if used <= MAX_TEXT_ENCODING && valid_utf8(content) {
            Some((decode_utf8(content), used))
        } else {
            None
        },
        None => None,
    }
}

/// The length of an encoding is 1, 3, 5 or 9, by its first byte.
pub proof fn lemma_encoding_len(value: u64)
    ensures
        encoding(value).len() == width(encoding(value)[0]),
        1 <= encoding(value).len() <= 9,
        value < 0xFD ==> encoding(value).len() == 1,
        least(encoding(value)[0]) <= value,
{
    lemma_le_bytes_len(value as nat, 2);
    lemma_le_bytes_len(value as nat, 4);
    lemma_le_bytes_len(value as nat, 8);
}

/// Reading an encoding gives the number back, whatever follows it.
pub proof fn lemma_decode_encode(value: u64, rest: Seq<u8>)
    ensures
        decoding(encoding(value) + rest) == Some((value, encoding(value).len() as int)),
{
    let enc = encoding(value);
    let all = enc + rest;
    lemma_encoding_len(value);
    reveal_with_fuel(pow256, 10);
    if value >= 0xFD {
        let w = width(all[0]);
        assert(all.subrange(1, w) =~= enc.subrange(1, w));
        if value <= 0xFFFF {
            assert(enc.subrange(1, w) =~= le_bytes(value as nat, 2));
            lemma_le_round_trip(value as nat, 2);
        } else if value <= 0xFFFF_FFFF {
            assert(enc.subrange(1, w) =~= le_bytes(value as nat, 4));
            lemma_le_round_trip(value as nat, 4);
        } else {
            assert(enc.subrange(1, w) =~= le_bytes(value as nat, 8));
            lemma_le_round_trip(value as nat, 8);
        }
    }
}

/// What was read is the encoding of the number that came out: no two byte
/// strings spell the same number.
pub proof fn lemma_encode_decode(bytes: Seq<u8>)
    requires
        decoding(bytes).is_some(),
    ensures
        bytes.subrange(0, decoding(bytes).unwrap().1) == encoding(decoding(bytes).unwrap().0),
{
    let (value, used) = decoding(bytes).unwrap();
    reveal_with_fuel(pow256, 10);
    if bytes[0] < 0xFD {
        assert(bytes.subrange(0, 1) =~= encoding(value));
    } else {
        let body = bytes.subrange(1, used);
        lemma_le_value_round_trip(body);
        assert(bytes.subrange(0, used) =~= seq![bytes[0]] + body);
    }
}

/// Appends the encoding of `value`.
pub fn push(out: &mut Vec<u8>, value: u64)
    ensures
        final(out)@ == old(out)@ + encoding(value),
{
    let ghost before = out@;
    if value < 0xFD {
        out.push(value as u8);
        assert(out@ =~= before + encoding(value));
    } else {
        let (marker, size): (u8, usize) = if value <= 0xFFFF {
            (0xFD, 2)
        } else if value <= 0xFFFF_FFFF {
            (0xFE, 4)
        } else {
            (0xFF, 8)
        };
        out.push(marker);
        push_le(out, value, size);
        assert(out@ =~= before + encoding(value));
    }
}

/// The encoding of `value`.
pub fn encode(value: u64) -> (out: Vec<u8>)
    ensures
        out@ == encoding(value),
{
    let mut out: Vec<u8> = Vec::new();
    push(&mut out, value);
    assert(out@ =~= encoding(value));
    out
}

/// Reads the number at the start of `bytes`; gives it with the length of its
/// encoding.
pub fn decode(bytes: &[u8]) -> (read: Option<(u64, usize)>)
    ensures
        match read {
            Some((value, used)) => decoding(bytes@) == Some((value, used as int)),
            None => decoding(bytes@).is_none(),
        },
{
    if bytes.len() == 0 {
        return None;
    }
    let first = bytes[0];
    if first < 0xFD {
        return Some((first as u64, 1));
    }
    let (size, least): (usize, u64) = if first == 0xFD {
        (2, 0xFD)
    } else if first == 0xFE {
        (4, 0x1_0000)
    } else {
        (8, 0x1_0000_0000)
    };
    if bytes.len() < size + 1 {
        return None;
    }
    let value = read_le(bytes, 1, size);
    if value < least {
        None
    } else {
        Some((value, size + 1))
    }
}

/// Reads the length-prefixed byte string at the start of `bytes`; gives a
/// copy of its content and the length of prefix and content together.
pub fn decode_bytes(bytes: &[u8]) -> (read: Option<(Vec<u8>, usize)>)
    ensures
        match read {
            Some((content, used)) => bytes_decoding(bytes@) == Some((content@, used as int)),
            None => bytes_decoding(bytes@).is_none(),
        },
{
    match decode(bytes) {
        Some((len, used)) => {
            if len > (bytes.len() - used) as u64 {
                None
            } else {
                let end = used + len as usize;
                Some((copy_range(bytes, used, end), end))
            }
        },
        None => None,
    }
}

/// Turns bytes into a text with `String::from_utf8`, which succeeds exactly
/// on valid UTF-8 and then holds the characters that the bytes encode.
#[verifier::external_body]
pub(crate) fn text_from_utf8(bytes: Vec<u8>) -> (text: Option<String>)
    ensures
        text.is_some() == valid_utf8(bytes@),
        text.is_some() ==> text.unwrap()@ == decode_utf8(bytes@),
{
    String::from_utf8(bytes).ok()
}

/// Reads the length-prefixed text at the start of `bytes`; gives it with the
/// length of prefix and content together.
pub fn decode_string(bytes: &[u8]) -> (read: Option<(String, usize)>)
    ensures
        match read {
            Some((text, used)) => text_decoding(bytes@) == Some((text@, used as int)),
            None => text_decoding(bytes@).is_none(),
        },
{
    match decode_bytes(bytes) {
        Some((content, used)) => {
            if used > MAX_TEXT_ENCODING {
                None
            } else {
                match text_from_utf8(content) {
                    Some(text) => Some((text, used)),
                    None => None,
                }
            }
        },
        None => None,
    }
}

/// The rest of `bytes` from `start` on.
pub(crate) fn tail(bytes: &[u8], start: usize) -> (rest: &[u8])
    requires
        start <= bytes.len(),
    ensures
        rest@ == bytes@.skip(start as int),
{
    let rest = slice_subrange(bytes, start, bytes.len());
    assert(rest@ =~= bytes@.skip(start as int));
    rest
}

} // verus!
