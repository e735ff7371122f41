//! Hexadecimal text for identifiers: every 32-byte id and receiver hash is
//! carried as `0x` followed by lower-case hex digits.

use vstd::prelude::*;
use vstd::slice::slice_subrange;
use vstd::string::StringExecFns;
use vstd::utf8::{encode_utf8, is_ascii_chars, is_ascii_chars_encode_utf8};

verus! {

/// Why a text is not a hex encoding.
#[derive(Clone, Copy, Debug, PartialEq, Eq, Structural)]
pub enum HexError {
    /// The byte `c` at `index` is no hex digit.
    InvalidHexCharacter { c: char, index: usize },
    /// The text has an odd number of digits.
    OddLength,
    /// The decoded bytes do not fill a container of fixed size.
    InvalidStringLength,
}

/// The lower-case hex digit of a value below 16.
pub open spec fn hex_digit(v: int) -> char {
    if v < 10 {
        ((0x30 + v) as u8) as char
    } else {
        ((0x57 + v) as u8) as char
    }
}

/// Two lower-case hex digits for each byte, the high half first.
pub open spec fn hex_chars(data: Seq<u8>) -> Seq<char> {
    Seq::new(
        (2 * data.len()) as nat,
        |i: int|
            if i % 2 == 0 {
                hex_digit(data[i / 2] as int / 16)
            } else {
                hex_digit(data[i / 2] as int % 16)
            },
    )
}

/// The text `0x` followed by the hex digits of `data`.
pub open spec fn prefixed_hex_chars(data: Seq<u8>) -> Seq<char> {
    seq!['0', 'x'] + hex_chars(data)
}

/// The value of a hex digit given as an ASCII byte, in either case.
pub open spec fn hex_value(b: u8) -> Option<int> {
    if 0x30 <= b <= 0x39 {
        Some(b - 0x30)
    } else if 0x61 <= b <= 0x66 {
        Some(b - 0x61 + 10)
    } else if 0x41 <= b <= 0x46 {
        Some(b - 0x41 + 10)
    } else {
        None
    }
}

/// An even number of hex digits.
pub open spec fn is_hex_text(text: Seq<u8>) -> bool {
    &&& text.len() % 2 == 0
    &&& forall|i: int| 0 <= i < text.len() ==> hex_value(#[trigger] text[i]) is Some
}

/// The bytes that a hex text stands for.
pub open spec fn hex_decoded(text: Seq<u8>) -> Seq<u8> {
    Seq::new(
        text.len() / 2,
        |i: int| (hex_value(text[2 * i])->0 * 16 + hex_value(text[2 * i + 1])->0) as u8,
    )
}

/// `index` is the first place of `text` that holds no hex digit.
pub open spec fn first_invalid_at(text: Seq<u8>, index: int) -> bool {
    &&& 0 <= index < text.len()
    &&& hex_value(text[index]) is None
    &&& forall|j: int| 0 <= j < index ==> hex_value(#[trigger] text[j]) is Some
}

/// `r` is the outcome of decoding `text`: the bytes when it is a hex
/// text, else the first fault, an odd length before a wrong digit.
pub open spec fn is_hex_decoding(text: Seq<u8>, r: Result<Vec<u8>, HexError>) -> bool {
    match r {
        Ok(bytes) => is_hex_text(text) && bytes@ == hex_decoded(text),
        Err(HexError::OddLength) => text.len() % 2 == 1,
        Err(HexError::InvalidHexCharacter { c, index }) => {
            &&& text.len() % 2 == 0
            &&& first_invalid_at(text, index as int)
            &&& c == text[index as int] as char
        },
        Err(HexError::InvalidStringLength) => false,
    }
}

/// `text` without a leading `0x`, if it has one.
pub open spec fn strip_hex_prefix(text: Seq<u8>) -> Seq<u8> {
    if text.len() >= 2 && text[0] == 0x30 && text[1] == 0x78 {
        text.skip(2)
    } else {
        text
    }
}

/// Calls `hex::encode`, which writes each byte as two digits out of
/// `0123456789abcdef`, the high four bits first.
#[verifier::external_body]
fn hex_encode(data: &[u8]) -> (text: String)
    ensures
        text@ == hex_chars(data@),
{
    hex::encode(data)
}

/// Calls `hex::decode` on a byte slice. It refuses an odd length first,
/// then reads the digits in pairs from the left and stops at the first
/// byte that is no digit, reporting that byte and its index; digits of
/// either case are taken. It never reports a wrong container length.
#[verifier::external_body]
fn hex_decode(text: &[u8]) -> (r: Result<Vec<u8>, HexError>)
    ensures
        is_hex_decoding(text@, r),
{
    match hex::decode(text) {
        Ok(bytes) => Ok(bytes),
        Err(hex::FromHexError::InvalidHexCharacter { c, index }) => Err(
            HexError::InvalidHexCharacter { c, index },
        ),
        Err(hex::FromHexError::OddLength) => Err(HexError::OddLength),
        Err(hex::FromHexError::InvalidStringLength) => Err(HexError::InvalidStringLength),
    }
}

/// The text `0x` followed by the lower-case hex digits of `data`.
pub fn prefixed_hex(data: &[u8]) -> (text: String)
    ensures
        text@ == prefixed_hex_chars(data@),
{
    let mut text = String::from_str("0x");
    proof {
        reveal_strlit("0x");
        assert(text@ =~= seq!['0', 'x']);
    }
    let digits = hex_encode(data);
    text.append(digits.as_str());
    text
}

/// Decodes hex text with or without a leading `0x`.
pub fn decode_prefixed_hex(text: &str) -> (r: Result<Vec<u8>, HexError>)
    ensures
        is_hex_decoding(strip_hex_prefix(encode_utf8(text@)), r),
{
    let bytes = text.as_bytes();
    let n = bytes.len();
    if n >= 2 && bytes[0] == 0x30 && bytes[1] == 0x78 {
        let digits = slice_subrange(bytes, 2, n);
        assert(digits@ =~= bytes@.skip(2));
        hex_decode(digits)
    } else {
        hex_decode(bytes)
    }
}

/// Every hex digit is an ASCII character.
pub proof fn lemma_prefixed_hex_is_ascii(data: Seq<u8>)
    ensures
        is_ascii_chars(prefixed_hex_chars(data)),
        encode_utf8(prefixed_hex_chars(data)).len() == 2 + 2 * data.len(),
        forall|i: int| 0 <= i < 2 + 2 * data.len() ==> #[trigger] encode_utf8(prefixed_hex_chars(data))[i] == prefixed_hex_chars(data)[i] as u8,
{
    let chars = prefixed_hex_chars(data);
    assert forall|i: int| 0 <= i < chars.len() implies '\0' <= #[trigger] chars[i] <= '\u{7f}' by {
        if i >= 2 {
            let v = if (i - 2) % 2 == 0 { data[(i - 2) / 2] as int / 16 } else { data[(i - 2) / 2] as int % 16 };
            assert(chars[i] == hex_digit(v));
            assert(0 <= v < 16);
        }
    }
    is_ascii_chars_encode_utf8(chars);
}

/// The prefixed hex text of `data` is a hex text behind its prefix, and
/// stands for `data`: a key written as text is found again by its bytes.
pub proof fn lemma_prefixed_hex_decodes(data: Seq<u8>)
    ensures
        is_hex_text(strip_hex_prefix(encode_utf8(prefixed_hex_chars(data)))),
        hex_decoded(strip_hex_prefix(encode_utf8(prefixed_hex_chars(data)))) == data,
{
    let chars = prefixed_hex_chars(data);
    let bytes = encode_utf8(chars);
    lemma_prefixed_hex_is_ascii(data);
    assert(bytes[0] == chars[0] as u8);
    assert(bytes[1] == chars[1] as u8);
    let text = strip_hex_prefix(bytes);
    assert(text == bytes.skip(2));
    assert(text.len() == 2 * data.len());
    assert forall|i: int| 0 <= i < text.len() implies hex_value(#[trigger] text[i]) == Some(
        if i % 2 == 0 {
            data[i / 2] as int / 16
        } else {
            data[i / 2] as int % 16
        },
    ) by {
        assert(text[i] == bytes[i + 2]);
        assert(bytes[i + 2] == chars[i + 2] as u8);
        assert(chars[i + 2] == hex_chars(data)[i]);
        let v = if i % 2 == 0 { data[i / 2] as int / 16 } else { data[i / 2] as int % 16 };
        assert(0 <= v < 16);
        assert(hex_chars(data)[i] == hex_digit(v));
    }
    assert(is_hex_text(text));
    assert forall|k: int| 0 <= k < data.len() implies hex_decoded(text)[k] == data[k] by {
        assert(hex_value(text[2 * k]) == Some(data[k] as int / 16));
        assert(hex_value(text[2 * k + 1]) == Some(data[k] as int % 16));
    }
    assert(hex_decoded(text) =~= data);
}

/// Decoding the prefixed hex text of `data` succeeds and gives `data`
/// back.
pub proof fn lemma_prefixed_hex_round_trip(data: Seq<u8>, r: Result<Vec<u8>, HexError>)
    requires
        is_hex_decoding(strip_hex_prefix(encode_utf8(prefixed_hex_chars(data))), r),
    ensures
        r is Ok,
        r->Ok_0@ == data,
{
    lemma_prefixed_hex_decodes(data);
    let text = strip_hex_prefix(encode_utf8(prefixed_hex_chars(data)));
    match r {
        Ok(decoded) => {},
        Err(HexError::InvalidHexCharacter { c, index }) => {
            assert(hex_value(text[index as int]) is Some);
        },
        Err(_) => {},
    }
}

} // verus!
