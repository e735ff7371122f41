//! On-chain numbers as decimal text. A number comes as a 32-byte word,
//! the most significant byte first, and is kept as a string of digits,
//! so that no precision is lost.

use vstd::prelude::*;

verus! {

/// The character of a decimal digit.
pub open spec fn digit_char(d: nat) -> char {
    ((0x30 + d) as u8) as char
}

/// A number in decimal, without sign or leading zeros.
pub open spec fn decimal_chars(n: nat) -> Seq<char>
    decreases n,
{
    if n < 10 {
        seq![digit_char(n)]
    } else {
        decimal_chars(n / 10).push(digit_char(n % 10))
    }
}

/// The number that a word stands for, the most significant byte first.
pub open spec fn word_value(word: Seq<u8>) -> nat
    decreases word.len(),
{
    if word.len() == 0 {
        0
    } else {
        word_value(word.drop_last()) * 256 + word.last() as nat
    }
}

/// The number of values that a word of `len` bytes can stand for.
pub open spec fn word_modulus(len: nat) -> nat
    decreases len,
{
    if len == 0 {
        1
    } else {
        256 * word_modulus((len - 1) as nat)
    }
}

/// Whether a word read in two's complement is negative: its highest
/// bit is set.
pub open spec fn is_negative_word(word: Seq<u8>) -> bool {
    word.len() > 0 && word[0] >= 0x80
}

/// The decimal text of a word: the digits of its value.
pub open spec fn unsigned_decimal_chars(word: Seq<u8>) -> Seq<char> {
    decimal_chars(word_value(word))
}

/// The decimal text of a word read in two's complement: the digits of
/// its value, or a minus sign and the digits of its distance below
/// zero.
pub open spec fn signed_decimal_chars(word: Seq<u8>) -> Seq<char> {
    if is_negative_word(word) {
        seq!['-'] + decimal_chars((word_modulus(word.len()) - word_value(word)) as nat)
    } else {
        decimal_chars(word_value(word))
    }
}

/// Calls `to_string` on the `ethers::types::U256` that the word stands
/// for. Its `Display` writes `0` for zero and else the decimal digits,
/// the most significant first, without padding.
#[verifier::external_body]
pub(crate) fn unsigned_decimal(word: &[u8; 32]) -> (text: String)
    ensures
        text@ == unsigned_decimal_chars(word@),
{
    ethers::types::U256::from_big_endian(word).to_string()
}

/// Calls `to_string` on the `ethers::types::I256` whose raw bits the
/// word holds. Its `Display` writes a minus sign where the highest bit
/// is set, and then the absolute value as `U256` does, which for a
/// negative number is the two's complement of the bits.
#[verifier::external_body]
pub(crate) fn signed_decimal(word: &[u8; 32]) -> (text: String)
    ensures
        text@ == signed_decimal_chars(word@),
{
    ethers::types::I256::from_raw(ethers::types::U256::from_big_endian(word)).to_string()
}

} // verus!
