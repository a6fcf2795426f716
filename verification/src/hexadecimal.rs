//! Bytes as pairs of hexadecimal digits.
use vstd::prelude::*;
use vstd::string::*;

verus! {

/// The value of a hexadecimal digit, upper or lower case.
pub open spec fn hex_value(b: u8) -> Option<nat> {
    if 48 <= b <= 57 {
        Some((b - 48) as nat)
    } else if 65 <= b <= 70 {
        Some((b - 55) as nat)
    } else if 97 <= b <= 102 {
        Some((b - 87) as nat)
    } else {
        None
    }
}

/// The bytes that pairs of digits stand for.
pub open spec fn bytes_of_digits(digits: Seq<u8>) -> Seq<u8> {
    Seq::new(
        digits.len() / 2,
        |i: int| (hex_value(digits[2 * i])->0 * 16 + hex_value(digits[2 * i + 1])->0) as u8,
    )
}

/// Every byte is a digit.
pub open spec fn all_hex(digits: Seq<u8>) -> bool {
    forall|i: int| 0 <= i < digits.len() ==> #[trigger] hex_value(digits[i]) is Some
}

/// The lower-case digit of a value below 16.
pub open spec fn hex_char(value: nat) -> char {
    if value < 10 {
        (48 + value) as u8 as char
    } else {
        (87 + value) as u8 as char
    }
}

/// The bytes in lower-case digits, two for each.
pub open spec fn hex_text(bytes: Seq<u8>) -> Seq<char> {
    Seq::new(
        2 * bytes.len(),
        |i: int|
            if i % 2 == 0 {
                hex_char((bytes[i / 2] / 16) as nat)
            } else {
                hex_char((bytes[i / 2] % 16) as nat)
            },
    )
}

/// Why a text is not made of pairs of hexadecimal digits.
#[derive(Clone, Copy, Debug, PartialEq, Eq)]
pub enum HexError {
    /// The byte at `index` is not a digit; `c` is the character of its value.
    InvalidCharacter { c: char, index: usize },
    OddLength,
    InvalidStringLength,
}

/// `hex::decode`: the bytes that the text's pairs of digits stand for. It fails on an odd number
/// of bytes, and else at the first byte of the text that is not a digit; it never reports a wrong
/// length, which only decoding into an array does.
#[verifier::external_body]
pub(crate) fn decode_hex(text: &str) -> (r: Result<Vec<u8>, HexError>)
    ensures
        match r {
            Ok(bytes) => text.spec_bytes().len() % 2 == 0 && all_hex(text.spec_bytes()) && bytes@
                == bytes_of_digits(text.spec_bytes()),
            Err(HexError::OddLength) => text.spec_bytes().len() % 2 == 1,
            Err(HexError::InvalidCharacter { c, index }) => {
                &&& text.spec_bytes().len() % 2 == 0
                &&& index < text.spec_bytes().len()
                &&& hex_value(text.spec_bytes()[index as int]) is None
                &&& c == text.spec_bytes()[index as int] as char
                &&& all_hex(text.spec_bytes().take(index as int))
            },
            Err(HexError::InvalidStringLength) => false,
        },
{
    match hex::decode(text) {
        Ok(bytes) => Ok(bytes),
        Err(hex::FromHexError::InvalidHexCharacter { c, index }) => {
            Err(HexError::InvalidCharacter { c, index })
        },
        Err(hex::FromHexError::OddLength) => Err(HexError::OddLength),
        Err(hex::FromHexError::InvalidStringLength) => Err(HexError::InvalidStringLength),
    }
}

/// `hex::encode`: the bytes in lower-case digits.
#[verifier::external_body]
pub(crate) fn encode_hex(bytes: &[u8]) -> (text: String)
    ensures
        text@ == hex_text(bytes@),
{
    hex::encode(bytes)
}

/// What bytes are written as reads back as the bytes: each is two digits of lower case, the high
/// half first.
pub proof fn digits_read_back_as_their_byte(bytes: Seq<u8>, i: int)
    requires
        0 <= i < bytes.len(),
    ensures
        hex_text(bytes).len() == 2 * bytes.len(),
        ({
            let (high, low) = (hex_text(bytes)[2 * i], hex_text(bytes)[2 * i + 1]);
            &&& hex_value(high as u8) is Some && hex_value(low as u8) is Some
            &&& hex_value(high as u8)->0 * 16 + hex_value(low as u8)->0 == bytes[i]
            &&& ('0' <= high <= '9' || 'a' <= high <= 'f')
            &&& ('0' <= low <= '9' || 'a' <= low <= 'f')
        }),
{
    assert((2 * i) % 2 == 0 && (2 * i) / 2 == i);
    assert((2 * i + 1) % 2 == 1 && (2 * i + 1) / 2 == i);
}

/// A digit's value is its place among 0 to 9 and then a to f, in either case; no other byte has one.
pub proof fn digits_have_their_values(b: u8)
    ensures
        hex_value(b) is Some <==> ('0' <= b as char <= '9' || 'a' <= b as char <= 'f' || 'A'
            <= b as char <= 'F'),
        '0' <= b as char <= '9' ==> hex_value(b) == Some((b - '0' as u8) as nat),
        'a' <= b as char <= 'f' ==> hex_value(b) == Some((10 + b - 'a' as u8) as nat),
        'A' <= b as char <= 'F' ==> hex_value(b) == Some((10 + b - 'A' as u8) as nat),
{
}

/// Digits stand for half as many bytes, each the high half's value times sixteen and the low half's.
pub proof fn pairs_of_digits_are_bytes(digits: Seq<u8>, i: int)
    requires
        all_hex(digits),
        digits.len() % 2 == 0,
        0 <= i < digits.len() / 2,
    ensures
        bytes_of_digits(digits).len() * 2 == digits.len(),
        bytes_of_digits(digits)[i] == hex_value(digits[2 * i])->0 * 16 + hex_value(
            digits[2 * i + 1],
        )->0,
{
    assert(hex_value(digits[2 * i]) is Some && hex_value(digits[2 * i + 1]) is Some);
}

} // verus!
