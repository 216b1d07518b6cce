//! Hexadecimal text, as the `hex` crate reads and writes it.

use vstd::prelude::*;
use vstd::string::StringSliceAdditionalSpecFns;

verus! {

/// The reason why `hex` could not decode a text.
#[verifier::external_type_specification]
#[verifier::external_body]
pub struct ExFromHexError(hex::FromHexError);

/// The digits that `hex` writes.
pub const HEX_LOWER: [char; 16] = [
    '0', '1', '2', '3', '4', '5', '6', '7', '8', '9', 'a', 'b', 'c', 'd', 'e', 'f',
];

/// The byte is a hexadecimal digit, in either case.
pub open spec fn is_hex_digit(b: u8) -> bool {
    (0x30 <= b <= 0x39) || (0x61 <= b <= 0x66) || (0x41 <= b <= 0x46)
}

/// The value of a hexadecimal digit.
pub open spec fn hex_digit_value(b: u8) -> u8 {
    if 0x30 <= b <= 0x39 {
        (b - 0x30) as u8
    } else if 0x61 <= b <= 0x66 {
        (b - 0x61 + 10) as u8
    } else {
        (b - 0x41 + 10) as u8
    }
}

/// The text is an even number of hexadecimal digits.
pub open spec fn is_hex(text: Seq<u8>) -> bool {
    text.len() % 2 == 0 && forall|i: int| 0 <= i < text.len() ==> is_hex_digit(#[trigger] text[i])
}

/// The bytes that a hexadecimal text stands for: one byte for each two
/// digits, the high digit first.
pub open spec fn hex_decode_spec(text: Seq<u8>) -> Seq<u8> {
    Seq::new(
        text.len() / 2,
        |i: int| (hex_digit_value(text[2 * i]) << 4) | hex_digit_value(text[2 * i + 1]),
    )
}

/// The hexadecimal text of a buffer: two lower-case digits for each byte, the
/// high digit first.
pub open spec fn hex_encode_spec(data: Seq<u8>) -> Seq<char> {
    Seq::new(
        2 * data.len(),
        |j: int|
            if j % 2 == 0 {
                HEX_LOWER@[(data[j / 2] >> 4) as int]
            } else {
                HEX_LOWER@[(data[j / 2] & 0x0f) as int]
            },
    )
}

/// `hex::decode`: a text of an even number of hexadecimal digits gives the
/// bytes that it stands for; any other text gives an error.
#[verifier::external_body]
pub(crate) fn hex_decode(text: &str) -> (r: Result<Vec<u8>, hex::FromHexError>)
    ensures
        r is Ok <==> is_hex(text.spec_bytes()),
        r is Ok ==> r->Ok_0@ == hex_decode_spec(text.spec_bytes()),
{
    hex::decode(text)
}

/// `hex::encode`: the lower-case hexadecimal text of a buffer.
#[verifier::external_body]
pub(crate) fn hex_encode(data: &[u8]) -> (r: String)
    ensures
        r@ == hex_encode_spec(data@),
{
    hex::encode(data)
}

/// Whether a text is an even number of hexadecimal digits.
pub fn is_hex_text(text: &str) -> (r: bool)
    ensures
        r == is_hex(text.spec_bytes()),
{
    let bytes = text.as_bytes();
    let len: usize = bytes.len();
    if len % 2 != 0 {
        return false;
    }
    let mut i: usize = 0;
    while i < len
        invariant
            len == bytes@.len(),
            len % 2 == 0,
            bytes@ == text.spec_bytes(),
            i <= len,
            forall|j: int| 0 <= j < i ==> is_hex_digit(#[trigger] bytes@[j]),
        decreases len - i,
    {
        let b: u8 = bytes[i];
        if !((0x30 <= b && b <= 0x39) || (0x61 <= b && b <= 0x66) || (0x41 <= b && b <= 0x46)) {
            assert(!is_hex_digit(bytes@[i as int]));
            return false;
        }
        i += 1;
    }
    true
}

} // verus!
