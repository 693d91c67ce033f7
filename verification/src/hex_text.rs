//! Bytes as hexadecimal digits.

use crate::text::digit_value;
use vstd::prelude::*;
use vstd::utf8::encode_utf8;

verus! {

/// The character of a hexadecimal digit.
pub open spec fn hex_digit(d: int) -> char {
    if d < 10 {
        ('0' as u32 + d) as char
    } else {
        ('a' as u32 + (d - 10)) as char
    }
}

/// The bytes written with two hexadecimal digits each, the more significant one first.
pub open spec fn hex_of(bytes: Seq<u8>) -> Seq<char> {
    Seq::new(
        2 * bytes.len(),
        |i: int|
            hex_digit(
                if i % 2 == 0 {
                    bytes[i / 2] as int / 16
                } else {
                    bytes[i / 2] as int % 16
                },
            ),
    )
}

/// Whether the text consists of hexadecimal digits, two for each of `count` bytes.
pub open spec fn is_hex(text: Seq<u8>, count: int) -> bool {
    &&& text.len() == 2 * count
    &&& forall|i: int| 0 <= i < text.len() ==> digit_value(#[trigger] text[i], 16) is Some
}

/// The bytes which are written as hexadecimal digits.
pub open spec fn bytes_of_hex(text: Seq<u8>) -> Seq<u8> {
    Seq::new(
        text.len() / 2,
        |i: int| (digit_value(text[2 * i], 16)->0 * 16 + digit_value(text[2 * i + 1], 16)->0) as u8,
    )
}

#[verifier::external_type_specification]
#[verifier::external_body]
pub struct ExFromHexError(hex::FromHexError);

/// `hex::encode`: each byte becomes two lower case hexadecimal digits.
#[verifier::external_body]
pub(crate) fn encode(data: &[u8]) -> (s: String)
    ensures
        s@ == hex_of(data@),
{
    hex::encode(data)
}

/// `hex::decode_to_slice`: fills the slice with the bytes which are written as hexadecimal digits,
/// of either case. It is an error if there are not two digits for each byte of the slice, or
/// anything else than digits. After an error the slice has the same length, and nothing is said
/// of its content, some of which may have been overwritten.
#[verifier::external_body]
pub(crate) fn decode_to_slice(data: &str, out: &mut [u8]) -> (r: Result<(), hex::FromHexError>)
    ensures
        final(out)@.len() == old(out)@.len(),
        r is Ok <==> is_hex(encode_utf8(data@), old(out)@.len() as int),
        r is Ok ==> final(out)@ == bytes_of_hex(encode_utf8(data@)),
{
    hex::decode_to_slice(data, out)
}

/// Bytes are read back from their hexadecimal digits.
pub proof fn hex_is_read_back(bytes: Seq<u8>)
    ensures
        is_hex(encode_utf8(hex_of(bytes)), bytes.len() as int),
        bytes_of_hex(encode_utf8(hex_of(bytes))) == bytes,
{
    let chars = hex_of(bytes);
    assert(vstd::utf8::is_ascii_chars(chars));
    vstd::utf8::is_ascii_chars_encode_utf8(chars);
    let text = encode_utf8(chars);
    assert forall|i: int| 0 <= i < text.len() implies digit_value(#[trigger] text[i], 16) == Some(
        if i % 2 == 0 {
            bytes[i / 2] as int / 16
        } else {
            bytes[i / 2] as int % 16
        },
    ) by {
        assert(text[i] == chars[i] as u8);
    }
    assert forall|i: int| 0 <= i < bytes.len() implies #[trigger] bytes_of_hex(text)[i] == bytes[i] by {
        assert(digit_value(text[2 * i], 16) is Some);
        assert(digit_value(text[2 * i + 1], 16) is Some);
    }
    assert(bytes_of_hex(text) =~= bytes);
}

} // verus!
