//! Text that is made from raw bytes: UTF-8 strings and the hyphenated
//! form of a UUID.

use uuid::Uuid;
use vstd::prelude::*;
use vstd::utf8::decode_utf8;
use vstd::utf8::valid_utf8;

verus! {

/// `std::string::FromUtf8Error`, the error of `String::from_utf8`. It is
/// carried through and never read.
#[verifier::external_type_specification]
#[verifier::external_body]
pub struct ExFromUtf8Error(std::string::FromUtf8Error);

/// `uuid::ParseError`, the error of `uuid::Uuid::from_bytes`. It is
/// carried through and never read.
#[verifier::external_type_specification]
#[verifier::external_body]
pub struct ExUuidParseError(uuid::ParseError);

/// The lower-case hexadecimal digit for `n`, a number below sixteen.
pub open spec fn hex_digit(n: int) -> char
    recommends
        0 <= n < 16,
{
    seq!['0', '1', '2', '3', '4', '5', '6', '7', '8', '9', 'a', 'b', 'c', 'd', 'e', 'f'][n]
}

/// Two lower-case hexadecimal digits for each byte, in order.
pub open spec fn hex_text(bytes: Seq<u8>) -> Seq<char> {
    Seq::new(
        2 * bytes.len(),
        |i: int|
            if i % 2 == 0 {
                hex_digit(bytes[i / 2] as int / 16)
            } else {
                hex_digit(bytes[i / 2] as int % 16)
            },
    )
}

/// The canonical text of a UUID given by its sixteen bytes: 32 lower-case
/// hexadecimal digits in groups of 8, 4, 4, 4 and 12, with a hyphen
/// between groups.
pub open spec fn hyphenated_text(bytes: Seq<u8>) -> Seq<char>
    recommends
        bytes.len() == 16,
{
    hex_text(bytes.subrange(0, 4)) + seq!['-'] + hex_text(bytes.subrange(4, 6)) + seq!['-']
        + hex_text(bytes.subrange(6, 8)) + seq!['-'] + hex_text(bytes.subrange(8, 10)) + seq!['-']
        + hex_text(bytes.subrange(10, 16))
}

/// `String::from_utf8`: succeeds exactly on well-formed UTF-8, and the
/// string then holds the characters that the bytes encode.
#[verifier::external_body]
pub(crate) fn string_from_utf8(bytes: Vec<u8>) -> (r: Result<String, std::string::FromUtf8Error>)
    ensures
        r is Ok <==> valid_utf8(bytes@),
        r matches Ok(s) ==> s@ == decode_utf8(bytes@),
{
    String::from_utf8(bytes)
}

/// `uuid::Uuid::from_bytes`, then `Uuid::hyphenated` rendered with
/// `to_string`: fails exactly when the slice is not sixteen bytes long,
/// and otherwise gives the lower-case hyphenated text of those bytes.
#[verifier::external_body]
pub(crate) fn uuid_hyphenated(bytes: &[u8]) -> (r: Result<String, uuid::ParseError>)
    ensures
        r is Ok <==> bytes@.len() == 16,
        r matches Ok(s) ==> s@ == hyphenated_text(bytes@),
{
    let uuid = Uuid::from_bytes(bytes)?;
    Ok(uuid.hyphenated().to_string())
}

} // verus!
