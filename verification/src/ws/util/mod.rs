//! Utility functions for various portions of the library.

pub mod buffer;
pub mod byte_order;
pub mod dataframe;
pub mod header;
pub mod mask;
pub mod url;

use std::str::Utf8Error;
use vstd::prelude::*;
use vstd::utf8::{decode_utf8, valid_utf8};

verus! {

/// The error `std::str::from_utf8` reports for bytes that are not UTF-8.
#[verifier::external_type_specification]
#[verifier::external_body]
pub struct ExUtf8Error(Utf8Error);

/// The error that `std::str::from_utf8` reports for the bytes `data` (where
/// valid UTF-8 ends and how long the invalid sequence is); it depends on the
/// bytes alone.
pub uninterp spec fn utf8_error(data: Seq<u8>) -> Utf8Error;

/// `std::str::from_utf8` accepts exactly the valid UTF-8 byte sequences and
/// gives back the characters they encode; for other bytes it reports the
/// error named `utf8_error`, whose fields are not stated.
#[verifier::external_body]
pub(crate) fn str_from_utf8(data: &[u8]) -> (r: Result<&str, Utf8Error>)
    ensures
        r is Ok <==> valid_utf8(data@),
        r matches Ok(s) ==> s@ == decode_utf8(data@),
        r matches Err(e) ==> e == utf8_error(data@),
{
    std::str::from_utf8(data)
}

/// The characters that `String::from_utf8_lossy` makes of a byte sequence
/// (invalid sequences become U+FFFD).
pub uninterp spec fn lossy_utf8(data: Seq<u8>) -> Seq<char>;

/// `String::from_utf8_lossy`, which the documentation says returns the
/// characters of valid UTF-8 as they are.
#[verifier::external_body]
pub(crate) fn string_from_utf8_lossy(data: &[u8]) -> (s: String)
    ensures
        s@ == lossy_utf8(data@),
        valid_utf8(data@) ==> s@ == decode_utf8(data@),
{
    String::from_utf8_lossy(data).into_owned()
}

/// Transforms a u8 slice into an owned String; bytes that are not UTF-8
/// give the error that `std::str::from_utf8` reports for them.
pub fn bytes_to_string(data: &[u8]) -> (r: Result<String, Utf8Error>)
    ensures
        r is Ok <==> valid_utf8(data@),
        r matches Ok(s) ==> s@ == decode_utf8(data@),
        r matches Err(e) ==> e == utf8_error(data@),
{
    match str_from_utf8(data) {
        Ok(utf8) => Ok(utf8.to_owned()),
        Err(e) => Err(e),
    }
}

/// The text of `data` if it is valid UTF-8, else the lossy text of it.
pub fn text_of_bytes(data: &[u8]) -> (s: String)
    ensures
        s@ == if valid_utf8(data@) {
            decode_utf8(data@)
        } else {
            lossy_utf8(data@)
        },
{
    match str_from_utf8(data) {
        Ok(t) => t.to_owned(),
        Err(_) => string_from_utf8_lossy(data),
    }
}

} // verus!
