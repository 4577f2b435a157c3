//! Base64 text of bytes (RFC 4648, standard alphabet, padded), made by
//! `rustc-serialize`.

use rustc_serialize::base64::{ToBase64, STANDARD};
use vstd::prelude::*;

verus! {

/// The character of the standard base64 alphabet for a value below 64.
pub open spec fn b64_char(v: u8) -> char {
    if v < 26 {
        ('A' as u32 + v) as char
    } else if v < 52 {
        ('a' as u32 + v - 26) as char
    } else if v < 62 {
        ('0' as u32 + v - 52) as char
    } else if v == 62 {
        '+'
    } else {
        '/'
    }
}

/// The standard, padded base64 text of `s`: each three bytes become four
/// characters of six bits each, and a last group of one or two bytes is
/// padded with `=`.
pub open spec fn base64(s: Seq<u8>) -> Seq<char>
    decreases s.len(),
{
    if s.len() == 0 {
        Seq::empty()
    } else if s.len() == 1 {
        seq![b64_char(s[0] >> 2u8), b64_char((s[0] & 3u8) << 4u8), '=', '=']
    } else if s.len() == 2 {
        seq![
            b64_char(s[0] >> 2u8),
            b64_char(((s[0] & 3u8) << 4u8) | (s[1] >> 4u8)),
            b64_char((s[1] & 15u8) << 2u8),
            '=',
        ]
    } else {
        seq![
            b64_char(s[0] >> 2u8),
            b64_char(((s[0] & 3u8) << 4u8) | (s[1] >> 4u8)),
            b64_char(((s[1] & 15u8) << 2u8) | (s[2] >> 6u8)),
            b64_char(s[2] & 63u8),
        ] + base64(s.skip(3))
    }
}

/// `ToBase64::to_base64` with the `STANDARD` configuration, which the
/// documentation of `rustc-serialize` describes as RFC 4648 standard base64:
/// the standard alphabet, `=` padding and no line breaks.
#[verifier::external_body]
pub(crate) fn to_base64(bytes: &[u8]) -> (s: String)
    ensures
        s@ == base64(bytes@),
{
    bytes.to_base64(STANDARD)
}

} // verus!
