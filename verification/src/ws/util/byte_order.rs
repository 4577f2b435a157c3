//! Big-endian integers on the wire, read and written through `byteorder`.

use byteorder::{BigEndian, ByteOrder};
use vstd::prelude::*;

verus! {

/// The two bytes of `n`, most significant first.
pub open spec fn be16_bytes(n: u16) -> Seq<u8> {
    seq![(n >> 8u16) as u8, n as u8]
}

/// The eight bytes of `n`, most significant first.
pub open spec fn be64_bytes(n: u64) -> Seq<u8> {
    seq![
        (n >> 56u64) as u8,
        (n >> 48u64) as u8,
        (n >> 40u64) as u8,
        (n >> 32u64) as u8,
        (n >> 24u64) as u8,
        (n >> 16u64) as u8,
        (n >> 8u64) as u8,
        n as u8,
    ]
}

/// The integer whose big-endian form is the first two bytes of `s`.
pub open spec fn be16_value(s: Seq<u8>) -> u16 {
    ((s[0] as u16) << 8u16) | (s[1] as u16)
}

/// The integer whose big-endian form is the first eight bytes of `s`.
pub open spec fn be64_value(s: Seq<u8>) -> u64 {
    ((s[0] as u64) << 56u64) | ((s[1] as u64) << 48u64) | ((s[2] as u64) << 40u64) | ((s[3] as u64)
        << 32u64) | ((s[4] as u64) << 24u64) | ((s[5] as u64) << 16u64) | ((s[6] as u64) << 8u64)
        | (s[7] as u64)
}

/// `BigEndian::read_u16` reads the first two bytes of `buf` as a big-endian
/// integer; it panics on fewer than two bytes, which `requires` rules out.
#[verifier::external_body]
pub(crate) fn read_be_u16(buf: &[u8]) -> (n: u16)
    requires
        buf@.len() >= 2,
    ensures
        n == be16_value(buf@),
{
    BigEndian::read_u16(buf)
}

/// `BigEndian::read_u64` reads the first eight bytes of `buf` as a big-endian
/// integer; it panics on fewer than eight bytes, which `requires` rules out.
#[verifier::external_body]
pub(crate) fn read_be_u64(buf: &[u8]) -> (n: u64)
    requires
        buf@.len() >= 8,
    ensures
        n == be64_value(buf@),
{
    BigEndian::read_u64(buf)
}

/// `BigEndian::write_u16` stores `n` most significant byte first.
#[verifier::external_body]
pub(crate) fn write_be_u16(n: u16) -> (out: [u8; 2])
    ensures
        out@ == be16_bytes(n),
{
    let mut out = [0u8; 2];
    BigEndian::write_u16(&mut out, n);
    out
}

/// `BigEndian::write_u64` stores `n` most significant byte first.
#[verifier::external_body]
pub(crate) fn write_be_u64(n: u64) -> (out: [u8; 8])
    ensures
        out@ == be64_bytes(n),
{
    let mut out = [0u8; 8];
    BigEndian::write_u64(&mut out, n);
    out
}

/// Reading back the two bytes written for `n` gives `n`.
pub proof fn lemma_be16_roundtrip(n: u16, rest: Seq<u8>)
    ensures
        be16_value(be16_bytes(n) + rest) == n,
        be16_bytes(n).len() == 2,
{
    let s = be16_bytes(n) + rest;
    assert(s[0] == (n >> 8u16) as u8);
    assert(s[1] == n as u8);
    assert((((n >> 8u16) as u8 as u16) << 8u16) | (n as u8 as u16) == n) by (bit_vector);
}

/// Reading back the eight bytes written for `n` gives `n`.
pub proof fn lemma_be64_roundtrip(n: u64, rest: Seq<u8>)
    ensures
        be64_value(be64_bytes(n) + rest) == n,
        be64_bytes(n).len() == 8,
{
    let s = be64_bytes(n) + rest;
    assert(s[0] == (n >> 56u64) as u8);
    assert(s[1] == (n >> 48u64) as u8);
    assert(s[2] == (n >> 40u64) as u8);
    assert(s[3] == (n >> 32u64) as u8);
    assert(s[4] == (n >> 24u64) as u8);
    assert(s[5] == (n >> 16u64) as u8);
    assert(s[6] == (n >> 8u64) as u8);
    assert(s[7] == n as u8);
    assert((((n >> 56u64) as u8 as u64) << 56u64) | (((n >> 48u64) as u8 as u64) << 48u64) | (((n
        >> 40u64) as u8 as u64) << 40u64) | (((n >> 32u64) as u8 as u64) << 32u64) | (((n
        >> 24u64) as u8 as u64) << 24u64) | (((n >> 16u64) as u8 as u64) << 16u64) | (((n
        >> 8u64) as u8 as u64) << 8u64) | (n as u8 as u64) == n) by (bit_vector);
}

/// The bytes of a value read from `s` are the first bytes of `s`.
pub proof fn lemma_be16_canonical(s: Seq<u8>)
    requires
        s.len() >= 2,
    ensures
        be16_bytes(be16_value(s)) =~= s.subrange(0, 2),
{
    let a = s[0];
    let b = s[1];
    assert(((((a as u16) << 8u16) | (b as u16)) >> 8u16) as u8 == a) by (bit_vector);
    assert((((a as u16) << 8u16) | (b as u16)) as u8 == b) by (bit_vector);
}

/// The bytes of a value read from `s` are the first bytes of `s`.
pub proof fn lemma_be64_canonical(s: Seq<u8>)
    requires
        s.len() >= 8,
    ensures
        be64_bytes(be64_value(s)) =~= s.subrange(0, 8),
{
    let (a, b, c, d, e, f, g, h) = (s[0], s[1], s[2], s[3], s[4], s[5], s[6], s[7]);
    let v = be64_value(s);
    assert(v == ((a as u64) << 56u64) | ((b as u64) << 48u64) | ((c as u64) << 40u64) | ((
    d as u64) << 32u64) | ((e as u64) << 24u64) | ((f as u64) << 16u64) | ((g as u64) << 8u64) | (
    h as u64));
    assert({
        let v = ((a as u64) << 56u64) | ((b as u64) << 48u64) | ((c as u64) << 40u64) | ((
        d as u64) << 32u64) | ((e as u64) << 24u64) | ((f as u64) << 16u64) | ((g as u64)
            << 8u64) | (h as u64);
        &&& (v >> 56u64) as u8 == a
        &&& (v >> 48u64) as u8 == b
        &&& (v >> 40u64) as u8 == c
        &&& (v >> 32u64) as u8 == d
        &&& (v >> 24u64) as u8 == e
        &&& (v >> 16u64) as u8 == f
        &&& (v >> 8u64) as u8 == g
        &&& v as u8 == h
    }) by (bit_vector);
}

} // verus!
