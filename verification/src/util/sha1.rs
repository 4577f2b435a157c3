//! SHA-1 (FIPS 180-4), used to derive the handshake accept key.

use crate::ws::util::byte_order::be64_bytes;
use vstd::prelude::*;

verus! {

/// `x` rotated left by `n` bits.
pub open spec fn rotl(x: u32, n: u32) -> u32 {
    (x << n) | (x >> (32u32 - n))
}

/// The number of zero bytes that pad a message of `len` bytes.
pub open spec fn zero_pad_len(len: nat) -> nat {
    ((119 - (len % 64) as int) % 64) as nat
}

/// The padded message: a one bit, zeros, and the message length in bits.
pub open spec fn sha1_pad(m: Seq<u8>) -> Seq<u8> {
    m + seq![0x80u8] + Seq::new(zero_pad_len(m.len()), |i: int| 0u8) + be64_bytes(
        (m.len() * 8) as u64,
    )
}

/// The big-endian 32-bit word at byte offset `i` of `p`.
pub open spec fn word_at(p: Seq<u8>, i: int) -> u32 {
    ((p[i] as u32) << 24u32) | ((p[i + 1] as u32) << 16u32) | ((p[i + 2] as u32) << 8u32) | (p[i
        + 3] as u32)
}

/// Word `t` of the message schedule of the block at byte offset `base` of `p`.
pub open spec fn schedule(p: Seq<u8>, base: int, t: nat) -> u32
    decreases t,
{
    if t < 16 {
        word_at(p, base + 4 * t)
    } else {
        rotl(
            schedule(p, base, (t - 3) as nat) ^ schedule(p, base, (t - 8) as nat) ^ schedule(
                p,
                base,
                (t - 14) as nat,
            ) ^ schedule(p, base, (t - 16) as nat),
            1,
        )
    }
}

/// The five working words of the hash.
pub struct Sha1State {
    pub a: u32,
    pub b: u32,
    pub c: u32,
    pub d: u32,
    pub e: u32,
}

/// The initial hash value.
pub open spec fn sha1_init() -> Sha1State {
    Sha1State { a: 0x67452301, b: 0xEFCDAB89, c: 0x98BADCFE, d: 0x10325476, e: 0xC3D2E1F0 }
}

/// The logical function of round `t`.
pub open spec fn round_f(t: nat, b: u32, c: u32, d: u32) -> u32 {
    if t < 20 {
        (b & c) | (!b & d)
    } else if t < 40 {
        b ^ c ^ d
    } else if t < 60 {
        (b & c) | (b & d) | (c & d)
    } else {
        b ^ c ^ d
    }
}

/// The constant of round `t`.
pub open spec fn round_k(t: nat) -> u32 {
    if t < 20 {
        0x5A827999
    } else if t < 40 {
        0x6ED9EBA1
    } else if t < 60 {
        0x8F1BBCDC
    } else {
        0xCA62C1D6
    }
}

/// One round of the compression function with schedule word `w`.
pub open spec fn round(s: Sha1State, t: nat, w: u32) -> Sha1State {
    let temp = rotl(s.a, 5).wrapping_add(round_f(t, s.b, s.c, s.d)).wrapping_add(s.e).wrapping_add(
        round_k(t),
    ).wrapping_add(w);
    Sha1State { a: temp, b: s.a, c: rotl(s.b, 30), d: s.c, e: s.d }
}

/// The working words after the first `n` rounds over the block at `base`.
pub open spec fn rounds(s: Sha1State, p: Seq<u8>, base: int, n: nat) -> Sha1State
    decreases n,
{
    if n == 0 {
        s
    } else {
        round(rounds(s, p, base, (n - 1) as nat), (n - 1) as nat, schedule(p, base, (n - 1) as nat))
    }
}

/// The hash value after the block at byte offset `base` of `p`.
pub open spec fn compress(h: Sha1State, p: Seq<u8>, base: int) -> Sha1State {
    let z = rounds(h, p, base, 80);
    Sha1State {
        a: h.a.wrapping_add(z.a),
        b: h.b.wrapping_add(z.b),
        c: h.c.wrapping_add(z.c),
        d: h.d.wrapping_add(z.d),
        e: h.e.wrapping_add(z.e),
    }
}

/// The hash value after the first `n` blocks of `p`.
pub open spec fn hash_blocks(p: Seq<u8>, n: nat) -> Sha1State
    decreases n,
{
    if n == 0 {
        sha1_init()
    } else {
        compress(hash_blocks(p, (n - 1) as nat), p, 64 * (n - 1))
    }
}

/// The four bytes of `x`, most significant first.
pub open spec fn be32_bytes(x: u32) -> Seq<u8> {
    seq![(x >> 24u32) as u8, (x >> 16u32) as u8, (x >> 8u32) as u8, x as u8]
}

/// The 20-byte digest of a final hash value.
pub open spec fn digest_bytes(h: Sha1State) -> Seq<u8> {
    be32_bytes(h.a) + be32_bytes(h.b) + be32_bytes(h.c) + be32_bytes(h.d) + be32_bytes(h.e)
}

/// The SHA-1 digest of `m`.
pub open spec fn sha1_digest(m: Seq<u8>) -> Seq<u8> {
    let p = sha1_pad(m);
    digest_bytes(hash_blocks(p, p.len() / 64))
}

fn rotate(x: u32, n: u32) -> (r: u32)
    requires
        0 < n < 32,
    ensures
        r == rotl(x, n),
{
    (x << n) | (x >> (32 - n))
}

/// The padded message of `mesg`.
fn pad_message(mesg: &[u8]) -> (message: Vec<u8>)
    requires
        mesg@.len() < 0x1000_0000_0000_0000,
        mesg@.len() + 128 <= usize::MAX,
    ensures
        message@ == sha1_pad(mesg@),
        message@.len() % 64 == 0,
{
    let ml: u64 = mesg.len() as u64 * 8u64;
    let mut message: Vec<u8> = Vec::new();
    let mut i: usize = 0;
    while i < mesg.len()
        invariant
            i <= mesg.len(),
            message@ == mesg@.subrange(0, i as int),
        decreases mesg.len() - i,
    {
        message.push(mesg[i]);
        i = i + 1;
        assert(message@ =~= mesg@.subrange(0, i as int));
    }
    assert(mesg@.subrange(0, mesg@.len() as int) =~= mesg@);
    message.push(0x80);
    let ghost head = message@;
    let mut zeros: usize = 0;
    while message.len() % 64 != 56
        invariant
            head == mesg@ + seq![0x80u8],
            message@ == head + Seq::new(zeros as nat, |j: int| 0u8),
            zeros <= 63,
            (mesg@.len() + 1 + zeros) % 64 == 56 || zeros < zero_pad_len(mesg@.len()),
            zeros <= zero_pad_len(mesg@.len()),
            mesg@.len() + 128 <= usize::MAX,
        decreases zero_pad_len(mesg@.len()) - zeros,
    {
        message.push(0x00);
        zeros = zeros + 1;
        assert(message@ =~= head + Seq::new(zeros as nat, |j: int| 0u8));
    }
    assert(zeros == zero_pad_len(mesg@.len()));
    let ghost body = message@;
    let mut k: usize = 0;
    while k < 8
        invariant
            k <= 8,
            message@ == body + be64_bytes(ml).subrange(0, k as int),
            body.len() + 8 <= usize::MAX,
        decreases 8 - k,
    {
        let shift: u64 = 56 - (k as u64) * 8;
        message.push((ml >> shift) as u8);
        proof {
            let b = be64_bytes(ml);
            if k == 0 {
                assert(b[0] == (ml >> shift) as u8);
            } else if k == 1 {
                assert(b[1] == (ml >> shift) as u8);
            } else if k == 2 {
                assert(b[2] == (ml >> shift) as u8);
            } else if k == 3 {
                assert(b[3] == (ml >> shift) as u8);
            } else if k == 4 {
                assert(b[4] == (ml >> shift) as u8);
            } else if k == 5 {
                assert(b[5] == (ml >> shift) as u8);
            } else if k == 6 {
                assert(b[6] == (ml >> shift) as u8);
            } else {
                assert(ml >> 0u64 == ml) by (bit_vector);
                assert(b[7] == (ml >> shift) as u8);
            }
        }
        k = k + 1;
        assert(message@ =~= body + be64_bytes(ml).subrange(0, k as int));
    }
    assert(be64_bytes(ml).subrange(0, 8) =~= be64_bytes(ml));
    assert(ml == (mesg@.len() * 8) as u64);
    message
}

/// Computes the SHA-1 digest of `mesg`.
///
/// SHA-1 is defined for messages shorter than 2^64 bits.
pub fn sha1(mesg: &[u8]) -> (out: [u8; 20])
    requires
        mesg@.len() < 0x1000_0000_0000_0000,
        mesg@.len() + 128 <= usize::MAX,
    ensures
        out@ == sha1_digest(mesg@),
{
    let message = pad_message(mesg);
    let ghost p = message@;
    let mut h: [u32; 5] = [0x67452301, 0xEFCDAB89, 0x98BADCFE, 0x10325476, 0xC3D2E1F0];
    let mut count: usize = 0;
    let ghost mut nblocks: nat = 0;
    while count < message.len()
        invariant
            p == message@,
            p.len() % 64 == 0,
            count == 64 * nblocks,
            count <= p.len(),
            hash_blocks(p, nblocks) == (Sha1State { a: h[0], b: h[1], c: h[2], d: h[3], e: h[4] }),
        decreases p.len() - count,
    {
        let mut w: [u32; 80] = [0u32; 80];
        let mut i: usize = 0;
        while i < 16
            invariant
                i <= 16,
                p == message@,
                count + 64 <= p.len(),
                p.len() <= usize::MAX,
                forall|j: int| 0 <= j < i ==> w[j] == schedule(p, count as int, j as nat),
            decreases 16 - i,
        {
            let c = count + 4 * i;
            w[i] = (message[c] as u32) << 24 | (message[c + 1] as u32) << 16 | (message[c + 2] as u32)
                << 8 | (message[c + 3] as u32);
            i = i + 1;
        }
        while i < 80
            invariant
                16 <= i <= 80,
                forall|j: int| 0 <= j < i ==> w[j] == schedule(p, count as int, j as nat),
            decreases 80 - i,
        {
            w[i] = rotate(w[i - 3] ^ w[i - 8] ^ w[i - 14] ^ w[i - 16], 1);
            i = i + 1;
        }
        let mut z: [u32; 5] = [h[0], h[1], h[2], h[3], h[4]];
        let ghost h0 = Sha1State { a: h[0], b: h[1], c: h[2], d: h[3], e: h[4] };
        let mut t: usize = 0;
        while t < 80
            invariant
                t <= 80,
                forall|j: int| 0 <= j < 80 ==> w[j] == schedule(p, count as int, j as nat),
                rounds(h0, p, count as int, t as nat) == (Sha1State {
                    a: z[0],
                    b: z[1],
                    c: z[2],
                    d: z[3],
                    e: z[4],
                }),
            decreases 80 - t,
        {
            let f: u32;
            let k: u32;
            if t < 20 {
                f = (z[1] & z[2]) | (!z[1] & z[3]);
                k = 0x5A827999;
            } else if t < 40 {
                f = z[1] ^ z[2] ^ z[3];
                k = 0x6ED9EBA1;
            } else if t < 60 {
                f = (z[1] & z[2]) | (z[1] & z[3]) | (z[2] & z[3]);
                k = 0x8F1BBCDC;
            } else {
                f = z[1] ^ z[2] ^ z[3];
                k = 0xCA62C1D6;
            }
            let temp: u32 = rotate(z[0], 5).wrapping_add(f).wrapping_add(z[4]).wrapping_add(
                k,
            ).wrapping_add(w[t]);
            z[4] = z[3];
            z[3] = z[2];
            z[2] = rotate(z[1], 30);
            z[1] = z[0];
            z[0] = temp;
            t = t + 1;
        }
        h[0] = h[0].wrapping_add(z[0]);
        h[1] = h[1].wrapping_add(z[1]);
        h[2] = h[2].wrapping_add(z[2]);
        h[3] = h[3].wrapping_add(z[3]);
        h[4] = h[4].wrapping_add(z[4]);
        proof {
            nblocks = nblocks + 1;
        }
        count = count + 64;
    }
    assert(nblocks == p.len() / 64);
    let mut output: [u8; 20] = [0u8; 20];
    let mut i: usize = 0;
    while i < 5
        invariant
            i <= 5,
            forall|j: int|
                0 <= j < 4 * i ==> output[j] == be32_bytes(h[j / 4])[j % 4],
        decreases 5 - i,
    {
        output[i * 4] = (h[i] >> 24) as u8;
        output[i * 4 + 1] = (h[i] >> 16) as u8;
        output[i * 4 + 2] = (h[i] >> 8) as u8;
        output[i * 4 + 3] = h[i] as u8;
        i = i + 1;
    }
    assert(output@ =~= digest_bytes(hash_blocks(p, nblocks)));
    output
}

} // verus!
