//! Masking of frame payloads (RFC 6455, section 5.3).

use vstd::prelude::*;

verus! {

/// The payload `data` XOR-ed with the 4-byte masking `key`, byte `i` with key byte `i % 4`.
pub open spec fn masked(key: Seq<u8>, data: Seq<u8>) -> Seq<u8> {
    Seq::new(data.len(), |i: int| data[i] ^ key[i % 4])
}

/// Masks (or unmasks, the operation is its own inverse) `buf` with `key`.
pub fn mask_data(key: [u8; 4], buf: &[u8]) -> (out: Vec<u8>)
    ensures
        out@ == masked(key@, buf@),
{
    let mut out: Vec<u8> = Vec::new();
    let mut i: usize = 0;
    while i < buf.len()
        invariant
            i <= buf.len(),
            out@ == masked(key@, buf@.subrange(0, i as int)),
        decreases buf.len() - i,
    {
        out.push(buf[i] ^ key[i % 4]);
        i = i + 1;
        assert(out@ =~= masked(key@, buf@.subrange(0, i as int)));
    }
    assert(buf@.subrange(0, buf@.len() as int) =~= buf@);
    out
}

/// Unmasking undoes masking with the same key.
pub proof fn lemma_mask_involution(key: Seq<u8>, data: Seq<u8>)
    requires
        key.len() == 4,
    ensures
        masked(key, masked(key, data)) =~= data,
{
    assert forall|i: int| 0 <= i < data.len() implies masked(key, masked(key, data))[i] == data[i] by {
        let x = data[i];
        let k = key[i % 4];
        assert((x ^ k) ^ k == x) by (bit_vector);
    }
}

/// `rand::random` draws a fresh masking key; any four bytes may come back.
#[verifier::external_body]
pub(crate) fn gen_mask() -> (key: [u8; 4]) {
    rand::random::<[u8; 4]>()
}

} // verus!
