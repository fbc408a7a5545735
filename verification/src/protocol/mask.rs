//! Payload masking.

use crate::buffer::be32;
use vstd::prelude::*;

verus! {

/// `bytes` with each byte combined with the byte of `mask` that falls to its position.
pub open spec fn masked(mask: u32, bytes: Seq<u8>) -> Seq<u8> {
    Seq::new(bytes.len(), |i: int| bytes[i] ^ be32(mask)[i % 4])
}

/// Masks, or unmasks, `bytes` in place.
pub fn apply_mask(mask: u32, bytes: &mut [u8])
    ensures
        final(bytes)@ == masked(mask, old(bytes)@),
{
    let high: u16 = (mask / 65536) as u16;
    let low: u16 = (mask % 65536) as u16;
    let key: [u8; 4] = [(high / 256) as u8, (high % 256) as u8, (low / 256) as u8, (low % 256) as u8];
    let len: usize = bytes.len();
    let ghost original = bytes@;
    assert(key@ =~= be32(mask));

    let mut i: usize = 0;
    while i < len
        invariant
            i <= len,
            len == original.len(),
            bytes@.len() == len,
            key@ == be32(mask),
            forall|j: int| 0 <= j < i ==> bytes@[j] == masked(mask, original)[j],
            forall|j: int| i <= j < len ==> bytes@[j] == original[j],
        decreases len - i,
    {
        bytes[i] = bytes[i] ^ key[i % 4];
        i = i + 1;
    }
    assert(bytes@ =~= masked(mask, original));
}

/// Masking with the same key twice gives back what was there.
pub proof fn lemma_masking_twice(mask: u32, bytes: Seq<u8>)
    ensures
        masked(mask, masked(mask, bytes)) == bytes,
{
    assert forall|i: int| 0 <= i < bytes.len() implies masked(mask, masked(mask, bytes))[i]
        == bytes[i] by {
        let b = bytes[i];
        let k = be32(mask)[i % 4];
        assert((b ^ k) ^ k == b) by (bit_vector);
    }
    assert(masked(mask, masked(mask, bytes)) =~= bytes);
}

} // verus!
