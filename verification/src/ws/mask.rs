//! Payload masking with a rotating four-byte key.

use vstd::prelude::*;

verus! {

/// The payload `data` with byte `i` XOR-ed with `key[i % 4]`.
pub open spec fn masked(data: Seq<u8>, key: Seq<u8>) -> Seq<u8>
    recommends
        key.len() == 4,
{
    Seq::new(data.len(), |i: int| data[i] ^ key[i % 4])
}

/// Applies the rotating XOR mask `key` to `buf` in place.
pub fn apply_mask(buf: &mut Vec<u8>, key: &[u8; 4])
    ensures
        final(buf)@ == masked(old(buf)@, key@),
{
    let n = buf.len();
    let mut i: usize = 0;
    while i < n
        invariant
            n == buf.len(),
            buf.len() == old(buf).len(),
            i <= n,
            forall|j: int| 0 <= j < i ==> buf@[j] == old(buf)@[j] ^ key@[j % 4],
            forall|j: int| i <= j < n ==> buf@[j] == old(buf)@[j],
        decreases n - i,
    {
        let b = buf[i] ^ key[i % 4];
        buf.set(i, b);
        i += 1;
    }
    assert(buf@ =~= masked(old(buf)@, key@));
}

} // verus!
