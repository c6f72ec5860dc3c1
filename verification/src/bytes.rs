//! Comparing and taking apart runs of bytes.

use vstd::array::array_as_slice;
use vstd::prelude::*;

verus! {

/// The hash by which a piece of content is known.
pub type ContentHash = [u8; 32];

/// Whether two runs hold the same bytes.
pub fn same_bytes(a: &[u8], b: &[u8]) -> (same: bool)
    ensures
        same == (a@ == b@),
{
    if a.len() != b.len() {
        return false;
    }
    let mut i: usize = 0;
    while i < a.len()
        invariant
            i <= a@.len(),
            a@.len() == b@.len(),
            a@.take(i as int) == b@.take(i as int),
        decreases a@.len() - i,
    {
        if a[i] != b[i] {
            assert(a@[i as int] != b@[i as int]);
            return false;
        }
        assert(a@.take(i + 1) =~= a@.take(i as int).push(a@[i as int]));
        assert(b@.take(i + 1) =~= b@.take(i as int).push(b@[i as int]));
        i += 1;
    }
    assert(a@.take(i as int) =~= a@);
    assert(b@.take(i as int) =~= b@);
    true
}

/// Whether two content hashes are one.
pub fn same_hash(a: &ContentHash, b: &ContentHash) -> (same: bool)
    ensures
        same == (*a == *b),
{
    let same: bool = same_bytes(array_as_slice(a), array_as_slice(b));
    proof {
        if same {
            assert(*a =~= *b);
        }
    }
    same
}

/// A copy of `bytes`.
pub fn copied(bytes: &[u8]) -> (copy: Vec<u8>)
    ensures
        copy@ == bytes@,
{
    vstd::slice::slice_to_vec(bytes)
}

} // verus!
