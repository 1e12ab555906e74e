//! Small byte-array helpers shared by the modules.

use vstd::prelude::*;

verus! {

broadcast use vstd::array::group_array_axioms;

/// Whether two 32-byte keys are the same.
pub fn keys_equal(a: &[u8; 32], b: &[u8; 32]) -> (r: bool)
    ensures
        r == (*a == *b),
{
    let mut i: usize = 0;
    while i < 32
        invariant
            i <= 32,
            forall|j: int| 0 <= j < i ==> a@[j] == b@[j],
        decreases 32 - i,
    {
        if a[i] != b[i] {
            return false;
        }
        i = i + 1;
    }
    assert(*a =~= *b);
    true
}

/// The first 32 bytes of `data` as an array.
pub fn array32_prefix(data: &[u8]) -> (r: [u8; 32])
    requires
        data@.len() >= 32,
    ensures
        r@ == data@.take(32),
{
    let mut out = [0u8; 32];
    let mut i: usize = 0;
    while i < 32
        invariant
            i <= 32,
            data@.len() >= 32,
            forall|j: int| 0 <= j < i ==> out@[j] == data@[j],
        decreases 32 - i,
    {
        out.set(i, data[i]);
        i = i + 1;
    }
    assert(out@ =~= data@.take(32));
    out
}

} // verus!
