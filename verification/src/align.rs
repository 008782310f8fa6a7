//! Alignment arithmetic of the size-prefixed allocator.

use vstd::prelude::*;

verus! {

/// The larger of two sizes.
pub fn max(a: usize, b: usize) -> (r: usize)
    ensures
        r >= a,
        r >= b,
        r == a || r == b,
{
    if a < b {
        b
    } else {
        a
    }
}

/// The size of a block together with the prefix that holds its size, where
/// that sum is a size at all.
pub fn padded_size(size: usize, prefix: usize) -> (r: Option<usize>)
    ensures
        r == (if size + prefix <= usize::MAX {
            Some((size + prefix) as usize)
        } else {
            None
        }),
{
    if size <= usize::MAX - prefix {
        Some(size + prefix)
    } else {
        None
    }
}

} // verus!
