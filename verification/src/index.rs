//! Signed indexing into collections, counted from either end.

use vstd::prelude::*;
use crate::error::ProxyError;

verus! {

/// Normalizes a possibly negative index into `[0, len)`.
///
/// A negative index `-k` denotes position `len - k`. The result is `None`
/// when the normalized position falls outside the collection.
pub open spec fn spec_normalize_index(idx: int, len: int) -> Option<int> {
    if idx >= 0 {
        if idx < len {
            Some(idx)
        } else {
            None
        }
    } else {
        if -idx <= len {
            Some(len + idx)
        } else {
            None
        }
    }
}

/// Normalizes a possibly negative index against a collection of length `len`,
/// failing with an index-range error instead of wrapping or clamping.
pub fn normalize_index(idx: i64, len: usize) -> (r: Result<usize, ProxyError>)
    ensures
        match r {
            Ok(u) => spec_normalize_index(idx as int, len as int) == Some(u as int),
            Err(e) => spec_normalize_index(idx as int, len as int) is None
                && e == (ProxyError::IndexOutOfRange { index: idx, len }),
        },
{
    if idx >= 0 {
        let u = idx as u64;
        if u < len as u64 {
            Ok(u as usize)
        } else {
            Err(ProxyError::IndexOutOfRange { index: idx, len })
        }
    } else {
        // `-idx` computed without overflow even for the smallest value
        let k: u64 = ((-(idx + 1)) as u64) + 1;
        if k <= len as u64 {
            Ok(len - (k as usize))
        } else {
            Err(ProxyError::IndexOutOfRange { index: idx, len })
        }
    }
}

/// Negative indexing, pinned down: in a collection of length `len`, the index
/// `-1` denotes the same position as `len - 1`, and the index `-(len + 1)`
/// normalizes to nothing at all.
pub proof fn lemma_negative_index(len: int)
    requires
        len > 0,
    ensures
        spec_normalize_index(-1, len) == spec_normalize_index(len - 1, len),
        spec_normalize_index(-1, len) == Some(len - 1),
        spec_normalize_index(-(len + 1), len) is None,
{
}

} // verus!
