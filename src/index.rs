use vstd::prelude::*;

use crate::error::StoreError;

verus! {

/// Whether `index` addresses one of `n` entries: `0..n` from the newest,
/// `-n..-1` from the oldest.
pub open spec fn index_in_range(index: int, n: int) -> bool {
    -n <= index < n
}

/// The position, counted from the newest entry, that `index` addresses
/// among `n` entries.
pub open spec fn resolved_position(index: int, n: int) -> int {
    if index >= 0 {
        index
    } else {
        n + index
    }
}

/// What resolving `index` against `n` entries gives.
pub open spec fn resolve_spec(index: int, n: int) -> Result<int, StoreError> {
    if n == 0 {
        Err(StoreError::EmptyStore)
    } else if index_in_range(index, n) {
        Ok(resolved_position(index, n))
    } else {
        Err(StoreError::IndexOutOfRange)
    }
}

/// Turns a recency index (negative values count from the oldest entry) into
/// a position counted from the newest entry.
pub fn resolve_index(index: isize, n: usize) -> (r: Result<usize, StoreError>)
    ensures
        match r {
            Ok(p) => resolve_spec(index as int, n as int) == Ok::<int, StoreError>(p as int),
            Err(e) => resolve_spec(index as int, n as int) == Err::<int, StoreError>(e),
        },
        r is Ok ==> r->Ok_0 < n,
{
    if n == 0 {
        return Err(StoreError::EmptyStore);
    }
    if index >= 0 {
        let i = index as usize;
        if i < n {
            Ok(i)
        } else {
            Err(StoreError::IndexOutOfRange)
        }
    } else {
        // `index` is negative, so `-(index + 1)` cannot overflow.
        let back = (-(index + 1)) as usize;
        if back < n {
            Ok(n - 1 - back)
        } else {
            Err(StoreError::IndexOutOfRange)
        }
    }
}

} // verus!
