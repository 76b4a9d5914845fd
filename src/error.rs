use vstd::prelude::*;

verus! {

/// Failures of the entry store's lookups and deletions.
#[derive(Debug, Clone, Copy, PartialEq, Eq, Structural)]
pub enum StoreError {
    /// The index lies outside `[-n, n-1]` for the current count `n`.
    IndexOutOfRange,
    /// The store holds no entry at all.
    EmptyStore,
}

} // verus!
