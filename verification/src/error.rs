//! The ways in which resolving a query can fail.

use vstd::prelude::*;
use crate::store::StoreError;

verus! {

/// A failed resolution. No partial result is ever handed out with it.
#[derive(Debug)]
pub enum QueryError {
    /// A text query was given, but no term index to run it against.
    IndexUnavailable,
    /// The bytes given as a term index are not a finite-state set.
    InvalidIndex,
    /// The fuzzy automaton for the query text grew past the limit of its builder.
    QueryTooComplex,
    /// A term of the index that matches the query is not valid UTF-8.
    InvalidTerm,
    /// The store failed on a lookup.
    Store(StoreError),
    /// The store holds no posting list under the key of a resolved term.
    CorruptIndex { key: Vec<u8> },
    /// The value stored under `key` is not an encoded posting list.
    InvalidPostingList { key: Vec<u8> },
    /// The record at `offset` is cut short or reaches past the segment's end.
    CorruptSegment { offset: u64 },
}

} // verus!
