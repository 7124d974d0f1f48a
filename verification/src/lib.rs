//! Query resolution and retrieval over one immutable, append-only log segment.
//!
//! A query names a partition, a time range and an optional fuzzy text. It is
//! resolved to byte offsets through posting lists, the entries at those offsets
//! are decoded from the segment's bytes, and the result is walked with a forward
//! cursor.

pub mod collect;
pub mod entry;
pub mod error;
pub mod lookup;
pub mod offsets;
pub mod posting;
pub mod segment_iterator;
pub mod store;
pub mod terms;
pub mod wire;

pub use entry::decode_entry;
pub use entry::Entry;
pub use error::QueryError;
pub use segment_iterator::SegmentIterator;
pub use store::Store;
pub use store::StoreError;
pub use terms::TermIndex;
