//! The key-value store that holds the posting lists.

use vstd::prelude::*;

verus! {

/// Why a lookup in the store did not come back.
#[derive(Debug)]
pub struct StoreError {
    pub message: String,
}

/// A point lookup into the store of posting lists.
///
/// The store is the caller's: nothing is assumed of what a lookup returns,
/// only that it returns. A key that is absent (`Ok(None)`) is told apart from a
/// key whose value is empty (`Ok(Some(..))` of no bytes).
pub trait Store {
    /// The value stored under `key`, if there is one.
    fn get(&self, key: &[u8]) -> Result<Option<Vec<u8>>, StoreError>;
}

} // verus!
