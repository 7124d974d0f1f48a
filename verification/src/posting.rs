//! Posting lists: their keys in the store and their encoding.
//!
//! A posting list is stored as its offsets one after another, each as eight
//! bytes, most significant byte first.

use vstd::prelude::*;
use vstd::slice::slice_subrange;
use vstd::string::StringSliceAdditionalSpecFns;
use crate::wire::be_u64;
use crate::wire::decimal;
use crate::wire::decode_u64;
use crate::wire::push_decimal;

verus! {

/// What every posting-list key starts with.
pub const SEGMENT_PREFIX: &'static str = "segment";

/// The reserved term whose posting list names every entry of a segment.
pub const POSTING_LIST_ALL: &'static str = "!all";

/// The byte that separates the parts of a key: an underscore.
pub const KEY_SEPARATOR: u8 = 0x5f;

/// The key under which the store holds the posting list of `term`:
/// prefix, partition, segment id in decimal and term, joined by `_`.
pub open spec fn posting_key(partition: Seq<u8>, id: u64, term: Seq<u8>) -> Seq<u8> {
    SEGMENT_PREFIX.spec_bytes() + seq![KEY_SEPARATOR] + partition + seq![KEY_SEPARATOR] + decimal(
        id as nat,
    ) + seq![KEY_SEPARATOR] + term
}

/// Builds the key of the posting list of `term` in segment `id` of `partition`.
pub fn posting_list_key(partition: &[u8], id: u64, term: &[u8]) -> (key: Vec<u8>)
    ensures
        key@ == posting_key(partition@, id, term@),
{
    let mut key: Vec<u8> = Vec::new();
    key.extend_from_slice(SEGMENT_PREFIX.as_bytes());
    key.push(KEY_SEPARATOR);
    key.extend_from_slice(partition);
    key.push(KEY_SEPARATOR);
    push_decimal(&mut key, id);
    key.push(KEY_SEPARATOR);
    key.extend_from_slice(term);
    key
}

/// The offsets that `bytes` encode: one for each group of eight bytes, or
/// `None` when the bytes do not split into groups of eight.
pub open spec fn posting_list(bytes: Seq<u8>) -> Option<Seq<u64>> {
    if bytes.len() % 8 == 0 {
        Some(Seq::new((bytes.len() / 8) as nat, |i: int| be_u64(bytes.subrange(8 * i, 8 * i + 8))))
    } else {
        None
    }
}

/// Decodes a stored posting list, in the order in which it was stored.
pub fn decode_posting_list(bytes: &[u8]) -> (list: Option<Vec<u64>>)
    ensures
        match list {
            Some(offsets) => posting_list(bytes@) == Some(offsets@),
            None => posting_list(bytes@).is_none(),
        },
{
    let len = bytes.len();
    if len % 8 != 0 {
        return None;
    }
    let count = len / 8;
    let mut offsets: Vec<u64> = Vec::new();
    let mut i: usize = 0;
    while i < count
        invariant
            len == bytes@.len(),
            len == 8 * count,
            i <= count,
            offsets@.len() == i,
            forall|k: int| 0 <= k < i ==> offsets@[k] == be_u64(#[trigger] bytes@.subrange(8 * k, 8 * k + 8)),
        decreases count - i,
    {
        let value = decode_u64(slice_subrange(bytes, 8 * i, 8 * i + 8));
        offsets.push(value);
        i = i + 1;
    }
    assert(offsets@ =~= posting_list(bytes@).unwrap());
    Some(offsets)
}

} // verus!
