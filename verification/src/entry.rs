//! Log entries and their packed layout inside a segment.
//!
//! A record is an eight-byte big-endian length followed by that many payload
//! bytes. The payload opens with the entry's eight-byte big-endian timestamp;
//! the rest is the log line.

use vstd::prelude::*;
use vstd::slice::slice_subrange;
use vstd::slice::slice_to_vec;
use crate::wire::be_u64;
use crate::wire::decode_u64;

verus! {

/// One stored record: a timestamp and the log line it belongs to.
#[derive(Debug)]
pub struct Entry {
    pub line: Vec<u8>,
    pub ts: u64,
}

/// What an [`Entry`] is, as plain values.
pub ghost struct EntryView {
    pub ts: u64,
    pub line: Seq<u8>,
}

impl View for Entry {
    type V = EntryView;

    open spec fn view(&self) -> EntryView {
        EntryView { ts: self.ts, line: self.line@ }
    }
}

/// The entry that a payload of at least eight bytes encodes.
pub open spec fn payload_entry(payload: Seq<u8>) -> EntryView
    recommends
        payload.len() >= 8,
{
    EntryView { ts: be_u64(payload.subrange(0, 8)), line: payload.subrange(8, payload.len() as int) }
}

/// Decodes a payload: the first eight bytes are the timestamp, the rest is
/// the line.
pub fn decode_entry(line_buf: &[u8]) -> (entry: Entry)
    requires
        line_buf@.len() >= 8,
    ensures
        entry@ == payload_entry(line_buf@),
{
    let ts = decode_u64(slice_subrange(line_buf, 0, 8));
    let line = slice_to_vec(slice_subrange(line_buf, 8, line_buf.len()));
    Entry { ts, line }
}

/// The payload of the record at `offset`, where the segment holds one in full:
/// the length field lies inside the segment, announces at least the eight
/// timestamp bytes, and the payload ends inside the segment.
pub open spec fn record_payload(segment: Seq<u8>, offset: int) -> Option<Seq<u8>> {
    if 0 <= offset && offset + 8 <= segment.len() {
        let length = be_u64(segment.subrange(offset, offset + 8)) as int;
        if 8 <= length && offset + 8 + length <= segment.len() {
            Some(segment.subrange(offset + 8, offset + 8 + length))
        } else {
            None
        }
    } else {
        None
    }
}

/// The entry stored at `offset`, if the segment holds a whole record there.
pub open spec fn entry_at(segment: Seq<u8>, offset: int) -> Option<EntryView> {
    match record_payload(segment, offset) {
        Some(payload) => Some(payload_entry(payload)),
        None => None,
    }
}

/// Reads the record at `offset`. Returns `None` when the record would reach
/// past the end of the segment or is too short to hold a timestamp.
pub fn read_entry(segment: &[u8], offset: u64) -> (found: Option<Entry>)
    ensures
        match found {
            Some(entry) => entry_at(segment@, offset as int) == Some(entry@),
            None => entry_at(segment@, offset as int).is_none(),
        },
{
    let len = segment.len();
    if len < 8 || offset > (len - 8) as u64 {
        return None;
    }
    let at: usize = offset as usize;
    let start: usize = at + 8;
    let length = decode_u64(slice_subrange(segment, at, start));
    if length < 8 || length > (len - start) as u64 {
        return None;
    }
    let end: usize = start + length as usize;
    Some(decode_entry(slice_subrange(segment, start, end)))
}

} // verus!
