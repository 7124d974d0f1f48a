//! Reading the entries behind a list of offsets and keeping those in range.

use std::rc::Rc;
use vstd::prelude::*;
use crate::entry::entry_at;
use crate::entry::read_entry;
use crate::entry::Entry;
use crate::entry::EntryView;
use crate::error::QueryError;
use crate::offsets::distinct_ascending;
use crate::offsets::distinct_offsets;
use crate::offsets::lemma_distinct_ascending_exists;
use crate::offsets::strictly_ascending;

verus! {

/// Whether an entry with timestamp `ts` is kept: it lies in the closed range,
/// or the range is `(0, 0)`, which stands for no filter at all.
pub open spec fn in_range(ts: u64, start_ts: u64, end_ts: u64) -> bool {
    (start_ts <= ts && ts <= end_ts) || (start_ts == 0 && end_ts == 0)
}

/// Decides whether an entry with timestamp `ts` passes the time filter.
pub fn keeps(ts: u64, start_ts: u64, end_ts: u64) -> (kept: bool)
    ensures
        kept == in_range(ts, start_ts, end_ts),
{
    (start_ts <= ts && ts <= end_ts) || (start_ts == 0 && end_ts == 0)
}

/// The first of `offsets` at which the segment holds no whole record.
pub open spec fn first_unreadable(segment: Seq<u8>, offsets: Seq<u64>) -> Option<u64>
    decreases offsets.len(),
{
    if offsets.len() == 0 {
        None
    } else {
        match first_unreadable(segment, offsets.drop_last()) {
            Some(offset) => Some(offset),
            None => if entry_at(segment, offsets.last() as int) is None {
                Some(offsets.last())
            } else {
                None
            },
        }
    }
}

/// The entries at `offsets`, in that order, without those that the time
/// filter drops. An offset without a whole record gives no entry.
pub open spec fn selected(segment: Seq<u8>, offsets: Seq<u64>, start_ts: u64, end_ts: u64) -> Seq<
    EntryView,
>
    decreases offsets.len(),
{
    if offsets.len() == 0 {
        Seq::empty()
    } else {
        let before = selected(segment, offsets.drop_last(), start_ts, end_ts);
        match entry_at(segment, offsets.last() as int) {
            Some(entry) => if in_range(entry.ts, start_ts, end_ts) {
                before.push(entry)
            } else {
                before
            },
            None => before,
        }
    }
}

/// What reading `offsets` in order is owed to give: the first offset without a
/// whole record fails the read, otherwise the entries in range come back.
pub open spec fn collected(segment: Seq<u8>, offsets: Seq<u64>, start_ts: u64, end_ts: u64) -> Result<
    Seq<EntryView>,
    QueryError,
> {
    match first_unreadable(segment, offsets) {
        Some(offset) => Err(QueryError::CorruptSegment { offset }),
        None => Ok(selected(segment, offsets, start_ts, end_ts)),
    }
}

/// A list of shared entries, each taken as the plain values that it holds.
pub open spec fn entry_views(entries: Seq<Rc<Entry>>) -> Seq<EntryView> {
    Seq::new(entries.len(), |i: int| entries[i]@)
}

/// The result of a read with each entry taken as its plain values.
pub open spec fn collected_view(read: Result<Vec<Rc<Entry>>, QueryError>) -> Result<
    Seq<EntryView>,
    QueryError,
> {
    match read {
        Ok(entries) => Ok(entry_views(entries@)),
        Err(e) => Err(e),
    }
}

/// Reads the entry at each of `offsets` from the segment, in order, and keeps
/// those that pass the time filter. The read fails at the first offset whose
/// record is cut short or reaches past the segment's end, whether or not the
/// filter would have kept it.
pub fn read_entries(segment: &[u8], offsets: &Vec<u64>, start_ts: u64, end_ts: u64) -> (read: Result<
    Vec<Rc<Entry>>,
    QueryError,
>)
    ensures
        collected_view(read) == collected(segment@, offsets@, start_ts, end_ts),
{
    let mut entries: Vec<Rc<Entry>> = Vec::new();
    let mut i: usize = 0;
    while i < offsets.len()
        invariant
            i <= offsets@.len(),
            first_unreadable(segment@, offsets@.take(i as int)) is None,
            entry_views(entries@) == selected(segment@, offsets@.take(i as int), start_ts, end_ts),
        decreases offsets@.len() - i,
    {
        let offset = offsets[i];
        assert(offsets@.take(i + 1).drop_last() =~= offsets@.take(i as int));
        match read_entry(segment, offset) {
            None => {
                assert(offsets@ =~= offsets@.take(i + 1) + offsets@.skip(i + 1));
                proof {
                    lemma_first_unreadable_stays(
                        segment@,
                        offsets@.take(i + 1),
                        offsets@.skip(i + 1),
                    );
                }
                return Err(QueryError::CorruptSegment { offset });
            },
            Some(entry) => {
                if keeps(entry.ts, start_ts, end_ts) {
                    let ghost before = entries@;
                    entries.push(Rc::new(entry));
                    assert(entry_views(entries@) =~= entry_views(before).push(entry@));
                }
            },
        }
        i = i + 1;
    }
    assert(offsets@.take(i as int) =~= offsets@);
    Ok(entries)
}

/// Merges the offsets gathered from all posting lists and reads their entries:
/// the offsets are sorted, each distinct offset is read once however many
/// posting lists named it, and the entries that pass the time filter come
/// back in the order of their offsets.
pub fn collect_entries(segment: &[u8], offsets: Vec<u64>, start_ts: u64, end_ts: u64) -> (read:
    Result<Vec<Rc<Entry>>, QueryError>)
    ensures
        collected_view(read) == collected(
            segment@,
            distinct_ascending(offsets@),
            start_ts,
            end_ts,
        ),
{
    let kept = distinct_offsets(offsets);
    read_entries(segment, &kept, start_ts, end_ts)
}

/// The offsets whose entries [`selected`] keeps, in the same order.
pub open spec fn selected_offsets(
    segment: Seq<u8>,
    offsets: Seq<u64>,
    start_ts: u64,
    end_ts: u64,
) -> Seq<u64>
    decreases offsets.len(),
{
    if offsets.len() == 0 {
        Seq::empty()
    } else {
        let before = selected_offsets(segment, offsets.drop_last(), start_ts, end_ts);
        match entry_at(segment, offsets.last() as int) {
            Some(entry) => if in_range(entry.ts, start_ts, end_ts) {
                before.push(offsets.last())
            } else {
                before
            },
            None => before,
        }
    }
}

/// Each entry that is kept comes from an offset of its own: the offsets behind
/// the kept entries are as many as the entries, each holds its entry, and
/// each is one of `offsets` and lies below the next.
pub proof fn lemma_selected_sources(segment: Seq<u8>, offsets: Seq<u64>, start_ts: u64, end_ts: u64)
    requires
        strictly_ascending(offsets),
    ensures
        selected_offsets(segment, offsets, start_ts, end_ts).len() == selected(
            segment,
            offsets,
            start_ts,
            end_ts,
        ).len(),
        forall|i: int|
            0 <= i < selected(segment, offsets, start_ts, end_ts).len() ==> entry_at(
                segment,
                #[trigger] selected_offsets(segment, offsets, start_ts, end_ts)[i] as int,
            ) == Some(selected(segment, offsets, start_ts, end_ts)[i]),
        forall|i: int|
            0 <= i < selected_offsets(segment, offsets, start_ts, end_ts).len()
                ==> offsets.contains(
                #[trigger] selected_offsets(segment, offsets, start_ts, end_ts)[i],
            ),
        strictly_ascending(selected_offsets(segment, offsets, start_ts, end_ts)),
        selected_offsets(segment, offsets, start_ts, end_ts).len() > 0 ==> selected_offsets(
            segment,
            offsets,
            start_ts,
            end_ts,
        ).last() <= offsets.last(),
    decreases offsets.len(),
{
    if offsets.len() > 0 {
        let front = offsets.drop_last();
        assert(strictly_ascending(front)) by {
            assert forall|p: int, q: int| 0 <= p < q < front.len() implies front[p] < front[q] by {
                assert(offsets[p] < offsets[q]);
            }
        }
        lemma_selected_sources(segment, front, start_ts, end_ts);
        let before = selected_offsets(segment, front, start_ts, end_ts);
        let sources = selected_offsets(segment, offsets, start_ts, end_ts);
        assert forall|i: int| 0 <= i < sources.len() implies offsets.contains(
            #[trigger] sources[i],
        ) by {
            if i < before.len() {
                assert(front.contains(before[i]));
                let k = choose|k: int| 0 <= k < front.len() && front[k] == before[i];
                assert(offsets[k] == sources[i]);
            } else {
                assert(offsets[offsets.len() - 1] == sources[i]);
            }
        }
        if before.len() > 0 {
            assert(front.len() > 0);
            assert(offsets[front.len() - 1] < offsets[offsets.len() - 1]);
        }
        assert(strictly_ascending(sources)) by {
            assert forall|p: int, q: int| 0 <= p < q < sources.len() implies sources[p]
                < sources[q] by {
                if q < before.len() {
                    assert(before[p] < before[q]);
                } else if p < before.len() - 1 {
                    assert(before[p] < before[before.len() - 1]);
                }
            }
        }
    }
}

/// However many posting lists name an offset, the result holds at most one
/// entry for it: the kept entries come from offsets of `offsets` that are all
/// different, one entry from each.
pub proof fn lemma_one_entry_per_offset(
    segment: Seq<u8>,
    offsets: Seq<u64>,
    start_ts: u64,
    end_ts: u64,
) -> (sources: Seq<u64>)
    ensures
        sources == selected_offsets(segment, distinct_ascending(offsets), start_ts, end_ts),
        sources.no_duplicates(),
        sources.len() == selected(segment, distinct_ascending(offsets), start_ts, end_ts).len(),
        forall|i: int|
            0 <= i < sources.len() ==> offsets.contains(#[trigger] sources[i]) && entry_at(
                segment,
                sources[i] as int,
            ) == Some(selected(segment, distinct_ascending(offsets), start_ts, end_ts)[i]),
{
    lemma_distinct_ascending_exists(offsets);
    let kept = distinct_ascending(offsets);
    lemma_selected_sources(segment, kept, start_ts, end_ts);
    let sources = selected_offsets(segment, kept, start_ts, end_ts);
    assert forall|i: int| 0 <= i < sources.len() implies offsets.contains(#[trigger] sources[i]) by {
        assert(kept.contains(sources[i]));
    }
    assert forall|i: int, j: int| 0 <= i < sources.len() && 0 <= j < sources.len() && i != j implies sources[i] != sources[j] by {
        if i < j {
            assert(sources[i] < sources[j]);
        } else {
            assert(sources[j] < sources[i]);
        }
    }
    sources
}

/// No entry outside the time filter is ever kept.
pub proof fn lemma_selected_in_range(segment: Seq<u8>, offsets: Seq<u64>, start_ts: u64, end_ts: u64)
    ensures
        forall|i: int|
            0 <= i < selected(segment, offsets, start_ts, end_ts).len() ==> in_range(
                (#[trigger] selected(segment, offsets, start_ts, end_ts)[i]).ts,
                start_ts,
                end_ts,
            ),
    decreases offsets.len(),
{
    if offsets.len() > 0 {
        lemma_selected_in_range(segment, offsets.drop_last(), start_ts, end_ts);
        let before = selected(segment, offsets.drop_last(), start_ts, end_ts);
        let kept = selected(segment, offsets, start_ts, end_ts);
        assert forall|i: int| 0 <= i < kept.len() implies in_range(
            (#[trigger] kept[i]).ts,
            start_ts,
            end_ts,
        ) by {
            if i < before.len() {
                assert(kept[i] == before[i]);
            }
        }
    }
}

/// Once a list of offsets holds an unreadable one, offsets added behind it do
/// not change which one is the first.
proof fn lemma_first_unreadable_stays(segment: Seq<u8>, offsets: Seq<u64>, more: Seq<u64>)
    requires
        first_unreadable(segment, offsets) is Some,
    ensures
        first_unreadable(segment, offsets + more) == first_unreadable(segment, offsets),
    decreases more.len(),
{
    if more.len() == 0 {
        assert(offsets + more =~= offsets);
    } else {
        lemma_first_unreadable_stays(segment, offsets, more.drop_last());
        assert((offsets + more).drop_last() =~= offsets + more.drop_last());
    }
}

} // verus!
