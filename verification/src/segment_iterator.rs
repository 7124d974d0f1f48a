//! The iterator over the entries of one segment that answer a query.
//!
//! Construction resolves the whole query at once: terms, posting lists,
//! offsets, entries. What comes out is a finished list and a cursor over it
//! that only ever moves forward.

use std::rc::Rc;
use vstd::prelude::*;
use vstd::utf8::encode_utf8;
use crate::collect::collect_entries;
use crate::collect::collected;
use crate::collect::entry_views;
use crate::collect::in_range;
use crate::collect::lemma_selected_in_range;
use crate::entry::Entry;
use crate::error::QueryError;
use crate::lookup::gathered_from;
use crate::lookup::lookups_for;
use crate::lookup::resolve_offsets;
use crate::lookup::same_failure;
use crate::offsets::distinct_ascending;
use crate::offsets::lemma_distinct_ascending_of_none;
use crate::store::Store;
use crate::store::StoreError;
use crate::terms::resolved_terms;
use crate::terms::TermIndex;

verus! {

/// Iterates over the entries of a segment that a query resolved to.
pub struct SegmentIterator<S> {
    /// The store, held for later lookups.
    pub store: S,
    /// The entries that answer the query, in ascending order of offset.
    pub entries: Vec<Rc<Entry>>,
    /// The id of the segment.
    pub id: u64,
    /// The cursor: the index of the current entry, or past the last one.
    pub current_index: usize,
    /// The name of the partition that the segment belongs to.
    pub partition: String,
}

/// Where a cursor at `index` stands after one step. It moves by one; at the
/// largest index that the machine can hold it stays.
pub open spec fn step(index: usize) -> usize {
    if index < usize::MAX {
        (index + 1) as usize
    } else {
        index
    }
}

/// `Rc::clone`: one more handle to the same entry.
#[verifier::external_body]
fn share(entry: &Rc<Entry>) -> (shared: Rc<Entry>)
    ensures
        shared == *entry,
{
    Rc::clone(entry)
}

impl<S: Store> SegmentIterator<S> {
    /// The entry under the cursor, if the cursor stands on one.
    pub open spec fn current(&self) -> Option<Rc<Entry>> {
        if self.current_index < self.entries@.len() {
            Some(self.entries@[self.current_index as int])
        } else {
            None
        }
    }

    /// The same iterator with its cursor one step further on.
    pub open spec fn stepped(self) -> Self {
        SegmentIterator { current_index: step(self.current_index), ..self }
    }

    /// The same iterator after `steps` steps.
    pub open spec fn advanced(self, steps: nat) -> Self
        decreases steps,
    {
        if steps == 0 {
            self
        } else {
            self.advanced((steps - 1) as nat).stepped()
        }
    }

    /// Holds the entries that the gathered `offsets` name in `segment`, with
    /// the cursor on the first.
    ///
    /// The offsets are sorted and each distinct one is read once; the entries
    /// whose timestamp passes the filter of `start_ts` and `end_ts` are kept in
    /// ascending order of offset. The first offset without a whole record
    /// fails the construction.
    pub fn from_offsets(
        id: u64,
        segment: &[u8],
        store: S,
        offsets: Vec<u64>,
        partition: String,
        start_ts: u64,
        end_ts: u64,
    ) -> (built: Result<SegmentIterator<S>, QueryError>)
        ensures
            match collected(segment@, distinct_ascending(offsets@), start_ts, end_ts) {
                Ok(views) => {
                    &&& built matches Ok(iterator)
                    &&& iterator.current_index == 0
                    &&& iterator.store == store
                    &&& iterator.id == id
                    &&& iterator.partition == partition
                    &&& entry_views(iterator.entries@) == views
                },
                Err(e) => built matches Err(refused) && refused == e,
            },
            built matches Ok(iterator) ==> forall|i: int|
                0 <= i < iterator.entries@.len() ==> in_range(
                    (#[trigger] iterator.entries@[i]).ts,
                    start_ts,
                    end_ts,
                ),
    {
        let ghost gathered = offsets@;
        let entries = match collect_entries(segment, offsets, start_ts, end_ts) {
            Ok(entries) => entries,
            Err(e) => {
                return Err(e);
            },
        };
        proof {
            lemma_selected_in_range(segment@, distinct_ascending(gathered), start_ts, end_ts);
            assert forall|i: int| 0 <= i < entries@.len() implies in_range(
                (#[trigger] entries@[i]).ts,
                start_ts,
                end_ts,
            ) by {
                assert(entry_views(entries@)[i].ts == entries@[i].ts);
            }
        }
        Ok(SegmentIterator { store, entries, id, current_index: 0, partition })
    }

    /// Resolves a query against segment `id` of `partition` and holds the
    /// entries that answer it, with the cursor on the first.
    ///
    /// `index` is the segment's term index; it is looked at only when `query`
    /// is not empty. `segment` is the whole segment file. The terms of the
    /// query are resolved, their posting lists are looked up in `store`, the
    /// offsets are merged and each distinct one is read from `segment`; the
    /// entries whose timestamp passes the filter of `start_ts` and `end_ts`
    /// are kept in ascending order of offset.
    ///
    /// A text query asks for a well-formed index: the index is searched as it
    /// is, and only the bytes that a set builder wrote are known to be
    /// searchable.
    ///
    /// A query whose terms do not resolve fails with the error of the
    /// resolution, before the store is asked anything. Otherwise there is one
    /// lookup under the key of each term, up to the first that fails. A failed
    /// lookup fails the construction with the failure that [`gathered_from`]
    /// names; the offsets that came back are read as [`collected`] says, and
    /// what that gives is the result.
    pub fn new(
        id: u64,
        index: Option<&TermIndex>,
        segment: &[u8],
        store: S,
        query: String,
        partition: String,
        start_ts: u64,
        end_ts: u64,
    ) -> (built: Result<SegmentIterator<S>, QueryError>)
        requires
            query@.len() > 0 ==> (index matches Some(given) ==> given.well_formed()),
        ensures
            match resolved_terms(index, query@) {
                Err(refused) => built matches Err(e) && e == refused,
                Ok(terms) => exists|
                    keys: Seq<Vec<u8>>,
                    answers: Seq<Result<Option<Vec<u8>>, StoreError>>,
                | {
                    &&& #[trigger] lookups_for(
                        &store,
                        encode_utf8(partition@),
                        id,
                        terms,
                        keys,
                        answers,
                    )
                    &&& match gathered_from(keys, answers) {
                        Err(e) => built matches Err(refused) && same_failure(refused, e),
                        Ok(offsets) => match collected(
                            segment@,
                            distinct_ascending(offsets),
                            start_ts,
                            end_ts,
                        ) {
                            Ok(views) => built matches Ok(iterator) && entry_views(
                                iterator.entries@,
                            ) == views,
                            Err(e) => built matches Err(refused) && refused == e,
                        },
                    }
                },
            },
            built matches Ok(iterator) ==> {
                &&& iterator.current_index == 0
                &&& iterator.store == store
                &&& iterator.id == id
                &&& iterator.partition == partition
            },
            (resolved_terms(index, query@) matches Ok(terms) && terms.len() == 0) ==> (built matches Ok(
                iterator,
            ) && iterator.entries@.len() == 0),
            built matches Ok(iterator) ==> forall|i: int|
                0 <= i < iterator.entries@.len() ==> in_range(
                    (#[trigger] iterator.entries@[i]).ts,
                    start_ts,
                    end_ts,
                ),
    {
        let gathered = resolve_offsets(id, index, &store, query.as_str(), partition.as_str());
        let offsets = match gathered {
            Ok(offsets) => offsets,
            Err(e) => {
                return Err(e);
            },
        };
        proof {
            if resolved_terms(index, query@) matches Ok(terms) && terms.len() == 0 {
                lemma_distinct_ascending_of_none();
                assert(offsets@ =~= Seq::empty());
                assert(distinct_ascending(offsets@).len() == 0);
            }
        }
        let built = SegmentIterator::from_offsets(
            id,
            segment,
            store,
            offsets,
            partition,
            start_ts,
            end_ts,
        );
        proof {
            if resolved_terms(index, query@) matches Ok(terms) && terms.len() == 0 {
                assert(built matches Ok(iterator) && entry_views(iterator.entries@).len() == 0);
            }
        }
        built
    }

    /// The entry under the cursor: a shared, read-only handle to it, or `None`
    /// once the cursor has passed the last entry. The iterator is left as it is.
    pub fn entry(&self) -> (found: Option<Rc<Entry>>)
        ensures
            found == self.current(),
            self.entries@.len() == 0 ==> found is None,
    {
        if self.current_index < self.entries.len() {
            Some(share(&self.entries[self.current_index]))
        } else {
            None
        }
    }

    /// Moves the cursor one entry on. Returns `Some(())` when the cursor then
    /// stands on an entry, and `None` when it has passed the last one; from
    /// then on every call returns `None`. An empty list is exhausted from the
    /// start.
    pub fn next(&mut self) -> (moved: Option<()>)
        ensures
            *final(self) == old(self).stepped(),
            moved is Some <==> final(self).current() is Some,
            old(self).entries@.len() == 0 ==> moved is None,
    {
        let last = self.entries.len() == 0 || self.current_index >= self.entries.len() - 1;
        if self.current_index < usize::MAX {
            self.current_index = self.current_index + 1;
        }
        if last {
            None
        } else {
            Some(())
        }
    }
}

/// Steps change nothing but the cursor, which moves by one at each step
/// until it reaches the largest index that the machine can hold.
pub proof fn lemma_advanced<S: Store>(iterator: SegmentIterator<S>, steps: nat)
    ensures
        iterator.advanced(steps) == (SegmentIterator {
            current_index: iterator.advanced(steps).current_index,
            ..iterator
        }),
        iterator.advanced(steps).current_index == if iterator.current_index + steps <= usize::MAX {
            iterator.current_index + steps
        } else {
            usize::MAX as int
        },
    decreases steps,
{
    if steps > 0 {
        lemma_advanced(iterator, (steps - 1) as nat);
    }
}

/// Stepping `first` times and `second` times after that is stepping
/// `first + second` times.
pub proof fn lemma_advanced_adds<S: Store>(iterator: SegmentIterator<S>, first: nat, second: nat)
    ensures
        iterator.advanced(first).advanced(second) == iterator.advanced(first + second),
{
    lemma_advanced(iterator, first);
    lemma_advanced(iterator.advanced(first), second);
    lemma_advanced(iterator, first + second);
}

/// An iterator that is stepped as many times as it has entries left stands
/// past the last one, and no further step brings an entry back. From the first
/// entry that is as many steps as there are entries; an iterator without
/// entries is exhausted before the first step.
pub proof fn lemma_exhausted<S: Store>(iterator: SegmentIterator<S>, steps: nat)
    requires
        iterator.current_index + steps >= iterator.entries@.len(),
    ensures
        iterator.advanced(steps).current() is None,
        iterator.advanced(steps).entries == iterator.entries,
{
    lemma_advanced(iterator, steps);
    assert(iterator.entries@.len() <= usize::MAX) by {
        vstd::std_specs::vec::axiom_spec_len(&iterator.entries);
    }
}

} // verus!
