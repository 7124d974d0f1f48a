use std::cell::RefCell;
use std::collections::HashMap;
use std::rc::Rc;

use segment_query::collect::collect_entries;
use segment_query::collect::keeps;
use segment_query::collect::read_entries;
use segment_query::error::QueryError;
use segment_query::lookup::gather_offsets;
use segment_query::lookup::posting_of;
use segment_query::lookup::resolve_offsets;
use segment_query::lookup::term_keys;
use segment_query::offsets::distinct_offsets;
use segment_query::segment_iterator::SegmentIterator;
use segment_query::store::Store;
use segment_query::store::StoreError;
use segment_query::terms::resolve_terms;
use segment_query::terms::TermIndex;

struct MemStore {
    lists: HashMap<Vec<u8>, Vec<u8>>,
    broken: bool,
    asked: RefCell<Vec<Vec<u8>>>,
}

impl MemStore {
    fn new() -> MemStore {
        MemStore { lists: HashMap::new(), broken: false, asked: RefCell::new(Vec::new()) }
    }

    fn with(mut self, partition: &str, id: u64, term: &str, offsets: &[u64]) -> MemStore {
        self.lists.insert(key(partition, id, term), encode(offsets));
        self
    }
}

impl Store for MemStore {
    fn get(&self, key: &[u8]) -> Result<Option<Vec<u8>>, StoreError> {
        self.asked.borrow_mut().push(key.to_vec());
        if self.broken {
            return Err(StoreError { message: String::from("store is down") });
        }
        Ok(self.lists.get(key).cloned())
    }
}

fn key(partition: &str, id: u64, term: &str) -> Vec<u8> {
    format!("segment_{}_{}_{}", partition, id, term).into_bytes()
}

fn encode(offsets: &[u64]) -> Vec<u8> {
    let mut bytes = Vec::new();
    for offset in offsets {
        bytes.extend_from_slice(&offset.to_be_bytes());
    }
    bytes
}

fn record(ts: u64, line: &[u8]) -> Vec<u8> {
    let mut out = ((8 + line.len()) as u64).to_be_bytes().to_vec();
    out.extend_from_slice(&ts.to_be_bytes());
    out.extend_from_slice(line);
    out
}

fn index_of(terms: &[&str]) -> TermIndex {
    let mut builder = fst::SetBuilder::memory();
    for term in terms {
        builder.insert(term).unwrap();
    }
    TermIndex::from_bytes(builder.into_inner().unwrap()).unwrap()
}

fn lines(entries: &[Rc<segment_query::entry::Entry>]) -> Vec<(u64, Vec<u8>)> {
    entries.iter().map(|e| (e.ts, e.line.clone())).collect()
}

/// Three records: at 0 (ts 100, "hello"), at 21 (ts 200, "world"), at 42 (ts 300, "again").
fn three_records() -> Vec<u8> {
    let mut segment = record(100, b"hello");
    segment.extend_from_slice(&record(200, b"world"));
    segment.extend_from_slice(&record(300, b"again"));
    segment
}

fn open(
    store: MemStore,
    index: Option<&TermIndex>,
    segment: &[u8],
    query: &str,
    range: (u64, u64),
) -> Result<SegmentIterator<MemStore>, QueryError> {
    SegmentIterator::new(
        3,
        index,
        segment,
        store,
        String::from(query),
        String::from("web"),
        range.0,
        range.1,
    )
}

#[test]
fn catch_all_query_without_filter_finds_the_entry() {
    let segment = record(100, b"hello");
    let store = MemStore::new().with("web", 3, "!all", &[0]);
    let iterator = open(store, None, &segment, "", (0, 0)).unwrap();
    assert_eq!(lines(&iterator.entries), vec![(100, b"hello".to_vec())]);
    assert_eq!(iterator.current_index, 0);
    assert_eq!(iterator.id, 3);
    assert_eq!(iterator.partition, "web");
    let entry = iterator.entry().unwrap();
    assert_eq!(entry.ts, 100);
    assert_eq!(entry.line, b"hello".to_vec());
}

#[test]
fn entry_outside_the_range_is_dropped() {
    let segment = record(100, b"hello");
    let store = MemStore::new().with("web", 3, "!all", &[0]);
    let mut iterator = open(store, None, &segment, "", (50, 99)).unwrap();
    assert!(iterator.entries.is_empty());
    assert!(iterator.entry().is_none());
    assert_eq!(iterator.next(), None);
    assert!(iterator.entry().is_none());
}

#[test]
fn two_matching_terms_that_share_an_offset_give_one_entry() {
    let segment = record(100, b"hello");
    let index = index_of(&["eror", "err"]);
    let store = MemStore::new().with("web", 3, "err", &[0]).with("web", 3, "eror", &[0]);
    let iterator = open(store, Some(&index), &segment, "eror", (0, 0)).unwrap();
    assert_eq!(lines(&iterator.entries), vec![(100, b"hello".to_vec())]);
    let asked = iterator.store.asked.borrow().clone();
    assert_eq!(asked, vec![key("web", 3, "eror"), key("web", 3, "err")]);
}

#[test]
fn text_query_without_an_index_fails() {
    let segment = record(100, b"hello");
    let store = MemStore::new().with("web", 3, "!all", &[0]);
    let built = open(store, None, &segment, "hello", (0, 0));
    assert!(matches!(built, Err(QueryError::IndexUnavailable)));
}

#[test]
fn index_bytes_that_are_no_set_are_refused() {
    assert!(matches!(TermIndex::from_bytes(Vec::new()), Err(QueryError::InvalidIndex)));
    assert!(matches!(TermIndex::from_bytes(vec![7; 31]), Err(QueryError::InvalidIndex)));
    assert!(matches!(TermIndex::from_bytes(vec![0xff; 64]), Err(QueryError::InvalidIndex)));
}

#[test]
fn empty_query_asks_for_the_catch_all_list_only() {
    let index = index_of(&["hello", "world"]);
    let store = MemStore::new()
        .with("web", 3, "!all", &[21])
        .with("web", 3, "hello", &[0])
        .with("web", 3, "world", &[42]);
    let iterator = open(store, Some(&index), &three_records(), "", (0, 0)).unwrap();
    assert_eq!(lines(&iterator.entries), vec![(200, b"world".to_vec())]);
    assert_eq!(iterator.store.asked.borrow().clone(), vec![key("web", 3, "!all")]);
}

#[test]
fn resolve_terms_of_an_empty_query_is_the_reserved_term() {
    assert_eq!(resolve_terms(None, "").unwrap(), vec![b"!all".to_vec()]);
    let index = index_of(&["", "a", "ab"]);
    assert_eq!(resolve_terms(Some(&index), "").unwrap(), vec![b"!all".to_vec()]);
}

#[test]
fn resolve_terms_matches_within_distance_two_in_index_order() {
    let index = index_of(&["fa", "fo", "fob", "focus", "foo", "food", "foul", "zebra"]);
    let terms = resolve_terms(Some(&index), "foo").unwrap();
    let expected: Vec<Vec<u8>> =
        ["fa", "fo", "fob", "foo", "food", "foul"].iter().map(|t| t.as_bytes().to_vec()).collect();
    assert_eq!(terms, expected);
    let terms = resolve_terms(Some(&index), "zebras!").unwrap();
    assert_eq!(terms, vec![b"zebra".to_vec()]);
    let terms = resolve_terms(Some(&index), "quantum").unwrap();
    assert!(terms.is_empty());
}

#[test]
fn resolve_terms_is_case_sensitive() {
    let index = index_of(&["ERROR", "error"]);
    assert_eq!(resolve_terms(Some(&index), "error").unwrap(), vec![b"error".to_vec()]);
    assert_eq!(resolve_terms(Some(&index), "ERROR").unwrap(), vec![b"ERROR".to_vec()]);
}

#[test]
fn resolve_terms_counts_edits_in_characters() {
    let index = index_of(&["h\u{e9}llo", "\u{65e5}\u{672c}x", "\u{65e5}\u{672c}\u{8a9e}x"]);
    assert_eq!(resolve_terms(Some(&index), "hello").unwrap(), vec!["h\u{e9}llo".as_bytes().to_vec()]);
    assert_eq!(
        resolve_terms(Some(&index), "abx").unwrap(),
        vec!["\u{65e5}\u{672c}x".as_bytes().to_vec()]
    );
}

#[test]
fn resolve_terms_can_match_the_empty_term() {
    let index = index_of(&["", "a", "ab", "abc"]);
    let expected: Vec<Vec<u8>> = vec![Vec::new(), b"a".to_vec(), b"ab".to_vec()];
    assert_eq!(resolve_terms(Some(&index), "zz").unwrap(), expected);
}

#[test]
fn resolve_terms_without_index_fails_for_text() {
    assert!(matches!(resolve_terms(None, "x"), Err(QueryError::IndexUnavailable)));
}

#[test]
fn resolve_terms_refuses_a_query_whose_automaton_is_too_large() {
    let index = index_of(&["error"]);
    let mut query = String::new();
    for i in 0..600u32 {
        query.push(char::from_u32(0x4e00 + i).unwrap());
    }
    assert!(matches!(resolve_terms(Some(&index), &query), Err(QueryError::QueryTooComplex)));
}

#[test]
fn fuzzy_query_merges_the_lists_of_all_matching_terms() {
    let index = index_of(&["again", "hello", "hullo", "world"]);
    let store = MemStore::new()
        .with("web", 3, "hello", &[42, 0])
        .with("web", 3, "hullo", &[21, 0, 42])
        .with("web", 3, "world", &[21]);
    let iterator = open(store, Some(&index), &three_records(), "hallo", (0, 0)).unwrap();
    assert_eq!(
        lines(&iterator.entries),
        vec![(100, b"hello".to_vec()), (200, b"world".to_vec()), (300, b"again".to_vec())]
    );
    assert_eq!(
        iterator.store.asked.borrow().clone(),
        vec![key("web", 3, "hello"), key("web", 3, "hullo")]
    );
}

#[test]
fn query_without_matching_terms_gives_an_empty_iterator() {
    let index = index_of(&["hello"]);
    let mut iterator = open(MemStore::new(), Some(&index), &three_records(), "zzzzzzzz", (0, 0)).unwrap();
    assert!(iterator.entries.is_empty());
    assert!(iterator.store.asked.borrow().is_empty());
    assert!(iterator.entry().is_none());
    assert_eq!(iterator.next(), None);
}

#[test]
fn timestamp_filter_keeps_the_closed_range() {
    let all = &[0u64, 21, 42];
    let segment = three_records();
    let kept = |range: (u64, u64)| -> Vec<u64> {
        let store = MemStore::new().with("web", 3, "!all", all);
        open(store, None, &segment, "", range).unwrap().entries.iter().map(|e| e.ts).collect()
    };
    assert_eq!(kept((100, 300)), vec![100, 200, 300]);
    assert_eq!(kept((101, 299)), vec![200]);
    assert_eq!(kept((200, 200)), vec![200]);
    assert_eq!(kept((0, 100)), vec![100]);
    assert_eq!(kept((300, u64::MAX)), vec![300]);
    assert_eq!(kept((301, u64::MAX)), Vec::<u64>::new());
    assert_eq!(kept((300, 100)), Vec::<u64>::new());
    assert_eq!(kept((0, 0)), vec![100, 200, 300]);
}

#[test]
fn keeps_follows_the_range_and_the_zero_sentinel() {
    assert!(keeps(5, 5, 5));
    assert!(keeps(5, 0, 5));
    assert!(keeps(5, 5, 9));
    assert!(!keeps(4, 5, 9));
    assert!(!keeps(10, 5, 9));
    assert!(!keeps(5, 9, 5));
    assert!(keeps(u64::MAX, 0, 0));
    assert!(keeps(0, 0, 0));
    assert!(keeps(1, 0, 0));
    assert!(!keeps(7, 0, 6));
}

#[test]
fn missing_posting_list_is_reported_with_its_key() {
    let index = index_of(&["hello"]);
    let built = open(MemStore::new(), Some(&index), &three_records(), "hello", (0, 0));
    match built {
        Err(QueryError::CorruptIndex { key: missing }) => assert_eq!(missing, key("web", 3, "hello")),
        _ => panic!("expected a corrupt index"),
    }
    let built = open(MemStore::new(), None, &three_records(), "", (0, 0));
    match built {
        Err(QueryError::CorruptIndex { key: missing }) => assert_eq!(missing, key("web", 3, "!all")),
        _ => panic!("expected a corrupt index"),
    }
}

#[test]
fn present_but_empty_posting_list_is_no_error() {
    let store = MemStore::new().with("web", 3, "!all", &[]);
    let iterator = open(store, None, &three_records(), "", (0, 0)).unwrap();
    assert!(iterator.entries.is_empty());
}

#[test]
fn malformed_posting_list_is_reported_with_its_key() {
    let mut store = MemStore::new();
    store.lists.insert(key("web", 3, "!all"), vec![0; 12]);
    match open(store, None, &three_records(), "", (0, 0)) {
        Err(QueryError::InvalidPostingList { key: bad }) => assert_eq!(bad, key("web", 3, "!all")),
        _ => panic!("expected an invalid posting list"),
    }
}

#[test]
fn store_failure_is_passed_on() {
    let mut store = MemStore::new().with("web", 3, "!all", &[0]);
    store.broken = true;
    match open(store, None, &three_records(), "", (0, 0)) {
        Err(QueryError::Store(e)) => assert_eq!(e.message, "store is down"),
        _ => panic!("expected a store failure"),
    }
}

#[test]
fn offset_past_the_segment_is_a_corruption_error() {
    let segment = three_records();
    let store = MemStore::new().with("web", 3, "!all", &[0, 63]);
    assert!(matches!(
        open(store, None, &segment, "", (0, 0)),
        Err(QueryError::CorruptSegment { offset: 63 })
    ));
    let store = MemStore::new().with("web", 3, "!all", &[u64::MAX, 21]);
    assert!(matches!(
        open(store, None, &segment, "", (0, 0)),
        Err(QueryError::CorruptSegment { offset: u64::MAX })
    ));
}

#[test]
fn corruption_is_reported_even_where_the_filter_would_drop_the_entry() {
    let mut segment = record(100, b"hello");
    segment.extend_from_slice(&50u64.to_be_bytes());
    segment.extend_from_slice(&999u64.to_be_bytes());
    let store = MemStore::new().with("web", 3, "!all", &[21, 0]);
    assert!(matches!(
        open(store, None, &segment, "", (100, 100)),
        Err(QueryError::CorruptSegment { offset: 21 })
    ));
}

#[test]
fn first_corrupt_offset_in_ascending_order_is_reported() {
    let segment = three_records();
    let store = MemStore::new().with("web", 3, "!all", &[500, 0, 64, 21]);
    assert!(matches!(
        open(store, None, &segment, "", (0, 0)),
        Err(QueryError::CorruptSegment { offset: 64 })
    ));
}

#[test]
fn iterator_walks_the_entries_once_and_stays_exhausted() {
    let store = MemStore::new().with("web", 3, "!all", &[42, 0, 21]);
    let mut iterator = open(store, None, &three_records(), "", (0, 0)).unwrap();
    assert_eq!(iterator.entries.len(), 3);
    assert_eq!(iterator.entry().unwrap().ts, 100);
    assert_eq!(iterator.entry().unwrap().ts, 100);
    assert_eq!(iterator.next(), Some(()));
    assert_eq!(iterator.entry().unwrap().line, b"world".to_vec());
    assert_eq!(iterator.next(), Some(()));
    assert_eq!(iterator.entry().unwrap().ts, 300);
    assert_eq!(iterator.next(), None);
    assert_eq!(iterator.current_index, 3);
    assert!(iterator.entry().is_none());
    for _ in 0..5 {
        assert_eq!(iterator.next(), None);
        assert!(iterator.entry().is_none());
    }
    assert_eq!(iterator.current_index, 8);
    assert_eq!(iterator.entries.len(), 3);
}

#[test]
fn iterator_with_one_entry_is_exhausted_by_the_first_step() {
    let store = MemStore::new().with("web", 3, "!all", &[21]);
    let mut iterator = open(store, None, &three_records(), "", (0, 0)).unwrap();
    assert_eq!(iterator.entry().unwrap().ts, 200);
    assert_eq!(iterator.next(), None);
    assert!(iterator.entry().is_none());
}

#[test]
fn empty_iterator_survives_the_first_step() {
    let mut iterator = SegmentIterator {
        store: MemStore::new(),
        entries: Vec::new(),
        id: 1,
        current_index: 0,
        partition: String::from("web"),
    };
    assert!(iterator.entry().is_none());
    assert_eq!(iterator.next(), None);
    assert_eq!(iterator.current_index, 1);
    assert!(iterator.entry().is_none());
    assert_eq!(iterator.next(), None);
    assert_eq!(iterator.current_index, 2);
}

#[test]
fn cursor_stays_at_the_largest_index() {
    let store = MemStore::new().with("web", 3, "!all", &[0]);
    let mut iterator = open(store, None, &three_records(), "", (0, 0)).unwrap();
    iterator.current_index = usize::MAX - 1;
    assert_eq!(iterator.next(), None);
    assert_eq!(iterator.current_index, usize::MAX);
    assert_eq!(iterator.next(), None);
    assert_eq!(iterator.current_index, usize::MAX);
    assert!(iterator.entry().is_none());
}

#[test]
fn entry_hands_out_a_shared_handle() {
    let store = MemStore::new().with("web", 3, "!all", &[0]);
    let iterator = open(store, None, &three_records(), "", (0, 0)).unwrap();
    let first = iterator.entry().unwrap();
    let second = iterator.entry().unwrap();
    assert!(Rc::ptr_eq(&first, &second));
    assert!(Rc::ptr_eq(&first, &iterator.entries[0]));
    drop(iterator);
    assert_eq!(first.line, b"hello".to_vec());
    assert_eq!(Rc::strong_count(&first), 2);
}

#[test]
fn distinct_offsets_sorts_and_drops_repeats() {
    assert_eq!(distinct_offsets(vec![42, 0, 21, 0, 42, 42, 7]), vec![0, 7, 21, 42]);
    assert_eq!(distinct_offsets(vec![5, 5, 5]), vec![5]);
    assert_eq!(distinct_offsets(vec![u64::MAX, 0]), vec![0, u64::MAX]);
    assert_eq!(distinct_offsets(Vec::new()), Vec::<u64>::new());
    assert_eq!(distinct_offsets(vec![3, 2, 1]), vec![1, 2, 3]);
}

#[test]
fn read_entries_reads_in_the_order_given() {
    let segment = three_records();
    let entries = read_entries(&segment, &vec![42, 0], 0, 0).unwrap();
    assert_eq!(lines(&entries), vec![(300, b"again".to_vec()), (100, b"hello".to_vec())]);
    let entries = read_entries(&segment, &vec![42, 0, 21], 150, 300).unwrap();
    assert_eq!(lines(&entries), vec![(300, b"again".to_vec()), (200, b"world".to_vec())]);
    assert!(matches!(
        read_entries(&segment, &vec![0, 1, 2], 0, 0),
        Err(QueryError::CorruptSegment { offset: 1 })
    ));
    assert!(read_entries(&segment, &Vec::new(), 0, 0).unwrap().is_empty());
}

#[test]
fn collect_entries_reads_each_offset_once() {
    let segment = three_records();
    let entries = collect_entries(&segment, vec![21, 0, 21, 21, 0], 0, 0).unwrap();
    assert_eq!(lines(&entries), vec![(100, b"hello".to_vec()), (200, b"world".to_vec())]);
    let entries = collect_entries(&segment, vec![42, 42, 21, 0, 0], 200, 250).unwrap();
    assert_eq!(lines(&entries), vec![(200, b"world".to_vec())]);
}

#[test]
fn term_keys_keeps_the_order_of_the_terms() {
    let terms = vec![b"b".to_vec(), b"a".to_vec(), Vec::new()];
    assert_eq!(
        term_keys(b"p", 9, &terms),
        vec![b"segment_p_9_b".to_vec(), b"segment_p_9_a".to_vec(), b"segment_p_9_".to_vec()]
    );
    assert!(term_keys(b"p", 9, &Vec::new()).is_empty());
}

#[test]
fn posting_of_tells_the_outcomes_of_a_lookup_apart() {
    let found = posting_of(b"k".to_vec(), Ok(Some(encode(&[9, 1]))));
    assert_eq!(found.unwrap(), vec![9, 1]);
    let found = posting_of(b"k".to_vec(), Ok(Some(Vec::new())));
    assert_eq!(found.unwrap(), Vec::<u64>::new());
    assert!(matches!(
        posting_of(b"k".to_vec(), Ok(None)),
        Err(QueryError::CorruptIndex { key }) if key == b"k".to_vec()
    ));
    assert!(matches!(
        posting_of(b"k".to_vec(), Ok(Some(vec![1, 2, 3]))),
        Err(QueryError::InvalidPostingList { key }) if key == b"k".to_vec()
    ));
    assert!(matches!(
        posting_of(b"k".to_vec(), Err(StoreError { message: String::from("io") })),
        Err(QueryError::Store(e)) if e.message == "io"
    ));
}

#[test]
fn gather_offsets_strings_the_lists_together_and_stops_at_a_failure() {
    let store = MemStore::new().with("web", 3, "a", &[5, 1]).with("web", 3, "b", &[1, 9]);
    let keys = vec![key("web", 3, "b"), key("web", 3, "a"), key("web", 3, "b")];
    assert_eq!(gather_offsets(&store, &keys).unwrap(), vec![1, 9, 5, 1, 1, 9]);
    assert_eq!(gather_offsets(&store, &Vec::new()).unwrap(), Vec::<u64>::new());
    let store = MemStore::new().with("web", 3, "a", &[5, 1]);
    let keys = vec![key("web", 3, "a"), key("web", 3, "x"), key("web", 3, "a")];
    assert!(matches!(
        gather_offsets(&store, &keys),
        Err(QueryError::CorruptIndex { key: missing }) if missing == key("web", 3, "x")
    ));
    assert_eq!(store.asked.borrow().len(), 2);
}

#[test]
fn resolve_offsets_strings_the_lists_of_the_matching_terms_together() {
    let index = index_of(&["again", "hello", "hullo", "world"]);
    let store = MemStore::new()
        .with("web", 3, "hello", &[42, 0])
        .with("web", 3, "hullo", &[21, 0, 42])
        .with("web", 3, "world", &[21]);
    assert_eq!(resolve_offsets(3, Some(&index), &store, "hallo", "web").unwrap(), vec![42, 0, 21, 0, 42]);
    assert_eq!(store.asked.borrow().clone(), vec![key("web", 3, "hello"), key("web", 3, "hullo")]);
}

#[test]
fn resolve_offsets_of_an_empty_query_reads_the_catch_all_list() {
    let store = MemStore::new().with("web", 3, "!all", &[9, 4]).with("web", 4, "!all", &[1]);
    assert_eq!(resolve_offsets(3, None, &store, "", "web").unwrap(), vec![9, 4]);
    assert_eq!(resolve_offsets(4, None, &store, "", "web").unwrap(), vec![1]);
    assert!(matches!(
        resolve_offsets(5, None, &store, "", "web"),
        Err(QueryError::CorruptIndex { key: missing }) if missing == key("web", 5, "!all")
    ));
}

#[test]
fn resolve_offsets_fails_before_the_store_is_asked() {
    let store = MemStore::new().with("web", 3, "!all", &[0]);
    assert!(matches!(
        resolve_offsets(3, None, &store, "hello", "web"),
        Err(QueryError::IndexUnavailable)
    ));
    assert!(store.asked.borrow().is_empty());
    let index = index_of(&["hello"]);
    assert_eq!(resolve_offsets(3, Some(&index), &store, "zzzzzzzz", "web").unwrap(), Vec::<u64>::new());
    assert!(store.asked.borrow().is_empty());
}

#[test]
fn from_offsets_reads_each_distinct_offset_in_ascending_order() {
    let segment = three_records();
    let iterator =
        SegmentIterator::from_offsets(8, &segment, MemStore::new(), vec![42, 0, 42, 21, 0], String::from("p"), 0, 0)
            .unwrap();
    assert_eq!(
        lines(&iterator.entries),
        vec![(100, b"hello".to_vec()), (200, b"world".to_vec()), (300, b"again".to_vec())]
    );
    assert_eq!(iterator.current_index, 0);
    assert_eq!(iterator.id, 8);
    assert_eq!(iterator.partition, "p");
    let iterator =
        SegmentIterator::from_offsets(8, &segment, MemStore::new(), vec![42, 0, 21], String::from("p"), 150, 250)
            .unwrap();
    assert_eq!(lines(&iterator.entries), vec![(200, b"world".to_vec())]);
    let iterator =
        SegmentIterator::from_offsets(8, &segment, MemStore::new(), Vec::new(), String::from("p"), 0, 0).unwrap();
    assert!(iterator.entries.is_empty());
}

#[test]
fn from_offsets_fails_at_the_first_offset_without_a_record() {
    let segment = three_records();
    assert!(matches!(
        SegmentIterator::from_offsets(8, &segment, MemStore::new(), vec![70, 0, 5], String::from("p"), 0, 0),
        Err(QueryError::CorruptSegment { offset: 5 })
    ));
}
