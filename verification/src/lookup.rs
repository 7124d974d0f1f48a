//! Fetching the posting lists of resolved terms from the store.

use vstd::prelude::*;
use vstd::slice::slice_to_vec;
use vstd::utf8::encode_utf8;
use crate::error::QueryError;
use crate::posting::decode_posting_list;
use crate::posting::posting_key;
use crate::posting::posting_list;
use crate::posting::posting_list_key;
use crate::store::Store;
use crate::store::StoreError;
use crate::terms::resolve_terms;
use crate::terms::resolved_terms;
use crate::terms::TermIndex;
use crate::wire::byte_strings;

verus! {

/// The store keys of `terms`, one for each term and in the same order.
pub open spec fn posting_keys(partition: Seq<u8>, id: u64, terms: Seq<Seq<u8>>) -> Seq<Seq<u8>> {
    Seq::new(terms.len(), |i: int| posting_key(partition, id, terms[i]))
}

/// Builds the key of each term's posting list in segment `id` of `partition`.
pub fn term_keys(partition: &[u8], id: u64, terms: &Vec<Vec<u8>>) -> (keys: Vec<Vec<u8>>)
    ensures
        byte_strings(keys@) == posting_keys(partition@, id, byte_strings(terms@)),
{
    let mut keys: Vec<Vec<u8>> = Vec::new();
    let mut i: usize = 0;
    while i < terms.len()
        invariant
            i <= terms@.len(),
            keys@.len() == i,
            forall|k: int|
                0 <= k < i ==> (#[trigger] keys@[k])@ == posting_key(partition@, id, terms@[k]@),
        decreases terms@.len() - i,
    {
        keys.push(posting_list_key(partition, id, terms[i].as_slice()));
        i = i + 1;
    }
    assert(byte_strings(keys@) =~= posting_keys(partition@, id, byte_strings(terms@)));
    keys
}

/// What a lookup under `key` stands for: the offsets of the posting list that
/// came back, or the failure that the lookup amounts to. A store that fails is
/// passed on; a key that the store does not hold breaks the tie between the
/// term index and the store; a value that is no posting list is refused.
pub open spec fn lookup_outcome(key: Vec<u8>, found: Result<Option<Vec<u8>>, StoreError>) -> Result<
    Seq<u64>,
    QueryError,
> {
    match found {
        Err(e) => Err(QueryError::Store(e)),
        Ok(None) => Err(QueryError::CorruptIndex { key }),
        Ok(Some(bytes)) => match posting_list(bytes@) {
            Some(offsets) => Ok(offsets),
            None => Err(QueryError::InvalidPostingList { key }),
        },
    }
}

/// The result of a lookup with the offsets taken as a sequence.
pub open spec fn offsets_view(taken: Result<Vec<u64>, QueryError>) -> Result<Seq<u64>, QueryError> {
    match taken {
        Ok(offsets) => Ok(offsets@),
        Err(e) => Err(e),
    }
}

/// Turns what the store returned for `key` into the offsets of its posting
/// list.
pub fn posting_of(key: Vec<u8>, found: Result<Option<Vec<u8>>, StoreError>) -> (taken: Result<
    Vec<u64>,
    QueryError,
>)
    ensures
        offsets_view(taken) == lookup_outcome(key, found),
{
    match found {
        Err(e) => Err(QueryError::Store(e)),
        Ok(None) => Err(QueryError::CorruptIndex { key }),
        Ok(Some(bytes)) => match decode_posting_list(bytes.as_slice()) {
            Some(offsets) => Ok(offsets),
            None => Err(QueryError::InvalidPostingList { key }),
        },
    }
}

/// Whether `e` is a failure that a lookup under one of `keys` can amount to.
pub open spec fn lookup_failure(e: QueryError, keys: Seq<Seq<u8>>) -> bool {
    match e {
        QueryError::Store(_) => true,
        QueryError::CorruptIndex { key } => keys.contains(key@),
        QueryError::InvalidPostingList { key } => keys.contains(key@),
        _ => false,
    }
}

/// Looks up each key in turn and strings the posting lists together, in the
/// order of the keys. The first lookup that fails ends the gathering; which
/// failure that is, [`lookup_outcome`] says. With no key nothing is looked up
/// and nothing gathered.
pub fn gather_offsets<S: Store>(store: &S, keys: &Vec<Vec<u8>>) -> (gathered: Result<
    Vec<u64>,
    QueryError,
>)
    ensures
        keys@.len() == 0 ==> (gathered matches Ok(offsets) && offsets@.len() == 0),
        gathered matches Err(e) ==> lookup_failure(e, byte_strings(keys@)),
        exists|answers: Seq<Result<Option<Vec<u8>>, StoreError>>| #[trigger]
            lookups_made(store, keys@, answers) && same_outcome(
                gathered,
                gathered_from(keys@, answers),
            ),
{
    let mut offsets: Vec<u64> = Vec::new();
    let ghost mut answers: Seq<Result<Option<Vec<u8>>, StoreError>> = Seq::empty();
    let mut i: usize = 0;
    while i < keys.len()
        invariant
            i <= keys@.len(),
            i == 0 ==> offsets@.len() == 0,
            answers.len() == i,
            forall|k: int| 0 <= k < i ==> answered(store, keys@[k]@, #[trigger] answers[k]),
            forall|k: int| 0 <= k < i ==> lookup_outcome(keys@[k], #[trigger] answers[k]) is Ok,
            gathered_from(keys@, answers) == Ok::<Seq<u64>, QueryError>(offsets@),
        decreases keys@.len() - i,
    {
        let slice = keys[i].as_slice();
        let found = store.get(slice);
        let key = slice_to_vec(slice);
        proof {
            assert(call_ensures(S::get, (store, slice), found));
            assert(answered(store, keys@[i as int]@, found));
            let ghost before = answers;
            answers = answers.push(found);
            assert(answers.drop_last() =~= before);
        }
        match posting_of(key, found) {
            Ok(list) => {
                let mut list = list;
                offsets.append(&mut list);
            },
            Err(e) => {
                assert(byte_strings(keys@)[i as int] == keys@[i as int]@);
                assert(lookups_made(store, keys@, answers));
                assert(same_outcome(Err(e), gathered_from(keys@, answers)));
                return Err(e);
            },
        }
        i = i + 1;
    }
    assert(lookups_made(store, keys@, answers));
    Ok(offsets)
}

/// Whether `found` is what the store returned to a lookup under `key`.
pub open spec fn answered<S: Store>(
    store: &S,
    key: Seq<u8>,
    found: Result<Option<Vec<u8>>, StoreError>,
) -> bool {
    exists|slice: &[u8]| slice@ == key && #[trigger] call_ensures(S::get, (store, slice), found)
}

/// Whether `answers` are the lookups that a gathering over `keys` makes: one
/// under each key in turn, each answered by the store, up to the last key or
/// to the first lookup that fails. What a gathering returns is what those
/// answers amount to, as [`gathered_from`] says.
pub open spec fn lookups_made<S: Store>(
    store: &S,
    keys: Seq<Vec<u8>>,
    answers: Seq<Result<Option<Vec<u8>>, StoreError>>,
) -> bool {
    &&& answers.len() <= keys.len()
    &&& forall|i: int| 0 <= i < answers.len() ==> answered(store, keys[i]@, #[trigger] answers[i])
    &&& forall|i: int|
        0 <= i < answers.len() - 1 ==> lookup_outcome(keys[i], #[trigger] answers[i]) is Ok
    &&& answers.len() < keys.len() ==> answers.len() > 0 && lookup_outcome(
        keys[answers.len() - 1],
        answers.last(),
    ) is Err
}

/// What the lookups gather when they returned `answers`: the posting lists
/// strung together in the order of the keys, or the failure of the first
/// lookup that failed.
pub open spec fn gathered_from(
    keys: Seq<Vec<u8>>,
    answers: Seq<Result<Option<Vec<u8>>, StoreError>>,
) -> Result<Seq<u64>, QueryError>
    decreases answers.len(),
{
    if answers.len() == 0 {
        Ok(Seq::empty())
    } else {
        match gathered_from(keys, answers.drop_last()) {
            Err(e) => Err(e),
            Ok(before) => match lookup_outcome(keys[answers.len() - 1], answers.last()) {
                Ok(list) => Ok(before + list),
                Err(e) => Err(e),
            },
        }
    }
}

/// Whether two failures are the same, a key that they carry taken as its
/// bytes.
pub open spec fn same_failure(e: QueryError, expected: QueryError) -> bool {
    match (e, expected) {
        (QueryError::CorruptIndex { key: a }, QueryError::CorruptIndex { key: b }) => a@ == b@,
        (
            QueryError::InvalidPostingList { key: a },
            QueryError::InvalidPostingList { key: b },
        ) => a@ == b@,
        _ => e == expected,
    }
}

/// Whether a gathering came out as `expected`: the same offsets, or the same
/// failure.
pub open spec fn same_outcome(
    gathered: Result<Vec<u64>, QueryError>,
    expected: Result<Seq<u64>, QueryError>,
) -> bool {
    match (gathered, expected) {
        (Ok(offsets), Ok(wanted)) => offsets@ == wanted,
        (Err(e), Err(wanted)) => same_failure(e, wanted),
        _ => false,
    }
}

/// Whether `keys` are the store keys of `terms` in segment `id` of
/// `partition`, and `answers` the lookups that a gathering over them makes.
pub open spec fn lookups_for<S: Store>(
    store: &S,
    partition: Seq<u8>,
    id: u64,
    terms: Seq<Seq<u8>>,
    keys: Seq<Vec<u8>>,
    answers: Seq<Result<Option<Vec<u8>>, StoreError>>,
) -> bool {
    &&& byte_strings(keys) == posting_keys(partition, id, terms)
    &&& lookups_made(store, keys, answers)
}

/// Resolves a query to the offsets that its terms name in segment `id` of
/// `partition`: the terms are resolved, the key of each term's posting list is
/// built, and the lists that the store returns are strung together in the
/// order of the terms. Offsets that several lists name come back as often as
/// they were named.
///
/// A query whose terms do not resolve fails with the error of the resolution,
/// before the store is asked anything. A query that resolves to no term asks
/// the store nothing and gives no offset. Otherwise the result is what the
/// store's answers amount to, as [`gathered_from`] says.
pub fn resolve_offsets<S: Store>(
    id: u64,
    index: Option<&TermIndex>,
    store: &S,
    query: &str,
    partition: &str,
) -> (gathered: Result<Vec<u64>, QueryError>)
    requires
        query@.len() > 0 ==> (index matches Some(given) ==> given.well_formed()),
    ensures
        match resolved_terms(index, query@) {
            Err(refused) => gathered matches Err(e) && e == refused,
            Ok(terms) => exists|
                keys: Seq<Vec<u8>>,
                answers: Seq<Result<Option<Vec<u8>>, StoreError>>,
            | #[trigger]
                lookups_for(store, encode_utf8(partition@), id, terms, keys, answers)
                    && same_outcome(gathered, gathered_from(keys, answers)),
        },
        (resolved_terms(index, query@) matches Ok(terms) && terms.len() == 0) ==> (
        gathered matches Ok(offsets) && offsets@.len() == 0),
{
    let terms = match resolve_terms(index, query) {
        Ok(terms) => terms,
        Err(e) => {
            return Err(e);
        },
    };
    let name = partition.as_bytes();
    let keys = term_keys(name, id, &terms);
    assert(keys@.len() == byte_strings(keys@).len() == byte_strings(terms@).len() == terms@.len());
    let gathered = gather_offsets(store, &keys);
    proof {
        let answers = choose|answers: Seq<Result<Option<Vec<u8>>, StoreError>>| #[trigger]
            lookups_made(store, keys@, answers) && same_outcome(
                gathered,
                gathered_from(keys@, answers),
            );
        assert(lookups_for(
            store,
            encode_utf8(partition@),
            id,
            byte_strings(terms@),
            keys@,
            answers,
        ));
        assert(exists|ks: Seq<Vec<u8>>, ans: Seq<Result<Option<Vec<u8>>, StoreError>>| #[trigger]
            lookups_for(store, encode_utf8(partition@), id, byte_strings(terms@), ks, ans)
                && same_outcome(gathered, gathered_from(ks, ans)));
        assert(resolved_terms(index, query@) matches Ok(ts) && ts == byte_strings(terms@));
    }
    gathered
}

} // verus!
