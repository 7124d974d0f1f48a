//! Resolving a query text to the indexed terms that it stands for.
//!
//! An empty text stands for the one reserved term that names every entry. Any
//! other text is matched against the segment's term index, a finite-state set
//! built at ingestion time, with a Levenshtein automaton of a fixed distance.

use vstd::prelude::*;
use vstd::slice::slice_to_vec;
use vstd::string::StringSliceAdditionalSpecFns;
use vstd::utf8::valid_utf8;
use crate::error::QueryError;
use crate::posting::POSTING_LIST_ALL;
use crate::wire::byte_strings;

verus! {

/// The edit distance within which an indexed term matches the query text.
pub const FUZZY_DISTANCE: u32 = 2;

/// `fst::Set`, a set of byte strings kept as a finite-state machine. Nothing
/// inside it is visible here; [`set_keys`] and [`set_is_sound`] speak for it.
#[verifier::external_type_specification]
#[verifier::external_body]
pub struct ExFstSet(fst::Set);

/// `fst::Error`, carried from a failed call to where it is turned into a
/// [`QueryError`].
#[verifier::external_type_specification]
#[verifier::external_body]
pub struct ExFstError(fst::Error);

/// `fst_levenshtein::Levenshtein`, an automaton over bytes. Nothing inside it
/// is visible here; [`accepted`] speaks for it.
#[verifier::external_type_specification]
#[verifier::external_body]
pub struct ExLevenshtein(fst_levenshtein::Levenshtein);

/// `fst_levenshtein::Error`, carried from a failed call to where it is turned
/// into a [`QueryError`].
#[verifier::external_type_specification]
#[verifier::external_body]
pub struct ExLevenshteinError(fst_levenshtein::Error);

/// The keys, in lexicographic order, of the set that `bytes` are the stored
/// form of; `None` where no set builder writes these bytes.
pub uninterp spec fn index_keys(bytes: Seq<u8>) -> Option<Seq<Seq<u8>>>;

/// The keys that a finite-state set holds, in lexicographic order.
pub uninterp spec fn set_keys(set: fst::Set) -> Seq<Seq<u8>>;

/// Whether a finite-state set stands on bytes that a set builder wrote.
pub uninterp spec fn set_is_sound(set: fst::Set) -> bool;

/// The byte strings that the Levenshtein automaton of `query` and `distance`
/// accepts; `None` where that automaton is refused as too large.
pub uninterp spec fn levenshtein_language(query: Seq<char>, distance: u32) -> Option<Set<Seq<u8>>>;

/// The byte strings that an automaton accepts.
pub uninterp spec fn accepted(automaton: fst_levenshtein::Levenshtein) -> Set<Seq<u8>>;

/// The keys that lie in `language`, in the order of `keys`.
pub open spec fn matching_keys(keys: Seq<Seq<u8>>, language: Set<Seq<u8>>) -> Seq<Seq<u8>> {
    keys.filter(|key: Seq<u8>| language.contains(key))
}

/// Whether every one of `keys` is valid UTF-8.
pub open spec fn all_utf8(keys: Seq<Seq<u8>>) -> bool {
    forall|i: int| 0 <= i < keys.len() ==> valid_utf8(#[trigger] keys[i])
}

/// `fst::Set::from_bytes`. It reads the header and the trailer only, so it
/// refuses fewer than 32 bytes and accepts whatever a set builder wrote; the
/// set that it returns for a builder's bytes is sound and holds the keys that
/// went into the builder. Of other bytes that it accepts nothing is claimed.
#[verifier::external_body]
fn load_set(bytes: Vec<u8>) -> (loaded: Result<fst::Set, fst::Error>)
    ensures
        bytes@.len() < 32 ==> loaded is Err,
        match loaded {
            Ok(set) => index_keys(bytes@) matches Some(keys) ==> set_is_sound(set) && set_keys(set)
                == keys,
            Err(_) => index_keys(bytes@) is None,
        },
{
    fst::Set::from_bytes(bytes)
}

/// `fst_levenshtein::Levenshtein::new`. Whether the automaton is built, and
/// which byte strings it then accepts, depends on the query text and the
/// distance alone. The largest distance is left out: the builder adds one to
/// it.
#[verifier::external_body]
fn build_automaton(query: &str, distance: u32) -> (built: Result<
    fst_levenshtein::Levenshtein,
    fst_levenshtein::Error,
>)
    requires
        distance < u32::MAX,
    ensures
        match built {
            Ok(automaton) => levenshtein_language(query@, distance) == Some(accepted(automaton)),
            Err(_) => levenshtein_language(query@, distance) is None,
        },
{
    fst_levenshtein::Levenshtein::new(query, distance)
}

/// `fst::Set::search`, then `into_stream` and `into_strs` on what it returns:
/// the keys of the set that the automaton accepts, in the set's order, each
/// turned from a `String` back into its bytes. It fails where one of those keys
/// is not valid UTF-8, and only there. A set that is not sound is left out: on
/// such a set the walk may not come back.
#[verifier::external_body]
fn search_set(set: &fst::Set, automaton: fst_levenshtein::Levenshtein) -> (found: Result<
    Vec<Vec<u8>>,
    fst::Error,
>)
    requires
        set_is_sound(*set),
    ensures
        match found {
            Ok(terms) => all_utf8(matching_keys(set_keys(*set), accepted(automaton)))
                && byte_strings(terms@) == matching_keys(set_keys(*set), accepted(automaton)),
            Err(_) => !all_utf8(matching_keys(set_keys(*set), accepted(automaton))),
        },
{
    let terms = fst::IntoStreamer::into_stream(set.search(automaton)).into_strs()?;
    Ok(terms.into_iter().map(String::into_bytes).collect())
}

/// The term index of one segment: the set of all terms indexed for it.
pub struct TermIndex {
    set: fst::Set,
}

impl TermIndex {
    /// The indexed terms, in lexicographic order.
    pub closed spec fn keys(&self) -> Seq<Seq<u8>> {
        set_keys(self.set)
    }

    /// Whether the index stands on bytes that a set builder wrote. Only such
    /// an index can be searched.
    pub closed spec fn well_formed(&self) -> bool {
        set_is_sound(self.set)
    }

    /// Takes the stored form of a term index. Bytes that are too short for a
    /// set, or that fail the check of their header and trailer, are refused;
    /// the bytes that a set builder wrote for a list of terms give a
    /// well-formed index of those terms.
    pub fn from_bytes(bytes: Vec<u8>) -> (loaded: Result<TermIndex, QueryError>)
        ensures
            bytes@.len() < 32 ==> loaded is Err,
            match loaded {
                Ok(index) => index_keys(bytes@) matches Some(keys) ==> index.well_formed()
                    && index.keys() == keys,
                Err(e) => e is InvalidIndex && index_keys(bytes@) is None,
            },
    {
        match load_set(bytes) {
            Ok(set) => Ok(TermIndex { set }),
            Err(_) => Err(QueryError::InvalidIndex),
        }
    }
}

/// What a fuzzy search is owed to return, given the terms of the index and the
/// language of the query's automaton.
pub open spec fn fuzzy_terms(keys: Seq<Seq<u8>>, language: Option<Set<Seq<u8>>>) -> Result<
    Seq<Seq<u8>>,
    QueryError,
> {
    match language {
        None => Err(QueryError::QueryTooComplex),
        Some(accepts) => if all_utf8(matching_keys(keys, accepts)) {
            Ok(matching_keys(keys, accepts))
        } else {
            Err(QueryError::InvalidTerm)
        },
    }
}

/// The terms that a query text is owed to resolve to.
pub open spec fn resolved_terms(index: Option<&TermIndex>, query: Seq<char>) -> Result<
    Seq<Seq<u8>>,
    QueryError,
> {
    if query.len() == 0 {
        Ok(seq![POSTING_LIST_ALL.spec_bytes()])
    } else {
        match index {
            None => Err(QueryError::IndexUnavailable),
            Some(index) => fuzzy_terms(index.keys(), levenshtein_language(query, FUZZY_DISTANCE)),
        }
    }
}

/// The result of a resolution with each term taken as its bytes.
pub open spec fn terms_view(resolved: Result<Vec<Vec<u8>>, QueryError>) -> Result<
    Seq<Seq<u8>>,
    QueryError,
> {
    match resolved {
        Ok(terms) => Ok(byte_strings(terms@)),
        Err(e) => Err(e),
    }
}

/// Resolves a query text to the terms whose posting lists answer it.
///
/// An empty text resolves to the reserved term alone and leaves the index
/// untouched. Any other text resolves to every term of the index within
/// [`FUZZY_DISTANCE`] of it, compared case-sensitively and in the order of the
/// index.
pub fn resolve_terms(index: Option<&TermIndex>, query: &str) -> (resolved: Result<
    Vec<Vec<u8>>,
    QueryError,
>)
    requires
        query@.len() > 0 ==> (index matches Some(given) ==> given.well_formed()),
    ensures
        terms_view(resolved) == resolved_terms(index, query@),
        query@.len() == 0 ==> terms_view(resolved) == Ok::<Seq<Seq<u8>>, QueryError>(
            seq![POSTING_LIST_ALL.spec_bytes()],
        ),
{
    if query.is_empty() {
        let mut terms: Vec<Vec<u8>> = Vec::new();
        terms.push(slice_to_vec(POSTING_LIST_ALL.as_bytes()));
        assert(byte_strings(terms@) =~= seq![POSTING_LIST_ALL.spec_bytes()]);
        return Ok(terms);
    }
    let index = match index {
        Some(index) => index,
        None => {
            return Err(QueryError::IndexUnavailable);
        },
    };
    let automaton = match build_automaton(query, FUZZY_DISTANCE) {
        Ok(automaton) => automaton,
        Err(_) => {
            return Err(QueryError::QueryTooComplex);
        },
    };
    match search_set(&index.set, automaton) {
        Ok(terms) => Ok(terms),
        Err(_) => Err(QueryError::InvalidTerm),
    }
}

} // verus!
