//! The two keyed stores behind the market, kept in `dashmap::DashMap`.
//!
//! Nothing in this file is proved. Each function states what the map does as
//! the `dashmap` sources show it, over the two names `books_in` and
//! `records_in` for what a map holds. Every function that changes a map takes
//! it by `&mut`, so that no other holder can change it between two calls and
//! the statements made here stay true until the next one.

use vstd::prelude::*;
use dashmap::DashMap;
use crate::book::{Quote, Security, SecurityView};
use crate::holdings::{units_in, Holdings};
use crate::ident::SecId;

verus! {

/// `dashmap::DashMap`, which the verifier carries without looking inside.
#[verifier::external_type_specification]
#[verifier::external_body]
#[verifier::reject_recursive_types(K)]
#[verifier::reject_recursive_types(V)]
#[verifier::reject_recursive_types(S)]
pub struct ExDashMap<K, V, S>(DashMap<K, V, S>);

/// The books that a map of securities holds, each by its view.
pub uninterp spec fn books_in(map: DashMap<u128, Security>) -> Map<u128, SecurityView>;

/// The records that a map of accounts holds, each by its view.
pub uninterp spec fn records_in(map: DashMap<u128, Holdings>) -> Map<u128, Map<u128, usize>>;

/// `DashMap::new`: a map that holds nothing.
#[verifier::external_body]
pub(crate) fn new_books() -> (made: DashMap<u128, Security>)
    ensures
        (books_in(made) == Map::<u128, SecurityView>::empty()),
{
    DashMap::new()
}

/// `DashMap::insert`: afterwards the map holds `book` under `id`, in place of
/// what it held there before, and everything else as before.
#[verifier::external_body]
pub(crate) fn put_book(map: &mut DashMap<u128, Security>, id: u128, book: Security)
    ensures
        books_in(*final(map)) == books_in(*old(map)).insert(id, book@),
{
    map.insert(id, book);
}

/// `DashMap::remove`: hands out the book held under `id`, if there is one,
/// and leaves the map without that entry.
#[verifier::external_body]
pub(crate) fn take_book(map: &mut DashMap<u128, Security>, id: u128) -> (taken: Option<Security>)
    ensures
        books_in(*final(map)) == books_in(*old(map)).remove(id),
        books_in(*old(map)).contains_key(id) ==> taken is Some && taken->Some_0@ == books_in(
            *old(map),
        )[id],
        !books_in(*old(map)).contains_key(id) ==> taken is None,
{
    map.remove(&id).map(|entry| entry.1)
}

/// `DashMap::iter`, keeping the key of each entry: every key of the map once,
/// in no stated order.
#[verifier::external_body]
pub(crate) fn book_ids(map: &DashMap<u128, Security>) -> (ids: Vec<u128>)
    ensures
        ids@.no_duplicates(),
        ids@.to_set() == books_in(*map).dom(),
{
    map.iter().map(|entry| *entry.key()).collect()
}

/// `DashMap::view` with `Security::quote`: the quote of the book held under
/// `id`, if there is one.
#[verifier::external_body]
pub(crate) fn book_quote(map: &DashMap<u128, Security>, id: u128) -> (shown: Option<Quote>)
    ensures
        books_in(*map).contains_key(id) ==> shown == Some(books_in(*map)[id].quote()),
        !books_in(*map).contains_key(id) ==> shown is None,
{
    map.view(&id, |_, book| book.quote())
}

/// `DashMap::new`: a map that holds nothing.
#[verifier::external_body]
pub(crate) fn new_records() -> (made: DashMap<u128, Holdings>)
    ensures
        (records_in(made) == Map::<u128, Map<u128, usize>>::empty()),
{
    DashMap::new()
}

/// `DashMap::insert`: afterwards the map holds `record` under `id`, in place
/// of what it held there before, and everything else as before.
#[verifier::external_body]
pub(crate) fn put_record(map: &mut DashMap<u128, Holdings>, id: u128, record: Holdings)
    ensures
        records_in(*final(map)) == records_in(*old(map)).insert(id, record@),
{
    map.insert(id, record);
}

/// `DashMap::remove`: hands out the record held under `id`, if there is one,
/// and leaves the map without that entry.
#[verifier::external_body]
pub(crate) fn take_record(map: &mut DashMap<u128, Holdings>, id: u128) -> (taken: Option<
    Holdings,
>)
    ensures
        records_in(*final(map)) == records_in(*old(map)).remove(id),
        records_in(*old(map)).contains_key(id) ==> taken is Some && taken->Some_0@ == records_in(
            *old(map),
        )[id],
        !records_in(*old(map)).contains_key(id) ==> taken is None,
{
    map.remove(&id).map(|entry| entry.1)
}

/// `DashMap::iter`, keeping the key of each entry: every key of the map once,
/// in no stated order.
#[verifier::external_body]
pub(crate) fn record_ids(map: &DashMap<u128, Holdings>) -> (ids: Vec<u128>)
    ensures
        ids@.no_duplicates(),
        ids@.to_set() == records_in(*map).dom(),
{
    map.iter().map(|entry| *entry.key()).collect()
}

/// `DashMap::contains_key`: whether the map holds a record under `id`.
#[verifier::external_body]
pub(crate) fn has_record(map: &DashMap<u128, Holdings>, id: u128) -> (found: bool)
    ensures
        found == records_in(*map).contains_key(id),
{
    map.contains_key(&id)
}

/// `DashMap::view` with `Holdings::units`: the units of `sec` in the record
/// held under `id`, if there is one.
#[verifier::external_body]
pub(crate) fn units_at(map: &DashMap<u128, Holdings>, id: u128, sec: SecId) -> (found: Option<
    usize,
>)
    ensures
        records_in(*map).contains_key(id) ==> found == Some(
            units_in(records_in(*map)[id], sec.0) as usize,
        ),
        !records_in(*map).contains_key(id) ==> found is None,
{
    map.view(&id, |_, record| record.units(sec))
}

} // verus!
