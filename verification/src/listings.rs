//! The listed securities, each with its order book.

use vstd::prelude::*;
use dashmap::DashMap;
use crate::book::{Quote, Security, SecurityView};
use crate::ident::{lemma_next_id_is_vacant, SecId};
use crate::store::{book_ids, book_quote, books_in, new_books, put_book, take_book};

verus! {

/// The securities of the market. The view maps each listed security to the
/// state of its book.
#[derive(Debug)]
pub struct Listings {
    books: DashMap<u128, Security>,
}

impl View for Listings {
    type V = Map<u128, SecurityView>;

    closed spec fn view(&self) -> Map<u128, SecurityView> {
        books_in(self.books)
    }
}

impl Listings {
    /// Whether finitely many securities are listed.
    pub open spec fn wf(&self) -> bool {
        self@.dom().finite()
    }

    /// Listings without a security.
    pub fn new() -> (listings: Listings)
        ensures
            listings@ == Map::<u128, SecurityView>::empty(),
            listings.wf(),
    {
        Listings { books: new_books() }
    }

    /// What the book of `sec` shows at its heads, if `sec` is listed.
    pub fn quote(&self, sec: SecId) -> (shown: Option<Quote>)
        ensures
            self@.contains_key(sec.0) ==> shown == Some(self@[sec.0].quote()),
            !self@.contains_key(sec.0) ==> shown is None,
    {
        book_quote(&self.books, sec.0)
    }

    /// Whether `sec` is listed.
    pub fn is_listed(&self, sec: SecId) -> (found: bool)
        ensures
            found == self@.contains_key(sec.0),
    {
        book_quote(&self.books, sec.0).is_some()
    }

    /// Lists `sec` with `book`, in place of the book it had, if any.
    pub fn put(&mut self, sec: SecId, book: Security)
        ensures
            final(self)@ == old(self)@.insert(sec.0, book@),
            old(self).wf() ==> final(self).wf(),
    {
        put_book(&mut self.books, sec.0, book);
    }

    /// Takes `sec` off the listings and hands out its book.
    pub fn take(&mut self, sec: SecId) -> (taken: Option<Security>)
        ensures
            final(self)@ == old(self)@.remove(sec.0),
            old(self)@.contains_key(sec.0) ==> taken is Some && taken->Some_0@ == old(self)@[sec.0],
            !old(self)@.contains_key(sec.0) ==> taken is None,
            old(self).wf() ==> final(self).wf(),
    {
        take_book(&mut self.books, sec.0)
    }

    /// Every listed security once, in no particular order.
    pub fn ids(&self) -> (ids: Vec<SecId>)
        ensures
            ids@.no_duplicates(),
            forall|sec: SecId| ids@.contains(sec) <==> self@.contains_key(sec.0),
            self.wf(),
    {
        let raw = book_ids(&self.books);
        let mut ids: Vec<SecId> = Vec::new();
        let mut at: usize = 0;
        while at < raw.len()
            invariant
                at <= raw@.len(),
                ids@.len() == at,
                forall|i: int| 0 <= i < at ==> ids@[i] == SecId(raw@[i]),
            decreases raw@.len() - at,
        {
            ids.push(SecId(raw[at]));
            at += 1;
        }
        proof {
            assert forall|sec: SecId| ids@.contains(sec) <==> self@.contains_key(sec.0) by {
                if ids@.contains(sec) {
                    let i = choose|i: int| 0 <= i < ids@.len() && ids@[i] == sec;
                    assert(raw@[i] == sec.0);
                    assert(raw@.to_set().contains(sec.0));
                }
                if self@.contains_key(sec.0) {
                    assert(raw@.to_set().contains(sec.0));
                    let i = choose|i: int| 0 <= i < raw@.len() && raw@[i] == sec.0;
                    assert(ids@[i] == sec);
                }
            }
        }
        ids
    }

    /// An identifier under which no security is listed: `hint` where it is
    /// free, the lowest free identifier where it is not.
    pub fn vacant(&self, hint: SecId) -> (free: SecId)
        ensures
            !self@.contains_key(free.0),
            !self@.contains_key(hint.0) ==> free == hint,
            self@.contains_key(hint.0) ==> forall|id: u128| id < free.0 ==> self@.contains_key(id),
    {
        if !self.is_listed(hint) {
            return hint;
        }
        let taken = book_ids(&self.books);
        proof {
            taken@.unique_seq_to_set();
        }
        let mut next: u128 = 0;
        while next < taken.len() as u128 && self.is_listed(SecId(next))
            invariant
                next <= taken@.len(),
                forall|id: u128| id < next ==> self@.contains_key(id),
            decreases taken@.len() - next,
        {
            next += 1;
        }
        proof {
            if next == taken@.len() {
                lemma_next_id_is_vacant(self@.dom(), next as nat);
            }
        }
        SecId(next)
    }
}

} // verus!
