//! The matching engine: one pass over one book.
//!
//! The pass takes the heads of the two queues for as long as they cross. Each
//! pair is settled against the ledger: the unit moves and the bid's price is
//! recorded where the seller holds a unit; where it holds none, the pair is
//! discarded.

use vstd::prelude::*;
use crate::bidask::{Ask, Bid};
use crate::book::Security;
use crate::ident::SecId;
use crate::ledger::{
    column, held, lemma_move_is_transfer, position, total_units, transfer, Ledger,
};

verus! {

/// What becomes of a pair whose seller holds no unit: both orders are lost.
/// They have left the book already; nothing puts them back.
fn discard(bid: Bid, ask: Ask) {
}

/// Settles the pair that has just left `book`, the book of `sec`: moves the
/// unit from the seller to the buyer and records the trade at the bid's
/// price, or discards the pair where the seller holds no unit.
pub fn settle(book: &mut Security, sec: SecId, ledger: &mut Ledger, bid: Bid, ask: Ask) -> (traded:
    bool)
    requires
        old(ledger).wf(),
        old(ledger)@.contains_key(ask.account.0),
        old(ledger)@.contains_key(bid.account.0),
        total_units(old(ledger)@, sec.0) <= usize::MAX,
    ensures
        traded == (position(old(ledger)@, ask.account.0, sec.0) >= 1),
        traded ==> final(book)@.last_trade == bid.price,
        !traded ==> final(book)@.last_trade == old(book)@.last_trade,
        final(book)@.bids == old(book)@.bids,
        final(book)@.asks == old(book)@.asks,
        final(ledger)@.dom() == old(ledger)@.dom(),
        column(final(ledger)@, sec.0) == if traded {
            transfer(column(old(ledger)@, sec.0), ask.account.0, bid.account.0)
        } else {
            column(old(ledger)@, sec.0)
        },
        forall|other: u128|
            other != sec.0 ==> #[trigger] column(final(ledger)@, other) == column(
                old(ledger)@,
                other,
            ),
        total_units(final(ledger)@, sec.0) == total_units(old(ledger)@, sec.0),
        final(ledger).wf(),
{
    proof {
        if position(ledger@, ask.account.0, sec.0) >= 1 {
            lemma_move_is_transfer(ledger@, sec.0, ask.account.0, bid.account.0);
        }
    }
    if ledger.move_unit(sec, ask.account, bid.account) {
        book.record_trade(bid.price);
        true
    } else {
        discard(bid, ask);
        false
    }
}

/// Runs a matching pass over `book`, the book of `sec`, against `ledger`.
pub fn run_pass(book: &mut Security, sec: SecId, ledger: &mut Ledger)
    requires
        old(book)@.wf(),
        old(ledger).wf(),
        old(book)@.placed_within(column(old(ledger)@, sec.0)),
        total_units(old(ledger)@, sec.0) <= usize::MAX,
    ensures
        final(book)@ == old(book)@.cross(column(old(ledger)@, sec.0)).0,
        column(final(ledger)@, sec.0) == old(book)@.cross(column(old(ledger)@, sec.0)).1,
        forall|other: u128|
            other != sec.0 ==> #[trigger] column(final(ledger)@, other) == column(
                old(ledger)@,
                other,
            ),
        final(ledger)@.dom() == old(ledger)@.dom(),
        total_units(final(ledger)@, sec.0) == total_units(old(ledger)@, sec.0),
        final(book)@.wf(),
        final(ledger).wf(),
{
    let ghost first_book = book@;
    let ghost first_ledger = ledger@;
    loop
        invariant
            first_book == old(book)@,
            first_ledger == old(ledger)@,
            book@.wf(),
            ledger.wf(),
            ledger@.dom() == first_ledger.dom(),
            book@.placed_within(column(ledger@, sec.0)),
            total_units(ledger@, sec.0) == total_units(first_ledger, sec.0),
            total_units(first_ledger, sec.0) <= usize::MAX,
            book@.cross(column(ledger@, sec.0)) == first_book.cross(column(first_ledger, sec.0)),
            forall|other: u128|
                other != sec.0 ==> #[trigger] column(ledger@, other) == column(
                    first_ledger,
                    other,
                ),
        ensures
            !book@.crossable(),
        decreases book@.bids.len(),
    {
        let ghost waiting = book@;
        let ghost col = column(ledger@, sec.0);
        match book.pop_crossing() {
            None => {
                break ;
            },
            Some((bid, ask)) => {
                proof {
                    assert(waiting.bids[waiting.bids.len() - 1] == bid);
                    assert(waiting.asks[waiting.asks.len() - 1] == ask);
                    assert(col.dom() =~= ledger@.dom());
                    assert(held(col, ask.account.0) == position(ledger@, ask.account.0, sec.0));
                }
                let _ = settle(book, sec, ledger, bid, ask);
                proof {
                    assert(book@ == waiting.after_match(col).0);
                    assert(column(ledger@, sec.0) == waiting.after_match(col).1);
                    assert(column(ledger@, sec.0).dom() =~= ledger@.dom());
                    assert forall|i: int| 0 <= i < book@.bids.len() implies column(ledger@, sec.0)
                        .contains_key(book@.bids[i].account.0) by {
                        assert(book@.bids[i] == waiting.bids[i]);
                    }
                    assert forall|i: int| 0 <= i < book@.asks.len() implies column(ledger@, sec.0)
                        .contains_key(book@.asks[i].account.0) by {
                        assert(book@.asks[i] == waiting.asks[i]);
                    }
                }
            },
        }
    }
}

} // verus!
