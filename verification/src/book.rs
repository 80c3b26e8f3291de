//! The order book of one security, and what a matching pass does to it.
//!
//! A pass looks at the head of each queue: the lowest standing bid and the
//! highest standing ask. While the bid reaches the ask the pair leaves the
//! book. If the seller holds a unit, it goes to the buyer and the bid's price
//! becomes the last trade price; if not, the pair is dropped and nothing else
//! changes.

use vstd::prelude::*;
use crate::bidask::{Ask, Bid};
use crate::ident::AccId;
use crate::ledger::{held, lemma_transfer_keeps_sum, sum, transfer};
use crate::price::Price;
use crate::queue::{ascending, enqueue, OrderQueue};

verus! {

/// The state of one order book. Both queues stand in ascending priority, so
/// the head of each is its last entry.
pub struct SecurityView {
    pub last_trade: Price,
    pub bids: Seq<Bid>,
    pub asks: Seq<Ask>,
}

/// What a book shows at its heads.
#[derive(Debug, Clone, Copy)]
pub struct Quote {
    pub last_trade: Price,
    pub lowest_bid: Option<Price>,
    pub highest_ask: Option<Price>,
}

impl SecurityView {
    /// Whether both queues stand in ascending priority.
    pub open spec fn wf(self) -> bool {
        ascending(self.bids) && ascending(self.asks)
    }

    /// Whether every order of the book was placed by an account of `col`.
    pub open spec fn placed_within(self, col: Map<u128, nat>) -> bool {
        &&& forall|i: int| 0 <= i < self.bids.len() ==> col.contains_key(self.bids[i].account.0)
        &&& forall|i: int| 0 <= i < self.asks.len() ==> col.contains_key(self.asks[i].account.0)
    }

    /// Whether the heads cross: there is a bid and an ask, and the lowest bid
    /// reaches the highest ask.
    pub open spec fn crossable(self) -> bool {
        &&& self.bids.len() > 0
        &&& self.asks.len() > 0
        &&& self.bids.last().price.rank() >= self.asks.last().price.rank()
    }

    /// Whether the seller at the head of the asks holds a unit in `col`.
    pub open spec fn seller_funded(self, col: Map<u128, nat>) -> bool {
        held(col, self.asks.last().account.0) >= 1
    }

    /// The book without its two heads.
    pub open spec fn without_heads(self) -> SecurityView {
        SecurityView {
            last_trade: self.last_trade,
            bids: self.bids.drop_last(),
            asks: self.asks.drop_last(),
        }
    }

    /// The book and the column after the heads have traded: the unit has
    /// gone from the seller to the buyer, at the bid's price.
    pub open spec fn after_trade(self, col: Map<u128, nat>) -> (SecurityView, Map<u128, nat>) {
        (
            SecurityView { last_trade: self.bids.last().price, ..self.without_heads() },
            transfer(col, self.asks.last().account.0, self.bids.last().account.0),
        )
    }

    /// The book and the column after the heads have been dropped: neither
    /// order goes back into the book, and nothing else changes.
    pub open spec fn after_discard(self, col: Map<u128, nat>) -> (SecurityView, Map<u128, nat>) {
        (self.without_heads(), col)
    }

    /// The book and the column after the heads have left the book: traded
    /// where the seller holds a unit, dropped where not.
    pub open spec fn after_match(self, col: Map<u128, nat>) -> (SecurityView, Map<u128, nat>) {
        if self.seller_funded(col) {
            self.after_trade(col)
        } else {
            self.after_discard(col)
        }
    }

    /// The book and the column after a whole matching pass.
    pub open spec fn cross(self, col: Map<u128, nat>) -> (SecurityView, Map<u128, nat>)
        decreases self.bids.len(),
    {
        if self.crossable() {
            let (book, col) = self.after_match(col);
            book.cross(col)
        } else {
            (self, col)
        }
    }

    /// What the book shows at its heads.
    pub open spec fn quote(self) -> Quote {
        Quote {
            last_trade: self.last_trade,
            lowest_bid: if self.bids.len() > 0 {
                Some(self.bids.last().price)
            } else {
                None
            },
            highest_ask: if self.asks.len() > 0 {
                Some(self.asks.last().price)
            } else {
                None
            },
        }
    }

    /// The book of a security at its founding: `shares` asks of the owner at
    /// the founding price, and no bid.
    pub open spec fn founded(owner: AccId, shares: nat, price: Price) -> SecurityView {
        SecurityView {
            last_trade: price,
            bids: Seq::empty(),
            asks: Seq::new(shares, |i: int| Ask { price, account: owner }),
        }
    }
}

/// The head of the bids is the lowest standing bid.
pub proof fn lemma_lowest_bid(book: SecurityView, i: int)
    requires
        book.wf(),
        0 <= i < book.bids.len(),
    ensures
        book.bids.last().price.rank() <= book.bids[i].price.rank(),
{
}

/// The head of the asks is the highest standing ask.
pub proof fn lemma_highest_ask(book: SecurityView, i: int)
    requires
        book.wf(),
        0 <= i < book.asks.len(),
    ensures
        book.asks.last().price.rank() >= book.asks[i].price.rank(),
{
}

/// A trade is made at the bid's price: where the heads cross and the seller
/// holds a unit, the last trade price becomes the price of the bid that left,
/// whatever the ask said.
pub proof fn lemma_trade_at_bid_price(book: SecurityView, col: Map<u128, nat>)
    requires
        book.crossable(),
        book.seller_funded(col),
    ensures
        book.after_match(col).0.last_trade == book.bids.last().price,
        book.after_match(col).0.bids == book.bids.drop_last(),
        book.after_match(col).0.asks == book.asks.drop_last(),
        book.after_match(col).1 == transfer(
            col,
            book.asks.last().account.0,
            book.bids.last().account.0,
        ),
{
}

/// A seller without a unit loses the order and nothing else: the pair leaves
/// the book, the column and the last trade price stay.
pub proof fn lemma_unfunded_pair_is_dropped(book: SecurityView, col: Map<u128, nat>)
    requires
        book.crossable(),
        !book.seller_funded(col),
    ensures
        book.after_match(col).0.last_trade == book.last_trade,
        book.after_match(col).0.bids == book.bids.drop_last(),
        book.after_match(col).0.asks == book.asks.drop_last(),
        book.after_match(col).1 == col,
{
}

/// A pass over a book with an empty queue changes nothing.
pub proof fn lemma_idle_pass(book: SecurityView, col: Map<u128, nat>)
    requires
        book.bids.len() == 0 || book.asks.len() == 0,
    ensures
        book.cross(col) == (book, col),
{
}

/// A pass over a book whose lowest bid is below its highest ask changes
/// nothing.
pub proof fn lemma_uncrossed_pass(book: SecurityView, col: Map<u128, nat>)
    requires
        book.bids.len() > 0,
        book.asks.len() > 0,
        book.bids.last().price.rank() < book.asks.last().price.rank(),
    ensures
        book.cross(col) == (book, col),
{
}

/// A pass keeps the number of units: it moves them between accounts and
/// neither makes nor destroys one. It opens no account and closes none, so
/// the orders that stay were placed by accounts that are still there.
pub proof fn lemma_pass_conserves(book: SecurityView, col: Map<u128, nat>)
    requires
        col.dom().finite(),
        book.placed_within(col),
    ensures
        sum(book.cross(col).1) == sum(col),
        book.cross(col).1.dom() == col.dom(),
        book.cross(col).0.placed_within(book.cross(col).1),
    decreases book.bids.len(),
{
    if book.crossable() {
        let (next, moved) = book.after_match(col);
        if book.seller_funded(col) {
            lemma_transfer_keeps_sum(
                col,
                book.asks.last().account.0,
                book.bids.last().account.0,
            );
            assert(col.contains_key(book.asks[book.asks.len() - 1].account.0));
            assert(col.contains_key(book.bids[book.bids.len() - 1].account.0));
            assert(moved.dom() == col.dom());
        }
        assert forall|i: int| 0 <= i < next.bids.len() implies moved.contains_key(
            next.bids[i].account.0,
        ) by {
            assert(next.bids[i] == book.bids[i]);
        }
        assert forall|i: int| 0 <= i < next.asks.len() implies moved.contains_key(
            next.asks[i].account.0,
        ) by {
            assert(next.asks[i] == book.asks[i]);
        }
        lemma_pass_conserves(next, moved);
    }
}

/// A pass leaves both queues in ascending priority and adds no order.
pub proof fn lemma_pass_keeps_order(book: SecurityView, col: Map<u128, nat>)
    requires
        book.wf(),
    ensures
        book.cross(col).0.wf(),
        book.cross(col).0.bids.is_prefix_of(book.bids),
        book.cross(col).0.asks.is_prefix_of(book.asks),
        book.bids.len() - book.cross(col).0.bids.len() == book.asks.len() - book.cross(
            col,
        ).0.asks.len(),
    decreases book.bids.len(),
{
    if book.crossable() {
        let (next, moved) = book.after_match(col);
        assert(next.bids == book.bids.drop_last());
        assert(next.asks == book.asks.drop_last());
        lemma_pass_keeps_order(next, moved);
    }
}

/// After a pass the heads no longer cross.
pub proof fn lemma_pass_is_complete(book: SecurityView, col: Map<u128, nat>)
    ensures
        !book.cross(col).0.crossable(),
    decreases book.bids.len(),
{
    if book.crossable() {
        let (next, moved) = book.after_match(col);
        lemma_pass_is_complete(next, moved);
    }
}

/// The order book of one security.
#[derive(Debug)]
pub struct Security {
    last_trade: Price,
    bids: OrderQueue<Bid>,
    asks: OrderQueue<Ask>,
}

impl View for Security {
    type V = SecurityView;

    closed spec fn view(&self) -> SecurityView {
        SecurityView { last_trade: self.last_trade, bids: self.bids@, asks: self.asks@ }
    }
}

impl Security {
    /// A book without orders.
    pub fn new(last_trade: Price) -> (book: Security)
        ensures
            book@ == (SecurityView { last_trade, bids: Seq::empty(), asks: Seq::empty() }),
            book@.wf(),
    {
        Security { last_trade, bids: OrderQueue::new(), asks: OrderQueue::new() }
    }

    /// The book of a new security: the owner asks the founding price for each
    /// of the `shares` units, one order per unit.
    pub fn founded(owner: AccId, shares: usize, price: Price) -> (book: Security)
        ensures
            book@ == SecurityView::founded(owner, shares as nat, price),
            book@.wf(),
    {
        Security {
            last_trade: price,
            bids: OrderQueue::new(),
            asks: OrderQueue::filled(Ask { price, account: owner }, shares),
        }
    }

    /// The price of the last trade.
    pub fn last_trade(&self) -> (price: Price)
        ensures
            price == self@.last_trade,
    {
        self.last_trade
    }

    /// The lowest standing bid.
    pub fn lowest_bid(&self) -> (head: Option<&Bid>)
        ensures
            self@.bids.len() == 0 ==> head is None,
            self@.bids.len() > 0 ==> head == Some(&self@.bids.last()),
    {
        self.bids.peek()
    }

    /// The highest standing ask.
    pub fn highest_ask(&self) -> (head: Option<&Ask>)
        ensures
            self@.asks.len() == 0 ==> head is None,
            self@.asks.len() > 0 ==> head == Some(&self@.asks.last()),
    {
        self.asks.peek()
    }

    /// What the book shows at its heads.
    pub fn quote(&self) -> (shown: Quote)
        ensures
            shown == self@.quote(),
    {
        Quote {
            last_trade: self.last_trade,
            lowest_bid: match self.bids.peek() {
                Some(bid) => Some(bid.price),
                None => None,
            },
            highest_ask: match self.asks.peek() {
                Some(ask) => Some(ask.price),
                None => None,
            },
        }
    }

    /// Adds a bid to the book.
    pub fn push_bid(&mut self, bid: Bid)
        requires
            old(self)@.wf(),
        ensures
            final(self)@ == (SecurityView { bids: enqueue(old(self)@.bids, bid), ..old(self)@ }),
            final(self)@.wf(),
    {
        self.bids.push(bid);
    }

    /// Adds an ask to the book.
    pub fn push_ask(&mut self, ask: Ask)
        requires
            old(self)@.wf(),
        ensures
            final(self)@ == (SecurityView { asks: enqueue(old(self)@.asks, ask), ..old(self)@ }),
            final(self)@.wf(),
    {
        self.asks.push(ask);
    }

    /// Takes the two heads out of the book if they cross.
    pub fn pop_crossing(&mut self) -> (pair: Option<(Bid, Ask)>)
        ensures
            !old(self)@.crossable() ==> pair is None && final(self)@ == old(self)@,
            old(self)@.crossable() ==> pair == Some(
                (old(self)@.bids.last(), old(self)@.asks.last()),
            ) && final(self)@ == old(self)@.without_heads(),
            old(self)@.wf() ==> final(self)@.wf(),
    {
        let crossing = match (self.bids.peek(), self.asks.peek()) {
            (Some(bid), Some(ask)) => bid.price.is_at_least(&ask.price),
            _ => false,
        };
        if crossing {
            let bid = self.bids.pop();
            let ask = self.asks.pop();
            Some((bid.unwrap(), ask.unwrap()))
        } else {
            None
        }
    }

    /// Records a trade at `price`.
    pub fn record_trade(&mut self, price: Price)
        ensures
            final(self)@ == (SecurityView { last_trade: price, ..old(self)@ }),
    {
        self.last_trade = price;
    }
}

} // verus!
