//! The market: listed securities, accounts, and the operations on both.

use vstd::prelude::*;
use crate::bidask::{Ask, Bid};
use crate::book::{
    lemma_highest_ask, lemma_idle_pass, lemma_lowest_bid, lemma_pass_conserves,
    lemma_pass_keeps_order, Security, SecurityView,
};
use crate::engine::run_pass;
use crate::error::MarketError;
use crate::holdings::{units_in, Holdings};
use crate::ident::{random_id, AccId, SecId};
use crate::ledger::{
    column, lemma_new_record, lemma_sum_of_nothing, position, total_units, Ledger,
};
use crate::listings::Listings;
use crate::price::{is_finite_bits, Price};
use crate::queue::{enqueue, lemma_enqueue_ascending, lemma_enqueue_entries};

verus! {

/// The state of a market.
pub struct MarketView {
    /// The book of each listed security.
    pub securities: Map<u128, SecurityView>,
    /// The record of each account: the units it holds, security by security.
    pub accounts: Map<u128, Map<u128, usize>>,
}

impl MarketView {
    /// Whether the state is one that the operations of a market can reach.
    pub open spec fn wf(self) -> bool {
        &&& self.securities.dom().finite()
        &&& self.accounts.dom().finite()
        &&& forall|sec: u128|
            self.securities.contains_key(sec) ==> (#[trigger] self.securities[sec]).wf()
        &&& forall|sec: u128|
            self.securities.contains_key(sec) ==> (#[trigger] self.securities[sec]).placed_within(
                column(self.accounts, sec),
            )
        &&& forall|sec: u128| #[trigger] total_units(self.accounts, sec) <= usize::MAX
        &&& forall|acc: u128, sec: u128| #[trigger]
            position(self.accounts, acc, sec) > 0 ==> self.securities.contains_key(sec)
    }

    /// The error that an order of `acc` for `sec` at the price with the
    /// bits `price` is owed, if any: an unknown account comes before an
    /// unlisted security, and both before a price that is no finite number.
    pub open spec fn order_refusal(self, acc: AccId, sec: SecId, price: u64) -> Option<
        MarketError,
    > {
        if !self.accounts.contains_key(acc.0) {
            Some(MarketError::AccDoesNotExist(acc))
        } else if !self.securities.contains_key(sec.0) {
            Some(MarketError::SecDoesNotExist(sec))
        } else if !is_finite_bits(price) {
            Some(MarketError::InvalidPrice)
        } else {
            None
        }
    }

    /// The error that a question about what `acc` holds of `sec` is owed, if
    /// any: an unknown account comes before an unlisted security.
    pub open spec fn holding_refusal(self, acc: AccId, sec: SecId) -> Option<MarketError> {
        if !self.accounts.contains_key(acc.0) {
            Some(MarketError::AccDoesNotExist(acc))
        } else if !self.securities.contains_key(sec.0) {
            Some(MarketError::SecDoesNotExist(sec))
        } else {
            None
        }
    }

    /// The state after `bid` has joined the bids for `sec`.
    pub open spec fn with_bid(self, sec: u128, bid: Bid) -> MarketView {
        MarketView {
            securities: self.securities.insert(
                sec,
                SecurityView {
                    bids: enqueue(self.securities[sec].bids, bid),
                    ..self.securities[sec]
                },
            ),
            accounts: self.accounts,
        }
    }

    /// The state after `ask` has joined the asks for `sec`.
    pub open spec fn with_ask(self, sec: u128, ask: Ask) -> MarketView {
        MarketView {
            securities: self.securities.insert(
                sec,
                SecurityView {
                    asks: enqueue(self.securities[sec].asks, ask),
                    ..self.securities[sec]
                },
            ),
            accounts: self.accounts,
        }
    }

    /// The state after the account `acc` has been opened, with nothing in it.
    pub open spec fn with_account(self, acc: u128) -> MarketView {
        MarketView {
            securities: self.securities,
            accounts: self.accounts.insert(acc, Map::<u128, usize>::empty()),
        }
    }

    /// The state after `sec` has been founded with `shares` units at `price`:
    /// the new account `owner` holds the units and asks `price` for each.
    pub open spec fn with_security(
        self,
        sec: u128,
        owner: u128,
        shares: usize,
        price: Price,
    ) -> MarketView {
        MarketView {
            securities: self.securities.insert(
                sec,
                SecurityView::founded(AccId(owner), shares as nat, price),
            ),
            accounts: self.accounts.insert(owner, Map::<u128, usize>::empty().insert(sec, shares)),
        }
    }

    /// The book of `sec` after a matching pass over it.
    pub open spec fn crossed_book(self, sec: u128) -> SecurityView {
        self.securities[sec].cross(column(self.accounts, sec)).0
    }

    /// The units of `sec`, account by account, after a matching pass over it.
    pub open spec fn crossed_column(self, sec: u128) -> Map<u128, nat> {
        self.securities[sec].cross(column(self.accounts, sec)).1
    }

    /// Whether `after` is this state after a matching pass over `sec` alone.
    pub open spec fn crossed_at(self, sec: u128, after: MarketView) -> bool {
        &&& after.securities == self.securities.insert(sec, self.crossed_book(sec))
        &&& after.accounts.dom() == self.accounts.dom()
        &&& column(after.accounts, sec) == self.crossed_column(sec)
        &&& forall|other: u128|
            other != sec ==> #[trigger] column(after.accounts, other) == column(
                self.accounts,
                other,
            )
    }

    /// Whether `after` is this state after a matching pass over each listed
    /// security in `done`, and over no other.
    pub open spec fn crossed_among(self, done: Set<u128>, after: MarketView) -> bool {
        &&& after.securities.dom() == self.securities.dom()
        &&& after.accounts.dom() == self.accounts.dom()
        &&& forall|sec: u128|
            self.securities.contains_key(sec) ==> #[trigger] after.securities[sec]
                == self.book_among(done, sec)
        &&& forall|sec: u128| #[trigger]
            column(after.accounts, sec) == self.column_among(done, sec)
    }

    /// The book of the listed security `sec` after a matching pass over each
    /// security in `done`.
    pub open spec fn book_among(self, done: Set<u128>, sec: u128) -> SecurityView {
        if done.contains(sec) {
            self.crossed_book(sec)
        } else {
            self.securities[sec]
        }
    }

    /// The units of `sec`, account by account, after a matching pass over
    /// each listed security in `done`.
    pub open spec fn column_among(self, done: Set<u128>, sec: u128) -> Map<u128, nat> {
        if self.securities.contains_key(sec) && done.contains(sec) {
            self.crossed_column(sec)
        } else {
            column(self.accounts, sec)
        }
    }

    /// Whether `after` is this state after a matching pass over every listed
    /// security.
    pub open spec fn crossed(self, after: MarketView) -> bool {
        self.crossed_among(self.securities.dom(), after)
    }
}

impl MarketView {
    /// Whether `after` is this state after one operation that founds no
    /// security: a request refused, an account opened, an order placed, or a
    /// matching pass over one security or over all.
    pub open spec fn moved_to(self, after: MarketView) -> bool {
        ||| after == self
        ||| exists|acc: u128|
            !self.accounts.contains_key(acc) && after == #[trigger] self.with_account(acc)
        ||| exists|sec: u128, bid: Bid|
            self.securities.contains_key(sec) && self.accounts.contains_key(bid.account.0)
                && after == #[trigger] self.with_bid(sec, bid)
        ||| exists|sec: u128, ask: Ask|
            self.securities.contains_key(sec) && self.accounts.contains_key(ask.account.0)
                && after == #[trigger] self.with_ask(sec, ask)
        ||| exists|sec: u128|
            self.securities.contains_key(sec) && #[trigger] self.crossed_at(sec, after)
        ||| self.crossed(after)
    }
}

/// The securities named in `ids`.
pub open spec fn named(ids: Seq<SecId>) -> Set<u128> {
    Set::new(|sec: u128| ids.contains(SecId(sec)))
}

/// Passes over different securities do not disturb one another: a pass over
/// `sec`, after passes over the securities in `done`, is a pass over each of
/// them.
pub proof fn lemma_pass_extends(
    start: MarketView,
    done: Set<u128>,
    middle: MarketView,
    sec: u128,
    after: MarketView,
)
    requires
        start.securities.contains_key(sec),
        !done.contains(sec),
        start.crossed_among(done, middle),
        middle.crossed_at(sec, after),
    ensures
        start.crossed_among(done.insert(sec), after),
{
    assert(after.securities.dom() =~= start.securities.dom());
    assert(middle.securities[sec] == start.securities[sec]);
    assert(column(middle.accounts, sec) == column(start.accounts, sec));
    let all = done.insert(sec);
    assert forall|s: u128| start.securities.contains_key(s) implies #[trigger] after.securities[s]
        == start.book_among(all, s) by {
        if s != sec {
            assert(after.securities[s] == middle.securities[s]);
        }
    }
    assert forall|s: u128| #[trigger]
        column(after.accounts, s) == start.column_among(all, s) by {
        if s != sec {
            assert(column(after.accounts, s) == column(middle.accounts, s));
        }
    }
}

/// A bid of a known account for a listed security leaves the market in a
/// state that its operations can reach.
pub proof fn lemma_bid_keeps_wf(before: MarketView, sec: u128, bid: Bid)
    requires
        before.wf(),
        before.securities.contains_key(sec),
        before.accounts.contains_key(bid.account.0),
    ensures
        before.with_bid(sec, bid).wf(),
{
    let after = before.with_bid(sec, bid);
    let waiting = before.securities[sec].bids;
    lemma_enqueue_ascending(waiting, bid);
    lemma_enqueue_entries(waiting, bid);
    assert forall|s: u128| after.securities.contains_key(s) implies (#[trigger] after.securities[s])
        .placed_within(column(after.accounts, s)) by {
        assert(before.securities[s].placed_within(column(before.accounts, s)));
        if s == sec {
            let joined = after.securities[s].bids;
            assert forall|i: int| 0 <= i < joined.len() implies column(after.accounts, s)
                .contains_key(joined[i].account.0) by {
                if joined[i] != bid {
                    let j = choose|j: int| 0 <= j < waiting.len() && waiting[j] == joined[i];
                }
            }
        }
    }
}

/// An ask of a known account for a listed security leaves the market in a
/// state that its operations can reach.
pub proof fn lemma_ask_keeps_wf(before: MarketView, sec: u128, ask: Ask)
    requires
        before.wf(),
        before.securities.contains_key(sec),
        before.accounts.contains_key(ask.account.0),
    ensures
        before.with_ask(sec, ask).wf(),
{
    let after = before.with_ask(sec, ask);
    let waiting = before.securities[sec].asks;
    lemma_enqueue_ascending(waiting, ask);
    lemma_enqueue_entries(waiting, ask);
    assert forall|s: u128| after.securities.contains_key(s) implies (#[trigger] after.securities[s])
        .placed_within(column(after.accounts, s)) by {
        assert(before.securities[s].placed_within(column(before.accounts, s)));
        if s == sec {
            let joined = after.securities[s].asks;
            assert forall|i: int| 0 <= i < joined.len() implies column(after.accounts, s)
                .contains_key(joined[i].account.0) by {
                if joined[i] != ask {
                    let j = choose|j: int| 0 <= j < waiting.len() && waiting[j] == joined[i];
                }
            }
        }
    }
}

/// A new account holds nothing: it leaves the units of every security as
/// they were, and the market in a state that its operations can reach.
pub proof fn lemma_account_keeps_wf(before: MarketView, acc: u128)
    requires
        before.wf(),
        !before.accounts.contains_key(acc),
    ensures
        before.with_account(acc).wf(),
        forall|sec: u128|
            total_units(before.with_account(acc).accounts, sec) == total_units(
                before.accounts,
                sec,
            ),
{
    let after = before.with_account(acc);
    assert forall|sec: u128| #[trigger]
        total_units(after.accounts, sec) == total_units(before.accounts, sec) by {
        lemma_new_record(before.accounts, acc, Map::<u128, usize>::empty(), sec);
    }
    assert forall|s: u128| after.securities.contains_key(s) implies (#[trigger] after.securities[s])
        .placed_within(column(after.accounts, s)) by {
        assert(before.securities[s].placed_within(column(before.accounts, s)));
    }
    assert forall|a: u128, sec: u128| #[trigger]
        position(after.accounts, a, sec) > 0 implies after.securities.contains_key(sec) by {
        assert(position(before.accounts, a, sec) > 0);
    }
}

/// A security founded under a new identifier, for a new account, mints its
/// founding shares and no other unit: every other security keeps its units,
/// and the market stays in a state that its operations can reach.
pub proof fn lemma_security_keeps_wf(
    before: MarketView,
    sec: u128,
    owner: u128,
    shares: usize,
    price: Price,
)
    requires
        before.wf(),
        !before.securities.contains_key(sec),
        !before.accounts.contains_key(owner),
    ensures
        before.with_security(sec, owner, shares, price).wf(),
        total_units(before.with_security(sec, owner, shares, price).accounts, sec) == shares,
        forall|other: u128|
            other != sec ==> total_units(
                before.with_security(sec, owner, shares, price).accounts,
                other,
            ) == total_units(before.accounts, other),
{
    let after = before.with_security(sec, owner, shares, price);
    let granted = Map::<u128, usize>::empty().insert(sec, shares);
    assert forall|s: u128| #[trigger]
        total_units(after.accounts, s) == total_units(before.accounts, s) + units_in(
            granted,
            s,
        ) by {
        lemma_new_record(before.accounts, owner, granted, s);
    }
    assert(total_units(before.accounts, sec) == 0) by {
        let col = column(before.accounts, sec);
        assert(col.dom() =~= before.accounts.dom());
        assert forall|a: u128| col.contains_key(a) implies col[a] == 0 by {
            if col[a] > 0 {
                assert(position(before.accounts, a, sec) > 0);
            }
        }
        lemma_sum_of_nothing(col);
    }
    assert forall|s: u128| #[trigger] total_units(after.accounts, s) <= usize::MAX by {
        assert(total_units(before.accounts, s) <= usize::MAX);
    }
    assert forall|s: u128| after.securities.contains_key(s) implies (#[trigger] after.securities[s])
        .placed_within(column(after.accounts, s)) by {
        if s != sec {
            assert(before.securities[s].placed_within(column(before.accounts, s)));
        }
    }
    assert forall|a: u128, s: u128| #[trigger]
        position(after.accounts, a, s) > 0 implies after.securities.contains_key(s) by {
        if a != owner {
            assert(position(before.accounts, a, s) > 0);
        }
    }
}

/// A matching pass over the market keeps the units of every security: it
/// moves them between accounts and neither makes nor destroys one.
pub proof fn lemma_market_pass_conserves(before: MarketView, after: MarketView, sec: u128)
    requires
        before.wf(),
        before.crossed(after),
    ensures
        total_units(after.accounts, sec) == total_units(before.accounts, sec),
{
    if before.securities.contains_key(sec) {
        assert(column(before.accounts, sec).dom() =~= before.accounts.dom());
        assert(before.securities[sec].placed_within(column(before.accounts, sec)));
        lemma_pass_conserves(before.securities[sec], column(before.accounts, sec));
        assert(column(after.accounts, sec) == before.crossed_column(sec));
    } else {
        assert(column(after.accounts, sec) == column(before.accounts, sec));
    }
}

/// A matching pass over one security keeps the units of every security.
pub proof fn lemma_pass_conserves_units(
    before: MarketView,
    after: MarketView,
    sec: u128,
    any: u128,
)
    requires
        before.wf(),
        before.securities.contains_key(sec),
        before.crossed_at(sec, after),
    ensures
        total_units(after.accounts, any) == total_units(before.accounts, any),
{
    if any == sec {
        assert(column(before.accounts, sec).dom() =~= before.accounts.dom());
        assert(before.securities[sec].placed_within(column(before.accounts, sec)));
        lemma_pass_conserves(before.securities[sec], column(before.accounts, sec));
    } else {
        assert(column(after.accounts, any) == column(before.accounts, any));
    }
}

/// A matching pass over one security leaves the market in a state that its
/// operations can reach.
pub proof fn lemma_pass_keeps_wf(before: MarketView, after: MarketView, sec: u128)
    requires
        before.wf(),
        before.securities.contains_key(sec),
        before.crossed_at(sec, after),
    ensures
        after.wf(),
{
    let book = before.securities[sec];
    let col = column(before.accounts, sec);
    assert(col.dom() =~= before.accounts.dom());
    assert(book.placed_within(col));
    lemma_pass_conserves(book, col);
    lemma_pass_keeps_order(book, col);
    assert forall|s: u128| #[trigger] total_units(after.accounts, s) <= usize::MAX by {
        if s != sec {
            assert(column(after.accounts, s) == column(before.accounts, s));
        }
        assert(total_units(before.accounts, s) <= usize::MAX);
    }
    assert forall|s: u128| after.securities.contains_key(s) implies (#[trigger] after.securities[s])
        .placed_within(column(after.accounts, s)) by {
        if s != sec {
            assert(before.securities[s].placed_within(column(before.accounts, s)));
            assert(column(after.accounts, s) == column(before.accounts, s));
        }
    }
    assert forall|a: u128, s: u128| #[trigger]
        position(after.accounts, a, s) > 0 implies after.securities.contains_key(s) by {
        if s != sec {
            assert(column(after.accounts, s) == column(before.accounts, s));
            assert(column(after.accounts, s).contains_key(a));
            assert(position(before.accounts, a, s) == column(before.accounts, s)[a]);
            assert(position(before.accounts, a, s) > 0);
        }
    }
}

/// A matching pass over the market leaves it in a state that its operations
/// can reach.
pub proof fn lemma_market_pass_keeps_wf(before: MarketView, after: MarketView)
    requires
        before.wf(),
        before.crossed(after),
    ensures
        after.wf(),
{
    assert forall|s: u128| after.securities.contains_key(s) implies (#[trigger] after.securities[s])
        .wf() && after.securities[s].placed_within(column(after.accounts, s)) by {
        let book = before.securities[s];
        let col = column(before.accounts, s);
        assert(col.dom() =~= before.accounts.dom());
        assert(book.wf());
        assert(book.placed_within(col));
        lemma_pass_conserves(book, col);
        lemma_pass_keeps_order(book, col);
        assert(after.securities[s] == before.crossed_book(s));
        assert(column(after.accounts, s) == before.crossed_column(s));
    }
    assert forall|s: u128| #[trigger] total_units(after.accounts, s) <= usize::MAX by {
        lemma_market_pass_conserves(before, after, s);
        assert(total_units(before.accounts, s) <= usize::MAX);
    }
    assert forall|a: u128, s: u128| #[trigger]
        position(after.accounts, a, s) > 0 implies after.securities.contains_key(s) by {
        if !before.securities.contains_key(s) {
            assert(column(after.accounts, s) == column(before.accounts, s));
            assert(column(after.accounts, s).contains_key(a));
            assert(position(before.accounts, a, s) == column(before.accounts, s)[a]);
            assert(position(before.accounts, a, s) > 0);
        }
    }
}

/// A matching pass over the market leaves a security with an empty queue as
/// it was: its bids, its asks, its last trade price, and what every account
/// holds of it.
pub proof fn lemma_market_pass_idles(before: MarketView, after: MarketView, sec: u128)
    requires
        before.crossed(after),
        before.securities.contains_key(sec),
        before.securities[sec].bids.len() == 0 || before.securities[sec].asks.len() == 0,
    ensures
        after.securities[sec] == before.securities[sec],
        column(after.accounts, sec) == column(before.accounts, sec),
{
    lemma_idle_pass(before.securities[sec], column(before.accounts, sec));
    assert(after.securities[sec] == before.crossed_book(sec));
    assert(column(after.accounts, sec) == before.crossed_column(sec));
}

/// A matching pass over the market that finds the seller at the head of a
/// book with a unit, and the heads crossing, trades at the bid's price: if no
/// further pair crosses, the last trade price is the price of the bid that
/// left.
pub proof fn lemma_market_pass_trades_at_bid(before: MarketView, after: MarketView, sec: u128)
    requires
        before.crossed(after),
        before.securities.contains_key(sec),
        before.securities[sec].crossable(),
        before.securities[sec].seller_funded(column(before.accounts, sec)),
        !before.securities[sec].without_heads().crossable(),
    ensures
        after.securities[sec].last_trade == before.securities[sec].bids.last().price,
        after.securities[sec].bids == before.securities[sec].bids.drop_last(),
        after.securities[sec].asks == before.securities[sec].asks.drop_last(),
{
    let book = before.securities[sec];
    let col = column(before.accounts, sec);
    let (next, moved) = book.after_match(col);
    assert(next.crossable() == book.without_heads().crossable());
    assert(next.cross(moved) == (next, moved));
    assert(after.securities[sec] == before.crossed_book(sec));
}

/// No operation but the founding of a security changes the units in
/// existence: through any history of refusals, new accounts, orders and
/// matching passes, every security has as many units at each moment as at the
/// start, and the market stays in a state that its operations can reach.
pub proof fn lemma_history_conserves(history: Seq<MarketView>, sec: u128)
    requires
        history.len() > 0,
        history[0].wf(),
        forall|i: int| 0 <= i < history.len() - 1 ==> history[i].moved_to(#[trigger] history[i + 1]),
    ensures
        forall|i: int|
            0 <= i < history.len() ==> (#[trigger] history[i]).wf() && total_units(
                history[i].accounts,
                sec,
            ) == total_units(history[0].accounts, sec),
    decreases history.len(),
{
    if history.len() > 1 {
        let earlier = history.drop_last();
        assert forall|i: int| 0 <= i < earlier.len() - 1 implies earlier[i].moved_to(
            #[trigger] earlier[i + 1],
        ) by {
            assert(history[i].moved_to(history[i + 1]));
        }
        lemma_history_conserves(earlier, sec);
        let before = history[history.len() - 2];
        let after = history[history.len() - 1];
        assert(before == earlier[earlier.len() - 1]);
        assert(before.moved_to(after)) by {
            assert(history[history.len() - 2].moved_to(history[history.len() - 2 + 1]));
        }
        lemma_move_conserves(before, after, sec);
        assert forall|i: int| 0 <= i < history.len() implies (#[trigger] history[i]).wf()
            && total_units(history[i].accounts, sec) == total_units(history[0].accounts, sec) by {
            if i < earlier.len() {
                assert(history[i] == earlier[i]);
            }
        }
    }
}

/// One operation that founds no security keeps the units of every security,
/// and the market in a state that its operations can reach.
pub proof fn lemma_move_conserves(before: MarketView, after: MarketView, sec: u128)
    requires
        before.wf(),
        before.moved_to(after),
    ensures
        after.wf(),
        total_units(after.accounts, sec) == total_units(before.accounts, sec),
{
    if after == before {
    } else if exists|acc: u128|
        !before.accounts.contains_key(acc) && after == #[trigger] before.with_account(acc) {
        let acc = choose|acc: u128|
            !before.accounts.contains_key(acc) && after == #[trigger] before.with_account(acc);
        lemma_account_keeps_wf(before, acc);
    } else if exists|s: u128, bid: Bid|
        before.securities.contains_key(s) && before.accounts.contains_key(bid.account.0) && after
            == #[trigger] before.with_bid(s, bid) {
        let (s, bid) = choose|s: u128, bid: Bid|
            before.securities.contains_key(s) && before.accounts.contains_key(bid.account.0)
                && after == #[trigger] before.with_bid(s, bid);
        lemma_bid_keeps_wf(before, s, bid);
    } else if exists|s: u128, ask: Ask|
        before.securities.contains_key(s) && before.accounts.contains_key(ask.account.0) && after
            == #[trigger] before.with_ask(s, ask) {
        let (s, ask) = choose|s: u128, ask: Ask|
            before.securities.contains_key(s) && before.accounts.contains_key(ask.account.0)
                && after == #[trigger] before.with_ask(s, ask);
        lemma_ask_keeps_wf(before, s, ask);
    } else if exists|s: u128|
        before.securities.contains_key(s) && #[trigger] before.crossed_at(s, after) {
        let s = choose|s: u128|
            before.securities.contains_key(s) && #[trigger] before.crossed_at(s, after);
        lemma_pass_keeps_wf(before, after, s);
        lemma_pass_conserves_units(before, after, s, sec);
    } else {
        lemma_market_pass_keeps_wf(before, after);
        lemma_market_pass_conserves(before, after, sec);
    }
}

/// A number of units and the price of one: a value that is their product.
#[derive(Debug, Clone, Copy)]
pub struct Valuation {
    pub units: usize,
    pub price: Price,
}

/// The market.
#[derive(Debug)]
pub struct Market {
    securities: Listings,
    accounts: Ledger,
}

impl View for Market {
    type V = MarketView;

    closed spec fn view(&self) -> MarketView {
        MarketView { securities: self.securities@, accounts: self.accounts@ }
    }
}

impl Market {
    /// Whether the market is in a state that its operations can reach.
    pub open spec fn wf(&self) -> bool {
        self@.wf()
    }

    /// A market without securities and accounts.
    pub fn new() -> (market: Market)
        ensures
            market@.securities == Map::<u128, SecurityView>::empty(),
            market@.accounts == Map::<u128, Map<u128, usize>>::empty(),
            market.wf(),
    {
        let market = Market { securities: Listings::new(), accounts: Ledger::new() };
        proof {
            assert forall|sec: u128| #[trigger]
                total_units(market@.accounts, sec) <= usize::MAX by {
                assert(column(market@.accounts, sec).dom() =~= Set::<u128>::empty());
            }
        }
        market
    }

    /// The price of the lowest standing bid for `sec_id`, if there is a bid.
    pub fn get_lowest_bid_price(&self, sec_id: SecId) -> (found: Result<
        Option<Price>,
        MarketError,
    >)
        requires
            self.wf(),
        ensures
            !self@.securities.contains_key(sec_id.0) ==> found == Err::<Option<Price>, MarketError>(
                MarketError::SecDoesNotExist(sec_id),
            ),
            self@.securities.contains_key(sec_id.0) ==> found == Ok::<Option<Price>, MarketError>(
                self@.securities[sec_id.0].quote().lowest_bid,
            ),
            found matches Ok(Some(price)) ==> forall|i: int|
                0 <= i < self@.securities[sec_id.0].bids.len() ==> price.rank()
                    <= self@.securities[sec_id.0].bids[i].price.rank(),
    {
        match self.securities.quote(sec_id) {
            Some(shown) => {
                proof {
                    let book = self@.securities[sec_id.0];
                    assert forall|i: int| 0 <= i < book.bids.len() implies book.bids.last()
                        .price.rank() <= book.bids[i].price.rank() by {
                        lemma_lowest_bid(book, i);
                    }
                }
                Ok(shown.lowest_bid)
            },
            None => Err(MarketError::SecDoesNotExist(sec_id)),
        }
    }

    /// The price of the highest standing ask for `sec_id`, if there is an ask.
    pub fn get_highest_ask_price(&self, sec_id: SecId) -> (found: Result<
        Option<Price>,
        MarketError,
    >)
        requires
            self.wf(),
        ensures
            !self@.securities.contains_key(sec_id.0) ==> found == Err::<Option<Price>, MarketError>(
                MarketError::SecDoesNotExist(sec_id),
            ),
            self@.securities.contains_key(sec_id.0) ==> found == Ok::<Option<Price>, MarketError>(
                self@.securities[sec_id.0].quote().highest_ask,
            ),
            found matches Ok(Some(price)) ==> forall|i: int|
                0 <= i < self@.securities[sec_id.0].asks.len() ==> price.rank()
                    >= self@.securities[sec_id.0].asks[i].price.rank(),
    {
        match self.securities.quote(sec_id) {
            Some(shown) => {
                proof {
                    let book = self@.securities[sec_id.0];
                    assert forall|i: int| 0 <= i < book.asks.len() implies book.asks.last()
                        .price.rank() >= book.asks[i].price.rank() by {
                        lemma_highest_ask(book, i);
                    }
                }
                Ok(shown.highest_ask)
            },
            None => Err(MarketError::SecDoesNotExist(sec_id)),
        }
    }

    /// The price of the last trade in `sec_id`.
    pub fn current_value(&self, sec_id: SecId) -> (found: Result<Price, MarketError>)
        ensures
            !self@.securities.contains_key(sec_id.0) ==> found == Err::<Price, MarketError>(
                MarketError::SecDoesNotExist(sec_id),
            ),
            self@.securities.contains_key(sec_id.0) ==> found == Ok::<Price, MarketError>(
                self@.securities[sec_id.0].last_trade,
            ),
    {
        match self.securities.quote(sec_id) {
            Some(shown) => Ok(shown.last_trade),
            None => Err(MarketError::SecDoesNotExist(sec_id)),
        }
    }

    /// The value of all units of `sec_id`: their number, over all accounts,
    /// and the price of the last trade.
    pub fn market_cap(&self, sec_id: SecId) -> (found: Result<Valuation, MarketError>)
        requires
            self.wf(),
        ensures
            !self@.securities.contains_key(sec_id.0) ==> found == Err::<Valuation, MarketError>(
                MarketError::SecDoesNotExist(sec_id),
            ),
            self@.securities.contains_key(sec_id.0) ==> found == Ok::<Valuation, MarketError>(
                Valuation {
                    units: total_units(self@.accounts, sec_id.0) as usize,
                    price: self@.securities[sec_id.0].last_trade,
                },
            ),
    {
        match self.securities.quote(sec_id) {
            Some(shown) => {
                let units = self.accounts.total(sec_id);
                Ok(Valuation { units: units as usize, price: shown.last_trade })
            },
            None => Err(MarketError::SecDoesNotExist(sec_id)),
        }
    }

    /// The value of what `acc_id` holds of `sec_id`: the units held and the
    /// price of the last trade.
    pub fn account_value(&self, acc_id: AccId, sec_id: SecId) -> (found: Result<
        Valuation,
        MarketError,
    >)
        ensures
            found == match self@.holding_refusal(acc_id, sec_id) {
                Some(error) => Err::<Valuation, MarketError>(error),
                None => Ok::<Valuation, MarketError>(
                    Valuation {
                        units: position(self@.accounts, acc_id.0, sec_id.0) as usize,
                        price: self@.securities[sec_id.0].last_trade,
                    },
                ),
            },
    {
        match self.accounts.units(acc_id, sec_id) {
            Some(units) => match self.securities.quote(sec_id) {
                Some(shown) => Ok(Valuation { units, price: shown.last_trade }),
                None => Err(MarketError::SecDoesNotExist(sec_id)),
            },
            None => Err(MarketError::AccDoesNotExist(acc_id)),
        }
    }

    /// The units that `acc_id` holds of `sec_id`.
    pub fn account_num_shares(&self, acc_id: AccId, sec_id: SecId) -> (found: Result<
        usize,
        MarketError,
    >)
        ensures
            found == match self@.holding_refusal(acc_id, sec_id) {
                Some(error) => Err::<usize, MarketError>(error),
                None => Ok::<usize, MarketError>(
                    position(self@.accounts, acc_id.0, sec_id.0) as usize,
                ),
            },
    {
        match self.accounts.units(acc_id, sec_id) {
            Some(units) => if self.securities.is_listed(sec_id) {
                Ok(units)
            } else {
                Err(MarketError::SecDoesNotExist(sec_id))
            },
            None => Err(MarketError::AccDoesNotExist(acc_id)),
        }
    }

    /// Opens an account under the identifier `hint`, or, where `hint` is
    /// taken, under the lowest free identifier. The account holds nothing.
    pub fn open_account(&mut self, hint: AccId) -> (acc: AccId)
        requires
            old(self).wf(),
        ensures
            !old(self)@.accounts.contains_key(acc.0),
            !old(self)@.accounts.contains_key(hint.0) ==> acc == hint,
            old(self)@.accounts.contains_key(hint.0) ==> forall|id: u128|
                id < acc.0 ==> old(self)@.accounts.contains_key(id),
            final(self)@ == old(self)@.with_account(acc.0),
            old(self)@.moved_to(final(self)@),
            forall|sec: u128|
                total_units(final(self)@.accounts, sec) == total_units(old(self)@.accounts, sec),
            final(self).wf(),
    {
        let acc = self.accounts.vacant(hint);
        self.accounts.put(acc, Holdings::new());
        proof {
            lemma_account_keeps_wf(old(self)@, acc.0);
        }
        acc
    }

    /// Opens an account under a new random identifier. The account holds
    /// nothing.
    pub fn create_account(&mut self) -> (acc: AccId)
        requires
            old(self).wf(),
        ensures
            !old(self)@.accounts.contains_key(acc.0),
            final(self)@ == old(self)@.with_account(acc.0),
            old(self)@.moved_to(final(self)@),
            forall|sec: u128|
                total_units(final(self)@.accounts, sec) == total_units(old(self)@.accounts, sec),
            final(self).wf(),
    {
        self.open_account(AccId(random_id()))
    }

    /// Places a bid of `acc` for one unit of `sec` at the price whose bits
    /// are `price`. The bid waits in the book for the next matching pass.
    pub fn place_bid(&mut self, acc: AccId, sec: SecId, price: u64) -> (placed: Result<
        (),
        MarketError,
    >)
        requires
            old(self).wf(),
        ensures
            placed == match old(self)@.order_refusal(acc, sec, price) {
                Some(error) => Err::<(), MarketError>(error),
                None => Ok::<(), MarketError>(()),
            },
            placed is Err ==> final(self)@ == old(self)@,
            placed is Ok ==> final(self)@ == old(self)@.with_bid(
                sec.0,
                Bid { price: Price::with_bits(price), account: acc },
            ),
            final(self)@.accounts == old(self)@.accounts,
            old(self)@.moved_to(final(self)@),
            final(self).wf(),
    {
        if !self.accounts.has_account(acc) {
            return Err(MarketError::AccDoesNotExist(acc));
        }
        if !self.securities.is_listed(sec) {
            return Err(MarketError::SecDoesNotExist(sec));
        }
        let bid = match Bid::new(acc, price) {
            Ok(bid) => bid,
            Err(e) => {
                return Err(e);
            },
        };
        let mut book = self.securities.take(sec).unwrap();
        book.push_bid(bid);
        self.securities.put(sec, book);
        proof {
            assert(self@.securities =~= old(self)@.with_bid(sec.0, bid).securities);
            lemma_bid_keeps_wf(old(self)@, sec.0, bid);
        }
        Ok(())
    }

    /// Places an ask of `acc` for one unit of `sec` at the price whose bits
    /// are `price`. The ask waits in the book for the next matching pass.
    pub fn place_ask(&mut self, acc: AccId, sec: SecId, price: u64) -> (placed: Result<
        (),
        MarketError,
    >)
        requires
            old(self).wf(),
        ensures
            placed == match old(self)@.order_refusal(acc, sec, price) {
                Some(error) => Err::<(), MarketError>(error),
                None => Ok::<(), MarketError>(()),
            },
            placed is Err ==> final(self)@ == old(self)@,
            placed is Ok ==> final(self)@ == old(self)@.with_ask(
                sec.0,
                Ask { price: Price::with_bits(price), account: acc },
            ),
            final(self)@.accounts == old(self)@.accounts,
            old(self)@.moved_to(final(self)@),
            final(self).wf(),
    {
        if !self.accounts.has_account(acc) {
            return Err(MarketError::AccDoesNotExist(acc));
        }
        if !self.securities.is_listed(sec) {
            return Err(MarketError::SecDoesNotExist(sec));
        }
        let ask = match Ask::new(acc, price) {
            Ok(ask) => ask,
            Err(e) => {
                return Err(e);
            },
        };
        let mut book = self.securities.take(sec).unwrap();
        book.push_ask(ask);
        self.securities.put(sec, book);
        proof {
            assert(self@.securities =~= old(self)@.with_ask(sec.0, ask).securities);
            lemma_ask_keeps_wf(old(self)@, sec.0, ask);
        }
        Ok(())
    }

    /// Founds a security of `founding_shares` units under the identifier
    /// `sec_hint` and opens the account of its owner under `owner_hint`;
    /// where a hint is taken, the lowest free identifier stands in for it.
    /// The owner holds every unit and asks the founding price, whose bits are
    /// `founding_price`, for each of them, one order per unit.
    pub fn found_security(
        &mut self,
        sec_hint: SecId,
        owner_hint: AccId,
        founding_shares: usize,
        founding_price: u64,
    ) -> (ids: (SecId, AccId))
        requires
            old(self).wf(),
            is_finite_bits(founding_price),
        ensures
            !old(self)@.securities.contains_key(ids.0.0),
            !old(self)@.securities.contains_key(sec_hint.0) ==> ids.0 == sec_hint,
            old(self)@.securities.contains_key(sec_hint.0) ==> forall|id: u128|
                id < ids.0.0 ==> old(self)@.securities.contains_key(id),
            !old(self)@.accounts.contains_key(ids.1.0),
            !old(self)@.accounts.contains_key(owner_hint.0) ==> ids.1 == owner_hint,
            old(self)@.accounts.contains_key(owner_hint.0) ==> forall|id: u128|
                id < ids.1.0 ==> old(self)@.accounts.contains_key(id),
            final(self)@ == old(self)@.with_security(
                ids.0.0,
                ids.1.0,
                founding_shares,
                Price::with_bits(founding_price),
            ),
            total_units(final(self)@.accounts, ids.0.0) == founding_shares,
            forall|other: u128|
                other != ids.0.0 ==> total_units(final(self)@.accounts, other) == total_units(
                    old(self)@.accounts,
                    other,
                ),
            final(self).wf(),
    {
        let sec = self.securities.vacant(sec_hint);
        let owner = self.accounts.vacant(owner_hint);
        let price = Price::from_bits(founding_price).unwrap();
        let mut record = Holdings::new();
        record.set(sec, founding_shares);
        self.accounts.put(owner, record);
        self.securities.put(sec, Security::founded(owner, founding_shares, price));
        proof {
            lemma_security_keeps_wf(old(self)@, sec.0, owner.0, founding_shares, price);
        }
        (sec, owner)
    }

    /// Founds a security of `founding_shares` units under a new random
    /// identifier, with a new account for its owner. The owner holds every
    /// unit and asks the founding price, whose bits are `founding_price`, for
    /// each of them, one order per unit.
    pub fn create_security(&mut self, founding_shares: usize, founding_price: u64) -> (ids: (
        SecId,
        AccId,
    ))
        requires
            old(self).wf(),
            is_finite_bits(founding_price),
        ensures
            !old(self)@.securities.contains_key(ids.0.0),
            !old(self)@.accounts.contains_key(ids.1.0),
            final(self)@ == old(self)@.with_security(
                ids.0.0,
                ids.1.0,
                founding_shares,
                Price::with_bits(founding_price),
            ),
            total_units(final(self)@.accounts, ids.0.0) == founding_shares,
            forall|other: u128|
                other != ids.0.0 ==> total_units(final(self)@.accounts, other) == total_units(
                    old(self)@.accounts,
                    other,
                ),
            final(self).wf(),
    {
        self.found_security(
            SecId(random_id()),
            AccId(random_id()),
            founding_shares,
            founding_price,
        )
    }

    /// Runs a matching pass over the book of `sec`.
    fn cross_listed(&mut self, sec: SecId)
        requires
            old(self).wf(),
            old(self)@.securities.contains_key(sec.0),
        ensures
            old(self)@.crossed_at(sec.0, final(self)@),
            final(self).wf(),
    {
        let mut book = self.securities.take(sec).unwrap();
        proof {
            assert(column(self.accounts@, sec.0).dom() =~= self.accounts@.dom());
            assert(total_units(old(self)@.accounts, sec.0) <= usize::MAX);
        }
        run_pass(&mut book, sec, &mut self.accounts);
        self.securities.put(sec, book);
        proof {
            let start = old(self)@;
            assert(self@.securities =~= start.securities.insert(sec.0, start.crossed_book(sec.0)));
            lemma_pass_keeps_wf(start, self@, sec.0);
        }
    }

    /// Runs one matching pass over the book of `sec` alone.
    pub fn run_security_loop(&mut self, sec: SecId) -> (run: Result<(), MarketError>)
        requires
            old(self).wf(),
        ensures
            run == if old(self)@.securities.contains_key(sec.0) {
                Ok::<(), MarketError>(())
            } else {
                Err::<(), MarketError>(MarketError::SecDoesNotExist(sec))
            },
            run is Ok ==> old(self)@.crossed_at(sec.0, final(self)@),
            run is Err ==> final(self)@ == old(self)@,
            old(self)@.moved_to(final(self)@),
            forall|any: u128|
                total_units(final(self)@.accounts, any) == total_units(old(self)@.accounts, any),
            final(self).wf(),
    {
        if !self.securities.is_listed(sec) {
            return Err(MarketError::SecDoesNotExist(sec));
        }
        self.cross_listed(sec);
        proof {
            assert forall|any: u128|
                total_units(self@.accounts, any) == total_units(old(self)@.accounts, any) by {
                lemma_pass_conserves_units(old(self)@, self@, sec.0, any);
            }
        }
        Ok(())
    }

    /// Runs one matching pass over every listed security. In each book, the
    /// lowest bid and the highest ask leave together for as long as the bid
    /// reaches the ask: as a trade at the bid's price where the seller holds a
    /// unit, without a trace where not.
    pub fn run_market_loop(&mut self)
        requires
            old(self).wf(),
        ensures
            old(self)@.crossed(final(self)@),
            old(self)@.moved_to(final(self)@),
            forall|sec: u128|
                total_units(final(self)@.accounts, sec) == total_units(old(self)@.accounts, sec),
            final(self).wf(),
    {
        let ghost start = self@;
        let ids = self.securities.ids();
        let mut at: usize = 0;
        assert(named(ids@.take(0)) =~= Set::<u128>::empty());
        while at < ids.len()
            invariant
                at <= ids@.len(),
                start == old(self)@,
                self.wf(),
                ids@.no_duplicates(),
                forall|sec: SecId| ids@.contains(sec) <==> start.securities.contains_key(sec.0),
                start.crossed_among(named(ids@.take(at as int)), self@),
            decreases ids@.len() - at,
        {
            let sec = ids[at];
            let ghost middle = self@;
            assert(ids@.contains(sec));
            self.cross_listed(sec);
            proof {
                let done = ids@.take(at as int);
                assert(!named(done).contains(sec.0)) by {
                    if done.contains(sec) {
                        let i = choose|i: int| 0 <= i < done.len() && done[i] == sec;
                        assert(ids@[i] == ids@[at as int]);
                    }
                }
                lemma_pass_extends(start, named(done), middle, sec.0, self@);
                assert(ids@.take(at + 1) =~= done.push(sec));
                assert(named(done.push(sec)) =~= named(done).insert(sec.0)) by {
                    let all = named(done).insert(sec.0);
                    assert forall|s: u128| named(done.push(sec)).contains(s) <==> all.contains(
                        s,
                    ) by {
                        if done.push(sec).contains(SecId(s)) {
                            let i = choose|i: int|
                                0 <= i < done.push(sec).len() && done.push(sec)[i] == SecId(s);
                            if i < done.len() {
                                assert(done[i] == SecId(s));
                            }
                        }
                        if done.contains(SecId(s)) {
                            let i = choose|i: int| 0 <= i < done.len() && done[i] == SecId(s);
                            assert(done.push(sec)[i] == SecId(s));
                        }
                        if s == sec.0 {
                            assert(done.push(sec)[done.len() as int] == sec);
                        }
                    }
                }
            }
            at += 1;
        }
        proof {
            assert(ids@.take(at as int) =~= ids@);
            assert(named(ids@) =~= start.securities.dom());
            assert forall|sec: u128| total_units(self@.accounts, sec) == total_units(
                start.accounts,
                sec,
            ) by {
                lemma_market_pass_conserves(start, self@, sec);
            }
        }
    }

    /// Every listed security once, in no particular order.
    pub fn list_securities(&self) -> (ids: Vec<SecId>)
        ensures
            ids@.no_duplicates(),
            forall|sec: SecId| ids@.contains(sec) <==> self@.securities.contains_key(sec.0),
    {
        self.securities.ids()
    }
}

} // verus!
