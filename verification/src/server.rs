//! The service in front of the market: requests arrive with identifiers as
//! text, answers leave with identifiers as text, and every refusal carries a
//! kind and a message.

use vstd::prelude::*;
use vstd::string::*;
use crate::bidask::{Ask, Bid};
use crate::error::{MarketError, StatusKind};
use crate::ident::{uuid_read, uuid_text, AccId, SecId};
use crate::ledger::total_units;
use crate::market::{Market, MarketView, Valuation};
use crate::price::{finite, is_finite_bits, Price};

verus! {

/// A refusal: how the caller is to take it, and why in words.
#[derive(Debug, PartialEq, Eq)]
pub struct Rejection {
    pub kind: StatusKind,
    pub message: String,
}

impl Rejection {
    /// Whether the refusal is of `kind` and says `message`.
    pub open spec fn is(self, kind: StatusKind, message: Seq<char>) -> bool {
        self.kind == kind && self.message@ == message
    }

    /// Whether the refusal is the one that `error` calls for.
    pub open spec fn is_for(self, error: MarketError) -> bool {
        self.is(error.spec_status(), error.spec_message())
    }

    /// The refusal of a request whose identifier, called `what`, was not
    /// sent or could not be read.
    pub fn unread(sent: Option<&str>, what: &str) -> (rejection: Rejection)
        ensures
            rejection.is(StatusKind::DataLoss, unread_message(sent, what@)),
    {
        let message = match sent {
            Some(text) => {
                let mut message = String::from_str("Invalid ");
                message.append(what);
                message.append(" ID sent: ");
                message.append(text);
                message
            },
            None => {
                let mut message = String::from_str("No ");
                message.append(what);
                message.append(" ID sent");
                message
            },
        };
        Rejection { kind: StatusKind::DataLoss, message }
    }

    /// The refusal that `error` calls for.
    pub fn of(error: MarketError) -> (rejection: Rejection)
        ensures
            rejection.is_for(error),
    {
        Rejection { kind: error.status(), message: error.message() }
    }
}

/// The identifier that the text sent stands for, if text was sent and it
/// stands for one.
pub open spec fn sent_id(sent: Option<&str>) -> Option<u128> {
    match sent {
        Some(text) => uuid_read(text@),
        None => None,
    }
}

/// What to say of an identifier, called `what`, that was not sent or could
/// not be read.
pub open spec fn unread_message(sent: Option<&str>, what: Seq<char>) -> Seq<char> {
    match sent {
        Some(text) => "Invalid "@ + what + " ID sent: "@ + text@,
        None => "No "@ + what + " ID sent"@,
    }
}

/// Reads the identifier, called `what`, that a request sent.
fn read_sent(sent: Option<&str>, what: &str) -> (id: Result<u128, Rejection>)
    ensures
        sent_id(sent) is Some ==> id is Ok && id->Ok_0 == sent_id(sent)->Some_0,
        sent_id(sent) is None ==> id is Err && id->Err_0.is(
            StatusKind::DataLoss,
            unread_message(sent, what@),
        ),
{
    match sent {
        Some(text) => match SecId::parse(text) {
            Ok(id) => Ok(id.0),
            Err(_) => Err(Rejection::unread(sent, what)),
        },
        None => Err(Rejection::unread(sent, what)),
    }
}

/// Reads the security that a request sent.
fn read_sec(sent: Option<&str>) -> (id: Result<SecId, Rejection>)
    ensures
        sent_id(sent) is Some ==> id is Ok && id->Ok_0 == SecId(sent_id(sent)->Some_0),
        sent_id(sent) is None ==> id is Err && id->Err_0.is(
            StatusKind::DataLoss,
            unread_message(sent, "security"@),
        ),
{
    match read_sent(sent, "security") {
        Ok(id) => Ok(SecId(id)),
        Err(rejection) => Err(rejection),
    }
}

/// Reads the account that a request sent.
fn read_acc(sent: Option<&str>) -> (id: Result<AccId, Rejection>)
    ensures
        sent_id(sent) is Some ==> id is Ok && id->Ok_0 == AccId(sent_id(sent)->Some_0),
        sent_id(sent) is None ==> id is Err && id->Err_0.is(
            StatusKind::DataLoss,
            unread_message(sent, "account"@),
        ),
{
    match read_sent(sent, "account") {
        Ok(id) => Ok(AccId(id)),
        Err(rejection) => Err(rejection),
    }
}

/// The last trade price of a security, as the price feed reports it.
#[derive(Debug)]
pub struct SecValue {
    pub sec: String,
    pub value: Price,
}

/// What happened to a subscription to the price feed.
#[derive(Debug, Clone, Copy, PartialEq, Eq, Structural)]
pub enum StreamEvent {
    /// A matching pass has ended.
    PassCompleted,
    /// The subscriber took the last report.
    Delivered,
    /// The last report could not be handed to the subscriber.
    Undelivered,
}

/// What a subscription to the price feed is to do next.
#[derive(Debug)]
pub enum StreamAction {
    /// Wait for the next matching pass.
    Wait,
    /// Hand the report to the subscriber.
    Send(SecValue),
    /// End the subscription.
    Close,
    /// End the subscription with a refusal.
    Fail(Rejection),
}

/// The service.
#[derive(Debug)]
pub struct MyGreeter {
    market: Market,
}

impl MyGreeter {
    /// The state of the market behind the service.
    pub closed spec fn market(&self) -> MarketView {
        self.market@
    }

    /// Whether the market behind the service is in a state that its
    /// operations can reach.
    pub open spec fn wf(&self) -> bool {
        self.market().wf()
    }

    /// A service in front of `market`.
    pub fn new(market: Market) -> (service: MyGreeter)
        ensures
            service.market() == market@,
    {
        MyGreeter { market }
    }

    /// The text of every listed security, each once, in no particular order.
    pub fn list_securities(&self) -> (texts: Vec<String>)
        ensures
            forall|i: int|
                0 <= i < texts@.len() ==> uuid_read(#[trigger] texts@[i]@) is Some
                    && self.market().securities.contains_key(uuid_read(texts@[i]@)->Some_0)
                    && texts@[i]@ == uuid_text(uuid_read(texts@[i]@)->Some_0),
            forall|i: int, j: int|
                0 <= i < j < texts@.len() ==> uuid_read(texts@[i]@) != uuid_read(texts@[j]@),
            forall|sec: u128|
                self.market().securities.contains_key(sec) ==> exists|i: int|
                    0 <= i < texts@.len() && #[trigger] texts@[i]@ == uuid_text(sec),
    {
        let ids = self.market.list_securities();
        let mut texts: Vec<String> = Vec::new();
        let mut at: usize = 0;
        while at < ids.len()
            invariant
                at <= ids@.len(),
                texts@.len() == at,
                forall|i: int|
                    0 <= i < at ==> #[trigger] texts@[i]@ == uuid_text(ids@[i].0) && uuid_read(
                        texts@[i]@,
                    ) == Some(ids@[i].0),
            decreases ids@.len() - at,
        {
            texts.push(ids[at].to_text());
            at += 1;
        }
        proof {
            assert forall|i: int| 0 <= i < texts@.len() implies uuid_read(#[trigger] texts@[i]@)
                is Some && self.market().securities.contains_key(uuid_read(texts@[i]@)->Some_0)
                && texts@[i]@ == uuid_text(uuid_read(texts@[i]@)->Some_0) by {
                assert(ids@.contains(ids@[i]));
            }
            assert forall|sec: u128| self.market().securities.contains_key(sec) implies exists|
                i: int,
            |
                0 <= i < texts@.len() && #[trigger] texts@[i]@ == uuid_text(sec) by {
                assert(ids@.contains(SecId(sec)));
                let i = choose|i: int| 0 <= i < ids@.len() && ids@[i] == SecId(sec);
                assert(texts@[i]@ == uuid_text(sec));
            }
        }
        texts
    }

    /// Opens an account and answers with its identifier as text.
    pub fn create_account(&mut self) -> (text: String)
        requires
            old(self).wf(),
        ensures
            uuid_read(text@) is Some,
            text@ == uuid_text(uuid_read(text@)->Some_0),
            !old(self).market().accounts.contains_key(uuid_read(text@)->Some_0),
            final(self).market() == old(self).market().with_account(uuid_read(text@)->Some_0),
            final(self).wf(),
    {
        self.market.create_account().to_text()
    }

    /// Founds a security and answers with its identifier and that of its
    /// owner's account, both as text. A founding price that is no finite
    /// number is refused.
    pub fn create_security(&mut self, founding_shares: usize, founding_price: u64) -> (made: Result<
        (String, String),
        Rejection,
    >)
        requires
            old(self).wf(),
        ensures
            !is_finite_bits(founding_price) ==> made is Err && made->Err_0.is_for(
                MarketError::InvalidPrice,
            ) && final(self).market() == old(self).market(),
            is_finite_bits(founding_price) ==> made is Ok && ({
                let sec = uuid_read(made->Ok_0.0@);
                let owner = uuid_read(made->Ok_0.1@);
                &&& sec is Some
                &&& owner is Some
                &&& made->Ok_0.0@ == uuid_text(sec->Some_0)
                &&& made->Ok_0.1@ == uuid_text(owner->Some_0)
                &&& !old(self).market().securities.contains_key(sec->Some_0)
                &&& !old(self).market().accounts.contains_key(owner->Some_0)
                &&& final(self).market() == old(self).market().with_security(
                    sec->Some_0,
                    owner->Some_0,
                    founding_shares,
                    Price::with_bits(founding_price),
                )
            }),
            final(self).wf(),
    {
        if !finite(founding_price) {
            return Err(Rejection::of(MarketError::InvalidPrice));
        }
        let (sec, owner) = self.market.create_security(founding_shares, founding_price);
        Ok((sec.to_text(), owner.to_text()))
    }

    /// Opens a subscription to the price of the security sent: answers with
    /// the security to watch.
    pub fn register_sec_value(&self, sec: Option<&str>) -> (watched: Result<SecId, Rejection>)
        ensures
            sent_id(sec) is Some ==> watched is Ok && watched->Ok_0 == SecId(sent_id(sec)->Some_0),
            sent_id(sec) is None ==> watched is Err && watched->Err_0.is(
                StatusKind::DataLoss,
                unread_message(sec, "security"@),
            ),
    {
        read_sec(sec)
    }

    /// What a subscription to the price of `sec` does after `event`: after a
    /// matching pass it reports the last trade price, or fails where the
    /// security is not listed; after a delivery it waits; after a failed
    /// delivery it ends.
    pub fn sec_value_step(&self, sec: SecId, event: StreamEvent) -> (action: StreamAction)
        ensures
            event == StreamEvent::Delivered ==> action is Wait,
            event == StreamEvent::Undelivered ==> action is Close,
            event == StreamEvent::PassCompleted && self.market().securities.contains_key(sec.0)
                ==> action is Send && action->Send_0.sec@ == uuid_text(sec.0)
                && action->Send_0.value == self.market().securities[sec.0].last_trade,
            event == StreamEvent::PassCompleted && !self.market().securities.contains_key(sec.0)
                ==> action is Fail && action->Fail_0.is_for(MarketError::SecDoesNotExist(sec)),
    {
        match event {
            StreamEvent::PassCompleted => match self.market.current_value(sec) {
                Ok(value) => StreamAction::Send(SecValue { sec: sec.to_text(), value }),
                Err(error) => StreamAction::Fail(Rejection::of(error)),
            },
            StreamEvent::Delivered => StreamAction::Wait,
            StreamEvent::Undelivered => StreamAction::Close,
        }
    }

    /// The price of the lowest standing bid for the security sent.
    pub fn get_lowest_bid(&self, sec: Option<&str>) -> (found: Result<Option<Price>, Rejection>)
        requires
            self.wf(),
        ensures
            sent_id(sec) is None ==> found is Err && found->Err_0.is(
                StatusKind::DataLoss,
                unread_message(sec, "security"@),
            ),
            sent_id(sec) is Some && !self.market().securities.contains_key(sent_id(sec)->Some_0)
                ==> found is Err && found->Err_0.is_for(
                MarketError::SecDoesNotExist(SecId(sent_id(sec)->Some_0)),
            ),
            sent_id(sec) is Some && self.market().securities.contains_key(sent_id(sec)->Some_0)
                ==> found is Ok && found->Ok_0 == self.market().securities[sent_id(
                sec,
            )->Some_0].quote().lowest_bid,
    {
        let sec = match read_sec(sec) {
            Ok(sec) => sec,
            Err(rejection) => {
                return Err(rejection);
            },
        };
        match self.market.get_lowest_bid_price(sec) {
            Ok(price) => Ok(price),
            Err(error) => Err(Rejection::of(error)),
        }
    }

    /// The price of the highest standing ask for the security sent.
    pub fn get_highest_ask(&self, sec: Option<&str>) -> (found: Result<Option<Price>, Rejection>)
        requires
            self.wf(),
        ensures
            sent_id(sec) is None ==> found is Err && found->Err_0.is(
                StatusKind::DataLoss,
                unread_message(sec, "security"@),
            ),
            sent_id(sec) is Some && !self.market().securities.contains_key(sent_id(sec)->Some_0)
                ==> found is Err && found->Err_0.is_for(
                MarketError::SecDoesNotExist(SecId(sent_id(sec)->Some_0)),
            ),
            sent_id(sec) is Some && self.market().securities.contains_key(sent_id(sec)->Some_0)
                ==> found is Ok && found->Ok_0 == self.market().securities[sent_id(
                sec,
            )->Some_0].quote().highest_ask,
    {
        let sec = match read_sec(sec) {
            Ok(sec) => sec,
            Err(rejection) => {
                return Err(rejection);
            },
        };
        match self.market.get_highest_ask_price(sec) {
            Ok(price) => Ok(price),
            Err(error) => Err(Rejection::of(error)),
        }
    }

    /// The value of all units of the security sent: their number and the
    /// price of the last trade.
    pub fn get_market_cap(&self, sec: Option<&str>) -> (found: Result<Valuation, Rejection>)
        requires
            self.wf(),
        ensures
            sent_id(sec) is None ==> found is Err && found->Err_0.is(
                StatusKind::DataLoss,
                unread_message(sec, "security"@),
            ),
            sent_id(sec) is Some && !self.market().securities.contains_key(sent_id(sec)->Some_0)
                ==> found is Err && found->Err_0.is_for(
                MarketError::SecDoesNotExist(SecId(sent_id(sec)->Some_0)),
            ),
            sent_id(sec) is Some && self.market().securities.contains_key(sent_id(sec)->Some_0)
                ==> found is Ok && found->Ok_0 == (Valuation {
                units: total_units(self.market().accounts, sent_id(sec)->Some_0) as usize,
                price: self.market().securities[sent_id(sec)->Some_0].last_trade,
            }),
    {
        let sec = match read_sec(sec) {
            Ok(sec) => sec,
            Err(rejection) => {
                return Err(rejection);
            },
        };
        match self.market.market_cap(sec) {
            Ok(value) => Ok(value),
            Err(error) => Err(Rejection::of(error)),
        }
    }

    /// Places an ask of the account sent for one unit of the security sent,
    /// and answers with the price.
    pub fn place_ask(
        &mut self,
        sec: Option<&str>,
        acc: Option<&str>,
        price: u64,
    ) -> (placed: Result<u64, Rejection>)
        requires
            old(self).wf(),
        ensures
            sent_id(sec) is None ==> placed is Err && placed->Err_0.is(
                StatusKind::DataLoss,
                unread_message(sec, "security"@),
            ),
            sent_id(sec) is Some && sent_id(acc) is None ==> placed is Err && placed->Err_0.is(
                StatusKind::DataLoss,
                unread_message(acc, "account"@),
            ),
            sent_id(sec) is Some && sent_id(acc) is Some ==> ({
                let sec = SecId(sent_id(sec)->Some_0);
                let acc = AccId(sent_id(acc)->Some_0);
                match old(self).market().order_refusal(acc, sec, price) {
                    Some(error) => placed is Err && placed->Err_0.is_for(error),
                    None => placed is Ok && placed->Ok_0 == price && final(self).market() == old(
                        self,
                    ).market().with_ask(
                        sec.0,
                        Ask { price: Price::with_bits(price), account: acc },
                    ),
                }
            }),
            placed is Err ==> final(self).market() == old(self).market(),
            final(self).wf(),
    {
        let sec = match read_sec(sec) {
            Ok(sec) => sec,
            Err(rejection) => {
                return Err(rejection);
            },
        };
        let acc = match read_acc(acc) {
            Ok(acc) => acc,
            Err(rejection) => {
                return Err(rejection);
            },
        };
        match self.market.place_ask(acc, sec, price) {
            Ok(()) => Ok(price),
            Err(error) => Err(Rejection::of(error)),
        }
    }

    /// Places a bid of the account sent for one unit of the security sent,
    /// and answers with the price.
    pub fn place_bid(
        &mut self,
        sec: Option<&str>,
        acc: Option<&str>,
        price: u64,
    ) -> (placed: Result<u64, Rejection>)
        requires
            old(self).wf(),
        ensures
            sent_id(sec) is None ==> placed is Err && placed->Err_0.is(
                StatusKind::DataLoss,
                unread_message(sec, "security"@),
            ),
            sent_id(sec) is Some && sent_id(acc) is None ==> placed is Err && placed->Err_0.is(
                StatusKind::DataLoss,
                unread_message(acc, "account"@),
            ),
            sent_id(sec) is Some && sent_id(acc) is Some ==> ({
                let sec = SecId(sent_id(sec)->Some_0);
                let acc = AccId(sent_id(acc)->Some_0);
                match old(self).market().order_refusal(acc, sec, price) {
                    Some(error) => placed is Err && placed->Err_0.is_for(error),
                    None => placed is Ok && placed->Ok_0 == price && final(self).market() == old(
                        self,
                    ).market().with_bid(
                        sec.0,
                        Bid { price: Price::with_bits(price), account: acc },
                    ),
                }
            }),
            placed is Err ==> final(self).market() == old(self).market(),
            final(self).wf(),
    {
        let sec = match read_sec(sec) {
            Ok(sec) => sec,
            Err(rejection) => {
                return Err(rejection);
            },
        };
        let acc = match read_acc(acc) {
            Ok(acc) => acc,
            Err(rejection) => {
                return Err(rejection);
            },
        };
        match self.market.place_bid(acc, sec, price) {
            Ok(()) => Ok(price),
            Err(error) => Err(Rejection::of(error)),
        }
    }

    /// Runs one matching pass over the market behind the service.
    pub fn run_market_loop(&mut self)
        requires
            old(self).wf(),
        ensures
            old(self).market().crossed(final(self).market()),
            forall|sec: u128|
                total_units(final(self).market().accounts, sec) == total_units(
                    old(self).market().accounts,
                    sec,
                ),
            final(self).wf(),
    {
        self.market.run_market_loop();
    }
}

} // verus!
