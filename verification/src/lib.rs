//! An in-memory matching engine for a small securities exchange.
//!
//! The crate keeps accounts, securities and their standing one-unit orders,
//! and crosses bids against asks one pass at a time. Every operation carries a
//! contract over a mathematical view of the market: an order queue is a
//! sequence, the holdings ledger is a map, and a matching pass is a recursive
//! function on both.
//!
//! * [`price`] and [`bidask`] hold prices and orders. A price is kept as the
//!   bits of the floating-point number it came from and is only ever compared.
//! * [`queue`] is the priority queue of a book; [`book`] is the book of one
//!   security and says what a matching pass does to it.
//! * [`holdings`] and [`ledger`] record what each account holds, and prove
//!   that moving a unit makes and destroys none.
//! * [`engine`] runs a matching pass over one book against the ledger.
//! * [`market`] puts books and ledger together behind the operations that
//!   callers use; [`server`] is the same with identifiers as text.
//! * [`store`] and part of [`ident`] are where the crate leans on `dashmap`
//!   and `uuid`: what they are taken to do is stated there and not proved.
//!
//! A [`Market`] is changed through `&mut`. Whoever shares one between threads
//! puts it behind a lock of their own; the contracts then hold of each
//! operation from the moment the lock is taken to the moment it is given up.

pub mod bidask;
pub mod book;
pub mod engine;
pub mod error;
pub mod holdings;
pub mod ident;
pub mod ledger;
pub mod listings;
pub mod market;
pub mod price;
pub mod queue;
pub mod server;
pub mod store;

pub use bidask::{Ask, Bid};
pub use book::{Quote, Security, SecurityView};
pub use error::{MarketError, StatusKind};
pub use holdings::Holdings;
pub use ident::{AccId, SecId};
pub use ledger::Ledger;
pub use listings::Listings;
pub use market::{Market, MarketView, Valuation};
pub use price::Price;
pub use server::{MyGreeter, Rejection, SecValue, StreamAction, StreamEvent};
