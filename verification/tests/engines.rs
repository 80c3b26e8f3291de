use stok::engine::{run_pass, settle};
use stok::{AccId, Ask, Bid, Holdings, Ledger, Price, SecId, Security};

const SEC: SecId = SecId(70);
const OTHER: SecId = SecId(71);

fn price(number: f64) -> Price {
    Price::from_bits(number.to_bits()).unwrap()
}

fn bid(acc: u128, number: f64) -> Bid {
    Bid::new(AccId(acc), number.to_bits()).unwrap()
}

fn ask(acc: u128, number: f64) -> Ask {
    Ask::new(AccId(acc), number.to_bits()).unwrap()
}

fn number(price: Price) -> f64 {
    f64::from_bits(price.to_bits())
}

fn ledger(accounts: &[(u128, usize)]) -> Ledger {
    let mut ledger = Ledger::new();
    for (acc, units) in accounts {
        let mut record = Holdings::new();
        record.set(SEC, *units);
        record.set(OTHER, 9);
        ledger.put(AccId(*acc), record);
    }
    ledger
}

#[test]
fn a_funded_pair_trades_at_the_bid_price() {
    let mut book = Security::new(price(1.0));
    let mut ledger = ledger(&[(1, 2), (2, 0)]);
    assert!(settle(&mut book, SEC, &mut ledger, bid(2, 8.0), ask(1, 6.0)));
    assert_eq!(number(book.last_trade()), 8.0);
    assert_eq!(ledger.units(AccId(1), SEC), Some(1));
    assert_eq!(ledger.units(AccId(2), SEC), Some(1));
    assert_eq!(ledger.units(AccId(1), OTHER), Some(9));
    assert_eq!(ledger.units(AccId(2), OTHER), Some(9));
    assert_eq!(ledger.total(SEC), 2);
}

#[test]
fn an_unfunded_pair_is_discarded() {
    let mut book = Security::new(price(1.0));
    book.push_ask(ask(3, 4.0));
    let mut ledger = ledger(&[(1, 0), (2, 5)]);
    assert!(!settle(&mut book, SEC, &mut ledger, bid(2, 8.0), ask(1, 6.0)));
    assert_eq!(number(book.last_trade()), 1.0);
    assert_eq!(book.highest_ask().map(|a| a.account), Some(AccId(3)));
    assert!(book.lowest_bid().is_none());
    assert_eq!(ledger.units(AccId(1), SEC), Some(0));
    assert_eq!(ledger.units(AccId(2), SEC), Some(5));
    assert_eq!(ledger.total(SEC), 5);
}

#[test]
fn a_pass_takes_pairs_until_the_heads_part() {
    let mut book = Security::new(price(1.0));
    // Asks leave highest first: 9 (account 1), 7 (account 3, who holds nothing), 5 (account 1).
    book.push_ask(ask(1, 5.0));
    book.push_ask(ask(1, 9.0));
    book.push_ask(ask(3, 7.0));
    // Bids leave lowest first: 9.5, 10, 11, 12.
    book.push_bid(bid(2, 11.0));
    book.push_bid(bid(4, 9.5));
    book.push_bid(bid(2, 10.0));
    book.push_bid(bid(4, 12.0));
    let mut ledger = ledger(&[(1, 2), (2, 0), (3, 0), (4, 0)]);
    run_pass(&mut book, SEC, &mut ledger);
    // 9.5 against 9: trade. 10 against 7: the seller holds nothing, the pair is lost.
    // 11 against 5: trade. 12 finds no ask.
    assert_eq!(ledger.units(AccId(1), SEC), Some(0));
    assert_eq!(ledger.units(AccId(2), SEC), Some(1));
    assert_eq!(ledger.units(AccId(3), SEC), Some(0));
    assert_eq!(ledger.units(AccId(4), SEC), Some(1));
    assert_eq!(ledger.total(SEC), 2);
    assert_eq!(ledger.total(OTHER), 36);
    assert_eq!(number(book.last_trade()), 11.0);
    assert_eq!(book.lowest_bid().map(|b| (b.account, number(b.price))), Some((AccId(4), 12.0)));
    assert!(book.highest_ask().is_none());
}

#[test]
fn a_pass_stops_at_heads_that_do_not_cross() {
    let mut book = Security::new(price(1.0));
    book.push_ask(ask(1, 9.0));
    book.push_ask(ask(1, 5.0));
    book.push_bid(bid(2, 8.0));
    book.push_bid(bid(2, 20.0));
    let mut ledger = ledger(&[(1, 2), (2, 0)]);
    run_pass(&mut book, SEC, &mut ledger);
    // The lowest bid, 8, is below the highest ask, 9: nothing trades though 20 reaches both asks.
    assert_eq!(ledger.units(AccId(1), SEC), Some(2));
    assert_eq!(ledger.units(AccId(2), SEC), Some(0));
    assert_eq!(number(book.last_trade()), 1.0);
    assert_eq!(book.lowest_bid().map(|b| number(b.price)), Some(8.0));
    assert_eq!(book.highest_ask().map(|a| number(a.price)), Some(9.0));
}
