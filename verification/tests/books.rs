use stok::{AccId, Ask, Bid, Price, Security};

fn price(number: f64) -> Price {
    Price::from_bits(number.to_bits()).unwrap()
}

fn bid(acc: u128, number: f64) -> Bid {
    Bid::new(AccId(acc), number.to_bits()).unwrap()
}

fn ask(acc: u128, number: f64) -> Ask {
    Ask::new(AccId(acc), number.to_bits()).unwrap()
}

fn number(price: Price) -> f64 {
    f64::from_bits(price.to_bits())
}

#[test]
fn a_new_book_has_no_orders() {
    let book = Security::new(price(3.5));
    assert_eq!(number(book.last_trade()), 3.5);
    assert!(book.lowest_bid().is_none());
    assert!(book.highest_ask().is_none());
    let shown = book.quote();
    assert_eq!(number(shown.last_trade), 3.5);
    assert!(shown.lowest_bid.is_none());
    assert!(shown.highest_ask.is_none());
}

#[test]
fn a_founded_book_asks_the_founding_price_for_each_unit() {
    let mut book = Security::founded(AccId(4), 3, price(10.0));
    assert_eq!(number(book.last_trade()), 10.0);
    assert!(book.lowest_bid().is_none());
    assert_eq!(book.highest_ask().map(|a| (a.account, number(a.price))), Some((AccId(4), 10.0)));
    // Three asks: three bids cross, a fourth finds the queue empty.
    for acc in 0..4 {
        book.push_bid(bid(acc, 10.0));
    }
    for acc in 0..3 {
        let (bought, sold) = book.pop_crossing().unwrap();
        assert_eq!(bought.account, AccId(acc));
        assert_eq!(sold.account, AccId(4));
        assert_eq!(number(sold.price), 10.0);
    }
    assert!(book.pop_crossing().is_none());
    assert_eq!(book.lowest_bid().map(|b| b.account), Some(AccId(3)));
}

#[test]
fn the_quote_shows_the_lowest_bid_and_the_highest_ask() {
    let mut book = Security::new(price(1.0));
    for (acc, number) in [(1, 7.0), (2, 3.0), (3, 5.0)] {
        book.push_bid(bid(acc, number));
        book.push_ask(ask(acc, number + 10.0));
    }
    let shown = book.quote();
    assert_eq!(shown.lowest_bid.map(number), Some(3.0));
    assert_eq!(shown.highest_ask.map(number), Some(17.0));
    assert_eq!(book.lowest_bid().map(|b| b.account), Some(AccId(2)));
    assert_eq!(book.highest_ask().map(|a| a.account), Some(AccId(1)));
}

#[test]
fn heads_cross_only_when_the_lowest_bid_reaches_the_highest_ask() {
    let mut book = Security::new(price(1.0));
    book.push_ask(ask(1, 10.0));
    book.push_bid(bid(2, 12.0));
    book.push_bid(bid(3, 5.0));
    // 12 reaches 10, but the head of the bids is 5.
    assert!(book.pop_crossing().is_none());
    assert_eq!(book.quote().lowest_bid.map(number), Some(5.0));
    assert_eq!(book.quote().highest_ask.map(number), Some(10.0));

    let mut book = Security::new(price(1.0));
    book.push_ask(ask(1, 10.0));
    book.push_ask(ask(4, 20.0));
    book.push_bid(bid(2, 12.0));
    // 12 reaches 10, but the head of the asks is 20.
    assert!(book.pop_crossing().is_none());

    let mut book = Security::new(price(1.0));
    book.push_ask(ask(1, 10.0));
    book.push_bid(bid(2, 10.0));
    // A bid at the ask's price reaches it.
    let (bought, sold) = book.pop_crossing().unwrap();
    assert_eq!((bought.account, sold.account), (AccId(2), AccId(1)));
    assert!(book.quote().lowest_bid.is_none());
    assert!(book.quote().highest_ask.is_none());
    assert_eq!(number(book.last_trade()), 1.0);
}

#[test]
fn a_trade_is_recorded_at_the_price_given() {
    let mut book = Security::new(price(1.0));
    book.push_ask(ask(1, 10.0));
    book.record_trade(price(12.0));
    assert_eq!(number(book.last_trade()), 12.0);
    assert_eq!(book.quote().highest_ask.map(number), Some(10.0));
}
