use std::cmp::Ordering;
use stok::price::finite;
use stok::{AccId, Ask, Bid, MarketError, Price};

fn price(number: f64) -> Price {
    Price::from_bits(number.to_bits()).unwrap()
}

#[test]
fn finite_numbers_are_prices() {
    for number in [0.0, -0.0, 1.0, -1.0, 10.0, 12.5, f64::MAX, f64::MIN, f64::MIN_POSITIVE, 5e-324] {
        let made = Price::from_bits(number.to_bits());
        assert_eq!(made.map(|p| p.to_bits()), Ok(number.to_bits()));
        assert!(finite(number.to_bits()));
    }
}

#[test]
fn infinities_and_nans_are_no_prices() {
    for number in [f64::INFINITY, f64::NEG_INFINITY, f64::NAN, -f64::NAN] {
        assert_eq!(
            Price::from_bits(number.to_bits()).err(),
            Some(MarketError::InvalidPrice)
        );
        assert!(!finite(number.to_bits()));
    }
    // A NaN with a payload, and the bit patterns on both sides of infinity.
    assert!(!finite(0x7ff0_0000_0000_0001));
    assert!(!finite(0xfff8_0000_0000_0000));
    assert!(!finite(0x7ff0_0000_0000_0000));
    assert!(finite(0x7fef_ffff_ffff_ffff));
    assert!(finite(0xffef_ffff_ffff_ffff));
}

#[test]
fn prices_compare_as_their_numbers_do() {
    let numbers = [
        f64::MIN,
        -12.0,
        -1.5,
        -5e-324,
        -0.0,
        0.0,
        5e-324,
        f64::MIN_POSITIVE,
        0.1,
        5.0,
        10.0,
        12.0,
        f64::MAX,
    ];
    for a in numbers {
        for b in numbers {
            assert_eq!(price(a).is_below(&price(b)), a < b, "{a} < {b}");
            assert_eq!(price(a).is_at_least(&price(b)), a >= b, "{a} >= {b}");
            assert_eq!(price(a).is_same(&price(b)), a == b, "{a} == {b}");
            assert_eq!(price(a).partial_cmp(&price(b)), a.partial_cmp(&b), "{a} ? {b}");
            assert_eq!(price(a) == price(b), a == b, "{a} == {b}");
            assert_eq!(price(a) < price(b), a < b, "{a} < {b}");
            assert_eq!(price(a) >= price(b), a >= b, "{a} >= {b}");
        }
    }
}

#[test]
fn the_two_zeroes_are_the_same_price() {
    assert!(price(0.0).is_same(&price(-0.0)));
    assert!(!price(-0.0).is_below(&price(0.0)));
    assert!(!price(0.0).is_below(&price(-0.0)));
    assert_ne!(price(0.0).to_bits(), price(-0.0).to_bits());
}

#[test]
fn an_order_needs_a_finite_price() {
    let acc = AccId(9);
    assert_eq!(Bid::new(acc, f64::NAN.to_bits()).err(), Some(MarketError::InvalidPrice));
    assert_eq!(Ask::new(acc, f64::INFINITY.to_bits()).err(), Some(MarketError::InvalidPrice));
    assert_eq!(
        Ask::new(acc, f64::NEG_INFINITY.to_bits()).err(),
        Some(MarketError::InvalidPrice)
    );
    let bid = Bid::new(acc, 4.5f64.to_bits()).unwrap();
    assert_eq!(bid.account, acc);
    assert_eq!(bid.price.to_bits(), 4.5f64.to_bits());
    let ask = Ask::new(acc, 7.25f64.to_bits()).unwrap();
    assert_eq!(ask.account, acc);
    assert_eq!(ask.price.to_bits(), 7.25f64.to_bits());
}

#[test]
fn the_lower_bid_is_the_greater() {
    let low = Bid::new(AccId(1), 3.0f64.to_bits()).unwrap();
    let high = Bid::new(AccId(2), 8.0f64.to_bits()).unwrap();
    let also_low = Bid::new(AccId(3), 3.0f64.to_bits()).unwrap();
    assert_eq!(low.partial_cmp(&high), Some(Ordering::Greater));
    assert_eq!(high.partial_cmp(&low), Some(Ordering::Less));
    assert_eq!(low.partial_cmp(&also_low), Some(Ordering::Equal));
    assert!(low > high);
    assert!(low == also_low);
    assert!(low != high);
}

#[test]
fn the_higher_ask_is_the_greater() {
    let low = Ask::new(AccId(1), 3.0f64.to_bits()).unwrap();
    let high = Ask::new(AccId(2), 8.0f64.to_bits()).unwrap();
    let also_high = Ask::new(AccId(3), 8.0f64.to_bits()).unwrap();
    assert_eq!(low.partial_cmp(&high), Some(Ordering::Less));
    assert_eq!(high.partial_cmp(&low), Some(Ordering::Greater));
    assert_eq!(high.partial_cmp(&also_high), Some(Ordering::Equal));
    assert!(high > low);
    assert!(high == also_high);
    assert!(low != high);
}
