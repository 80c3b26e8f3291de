use stok::{
    AccId, Market, MarketError, MyGreeter, Price, Rejection, SecId, StatusKind, StreamAction,
    StreamEvent,
};

const SAMPLE: u128 = 0xa1a2a3a4b1b2c1c2d1d2d3d4d5d6d7d8;
const SAMPLE_TEXT: &str = "a1a2a3a4-b1b2-c1c2-d1d2-d3d4d5d6d7d8";

fn bits(number: f64) -> u64 {
    number.to_bits()
}

fn number(price: Price) -> f64 {
    f64::from_bits(price.to_bits())
}

fn refusal(kind: StatusKind, message: &str) -> Rejection {
    Rejection { kind, message: message.to_string() }
}

#[test]
fn an_identifier_is_written_as_a_hyphenated_uuid() {
    assert_eq!(SecId(SAMPLE).to_text(), SAMPLE_TEXT);
    assert_eq!(AccId(SAMPLE).to_text(), SAMPLE_TEXT);
    assert_eq!(SecId(0).to_text(), "00000000-0000-0000-0000-000000000000");
    assert_eq!(AccId(u128::MAX).to_text(), "ffffffff-ffff-ffff-ffff-ffffffffffff");
    assert_eq!(AccId(1).to_text(), "00000000-0000-0000-0000-000000000001");
}

#[test]
fn an_identifier_is_read_from_the_text_of_a_uuid() {
    assert_eq!(SecId::parse(SAMPLE_TEXT), Ok(SecId(SAMPLE)));
    assert_eq!(AccId::parse(SAMPLE_TEXT), Ok(AccId(SAMPLE)));
    assert_eq!(SecId::parse("A1A2A3A4-B1B2-C1C2-D1D2-D3D4D5D6D7D8"), Ok(SecId(SAMPLE)));
    assert_eq!(SecId::parse("a1a2a3a4b1b2c1c2d1d2d3d4d5d6d7d8"), Ok(SecId(SAMPLE)));
    assert_eq!(AccId::parse("00000000-0000-0000-0000-000000000007"), Ok(AccId(7)));
    for text in ["", "seven", "a1a2a3a4-b1b2-c1c2-d1d2-d3d4d5d6d7", "a1a2a3a4-b1b2-c1c2-d1d2-d3d4d5d6d7dg"] {
        assert_eq!(SecId::parse(text), Err(MarketError::MalformedIdentifier));
        assert_eq!(AccId::parse(text), Err(MarketError::MalformedIdentifier));
    }
}

#[test]
fn an_identifier_written_and_read_is_the_same() {
    for value in [0, 1, 7, SAMPLE, u128::MAX, 1 << 64, (1 << 127) + 12345] {
        assert_eq!(SecId::parse(&SecId(value).to_text()), Ok(SecId(value)));
        assert_eq!(AccId::parse(&AccId(value).to_text()), Ok(AccId(value)));
    }
}

#[test]
fn a_reading_is_an_identifier_or_a_malformed_one() {
    assert_eq!(SecId::from_read(Some(3)), Ok(SecId(3)));
    assert_eq!(SecId::from_read(None), Err(MarketError::MalformedIdentifier));
    assert_eq!(AccId::from_read(Some(3)), Ok(AccId(3)));
    assert_eq!(AccId::from_read(None), Err(MarketError::MalformedIdentifier));
}

#[test]
fn every_error_has_its_kind_and_its_words() {
    let cases = [
        (
            MarketError::SecDoesNotExist(SecId(SAMPLE)),
            StatusKind::FailedPrecondition,
            "Security a1a2a3a4-b1b2-c1c2-d1d2-d3d4d5d6d7d8 does not exist",
        ),
        (
            MarketError::AccDoesNotExist(AccId(7)),
            StatusKind::FailedPrecondition,
            "Account 00000000-0000-0000-0000-000000000007 does not exist",
        ),
        (
            MarketError::NoBids(SecId(SAMPLE)),
            StatusKind::Informational,
            "No bids are placed for security a1a2a3a4-b1b2-c1c2-d1d2-d3d4d5d6d7d8",
        ),
        (
            MarketError::NoAsks(SecId(7)),
            StatusKind::Informational,
            "No asks are placed for security 00000000-0000-0000-0000-000000000007",
        ),
        (MarketError::InvalidPrice, StatusKind::DataLoss, "Price is not a finite number"),
        (MarketError::MalformedIdentifier, StatusKind::DataLoss, "Identifier is not a UUID"),
    ];
    for (error, kind, words) in cases {
        assert_eq!(error.status(), kind);
        assert_eq!(error.message(), words);
        assert_eq!(Rejection::of(error), refusal(kind, words));
    }
}

#[test]
fn an_error_is_worded_around_the_text_it_is_given() {
    let sec = SecId(1);
    let acc = AccId(2);
    assert_eq!(MarketError::SecDoesNotExist(sec).worded("X"), "Security X does not exist");
    assert_eq!(MarketError::AccDoesNotExist(acc).worded("X"), "Account X does not exist");
    assert_eq!(MarketError::NoBids(sec).worded("X"), "No bids are placed for security X");
    assert_eq!(MarketError::NoAsks(sec).worded("X"), "No asks are placed for security X");
    assert_eq!(MarketError::InvalidPrice.worded("X"), "Price is not a finite number");
    assert_eq!(MarketError::MalformedIdentifier.worded("X"), "Identifier is not a UUID");
    assert_eq!(MarketError::SecDoesNotExist(sec).worded(""), "Security  does not exist");
    assert_eq!(MarketError::SecDoesNotExist(sec).subject(), Some(1));
    assert_eq!(MarketError::AccDoesNotExist(acc).subject(), Some(2));
    assert_eq!(MarketError::NoBids(sec).subject(), Some(1));
    assert_eq!(MarketError::NoAsks(sec).subject(), Some(1));
    assert_eq!(MarketError::InvalidPrice.subject(), None);
    assert_eq!(MarketError::MalformedIdentifier.subject(), None);
}

#[test]
fn an_unread_identifier_is_lost_data() {
    assert_eq!(
        Rejection::unread(None, "security"),
        refusal(StatusKind::DataLoss, "No security ID sent")
    );
    assert_eq!(
        Rejection::unread(Some("seven"), "security"),
        refusal(StatusKind::DataLoss, "Invalid security ID sent: seven")
    );
    assert_eq!(
        Rejection::unread(None, "account"),
        refusal(StatusKind::DataLoss, "No account ID sent")
    );
    assert_eq!(
        Rejection::unread(Some(""), "account"),
        refusal(StatusKind::DataLoss, "Invalid account ID sent: ")
    );
}

#[test]
fn the_service_founds_and_lists_securities_by_text() {
    let mut service = MyGreeter::new(Market::new());
    assert_eq!(service.list_securities(), Vec::<String>::new());
    let (sec, owner) = service.create_security(100, bits(10.0)).unwrap();
    assert_ne!(sec, owner);
    assert_eq!(SecId::parse(&sec).map(|id| id.to_text()), Ok(sec.clone()));
    assert_eq!(AccId::parse(&owner).map(|id| id.to_text()), Ok(owner.clone()));
    assert_eq!(service.list_securities(), vec![sec.clone()]);
    assert_eq!(service.get_highest_ask(Some(&sec)).map(|p| p.map(number)), Ok(Some(10.0)));
    assert_eq!(service.get_lowest_bid(Some(&sec)).map(|p| p.map(number)), Ok(None));
    let cap = service.get_market_cap(Some(&sec)).unwrap();
    assert_eq!((cap.units, number(cap.price)), (100, 10.0));
    let (other, _) = service.create_security(1, bits(2.0)).unwrap();
    let mut listed = service.list_securities();
    listed.sort();
    let mut expected = vec![sec, other];
    expected.sort();
    assert_eq!(listed, expected);
}

#[test]
fn the_service_refuses_a_founding_price_that_is_no_number() {
    let mut service = MyGreeter::new(Market::new());
    for price in [f64::NAN, f64::INFINITY, f64::NEG_INFINITY] {
        assert_eq!(
            service.create_security(5, price.to_bits()),
            Err(refusal(StatusKind::DataLoss, "Price is not a finite number"))
        );
    }
    assert_eq!(service.list_securities(), Vec::<String>::new());
}

#[test]
fn the_service_trades_through_text() {
    let mut service = MyGreeter::new(Market::new());
    let (sec, _owner) = service.create_security(100, bits(10.0)).unwrap();
    let buyer = service.create_account();
    assert_eq!(service.place_bid(Some(&sec), Some(&buyer), bits(12.0)), Ok(bits(12.0)));
    assert_eq!(service.get_lowest_bid(Some(&sec)).map(|p| p.map(number)), Ok(Some(12.0)));
    service.run_market_loop();
    assert_eq!(service.get_lowest_bid(Some(&sec)).map(|p| p.map(number)), Ok(None));
    let cap = service.get_market_cap(Some(&sec)).unwrap();
    assert_eq!((cap.units, number(cap.price)), (100, 12.0));
    assert_eq!(service.place_ask(Some(&sec), Some(&buyer), bits(40.0)), Ok(bits(40.0)));
    assert_eq!(service.get_highest_ask(Some(&sec)).map(|p| p.map(number)), Ok(Some(40.0)));
}

#[test]
fn the_service_says_which_identifier_it_could_not_read() {
    let mut service = MyGreeter::new(Market::new());
    let (sec, owner) = service.create_security(1, bits(10.0)).unwrap();
    let no_sec = refusal(StatusKind::DataLoss, "No security ID sent");
    let bad_sec = refusal(StatusKind::DataLoss, "Invalid security ID sent: seven");
    let no_acc = refusal(StatusKind::DataLoss, "No account ID sent");
    let bad_acc = refusal(StatusKind::DataLoss, "Invalid account ID sent: eight");

    assert_eq!(service.get_lowest_bid(None).err(), Some(refusal(StatusKind::DataLoss, "No security ID sent")));
    assert_eq!(service.get_lowest_bid(Some("seven")).err().as_ref(), Some(&bad_sec));
    assert_eq!(service.get_highest_ask(None).err().as_ref(), Some(&no_sec));
    assert_eq!(service.get_highest_ask(Some("seven")).err().as_ref(), Some(&bad_sec));
    assert_eq!(service.get_market_cap(None).err().as_ref(), Some(&no_sec));
    assert_eq!(service.get_market_cap(Some("seven")).err().as_ref(), Some(&bad_sec));
    assert_eq!(service.register_sec_value(None).err().as_ref(), Some(&no_sec));
    assert_eq!(service.register_sec_value(Some("seven")).err().as_ref(), Some(&bad_sec));

    // The security is read first, then the account.
    assert_eq!(service.place_bid(None, None, bits(1.0)).err().as_ref(), Some(&no_sec));
    assert_eq!(service.place_bid(Some("seven"), Some("eight"), bits(1.0)).err().as_ref(), Some(&bad_sec));
    assert_eq!(service.place_bid(Some(&sec), None, bits(1.0)).err().as_ref(), Some(&no_acc));
    assert_eq!(service.place_bid(Some(&sec), Some("eight"), bits(1.0)).err().as_ref(), Some(&bad_acc));
    assert_eq!(service.place_ask(None, Some(&owner), bits(1.0)).err().as_ref(), Some(&no_sec));
    assert_eq!(service.place_ask(Some("seven"), Some(&owner), bits(1.0)).err().as_ref(), Some(&bad_sec));
    assert_eq!(service.place_ask(Some(&sec), None, bits(1.0)).err().as_ref(), Some(&no_acc));
    assert_eq!(service.place_ask(Some(&sec), Some("eight"), bits(1.0)).err().as_ref(), Some(&bad_acc));
    assert_eq!(service.get_lowest_bid(Some(&sec)).map(|p| p.map(number)), Ok(None));
}

#[test]
fn the_service_says_what_the_market_does_not_have() {
    let mut service = MyGreeter::new(Market::new());
    let (sec, owner) = service.create_security(1, bits(10.0)).unwrap();
    let missing = refusal(
        StatusKind::FailedPrecondition,
        "Security a1a2a3a4-b1b2-c1c2-d1d2-d3d4d5d6d7d8 does not exist",
    );
    let stranger = refusal(
        StatusKind::FailedPrecondition,
        "Account a1a2a3a4-b1b2-c1c2-d1d2-d3d4d5d6d7d8 does not exist",
    );
    assert_eq!(service.get_lowest_bid(Some(SAMPLE_TEXT)).err().as_ref(), Some(&missing));
    assert_eq!(service.get_highest_ask(Some(SAMPLE_TEXT)).err().as_ref(), Some(&missing));
    assert_eq!(service.get_market_cap(Some(SAMPLE_TEXT)).err().as_ref(), Some(&missing));
    assert_eq!(service.place_bid(Some(SAMPLE_TEXT), Some(&owner), bits(1.0)).err().as_ref(), Some(&missing));
    assert_eq!(service.place_ask(Some(SAMPLE_TEXT), Some(&owner), bits(1.0)).err().as_ref(), Some(&missing));
    // An unknown account is reported before an unknown security.
    assert_eq!(service.place_bid(Some(SAMPLE_TEXT), Some(SAMPLE_TEXT), bits(1.0)).err().as_ref(), Some(&stranger));
    assert_eq!(service.place_ask(Some(&sec), Some(SAMPLE_TEXT), bits(1.0)).err().as_ref(), Some(&stranger));
    assert_eq!(
        service.place_bid(Some(&sec), Some(&owner), f64::NAN.to_bits()),
        Err(refusal(StatusKind::DataLoss, "Price is not a finite number"))
    );
}

#[test]
fn a_subscription_reports_the_price_after_every_pass() {
    let mut service = MyGreeter::new(Market::new());
    let (sec, _owner) = service.create_security(2, bits(10.0)).unwrap();
    let buyer = service.create_account();
    let watched = service.register_sec_value(Some(&sec)).unwrap();
    assert_eq!(watched.to_text(), sec);

    match service.sec_value_step(watched, StreamEvent::PassCompleted) {
        StreamAction::Send(report) => {
            assert_eq!(report.sec, sec);
            assert_eq!(number(report.value), 10.0);
        }
        other => panic!("{other:?}"),
    }
    assert!(matches!(service.sec_value_step(watched, StreamEvent::Delivered), StreamAction::Wait));
    assert_eq!(service.place_bid(Some(&sec), Some(&buyer), bits(12.0)), Ok(bits(12.0)));
    service.run_market_loop();
    match service.sec_value_step(watched, StreamEvent::PassCompleted) {
        StreamAction::Send(report) => {
            assert_eq!(report.sec, sec);
            assert_eq!(number(report.value), 12.0);
        }
        other => panic!("{other:?}"),
    }
    assert!(matches!(service.sec_value_step(watched, StreamEvent::Undelivered), StreamAction::Close));
}

#[test]
fn a_subscription_to_an_unlisted_security_fails_at_the_first_pass() {
    let service = MyGreeter::new(Market::new());
    let watched = service.register_sec_value(Some(SAMPLE_TEXT)).unwrap();
    assert_eq!(watched, SecId(SAMPLE));
    match service.sec_value_step(watched, StreamEvent::PassCompleted) {
        StreamAction::Fail(rejection) => assert_eq!(
            rejection,
            refusal(
                StatusKind::FailedPrecondition,
                "Security a1a2a3a4-b1b2-c1c2-d1d2-d3d4d5d6d7d8 does not exist"
            )
        ),
        other => panic!("{other:?}"),
    }
    assert!(matches!(service.sec_value_step(watched, StreamEvent::Delivered), StreamAction::Wait));
    assert!(matches!(service.sec_value_step(watched, StreamEvent::Undelivered), StreamAction::Close));
}
