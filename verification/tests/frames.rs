use websocket_agg_orders::api::binance;
use websocket_agg_orders::api::binance::BinanceClient;
use websocket_agg_orders::api::bitstamp;
use websocket_agg_orders::api::bitstamp::BitstampClient;
use websocket_agg_orders::api::frame::{
    check_frame, decode_level, decode_side, read_frame, FrameError, MAX_FRAME_BYTES,
    QUANTITY_DECIMALS,
};
use websocket_agg_orders::api::json::{parse_document, Json};
use websocket_agg_orders::api::{BookEvent, Exchange, ExchangePrice, Side};

fn text(s: &str) -> Json {
    Json::Text(s.to_string())
}

fn entry(price: &str, quantity: &str) -> Json {
    Json::List(vec![text(price), text(quantity)])
}

fn object(members: Vec<(&str, Json)>) -> Json {
    Json::Object(
        members
            .into_iter()
            .map(|(name, value)| (name.to_string(), value))
            .collect(),
    )
}

fn level(
    exchange: Exchange,
    side: Side,
    price: u64,
    quantity: u64,
    exchange_timestamp: u64,
    received_at: u64,
) -> BookEvent {
    BookEvent::Level(ExchangePrice::new(
        exchange,
        side,
        price,
        quantity,
        exchange_timestamp,
        received_at,
    ))
}

fn replace(exchange: Exchange, side: Side) -> BookEvent {
    BookEvent::ReplaceLadder { exchange, side }
}

#[test]
fn a_text_is_read_into_a_document() {
    let document = parse_document(
        "{\"e\":\"depthUpdate\",\"E\":1700000000000,\"b\":[[\"30123.45\",\"0.5\"]],\"n\":[1,-2,3.5,1e2,null,true,false]}",
    );
    let expected = object(vec![
        ("E", Json::Unsigned(1_700_000_000_000)),
        ("b", Json::List(vec![entry("30123.45", "0.5")])),
        ("e", text("depthUpdate")),
        (
            "n",
            Json::List(vec![
                Json::Unsigned(1),
                Json::Number,
                Json::Number,
                Json::Number,
                Json::Null,
                Json::Bool(true),
                Json::Bool(false),
            ]),
        ),
    ]);
    assert_eq!(document, Some(expected));
}

#[test]
fn documents_of_every_kind_are_read() {
    assert_eq!(parse_document("null"), Some(Json::Null));
    assert_eq!(parse_document(" true "), Some(Json::Bool(true)));
    assert_eq!(parse_document("0"), Some(Json::Unsigned(0)));
    assert_eq!(
        parse_document("18446744073709551615"),
        Some(Json::Unsigned(u64::MAX))
    );
    assert_eq!(parse_document("18446744073709551616"), Some(Json::Number));
    assert_eq!(parse_document("-1"), Some(Json::Number));
    assert_eq!(parse_document("\"a\\\"b\\u00e9\""), Some(text("a\"b\u{e9}")));
    assert_eq!(parse_document("[]"), Some(Json::List(vec![])));
    assert_eq!(parse_document("{}"), Some(Json::Object(vec![])));
    assert_eq!(
        parse_document("{\"a\":1,\"a\":2}"),
        Some(object(vec![("a", Json::Unsigned(2))]))
    );
    assert_eq!(
        parse_document("[[1],{\"k\":[{}]}]"),
        Some(Json::List(vec![
            Json::List(vec![Json::Unsigned(1)]),
            object(vec![("k", Json::List(vec![Json::Object(vec![])]))]),
        ]))
    );
}

#[test]
fn texts_that_are_not_one_document_are_not_read() {
    for bad in ["", " ", "{", "}", "{\"a\":}", "[1,]", "nul", "1 2", "{} {}", "'a'", "{a:1}"] {
        assert_eq!(parse_document(bad), None);
    }
}

#[test]
fn members_and_kinds_of_a_document() {
    let document = object(vec![
        ("event", text("data")),
        ("n", Json::Unsigned(7)),
        ("list", Json::List(vec![Json::Null])),
    ]);
    assert!(document.is_object());
    assert_eq!(document.get("event"), Some(&text("data")));
    assert_eq!(document.get("n"), Some(&Json::Unsigned(7)));
    assert_eq!(document.get("even"), None);
    assert_eq!(document.get("events"), None);
    assert_eq!(document.get(""), None);
    assert_eq!(text("x").get("x"), None);
    assert_eq!(Json::List(vec![text("x")]).get("x"), None);
    assert!(!Json::List(vec![]).is_object());
    assert_eq!(text("x").as_str(), Some("x"));
    assert_eq!(Json::Unsigned(1).as_str(), None);
    assert_eq!(Json::Unsigned(7).as_u64(), Some(7));
    assert_eq!(Json::Number.as_u64(), None);
    assert_eq!(text("7").as_u64(), None);
    assert_eq!(
        Json::List(vec![Json::Null]).as_array(),
        Some(&vec![Json::Null])
    );
    assert_eq!(object(vec![]).as_array(), None);
    let twice = Json::Object(vec![
        ("k".to_string(), Json::Unsigned(1)),
        ("k".to_string(), Json::Unsigned(2)),
    ]);
    assert_eq!(twice.get("k"), Some(&Json::Unsigned(1)));
}

#[test]
fn frames_are_checked_before_they_are_decoded() {
    assert_eq!(MAX_FRAME_BYTES, 100_000);
    assert_eq!(QUANTITY_DECIMALS, 8);
    assert_eq!(read_frame("{}"), Ok(Json::Object(vec![])));
    assert_eq!(read_frame("not json"), Err(FrameError::Malformed));
    assert_eq!(read_frame(""), Err(FrameError::Malformed));
    assert_eq!(read_frame("[1,2]"), Err(FrameError::NotAnObject));
    assert_eq!(read_frame("\"text\""), Err(FrameError::NotAnObject));
    assert_eq!(read_frame("17"), Err(FrameError::NotAnObject));
    assert_eq!(check_frame(None), Err(FrameError::Malformed));
    assert_eq!(check_frame(Some(Json::Null)), Err(FrameError::NotAnObject));
    assert_eq!(
        check_frame(Some(object(vec![("a", Json::Null)]))),
        Ok(object(vec![("a", Json::Null)]))
    );
}

#[test]
fn a_frame_may_be_as_long_as_the_limit_and_no_longer() {
    let mut frame = String::from("{}");
    while frame.len() < MAX_FRAME_BYTES {
        frame.push(' ');
    }
    assert_eq!(frame.len(), 100_000);
    assert_eq!(read_frame(&frame), Ok(Json::Object(vec![])));
    assert_eq!(BinanceClient::handle_message(&frame, 1), Ok(vec![]));
    frame.push(' ');
    assert_eq!(read_frame(&frame), Err(FrameError::TooLarge));
    assert_eq!(
        BinanceClient::handle_message(&frame, 1),
        Err(FrameError::TooLarge)
    );
    let mut client = BitstampClient::new();
    assert_eq!(
        client.handle_message(&frame, 1),
        Err(FrameError::TooLarge)
    );
    let mut junk = String::new();
    while junk.len() <= MAX_FRAME_BYTES {
        junk.push('x');
    }
    assert_eq!(read_frame(&junk), Err(FrameError::TooLarge));
}

#[test]
fn the_limit_counts_bytes_and_not_characters() {
    let mut frame = String::from("{\"k\":\"");
    for _ in 0..49_996 {
        frame.push('\u{e9}');
    }
    frame.push_str("\"}");
    assert_eq!(frame.len(), 100_000);
    assert!(read_frame(&frame).is_ok());
    let mut frame = String::from("{\"k\":\"");
    for _ in 0..49_997 {
        frame.push('\u{e9}');
    }
    frame.push_str("\"}");
    assert_eq!(frame.chars().count(), 50_005);
    assert_eq!(read_frame(&frame), Err(FrameError::TooLarge));
}

#[test]
fn an_entry_of_a_depth_list_is_a_price_and_a_quantity() {
    assert_eq!(
        decode_level(&entry("30123.45", "0.5"), Exchange::Binance, Side::Buy, 5, 6),
        Some(ExchangePrice::Binance {
            price: 3_012_345,
            quantity: 50_000_000,
            exchange_timestamp: 5,
            received_at: 6,
            side: Side::Buy,
        })
    );
    assert_eq!(
        decode_level(
            &Json::List(vec![text("1"), text("0"), text("extra"), Json::Null]),
            Exchange::Bitstamp,
            Side::Sell,
            0,
            9
        ),
        Some(ExchangePrice::Bitstamp {
            price: 100,
            quantity: 0,
            exchange_timestamp: 0,
            received_at: 9,
            side: Side::Sell,
        })
    );
    for bad in [
        Json::Null,
        text("1"),
        Json::List(vec![]),
        Json::List(vec![text("1")]),
        Json::List(vec![Json::Unsigned(1), text("1")]),
        Json::List(vec![text("1"), Json::Unsigned(1)]),
        entry("x", "1"),
        entry("1", "x"),
        entry("1.2.3", "1"),
        entry("184467440737095517", "1"),
        entry("1", "184467440738"),
        object(vec![("0", text("1")), ("1", text("1"))]),
    ] {
        assert_eq!(decode_level(&bad, Exchange::Binance, Side::Buy, 0, 0), None);
    }
}

#[test]
fn a_side_is_its_levels_after_the_mark_of_a_snapshot() {
    let list = Json::List(vec![
        entry("100.00", "1"),
        entry("bad", "1"),
        Json::Null,
        entry("99.5", "0"),
    ]);
    let mut events = vec![replace(Exchange::Binance, Side::Sell)];
    decode_side(Some(&list), Exchange::Bitstamp, Side::Buy, 3, 4, true, &mut events);
    assert_eq!(
        events,
        vec![
            replace(Exchange::Binance, Side::Sell),
            replace(Exchange::Bitstamp, Side::Buy),
            level(Exchange::Bitstamp, Side::Buy, 10_000, 100_000_000, 3, 4),
            level(Exchange::Bitstamp, Side::Buy, 9_950, 0, 3, 4),
        ]
    );
    let mut events = Vec::new();
    decode_side(Some(&list), Exchange::Bitstamp, Side::Buy, 3, 4, false, &mut events);
    assert_eq!(
        events,
        vec![
            level(Exchange::Bitstamp, Side::Buy, 10_000, 100_000_000, 3, 4),
            level(Exchange::Bitstamp, Side::Buy, 9_950, 0, 3, 4),
        ]
    );
    let mut events = Vec::new();
    decode_side(Some(&Json::List(vec![])), Exchange::Binance, Side::Sell, 0, 0, true, &mut events);
    assert_eq!(events, vec![replace(Exchange::Binance, Side::Sell)]);
    let mut events = Vec::new();
    decode_side(None, Exchange::Binance, Side::Sell, 0, 0, true, &mut events);
    decode_side(Some(&text("x")), Exchange::Binance, Side::Sell, 0, 0, true, &mut events);
    decode_side(Some(&object(vec![])), Exchange::Binance, Side::Sell, 0, 0, true, &mut events);
    assert_eq!(events, Vec::new());
}

#[test]
fn a_streamed_binance_frame_is_a_snapshot_of_both_sides() {
    let frame = "{\"e\":\"depthUpdate\",\"E\":1700000000000,\"b\":[[\"30123.45\",\"0.5\"],[\"30123.40\",\"1\"]],\"a\":[[\"30124.00\",\"0.25\"]]}";
    assert_eq!(
        BinanceClient::handle_message(frame, 42),
        Ok(vec![
            replace(Exchange::Binance, Side::Buy),
            level(Exchange::Binance, Side::Buy, 3_012_345, 50_000_000, 1_700_000_000_000, 42),
            level(Exchange::Binance, Side::Buy, 3_012_340, 100_000_000, 1_700_000_000_000, 42),
            replace(Exchange::Binance, Side::Sell),
            level(Exchange::Binance, Side::Sell, 3_012_400, 25_000_000, 1_700_000_000_000, 42),
        ])
    );
}

#[test]
fn a_binance_snapshot_frame_is_read_from_the_long_keys() {
    let frame = "{\"lastUpdateId\":160,\"bids\":[[\"0.01\",\"0.00000001\"]],\"asks\":[[\"0.02\",\"2\"],[\"oops\",\"2\"],[\"0.03\",\"3\"]]}";
    assert_eq!(
        BinanceClient::handle_message(frame, 7),
        Ok(vec![
            replace(Exchange::Binance, Side::Buy),
            level(Exchange::Binance, Side::Buy, 1, 1, 0, 7),
            replace(Exchange::Binance, Side::Sell),
            level(Exchange::Binance, Side::Sell, 2, 200_000_000, 0, 7),
            level(Exchange::Binance, Side::Sell, 3, 300_000_000, 0, 7),
        ])
    );
}

#[test]
fn binance_prefers_the_short_keys() {
    let document = object(vec![
        ("e", text("depthUpdate")),
        ("E", text("not a number")),
        ("bids", Json::List(vec![entry("1", "1")])),
        ("b", Json::List(vec![entry("2", "2")])),
        ("a", Json::Null),
        ("asks", Json::List(vec![entry("3", "3")])),
    ]);
    assert_eq!(
        binance::decode(&document, 1),
        vec![
            replace(Exchange::Binance, Side::Buy),
            level(Exchange::Binance, Side::Buy, 200, 200_000_000, 0, 1),
        ]
    );
}

#[test]
fn binance_passes_over_frames_of_other_kinds() {
    assert_eq!(
        BinanceClient::handle_message("{\"result\":null,\"id\":1}", 1),
        Ok(vec![])
    );
    assert_eq!(
        BinanceClient::handle_message("{\"e\":\"trade\",\"b\":[[\"1\",\"1\"]]}", 1),
        Ok(vec![])
    );
    assert_eq!(
        BinanceClient::handle_message("{\"e\":7,\"bids\":[[\"1\",\"1\"]]}", 1),
        Ok(vec![])
    );
    assert_eq!(
        BinanceClient::handle_message("{\"e\":\"depthUpdate\"}", 1),
        Ok(vec![])
    );
    assert_eq!(
        BinanceClient::handle_message("{\"lastUpdateId\":null,\"asks\":[]}", 1),
        Ok(vec![replace(Exchange::Binance, Side::Sell)])
    );
    assert_eq!(
        BinanceClient::handle_message("[\"depthUpdate\"]", 1),
        Err(FrameError::NotAnObject)
    );
    assert_eq!(
        BinanceClient::handle_message("{\"e\":\"depthUpdate\"", 1),
        Err(FrameError::Malformed)
    );
}

#[test]
fn the_first_bitstamp_data_frame_is_a_snapshot_and_the_next_are_changes() {
    let first = "{\"event\":\"data\",\"channel\":\"order_book_btcusd\",\"data\":{\"timestamp\":\"1700000000\",\"microtimestamp\":\"1700000000123456\",\"bids\":[[\"100.00\",\"1.5\"],[\"99.50\",\"2\"]],\"asks\":[[\"101\",\"0.1\"]]}}";
    let next = "{\"event\":\"data\",\"data\":{\"microtimestamp\":\"1700000000999999\",\"bids\":[[\"100.00\",\"0\"]],\"asks\":[[\"101\",\"0.3\"],[\"x\",\"1\"]]}}";
    let mut client = BitstampClient::new();
    assert!(client.awaits_snapshot());
    assert_eq!(
        client.handle_message("{\"event\":\"bts:subscription_succeeded\",\"channel\":\"order_book_btcusd\",\"data\":{}}", 1),
        Ok(vec![])
    );
    assert!(client.awaits_snapshot());
    assert_eq!(
        client.handle_message("{\"event\":\"data\"", 1),
        Err(FrameError::Malformed)
    );
    assert!(client.awaits_snapshot());
    assert_eq!(
        client.handle_message(first, 2),
        Ok(vec![
            replace(Exchange::Bitstamp, Side::Buy),
            level(Exchange::Bitstamp, Side::Buy, 10_000, 150_000_000, 1_700_000_000_123_456, 2),
            level(Exchange::Bitstamp, Side::Buy, 9_950, 200_000_000, 1_700_000_000_123_456, 2),
            replace(Exchange::Bitstamp, Side::Sell),
            level(Exchange::Bitstamp, Side::Sell, 10_100, 10_000_000, 1_700_000_000_123_456, 2),
        ])
    );
    assert!(!client.awaits_snapshot());
    assert_eq!(
        client.handle_message(next, 3),
        Ok(vec![
            level(Exchange::Bitstamp, Side::Buy, 10_000, 0, 1_700_000_000_999_999, 3),
            level(Exchange::Bitstamp, Side::Sell, 10_100, 30_000_000, 1_700_000_000_999_999, 3),
        ])
    );
    assert!(!client.awaits_snapshot());
}

#[test]
fn bitstamp_reads_the_time_where_it_is_a_number_in_a_text() {
    for (time, expected) in [
        (text("12"), 12u64),
        (text("+12"), 12),
        (text("18446744073709551615"), u64::MAX),
        (text("18446744073709551616"), 0),
        (text("12.5"), 0),
        (text(""), 0),
        (Json::Unsigned(12), 0),
        (Json::Null, 0),
    ] {
        let document = object(vec![
            ("event", text("data")),
            (
                "data",
                object(vec![
                    ("microtimestamp", time),
                    ("asks", Json::List(vec![entry("1", "1")])),
                ]),
            ),
        ]);
        assert!(bitstamp::has_data(&document));
        assert_eq!(
            bitstamp::decode(&document, 5, false),
            vec![level(Exchange::Bitstamp, Side::Sell, 100, 100_000_000, expected, 5)]
        );
    }
}

#[test]
fn bitstamp_passes_over_frames_without_data() {
    let no_data = object(vec![("event", text("data"))]);
    assert!(!bitstamp::has_data(&no_data));
    assert_eq!(bitstamp::decode(&no_data, 1, true), vec![]);
    let other = object(vec![
        ("event", text("bts:request_reconnect")),
        ("data", object(vec![("bids", Json::List(vec![entry("1", "1")]))])),
    ]);
    assert!(!bitstamp::has_data(&other));
    assert_eq!(bitstamp::decode(&other, 1, true), vec![]);
    let untagged = object(vec![
        ("event", Json::Unsigned(1)),
        ("data", object(vec![("bids", Json::List(vec![entry("1", "1")]))])),
    ]);
    assert!(!bitstamp::has_data(&untagged));
    assert_eq!(bitstamp::decode(&untagged, 1, true), vec![]);
    let flat = object(vec![("event", text("data")), ("data", text("none"))]);
    assert!(bitstamp::has_data(&flat));
    assert_eq!(bitstamp::decode(&flat, 1, true), vec![]);
    let mut client = BitstampClient::new();
    assert_eq!(client.handle_message("[]", 1), Err(FrameError::NotAnObject));
    assert!(client.awaits_snapshot());
    assert_eq!(
        client.handle_message("{\"event\":\"data\",\"data\":{}}", 1),
        Ok(vec![])
    );
    assert!(!client.awaits_snapshot());
}
