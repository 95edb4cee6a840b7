use websocket_agg_orders::api::{Exchange, ExchangePrice, Side, TradingPair};
use websocket_agg_orders::text::{is_space, trim};

#[test]
fn a_pair_is_kept_without_the_space_around_it() {
    assert_eq!(TradingPair::from_str("BTC-USDT").unwrap().as_str(), "BTC-USDT");
    assert_eq!(TradingPair::from_str("  ETH/USDT\n").unwrap().as_str(), "ETH/USDT");
    assert_eq!(TradingPair::from_str("\u{2003}BTC USD\u{a0}").unwrap().as_str(), "BTC USD");
    assert_eq!(TradingPair::from_str("x").unwrap().as_str(), "x");
}

#[test]
fn an_empty_pair_is_none() {
    assert!(TradingPair::from_str("").is_none());
    assert!(TradingPair::from_str("   ").is_none());
    assert!(TradingPair::from_str(" \t\r\n\u{3000}").is_none());
}

#[test]
fn the_default_pair_is_btc_usdt() {
    assert_eq!(TradingPair::default_pair().as_str(), "BTC-USDT");
    assert_eq!(TradingPair::default_pair().binance_symbol(), "btcusdt");
    assert_eq!(TradingPair::default_pair().bitstamp_pair_code(), "btcusdt");
}

#[test]
fn exchange_codes_drop_separators_and_lower_the_case() {
    let pair = TradingPair::from_str("ETH/USDT").unwrap();
    assert_eq!(pair.binance_symbol(), "ethusdt");
    assert_eq!(pair.bitstamp_pair_code(), "ethusdt");
    let pair = TradingPair::from_str("BTC_USD").unwrap();
    assert_eq!(pair.binance_symbol(), "btcusd");
    assert_eq!(pair.bitstamp_pair_code(), "btcusd");
    let pair = TradingPair::from_str("-_/").unwrap();
    assert_eq!(pair.binance_symbol(), "");
    let pair = TradingPair::from_str("a-Z_@[`{/\u{c4}\u{e9}\u{212a}").unwrap();
    assert_eq!(pair.binance_symbol(), "az@[`{\u{c4}\u{e9}\u{212a}");
}

#[test]
fn exchange_codes_are_those_of_the_standard_library() {
    for raw in ["BTC-USDT", "Sol/UsDt", "x_Y-z", "AZaz09", "\u{c9}T\u{c9}-usd", "A B"] {
        let expected: String = raw
            .chars()
            .filter(|c| !matches!(c, '-' | '_' | '/'))
            .collect::<String>()
            .to_ascii_lowercase();
        let pair = TradingPair::from_str(raw).unwrap();
        assert_eq!(pair.binance_symbol(), expected);
        assert_eq!(pair.bitstamp_pair_code(), expected);
    }
}

#[test]
fn white_space_is_that_of_the_standard_library() {
    for code in 0..=0x10FFFFu32 {
        if let Some(c) = char::from_u32(code) {
            assert_eq!(is_space(c), c.is_whitespace());
        }
    }
}

#[test]
fn trimming_is_that_of_the_standard_library() {
    for text in [
        "",
        " ",
        "a",
        " a",
        "a ",
        "  a b  ",
        "\t\n x \r\n",
        "\u{85}\u{a0}x\u{1680}\u{2000}\u{200a}",
        "\u{2028}\u{2029}\u{202f}\u{205f}\u{3000}",
        "\u{200b}x\u{200b}",
        "\u{180e} y",
        " \u{e9} ",
    ] {
        assert_eq!(trim(text), text.trim());
    }
}

#[test]
fn exchanges_have_their_rank_and_name() {
    assert_eq!(Exchange::Binance.rank(), 0);
    assert_eq!(Exchange::Bitstamp.rank(), 1);
    assert_eq!(Exchange::Binance.name(), "binance");
    assert_eq!(Exchange::Bitstamp.name(), "bitstamp");
}

#[test]
fn a_level_gives_back_its_fields() {
    let level = ExchangePrice::new(Exchange::Bitstamp, Side::Sell, 10_050, 7, 11, 13);
    assert_eq!(
        level,
        ExchangePrice::Bitstamp {
            price: 10_050,
            quantity: 7,
            exchange_timestamp: 11,
            received_at: 13,
            side: Side::Sell,
        }
    );
    assert_eq!(level.exchange(), Exchange::Bitstamp);
    assert_eq!(level.side(), Side::Sell);
    assert_eq!(level.price(), 10_050);
    assert_eq!(level.quantity(), 7);
    let level = ExchangePrice::new(Exchange::Binance, Side::Buy, 1, 2, 3, 4);
    assert_eq!(
        level,
        ExchangePrice::Binance {
            price: 1,
            quantity: 2,
            exchange_timestamp: 3,
            received_at: 4,
            side: Side::Buy,
        }
    );
    assert_eq!(level.exchange(), Exchange::Binance);
    assert_eq!(level.side(), Side::Buy);
}
