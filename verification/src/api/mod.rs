//! The vocabulary shared by the exchange adapters and the order book:
//! exchanges, sides, price-level events and the configured trading pair.

pub mod binance;
pub mod bitstamp;
pub mod frame;
pub mod json;

use crate::text::{chars_of, push_char, trim, trimmed};
use vstd::prelude::*;

verus! {

/// How many events the bus between the adapters and the book holds before an
/// adapter has to wait.
pub const BUS_CAPACITY: usize = 1000;

/// The exchanges whose depth streams are aggregated.
#[derive(Debug, Clone, Copy, PartialEq, Eq, Hash, Structural)]
pub enum Exchange {
    Binance,
    Bitstamp,
}

impl Exchange {
    /// The place of an exchange in the fixed order in which exchanges are
    /// visited and in which levels at one price are listed.
    pub open spec fn rank_spec(&self) -> u8 {
        match self {
            Exchange::Binance => 0u8,
            Exchange::Bitstamp => 1u8,
        }
    }

    #[verifier::when_used_as_spec(rank_spec)]
    pub fn rank(&self) -> (r: u8)
        ensures
            r == self.rank_spec(),
    {
        match self {
            Exchange::Binance => 0,
            Exchange::Bitstamp => 1,
        }
    }

    /// The lower-case name under which an exchange appears in snapshots.
    pub fn name(&self) -> (r: &'static str)
        ensures
            r@ == (match self {
                Exchange::Binance => "binance"@,
                Exchange::Bitstamp => "bitstamp"@,
            }),
    {
        match self {
            Exchange::Binance => "binance",
            Exchange::Bitstamp => "bitstamp",
        }
    }
}

/// The side of the book a level rests on.
#[derive(Debug, Clone, Copy, PartialEq, Eq, Structural)]
pub enum Side {
    Buy,
    Sell,
}

/// Whether `c` is one of the separators that a trading pair may be written
/// with.
pub open spec fn is_separator(c: char) -> bool {
    c == '-' || c == '_' || c == '/'
}

/// The lower-case form of an ASCII capital letter; any other character as it
/// is.
pub open spec fn ascii_lower(c: char) -> char {
    if 'A' <= c && c <= 'Z' {
        ((c as u32) + 32) as char
    } else {
        c
    }
}

/// A pair as an exchange spells it in a stream name: the separators dropped,
/// the ASCII letters in lower case.
pub open spec fn pair_code(raw: Seq<char>) -> Seq<char>
    decreases raw.len(),
{
    if raw.len() == 0 {
        Seq::empty()
    } else if is_separator(raw.last()) {
        pair_code(raw.drop_last())
    } else {
        pair_code(raw.drop_last()).push(ascii_lower(raw.last()))
    }
}

fn lower_ascii(c: char) -> (r: char)
    ensures
        r == ascii_lower(c),
{
    if 'A' <= c && c <= 'Z' {
        ((c as u8) + 32) as char
    } else {
        c
    }
}

/// Logical trading pair shared across exchanges, configured at runtime.
///
/// Stored as it was given, without the white space around it, and converted
/// per exchange as needed.
#[derive(Debug, Clone)]
pub struct TradingPair {
    raw: String,
}

impl View for TradingPair {
    type V = Seq<char>;

    /// The pair as it was configured.
    closed spec fn view(&self) -> Seq<char> {
        self.raw@
    }
}

impl TradingPair {
    /// Create from a string; returns `None` if empty/whitespace.
    pub fn from_str(s: &str) -> (r: Option<TradingPair>)
        ensures
            match r {
                Some(pair) => pair@ == trimmed(s@) && pair@.len() > 0,
                None => trimmed(s@).len() == 0,
            },
    {
        let raw = trim(s);
        if raw.as_str().unicode_len() == 0 {
            None
        } else {
            Some(TradingPair { raw })
        }
    }

    /// Default trading pair when none is configured.
    pub fn default_pair() -> (pair: TradingPair)
        ensures
            pair@ == "BTC-USDT"@,
    {
        TradingPair { raw: "BTC-USDT".to_owned() }
    }

    /// Human-readable form (as configured).
    pub fn as_str(&self) -> (s: &str)
        ensures
            s@ == self@,
    {
        self.raw.as_str()
    }

    /// Symbol used on Binance, e.g. "ethusdt", "solusdt".
    pub fn binance_symbol(&self) -> (symbol: String)
        ensures
            symbol@ == pair_code(self@),
    {
        self.code()
    }

    /// Pair code used on Bitstamp channels, e.g. "btcusd".
    pub fn bitstamp_pair_code(&self) -> (code: String)
        ensures
            code@ == pair_code(self@),
    {
        self.code()
    }

    fn code(&self) -> (code: String)
        ensures
            code@ == pair_code(self@),
    {
        let chars = chars_of(self.raw.as_str());
        let mut code = String::new();
        let mut i: usize = 0;
        while i < chars.len()
            invariant
                i <= chars.len(),
                code@ == pair_code(chars@.take(i as int)),
            decreases chars.len() - i,
        {
            let c = chars[i];
            assert(chars@.take(i + 1).drop_last() =~= chars@.take(i as int));
            if !(c == '-' || c == '_' || c == '/') {
                push_char(&mut code, lower_ascii(c));
            }
            i += 1;
        }
        assert(chars@.take(chars.len() as int) =~= chars@);
        code
    }
}

/// A normalized price level: at one exchange, on one side, the aggregate
/// resting size at `price` is now `quantity`. A quantity of zero says that
/// the level is gone.
#[derive(Debug, Clone, Copy, PartialEq, Eq, Structural)]
pub enum ExchangePrice {
    Binance {
        /// Price in cents.
        price: u64,
        /// Quantity in the smallest unit of the asset.
        quantity: u64,
        /// Time reported by the exchange, 0 if it reported none.
        exchange_timestamp: u64,
        /// Time at which the frame arrived, in milliseconds since the epoch.
        received_at: u64,
        side: Side,
    },
    Bitstamp {
        /// Price in cents.
        price: u64,
        /// Quantity in the smallest unit of the asset.
        quantity: u64,
        /// Time reported by the exchange, 0 if it reported none.
        exchange_timestamp: u64,
        /// Time at which the frame arrived, in milliseconds since the epoch.
        received_at: u64,
        side: Side,
    },
}

impl ExchangePrice {
    /// A level of `exchange` with the given fields.
    pub open spec fn level(
        exchange: Exchange,
        side: Side,
        price: u64,
        quantity: u64,
        exchange_timestamp: u64,
        received_at: u64,
    ) -> ExchangePrice {
        match exchange {
            Exchange::Binance => ExchangePrice::Binance {
                price,
                quantity,
                exchange_timestamp,
                received_at,
                side,
            },
            Exchange::Bitstamp => ExchangePrice::Bitstamp {
                price,
                quantity,
                exchange_timestamp,
                received_at,
                side,
            },
        }
    }

    /// A level of `exchange` with the given fields.
    pub fn new(
        exchange: Exchange,
        side: Side,
        price: u64,
        quantity: u64,
        exchange_timestamp: u64,
        received_at: u64,
    ) -> (level: ExchangePrice)
        ensures
            level == ExchangePrice::level(
                exchange,
                side,
                price,
                quantity,
                exchange_timestamp,
                received_at,
            ),
    {
        match exchange {
            Exchange::Binance => ExchangePrice::Binance {
                price,
                quantity,
                exchange_timestamp,
                received_at,
                side,
            },
            Exchange::Bitstamp => ExchangePrice::Bitstamp {
                price,
                quantity,
                exchange_timestamp,
                received_at,
                side,
            },
        }
    }

    /// The exchange that reported the level.
    pub open spec fn exchange_spec(&self) -> Exchange {
        match self {
            ExchangePrice::Binance { .. } => Exchange::Binance,
            ExchangePrice::Bitstamp { .. } => Exchange::Bitstamp,
        }
    }

    /// The side the level rests on.
    pub open spec fn side_spec(&self) -> Side {
        match self {
            ExchangePrice::Binance { side, .. } => *side,
            ExchangePrice::Bitstamp { side, .. } => *side,
        }
    }

    /// The price of the level, in cents.
    pub open spec fn price_spec(&self) -> u64 {
        match self {
            ExchangePrice::Binance { price, .. } => *price,
            ExchangePrice::Bitstamp { price, .. } => *price,
        }
    }

    /// The size now resting at the price, in the smallest unit.
    pub open spec fn quantity_spec(&self) -> u64 {
        match self {
            ExchangePrice::Binance { quantity, .. } => *quantity,
            ExchangePrice::Bitstamp { quantity, .. } => *quantity,
        }
    }

    /// The exchange that reported the level.
    #[verifier::when_used_as_spec(exchange_spec)]
    pub fn exchange(&self) -> (e: Exchange)
        ensures
            e == self.exchange_spec(),
    {
        match self {
            ExchangePrice::Binance { .. } => Exchange::Binance,
            ExchangePrice::Bitstamp { .. } => Exchange::Bitstamp,
        }
    }

    /// The side the level rests on.
    #[verifier::when_used_as_spec(side_spec)]
    pub fn side(&self) -> (s: Side)
        ensures
            s == self.side_spec(),
    {
        match self {
            ExchangePrice::Binance { side, .. } => *side,
            ExchangePrice::Bitstamp { side, .. } => *side,
        }
    }

    /// The price of the level, in cents.
    #[verifier::when_used_as_spec(price_spec)]
    pub fn price(&self) -> (p: u64)
        ensures
            p == self.price_spec(),
    {
        match self {
            ExchangePrice::Binance { price, .. } => *price,
            ExchangePrice::Bitstamp { price, .. } => *price,
        }
    }

    /// The size now resting at the price, in the smallest unit.
    #[verifier::when_used_as_spec(quantity_spec)]
    pub fn quantity(&self) -> (q: u64)
        ensures
            q == self.quantity_spec(),
    {
        match self {
            ExchangePrice::Binance { quantity, .. } => *quantity,
            ExchangePrice::Bitstamp { quantity, .. } => *quantity,
        }
    }
}

/// What an adapter puts on the bus: a price level, or the mark that opens a
/// full snapshot of one side of one exchange.
#[derive(Debug, Clone, Copy, PartialEq, Eq, Structural)]
pub enum BookEvent {
    /// The size at one price changed.
    Level(ExchangePrice),
    /// Everything held for `side` of `exchange` is dropped; the levels that
    /// follow build the side anew.
    ReplaceLadder { exchange: Exchange, side: Side },
}

/// The exchange whose ladder an event concerns.
pub open spec fn event_exchange(event: BookEvent) -> Exchange {
    match event {
        BookEvent::ReplaceLadder { exchange, .. } => exchange,
        BookEvent::Level(level) => level.exchange(),
    }
}

/// The side whose ladder an event concerns.
pub open spec fn event_side(event: BookEvent) -> Side {
    match event {
        BookEvent::ReplaceLadder { side, .. } => side,
        BookEvent::Level(level) => level.side(),
    }
}

} // verus!
