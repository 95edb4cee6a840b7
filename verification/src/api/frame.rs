//! What the two adapters share: the checks that every frame passes before it
//! is decoded, the decoding of a list of `[price, quantity]` entries, and the
//! phases of an adapter's life.

use crate::api::json::{json_document, parse_document, Json};
use crate::api::{event_exchange, event_side, BookEvent, Exchange, ExchangePrice, Side};
use crate::util::{fixed_point_value, parse_price_cents, parse_quantity_smallest_unit};
use vstd::prelude::*;
use vstd::utf8::encode_utf8;

verus! {

/// The longest frame, in bytes, that an adapter reads.
pub const MAX_FRAME_BYTES: usize = 100_000;

/// The decimal places of a quantity: the smallest unit is a hundred
/// millionth.
pub const QUANTITY_DECIMALS: u32 = 8;

/// Why a frame is dropped before it is decoded.
#[derive(Debug, Clone, Copy, PartialEq, Eq, Structural)]
pub enum FrameError {
    /// The frame is longer than `MAX_FRAME_BYTES`.
    TooLarge,
    /// The frame is not one JSON document.
    Malformed,
    /// The document is not a mapping.
    NotAnObject,
}

/// The document of a frame, or the reason for which the frame is dropped:
/// its length is looked at first, then whether it is JSON, then whether the
/// document is a mapping.
pub open spec fn frame_document(text: Seq<char>) -> Result<Json, FrameError> {
    if byte_length(text) > MAX_FRAME_BYTES {
        Err(FrameError::TooLarge)
    } else {
        frame_checked(json_document(text))
    }
}

/// The length of a text in bytes, as UTF-8.
pub open spec fn byte_length(text: Seq<char>) -> nat {
    encode_utf8(text).len()
}

/// What becomes of a frame of accepted length, given what the JSON reader
/// made of it.
pub open spec fn frame_checked(parsed: Option<Json>) -> Result<Json, FrameError> {
    match parsed {
        None => Err(FrameError::Malformed),
        Some(document) => if document is Object {
            Ok(document)
        } else {
            Err(FrameError::NotAnObject)
        },
    }
}

/// Accepts what the JSON reader made of a frame if it is a mapping.
pub fn check_frame(parsed: Option<Json>) -> (r: Result<Json, FrameError>)
    ensures
        r == frame_checked(parsed),
{
    match parsed {
        None => Err(FrameError::Malformed),
        Some(document) => if document.is_object() {
            Ok(document)
        } else {
            Err(FrameError::NotAnObject)
        },
    }
}

/// Reads a frame into its document, or says why the frame is dropped.
pub fn read_frame(text: &str) -> (r: Result<Json, FrameError>)
    ensures
        r == frame_document(text@),
{
    if text.as_bytes().len() > MAX_FRAME_BYTES {
        return Err(FrameError::TooLarge);
    }
    check_frame(parse_document(text))
}

/// The level that one entry of a depth list stands for: the entry must be a
/// list of at least two items of which the first two are texts, the first a
/// price and the second a quantity that the codec can read. Any other entry
/// stands for no level.
pub open spec fn level_of(
    entry: Json,
    exchange: Exchange,
    side: Side,
    exchange_timestamp: u64,
    received_at: u64,
) -> Option<ExchangePrice> {
    match entry {
        Json::List(items) => if items@.len() >= 2 {
            match (items@[0], items@[1]) {
                (Json::Text(price_text), Json::Text(quantity_text)) => match (
                    fixed_point_value(price_text@, 2),
                    fixed_point_value(quantity_text@, QUANTITY_DECIMALS as nat),
                ) {
                    (Some(price), Some(quantity)) => Some(
                        ExchangePrice::level(
                            exchange,
                            side,
                            price,
                            quantity,
                            exchange_timestamp,
                            received_at,
                        ),
                    ),
                    _ => None,
                },
                _ => None,
            }
        } else {
            None
        },
        _ => None,
    }
}

/// The level events of a depth list, in the order of its entries; an entry
/// that stands for no level is passed over.
pub open spec fn levels_of(
    entries: Seq<Json>,
    exchange: Exchange,
    side: Side,
    exchange_timestamp: u64,
    received_at: u64,
) -> Seq<BookEvent>
    decreases entries.len(),
{
    if entries.len() == 0 {
        Seq::empty()
    } else {
        let before = levels_of(
            entries.drop_last(),
            exchange,
            side,
            exchange_timestamp,
            received_at,
        );
        match level_of(entries.last(), exchange, side, exchange_timestamp, received_at) {
            Some(level) => before.push(BookEvent::Level(level)),
            None => before,
        }
    }
}

/// The events of one side of a frame. Where the frame carries a list for the
/// side, these are the levels of the list, after a `ReplaceLadder` if the
/// list is a full snapshot of the side. Where it carries none, or something
/// that is no list, there are no events.
pub open spec fn side_events(
    found: Option<Json>,
    exchange: Exchange,
    side: Side,
    exchange_timestamp: u64,
    received_at: u64,
    snapshot: bool,
) -> Seq<BookEvent> {
    match found {
        Some(Json::List(entries)) => {
            let opening = if snapshot {
                seq![BookEvent::ReplaceLadder { exchange, side }]
            } else {
                Seq::empty()
            };
            opening + levels_of(entries@, exchange, side, exchange_timestamp, received_at)
        },
        _ => Seq::empty(),
    }
}

/// Whether a member is there and is a list.
pub open spec fn holds_list(found: Option<Json>) -> bool {
    match found {
        Some(Json::List(_)) => true,
        _ => false,
    }
}

/// Every event of a side of a frame concerns the ladder of that side of the
/// exchange, and where the side is a snapshot of a list, its first event is
/// the `ReplaceLadder` of the ladder.
pub proof fn lemma_side_events_stay_on_side(
    found: Option<Json>,
    exchange: Exchange,
    side: Side,
    exchange_timestamp: u64,
    received_at: u64,
    snapshot: bool,
)
    ensures
        forall|k: int|
            0 <= k < side_events(
                found,
                exchange,
                side,
                exchange_timestamp,
                received_at,
                snapshot,
            ).len() ==> event_exchange(
                #[trigger] side_events(
                    found,
                    exchange,
                    side,
                    exchange_timestamp,
                    received_at,
                    snapshot,
                )[k],
            ) == exchange && event_side(
                side_events(found, exchange, side, exchange_timestamp, received_at, snapshot)[k],
            ) == side,
        snapshot && holds_list(found) ==> side_events(
            found,
            exchange,
            side,
            exchange_timestamp,
            received_at,
            snapshot,
        ).len() > 0 && side_events(
            found,
            exchange,
            side,
            exchange_timestamp,
            received_at,
            snapshot,
        )[0] == (BookEvent::ReplaceLadder { exchange, side }),
{
    match found {
        Some(Json::List(entries)) => {
            lemma_levels_stay_on_side(entries@, exchange, side, exchange_timestamp, received_at);
        },
        _ => {},
    }
}

/// Every level event of a depth list concerns the ladder it was decoded for.
proof fn lemma_levels_stay_on_side(
    entries: Seq<Json>,
    exchange: Exchange,
    side: Side,
    exchange_timestamp: u64,
    received_at: u64,
)
    ensures
        forall|k: int|
            0 <= k < levels_of(entries, exchange, side, exchange_timestamp, received_at).len()
                ==> event_exchange(
                #[trigger] levels_of(entries, exchange, side, exchange_timestamp, received_at)[k],
            ) == exchange && event_side(
                levels_of(entries, exchange, side, exchange_timestamp, received_at)[k],
            ) == side,
    decreases entries.len(),
{
    if entries.len() > 0 {
        lemma_levels_stay_on_side(
            entries.drop_last(),
            exchange,
            side,
            exchange_timestamp,
            received_at,
        );
    }
}

/// Decodes one entry of a depth list.
pub fn decode_level(
    entry: &Json,
    exchange: Exchange,
    side: Side,
    exchange_timestamp: u64,
    received_at: u64,
) -> (r: Option<ExchangePrice>)
    ensures
        r == level_of(*entry, exchange, side, exchange_timestamp, received_at),
{
    let items = match entry.as_array() {
        Some(items) => items,
        None => {
            return None;
        },
    };
    if items.len() < 2 {
        return None;
    }
    let price_text = match items[0].as_str() {
        Some(text) => text,
        None => {
            return None;
        },
    };
    let quantity_text = match items[1].as_str() {
        Some(text) => text,
        None => {
            return None;
        },
    };
    let price = parse_price_cents(price_text);
    let quantity = parse_quantity_smallest_unit(quantity_text, QUANTITY_DECIMALS);
    match (price, quantity) {
        (Some(price), Some(quantity)) => Some(
            ExchangePrice::new(exchange, side, price, quantity, exchange_timestamp, received_at),
        ),
        _ => None,
    }
}

/// Appends the events of one side of a frame to `events`.
pub fn decode_side(
    found: Option<&Json>,
    exchange: Exchange,
    side: Side,
    exchange_timestamp: u64,
    received_at: u64,
    snapshot: bool,
    events: &mut Vec<BookEvent>,
)
    ensures
        final(events)@ == old(events)@ + side_events(
            match found {
                Some(list) => Some(*list),
                None => None,
            },
            exchange,
            side,
            exchange_timestamp,
            received_at,
            snapshot,
        ),
{
    let ghost start = events@;
    let entries = match found {
        Some(list) => match list.as_array() {
            Some(entries) => entries,
            None => {
                assert(events@ =~= start + Seq::<BookEvent>::empty());
                return ;
            },
        },
        None => {
            assert(events@ =~= start + Seq::<BookEvent>::empty());
            return ;
        },
    };
    if snapshot {
        events.push(BookEvent::ReplaceLadder { exchange, side });
    }
    let ghost opened = events@;
    let mut i: usize = 0;
    assert(entries@.take(0) =~= Seq::<Json>::empty());
    assert(events@ =~= opened + levels_of(
        entries@.take(0),
        exchange,
        side,
        exchange_timestamp,
        received_at,
    ));
    while i < entries.len()
        invariant
            i <= entries.len(),
            events@ == opened + levels_of(
                entries@.take(i as int),
                exchange,
                side,
                exchange_timestamp,
                received_at,
            ),
        decreases entries.len() - i,
    {
        assert(entries@.take(i + 1).drop_last() =~= entries@.take(i as int));
        assert(entries@.take(i + 1).last() == entries@[i as int]);
        match decode_level(&entries[i], exchange, side, exchange_timestamp, received_at) {
            Some(level) => {
                events.push(BookEvent::Level(level));
            },
            None => {},
        }
        i += 1;
        assert(events@ =~= opened + levels_of(
            entries@.take(i as int),
            exchange,
            side,
            exchange_timestamp,
            received_at,
        ));
    }
    assert(entries@.take(entries.len() as int) =~= entries@);
    assert(events@ =~= start + side_events(
        match found {
            Some(list) => Some(*list),
            None => None,
        },
        exchange,
        side,
        exchange_timestamp,
        received_at,
        snapshot,
    ));
}

/// The outcome of a frame as specifications see it: its events, or the reason
/// for which it is dropped.
pub open spec fn outcome_view(outcome: Result<Vec<BookEvent>, FrameError>) -> Result<
    Seq<BookEvent>,
    FrameError,
> {
    match outcome {
        Ok(events) => Ok(events@),
        Err(reason) => Err(reason),
    }
}

/// The phases of an adapter's life, in the order in which it passes through
/// them.
#[derive(Debug, Clone, Copy, PartialEq, Eq, Structural)]
pub enum Phase {
    /// Made, and not yet asked to listen.
    Idle,
    /// Waiting for the connection to the exchange.
    Connecting,
    /// Connected, and waiting for its subscription to be sent.
    Subscribing,
    /// Reading frames.
    Streaming,
    /// Done; a new adapter is needed to listen again.
    Terminated,
}

impl Phase {
    /// The place of a phase in an adapter's life.
    pub open spec fn order(&self) -> nat {
        match self {
            Phase::Idle => 0,
            Phase::Connecting => 1,
            Phase::Subscribing => 2,
            Phase::Streaming => 3,
            Phase::Terminated => 4,
        }
    }
}

/// What the transport reports to an adapter.
#[derive(Debug, PartialEq, Eq)]
pub enum Signal {
    /// The connection stands.
    Connected,
    /// The connection could not be made.
    ConnectFailed,
    /// The message that the adapter asked to send is sent.
    Sent,
    /// The message could not be sent.
    SendFailed,
    /// A text frame arrived at the given time, in milliseconds since the
    /// epoch.
    Text { text: String, received_at: u64 },
    /// A ping arrived.
    Ping,
    /// A frame of another kind arrived.
    Other,
    /// The exchange closed the connection, or the stream of frames ended.
    Closed,
    /// The socket reported an error.
    Failed,
    /// The bus no longer takes events.
    BusClosed,
}

/// What an adapter asks of the transport.
#[derive(Debug, PartialEq, Eq)]
pub enum Command {
    /// Connect to this address and report `Connected` or `ConnectFailed`.
    Connect(String),
    /// Send this text and report `Sent` or `SendFailed`.
    Send(String),
    /// Wait for the next frame and report it.
    Receive,
    /// Put these events on the bus in this order, then wait for the next
    /// frame; report `BusClosed` if the bus does not take them.
    Publish(Vec<BookEvent>),
    /// Give up the connection; the adapter is done.
    Stop,
}

/// A command as specifications see it.
pub ghost enum CommandView {
    Connect(Seq<char>),
    Send(Seq<char>),
    Receive,
    Publish(Seq<BookEvent>),
    Stop,
}

impl View for Command {
    type V = CommandView;

    open spec fn view(&self) -> CommandView {
        match self {
            Command::Connect(address) => CommandView::Connect(address@),
            Command::Send(text) => CommandView::Send(text@),
            Command::Receive => CommandView::Receive,
            Command::Publish(events) => CommandView::Publish(events@),
            Command::Stop => CommandView::Stop,
        }
    }
}

} // verus!
