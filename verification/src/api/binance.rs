//! The adapter for Binance, whose frames each carry the whole top of both
//! sides: every frame is a snapshot, and each side it carries is announced
//! by a `ReplaceLadder`.

use crate::api::frame::{
    decode_side, frame_document, holds_list, lemma_side_events_stay_on_side, outcome_view,
    read_frame, side_events, Command, CommandView, FrameError, Phase, Signal,
};
use crate::api::json::Json;
use crate::api::{pair_code, BookEvent, Exchange, Side, TradingPair};
use crate::orderbook::{lemma_other_ladders_stay, lemma_replace_forgets, replay};
use crate::text::same_text;
use vstd::prelude::*;
use vstd::string::StringExecFns;

verus! {

/// The address of a depth stream up to the symbol.
pub const BINANCE_WS_PREFIX: &'static str = "wss://stream.binance.com:9443/ws/";

/// The address of a depth stream behind the symbol: twenty levels, every
/// hundred milliseconds.
pub const BINANCE_WS_SUFFIX: &'static str = "@depth20@100ms";

/// The address of the depth stream of a pair.
pub open spec fn stream_address(pair: Seq<char>) -> Seq<char> {
    BINANCE_WS_PREFIX@ + pair_code(pair) + BINANCE_WS_SUFFIX@
}

/// Whether a document is a depth frame: a streamed update, tagged as
/// `depthUpdate`, or a snapshot, which carries a `lastUpdateId`.
pub open spec fn is_depth_frame(document: Json) -> bool {
    document.field("lastUpdateId"@) is Some || (document.field("e"@) matches Some(Json::Text(kind))
        && kind@ == "depthUpdate"@)
}

/// The time that a depth frame reports, 0 where it reports none.
pub open spec fn event_time(document: Json) -> u64 {
    match document.field("E"@) {
        Some(Json::Unsigned(time)) => time,
        _ => 0,
    }
}

/// The first of two members that is there.
pub open spec fn either(first: Option<Json>, second: Option<Json>) -> Option<Json> {
    match first {
        Some(_) => first,
        None => second,
    }
}

/// The events of a document: for a depth frame the bids and then the asks,
/// each side read from the short key of the stream or else from the long key
/// of a snapshot, and each as a full snapshot of its side; for any other
/// document none.
pub open spec fn binance_events(document: Json, received_at: u64) -> Seq<BookEvent> {
    if is_depth_frame(document) {
        side_events(
            either(document.field("b"@), document.field("bids"@)),
            Exchange::Binance,
            Side::Buy,
            event_time(document),
            received_at,
            true,
        ) + side_events(
            either(document.field("a"@), document.field("asks"@)),
            Exchange::Binance,
            Side::Sell,
            event_time(document),
            received_at,
            true,
        )
    } else {
        Seq::empty()
    }
}

/// The outcome of a frame: the events of its document, or the reason for
/// which it is dropped.
pub open spec fn binance_frame(text: Seq<char>, received_at: u64) -> Result<
    Seq<BookEvent>,
    FrameError,
> {
    match frame_document(text) {
        Ok(document) => Ok(binance_events(document, received_at)),
        Err(reason) => Err(reason),
    }
}

/// The phase that follows `phase` on `signal`.
pub open spec fn binance_next(phase: Phase, signal: Signal) -> Phase {
    match (phase, signal) {
        (Phase::Connecting, Signal::Connected) => Phase::Streaming,
        (Phase::Streaming, Signal::Text { .. }) => Phase::Streaming,
        (Phase::Streaming, Signal::Ping) => Phase::Streaming,
        (Phase::Streaming, Signal::Other) => Phase::Streaming,
        _ => Phase::Terminated,
    }
}

/// What the adapter asks for in `phase` on `signal`.
pub open spec fn binance_command(phase: Phase, signal: Signal) -> CommandView {
    match (phase, signal) {
        (Phase::Connecting, Signal::Connected) => CommandView::Receive,
        (Phase::Streaming, Signal::Text { text, received_at }) => match binance_frame(
            text@,
            received_at,
        ) {
            Ok(events) => CommandView::Publish(events),
            Err(_) => CommandView::Receive,
        },
        (Phase::Streaming, Signal::Ping) => CommandView::Receive,
        (Phase::Streaming, Signal::Other) => CommandView::Receive,
        _ => CommandView::Stop,
    }
}

/// The events of a document that the frame checks have let through.
pub fn decode(document: &Json, received_at: u64) -> (events: Vec<BookEvent>)
    ensures
        events@ == binance_events(*document, received_at),
{
    let mut events: Vec<BookEvent> = Vec::new();
    let is_snapshot = document.get("lastUpdateId").is_some();
    let is_update = match document.get("e") {
        Some(kind) => match kind.as_str() {
            Some(kind) => same_text(kind, "depthUpdate"),
            None => false,
        },
        None => false,
    };
    if !is_snapshot && !is_update {
        return events;
    }
    let exchange_timestamp: u64 = match document.get("E") {
        Some(time) => match time.as_u64() {
            Some(time) => time,
            None => 0,
        },
        None => 0,
    };
    let bids = match document.get("b") {
        Some(list) => Some(list),
        None => document.get("bids"),
    };
    let asks = match document.get("a") {
        Some(list) => Some(list),
        None => document.get("asks"),
    };
    decode_side(
        bids,
        Exchange::Binance,
        Side::Buy,
        exchange_timestamp,
        received_at,
        true,
        &mut events,
    );
    decode_side(
        asks,
        Exchange::Binance,
        Side::Sell,
        exchange_timestamp,
        received_at,
        true,
        &mut events,
    );
    assert(events@ =~= binance_events(*document, received_at));
    events
}

/// The Binance adapter: it is told what the transport saw and says what the
/// transport is to do next.
#[derive(Debug)]
pub struct BinanceClient {
    phase: Phase,
}

impl BinanceClient {
    /// The phase that the adapter is in.
    pub closed spec fn phase_spec(&self) -> Phase {
        self.phase
    }

    /// The phase that the adapter is in.
    #[verifier::when_used_as_spec(phase_spec)]
    pub fn phase(&self) -> (phase: Phase)
        ensures
            phase == self.phase_spec(),
    {
        self.phase
    }

    /// An adapter that has not yet been asked to listen.
    pub fn new() -> (client: BinanceClient)
        ensures
            client.phase() == Phase::Idle,
    {
        BinanceClient { phase: Phase::Idle }
    }

    /// Starts listening to the depth stream of `pair`: an idle adapter asks
    /// for the connection to the stream's address. An adapter that has been
    /// started before is done.
    pub fn listen_pair(&mut self, pair: &TradingPair) -> (command: Command)
        ensures
            old(self).phase() == Phase::Idle ==> final(self).phase() == Phase::Connecting
                && command@ == CommandView::Connect(stream_address(pair@)),
            old(self).phase() != Phase::Idle ==> final(self).phase() == Phase::Terminated
                && command@ == CommandView::Stop,
    {
        match self.phase {
            Phase::Idle => {
                self.phase = Phase::Connecting;
                let mut address = String::from_str(BINANCE_WS_PREFIX);
                address.append(pair.binance_symbol().as_str());
                address.append(BINANCE_WS_SUFFIX);
                Command::Connect(address)
            },
            _ => {
                self.phase = Phase::Terminated;
                Command::Stop
            },
        }
    }

    /// Decodes one text frame that arrived at `received_at`.
    pub fn handle_message(text: &str, received_at: u64) -> (outcome: Result<
        Vec<BookEvent>,
        FrameError,
    >)
        ensures
            outcome_view(outcome) == binance_frame(text@, received_at),
    {
        match read_frame(text) {
            Ok(document) => Ok(decode(&document, received_at)),
            Err(reason) => Err(reason),
        }
    }

    /// Takes what the transport reports and says what it is to do next.
    pub fn step(&mut self, signal: Signal) -> (command: Command)
        ensures
            final(self).phase() == binance_next(old(self).phase(), signal),
            command@ == binance_command(old(self).phase(), signal),
    {
        match (self.phase, signal) {
            (Phase::Connecting, Signal::Connected) => {
                self.phase = Phase::Streaming;
                Command::Receive
            },
            (Phase::Streaming, Signal::Text { text, received_at }) => {
                match BinanceClient::handle_message(text.as_str(), received_at) {
                    Ok(events) => Command::Publish(events),
                    Err(_) => Command::Receive,
                }
            },
            (Phase::Streaming, Signal::Ping) => Command::Receive,
            (Phase::Streaming, Signal::Other) => Command::Receive,
            _ => {
                self.phase = Phase::Terminated;
                Command::Stop
            },
        }
    }
}

/// Whether a document is a depth frame that carries a list for `side`.
pub open spec fn carries_side(document: Json, side: Side) -> bool {
    is_depth_frame(document) && holds_list(
        match side {
            Side::Buy => either(document.field("b"@), document.field("bids"@)),
            Side::Sell => either(document.field("a"@), document.field("asks"@)),
        },
    )
}

/// A frame changes no ladder of another exchange.
pub proof fn lemma_binance_frame_keeps_to_binance(
    document: Json,
    received_at: u64,
    ladder: Map<u64, u64>,
    side: Side,
)
    ensures
        replay(ladder, Exchange::Bitstamp, side, binance_events(document, received_at)) == ladder,
{
    let time = event_time(document);
    lemma_side_events_stay_on_side(
        either(document.field("b"@), document.field("bids"@)),
        Exchange::Binance,
        Side::Buy,
        time,
        received_at,
        true,
    );
    lemma_side_events_stay_on_side(
        either(document.field("a"@), document.field("asks"@)),
        Exchange::Binance,
        Side::Sell,
        time,
        received_at,
        true,
    );
    lemma_other_ladders_stay(ladder, Exchange::Bitstamp, side, binance_events(document, received_at));
}

/// A depth frame that carries a list for a side is a snapshot of that side:
/// what the ladder of the side holds after the frame does not depend on what
/// it held before, so no level of an earlier frame is left over.
pub proof fn lemma_binance_frame_is_a_snapshot(
    document: Json,
    received_at: u64,
    side: Side,
    first: Map<u64, u64>,
    second: Map<u64, u64>,
)
    requires
        carries_side(document, side),
    ensures
        replay(first, Exchange::Binance, side, binance_events(document, received_at)) == replay(
            second,
            Exchange::Binance,
            side,
            binance_events(document, received_at),
        ),
{
    let time = event_time(document);
    let bids = side_events(
        either(document.field("b"@), document.field("bids"@)),
        Exchange::Binance,
        Side::Buy,
        time,
        received_at,
        true,
    );
    let asks = side_events(
        either(document.field("a"@), document.field("asks"@)),
        Exchange::Binance,
        Side::Sell,
        time,
        received_at,
        true,
    );
    lemma_side_events_stay_on_side(
        either(document.field("b"@), document.field("bids"@)),
        Exchange::Binance,
        Side::Buy,
        time,
        received_at,
        true,
    );
    lemma_side_events_stay_on_side(
        either(document.field("a"@), document.field("asks"@)),
        Exchange::Binance,
        Side::Sell,
        time,
        received_at,
        true,
    );
    let events = binance_events(document, received_at);
    assert(events == bids + asks);
    match side {
        Side::Buy => {
            assert(events[0] == bids[0]);
            lemma_replace_forgets(first, second, Exchange::Binance, side, events, 0);
        },
        Side::Sell => {
            assert(events[bids.len() as int] == asks[0]);
            lemma_replace_forgets(
                first,
                second,
                Exchange::Binance,
                side,
                events,
                bids.len() as int,
            );
        },
    }
}

/// An adapter never goes back to an earlier phase, and one that is done
/// stays done and asks for nothing more.
pub proof fn lemma_binance_moves_forward(phase: Phase, signal: Signal)
    ensures
        binance_next(phase, signal).order() >= phase.order(),
        phase == Phase::Terminated ==> binance_next(phase, signal) == Phase::Terminated
            && binance_command(phase, signal) == CommandView::Stop,
        binance_next(phase, signal) == Phase::Terminated <==> binance_command(phase, signal)
            == CommandView::Stop,
{
}

} // verus!
