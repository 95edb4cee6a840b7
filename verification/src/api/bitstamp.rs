//! The adapter for Bitstamp, whose frames are tagged with an event name: the
//! first `data` frame after the subscription is a snapshot of both sides,
//! and those that follow carry changes, where a quantity of zero takes a
//! price away.

use crate::api::frame::{
    decode_side, frame_document, holds_list, lemma_side_events_stay_on_side, outcome_view,
    read_frame, side_events, Command, CommandView, FrameError, Phase, Signal,
};
use crate::api::json::{json_string_literal, quote_text, Json};
use crate::api::{pair_code, BookEvent, Exchange, Side, TradingPair};
use crate::orderbook::{lemma_other_ladders_stay, lemma_replace_forgets, replay};
use crate::text::{chars_of, same_text};
use crate::util::{parse_unsigned, unsigned_value};
use vstd::prelude::*;
use vstd::string::StringExecFns;

verus! {

/// The address of the exchange's stream.
pub const BITSTAMP_WS_URL: &'static str = "wss://ws.bitstamp.net";

/// The name of the order-book channel of a pair.
pub open spec fn channel_name(pair: Seq<char>) -> Seq<char> {
    "order_book_"@ + pair_code(pair)
}

/// The message that subscribes to the order-book channel of a pair.
pub open spec fn subscription(pair: Seq<char>) -> Seq<char> {
    "{\"event\":\"bts:subscribe\",\"data\":{\"channel\":"@ + json_string_literal(
        channel_name(pair),
    ) + "}}"@
}

/// Whether a document is a `data` frame: its event is `data` and it has a
/// member `data`.
pub open spec fn is_data_frame(document: Json) -> bool {
    (document.field("event"@) matches Some(Json::Text(kind)) && kind@ == "data"@)
        && document.field("data"@) is Some
}

/// The time that the data of a frame report: the member `microtimestamp`
/// where it is a text that reads as an unsigned number, and else 0.
pub open spec fn micro_time(data: Json) -> u64 {
    match data.field("microtimestamp"@) {
        Some(Json::Text(time)) => match unsigned_value(time@) {
            Some(time) => time,
            None => 0,
        },
        _ => 0,
    }
}

/// The events of a document: for a `data` frame the bids and then the asks
/// of its data, as a snapshot of each side if `snapshot` says so and else as
/// changes; for any other document none.
pub open spec fn bitstamp_events(document: Json, received_at: u64, snapshot: bool) -> Seq<
    BookEvent,
> {
    if is_data_frame(document) {
        let data = document.field("data"@).unwrap();
        side_events(
            data.field("bids"@),
            Exchange::Bitstamp,
            Side::Buy,
            micro_time(data),
            received_at,
            snapshot,
        ) + side_events(
            data.field("asks"@),
            Exchange::Bitstamp,
            Side::Sell,
            micro_time(data),
            received_at,
            snapshot,
        )
    } else {
        Seq::empty()
    }
}

/// The outcome of a frame: the events of its document, or the reason for
/// which it is dropped.
pub open spec fn bitstamp_frame(text: Seq<char>, received_at: u64, snapshot: bool) -> Result<
    Seq<BookEvent>,
    FrameError,
> {
    match frame_document(text) {
        Ok(document) => Ok(bitstamp_events(document, received_at, snapshot)),
        Err(reason) => Err(reason),
    }
}

/// Whether a frame is a `data` frame that passes the frame checks.
pub open spec fn carries_data(text: Seq<char>) -> bool {
    match frame_document(text) {
        Ok(document) => is_data_frame(document),
        Err(_) => false,
    }
}

/// The phase that follows `phase` on `signal`.
pub open spec fn bitstamp_next(phase: Phase, signal: Signal) -> Phase {
    match (phase, signal) {
        (Phase::Connecting, Signal::Connected) => Phase::Subscribing,
        (Phase::Subscribing, Signal::Sent) => Phase::Streaming,
        (Phase::Streaming, Signal::Text { .. }) => Phase::Streaming,
        (Phase::Streaming, Signal::Ping) => Phase::Streaming,
        (Phase::Streaming, Signal::Other) => Phase::Streaming,
        _ => Phase::Terminated,
    }
}

/// What the adapter asks for in `phase` on `signal`, where `request` is the
/// subscription it was started with and `snapshot` says whether it still
/// waits for its first `data` frame.
pub open spec fn bitstamp_command(
    phase: Phase,
    snapshot: bool,
    request: Seq<char>,
    signal: Signal,
) -> CommandView {
    match (phase, signal) {
        (Phase::Connecting, Signal::Connected) => CommandView::Send(request),
        (Phase::Subscribing, Signal::Sent) => CommandView::Receive,
        (Phase::Streaming, Signal::Text { text, received_at }) => match bitstamp_frame(
            text@,
            received_at,
            snapshot,
        ) {
            Ok(events) => CommandView::Publish(events),
            Err(_) => CommandView::Receive,
        },
        (Phase::Streaming, Signal::Ping) => CommandView::Receive,
        (Phase::Streaming, Signal::Other) => CommandView::Receive,
        _ => CommandView::Stop,
    }
}

/// Whether the adapter still waits for its first `data` frame after
/// `signal`, if it did before.
pub open spec fn still_awaits_snapshot(phase: Phase, signal: Signal) -> bool {
    match (phase, signal) {
        (Phase::Streaming, Signal::Text { text, .. }) => !carries_data(text@),
        _ => true,
    }
}

/// Whether a document that the frame checks have let through is a `data`
/// frame.
pub fn has_data(document: &Json) -> (r: bool)
    ensures
        r == is_data_frame(*document),
{
    let tagged = match document.get("event") {
        Some(kind) => match kind.as_str() {
            Some(kind) => same_text(kind, "data"),
            None => false,
        },
        None => false,
    };
    tagged && document.get("data").is_some()
}

/// The events of a document that the frame checks have let through.
pub fn decode(document: &Json, received_at: u64, snapshot: bool) -> (events: Vec<BookEvent>)
    ensures
        events@ == bitstamp_events(*document, received_at, snapshot),
{
    let mut events: Vec<BookEvent> = Vec::new();
    if !has_data(document) {
        return events;
    }
    let data = match document.get("data") {
        Some(data) => data,
        None => {
            return events;
        },
    };
    let exchange_timestamp: u64 = match data.get("microtimestamp") {
        Some(time) => match time.as_str() {
            Some(time) => match parse_unsigned(&chars_of(time)) {
                Some(time) => time,
                None => 0,
            },
            None => 0,
        },
        None => 0,
    };
    decode_side(
        data.get("bids"),
        Exchange::Bitstamp,
        Side::Buy,
        exchange_timestamp,
        received_at,
        snapshot,
        &mut events,
    );
    decode_side(
        data.get("asks"),
        Exchange::Bitstamp,
        Side::Sell,
        exchange_timestamp,
        received_at,
        snapshot,
        &mut events,
    );
    assert(events@ =~= bitstamp_events(*document, received_at, snapshot));
    events
}

/// The message that subscribes to the order-book channel of `pair`.
pub fn subscribe_message(pair: &TradingPair) -> (message: String)
    ensures
        message@ == subscription(pair@),
{
    let mut channel = String::from_str("order_book_");
    channel.append(pair.bitstamp_pair_code().as_str());
    let mut message = String::from_str("{\"event\":\"bts:subscribe\",\"data\":{\"channel\":");
    message.append(quote_text(channel.as_str()).as_str());
    message.append("}}");
    message
}

/// The Bitstamp adapter: it is told what the transport saw and says what the
/// transport is to do next.
#[derive(Debug)]
pub struct BitstampClient {
    phase: Phase,
    awaiting_snapshot: bool,
    request: String,
}

impl BitstampClient {
    /// The phase that the adapter is in.
    pub closed spec fn phase_spec(&self) -> Phase {
        self.phase
    }

    /// Whether the adapter has yet to see its first `data` frame.
    pub closed spec fn awaits_snapshot_spec(&self) -> bool {
        self.awaiting_snapshot
    }

    /// The subscription that the adapter sends once it is connected.
    pub closed spec fn request(&self) -> Seq<char> {
        self.request@
    }

    /// The phase that the adapter is in.
    #[verifier::when_used_as_spec(phase_spec)]
    pub fn phase(&self) -> (phase: Phase)
        ensures
            phase == self.phase_spec(),
    {
        self.phase
    }

    /// Whether the adapter has yet to see its first `data` frame, which it
    /// takes as the snapshot of both sides.
    #[verifier::when_used_as_spec(awaits_snapshot_spec)]
    pub fn awaits_snapshot(&self) -> (r: bool)
        ensures
            r == self.awaits_snapshot_spec(),
    {
        self.awaiting_snapshot
    }

    /// An adapter that has not yet been asked to listen.
    pub fn new() -> (client: BitstampClient)
        ensures
            client.phase() == Phase::Idle,
            client.awaits_snapshot(),
            client.request() == Seq::<char>::empty(),
    {
        BitstampClient { phase: Phase::Idle, awaiting_snapshot: true, request: String::new() }
    }

    /// Starts listening to the order book of `pair`: an idle adapter asks
    /// for the connection to the exchange and keeps the subscription for the
    /// pair to send it next. An adapter that has been started before is
    /// done.
    pub fn listen_pair(&mut self, pair: &TradingPair) -> (command: Command)
        ensures
            final(self).awaits_snapshot() == old(self).awaits_snapshot(),
            old(self).phase() == Phase::Idle ==> final(self).phase() == Phase::Connecting
                && final(self).request() == subscription(pair@) && command@
                == CommandView::Connect(BITSTAMP_WS_URL@),
            old(self).phase() != Phase::Idle ==> final(self).phase() == Phase::Terminated
                && final(self).request() == old(self).request() && command@ == CommandView::Stop,
    {
        match self.phase {
            Phase::Idle => {
                self.phase = Phase::Connecting;
                self.request = subscribe_message(pair);
                Command::Connect(String::from_str(BITSTAMP_WS_URL))
            },
            _ => {
                self.phase = Phase::Terminated;
                Command::Stop
            },
        }
    }

    /// Decodes one text frame that arrived at `received_at`. The first
    /// `data` frame is decoded as a snapshot, and the adapter waits for a
    /// snapshot no longer once it has seen one.
    pub fn handle_message(&mut self, text: &str, received_at: u64) -> (outcome: Result<
        Vec<BookEvent>,
        FrameError,
    >)
        ensures
            outcome_view(outcome) == bitstamp_frame(text@, received_at, old(self).awaits_snapshot()),
            final(self).awaits_snapshot() == (old(self).awaits_snapshot() && !carries_data(text@)),
            final(self).phase() == old(self).phase(),
            final(self).request() == old(self).request(),
    {
        match read_frame(text) {
            Ok(document) => {
                let events = decode(&document, received_at, self.awaiting_snapshot);
                if has_data(&document) {
                    self.awaiting_snapshot = false;
                }
                Ok(events)
            },
            Err(reason) => Err(reason),
        }
    }

    /// Takes what the transport reports and says what it is to do next.
    pub fn step(&mut self, signal: Signal) -> (command: Command)
        ensures
            final(self).phase() == bitstamp_next(old(self).phase(), signal),
            final(self).awaits_snapshot() == (old(self).awaits_snapshot() && still_awaits_snapshot(
                old(self).phase(),
                signal,
            )),
            final(self).request() == old(self).request(),
            command@ == bitstamp_command(
                old(self).phase(),
                old(self).awaits_snapshot(),
                old(self).request(),
                signal,
            ),
    {
        match (self.phase, signal) {
            (Phase::Connecting, Signal::Connected) => {
                self.phase = Phase::Subscribing;
                Command::Send(self.request.clone())
            },
            (Phase::Subscribing, Signal::Sent) => {
                self.phase = Phase::Streaming;
                Command::Receive
            },
            (Phase::Streaming, Signal::Text { text, received_at }) => {
                match self.handle_message(text.as_str(), received_at) {
                    Ok(events) => Command::Publish(events),
                    Err(_) => Command::Receive,
                }
            },
            (Phase::Streaming, Signal::Ping) => Command::Receive,
            (Phase::Streaming, Signal::Other) => Command::Receive,
            _ => {
                self.phase = Phase::Terminated;
                Command::Stop
            },
        }
    }
}

/// Whether a document is a `data` frame whose data carry a list for `side`.
pub open spec fn carries_side(document: Json, side: Side) -> bool {
    is_data_frame(document) && holds_list(
        match side {
            Side::Buy => document.field("data"@).unwrap().field("bids"@),
            Side::Sell => document.field("data"@).unwrap().field("asks"@),
        },
    )
}

/// A frame changes no ladder of another exchange.
pub proof fn lemma_bitstamp_frame_keeps_to_bitstamp(
    document: Json,
    received_at: u64,
    snapshot: bool,
    ladder: Map<u64, u64>,
    side: Side,
)
    ensures
        replay(ladder, Exchange::Binance, side, bitstamp_events(document, received_at, snapshot))
            == ladder,
{
    if is_data_frame(document) {
        let data = document.field("data"@).unwrap();
        lemma_side_events_stay_on_side(
            data.field("bids"@),
            Exchange::Bitstamp,
            Side::Buy,
            micro_time(data),
            received_at,
            snapshot,
        );
        lemma_side_events_stay_on_side(
            data.field("asks"@),
            Exchange::Bitstamp,
            Side::Sell,
            micro_time(data),
            received_at,
            snapshot,
        );
    }
    lemma_other_ladders_stay(
        ladder,
        Exchange::Binance,
        side,
        bitstamp_events(document, received_at, snapshot),
    );
}

/// The first `data` frame is a snapshot of each side that it carries a list
/// for: what the ladder of the side holds after the frame does not depend on
/// what it held before.
pub proof fn lemma_first_frame_is_a_snapshot(
    document: Json,
    received_at: u64,
    side: Side,
    first: Map<u64, u64>,
    second: Map<u64, u64>,
)
    requires
        carries_side(document, side),
    ensures
        replay(first, Exchange::Bitstamp, side, bitstamp_events(document, received_at, true))
            == replay(
            second,
            Exchange::Bitstamp,
            side,
            bitstamp_events(document, received_at, true),
        ),
{
    let data = document.field("data"@).unwrap();
    let bids = side_events(
        data.field("bids"@),
        Exchange::Bitstamp,
        Side::Buy,
        micro_time(data),
        received_at,
        true,
    );
    let asks = side_events(
        data.field("asks"@),
        Exchange::Bitstamp,
        Side::Sell,
        micro_time(data),
        received_at,
        true,
    );
    lemma_side_events_stay_on_side(
        data.field("bids"@),
        Exchange::Bitstamp,
        Side::Buy,
        micro_time(data),
        received_at,
        true,
    );
    lemma_side_events_stay_on_side(
        data.field("asks"@),
        Exchange::Bitstamp,
        Side::Sell,
        micro_time(data),
        received_at,
        true,
    );
    let events = bitstamp_events(document, received_at, true);
    assert(events == bids + asks);
    match side {
        Side::Buy => {
            assert(events[0] == bids[0]);
            lemma_replace_forgets(first, second, Exchange::Bitstamp, side, events, 0);
        },
        Side::Sell => {
            assert(events[bids.len() as int] == asks[0]);
            lemma_replace_forgets(
                first,
                second,
                Exchange::Bitstamp,
                side,
                events,
                bids.len() as int,
            );
        },
    }
}

/// An adapter never goes back to an earlier phase, and one that is done
/// stays done and asks for nothing more.
pub proof fn lemma_bitstamp_moves_forward(
    phase: Phase,
    snapshot: bool,
    request: Seq<char>,
    signal: Signal,
)
    ensures
        bitstamp_next(phase, signal).order() >= phase.order(),
        phase == Phase::Terminated ==> bitstamp_next(phase, signal) == Phase::Terminated
            && bitstamp_command(phase, snapshot, request, signal) == CommandView::Stop,
        bitstamp_next(phase, signal) == Phase::Terminated <==> bitstamp_command(
            phase,
            snapshot,
            request,
            signal,
        ) == CommandView::Stop,
{
}

} // verus!
