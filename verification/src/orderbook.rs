//! The aggregator: per exchange and side a price ladder, and the merged
//! top-of-book over all of them.

use crate::api::{event_exchange, event_side, BookEvent, Exchange, ExchangePrice, Side};
use dashmap::DashMap;
use std::collections::BTreeMap;
use vstd::prelude::*;
use vstd::std_specs::cmp::OrdSpec;
use vstd::std_specs::iter::IteratorSpec;

verus! {

/// `dashmap::DashMap`, the sharded concurrent hash map. Nothing inside it is
/// visible to the verifier.
#[verifier::external_type_specification]
#[verifier::external_body]
#[verifier::reject_recursive_types(K)]
#[verifier::reject_recursive_types(V)]
#[verifier::reject_recursive_types(S)]
pub struct ExDashMap<K, V, S>(DashMap<K, V, S>);

/// The ladders that a map of ladders holds, keyed by the rank of their
/// exchange.
pub uninterp spec fn ladders_in(shelf: DashMap<u8, BTreeMap<u64, u64>>) -> Map<u8, Map<u64, u64>>;

/// `DashMap::new`: a map that holds nothing.
#[verifier::external_body]
fn shelf_new() -> (shelf: DashMap<u8, BTreeMap<u64, u64>>)
    ensures
        (ladders_in(shelf) == Map::<u8, Map<u64, u64>>::empty()),
{
    DashMap::new()
}

/// `DashMap::remove`: takes the ladder under `key` out of the map and hands it
/// over, if there is one; the other entries stay as they are.
#[verifier::external_body]
fn shelf_take(shelf: &mut DashMap<u8, BTreeMap<u64, u64>>, key: u8) -> (taken: Option<
    BTreeMap<u64, u64>,
>)
    ensures
        ladders_in(*final(shelf)) == ladders_in(*old(shelf)).remove(key),
        match taken {
            Some(ladder) => ladders_in(*old(shelf)).contains_key(key) && ladders_in(
                *old(shelf),
            )[key] == ladder@,
            None => !ladders_in(*old(shelf)).contains_key(key),
        },
{
    shelf.remove(&key).map(|entry| entry.1)
}

/// `DashMap::insert`: puts `ladder` under `key`, in place of what was there;
/// the other entries stay as they are.
#[verifier::external_body]
fn shelf_put(shelf: &mut DashMap<u8, BTreeMap<u64, u64>>, key: u8, ladder: BTreeMap<u64, u64>)
    ensures
        ladders_in(*final(shelf)) == ladders_in(*old(shelf)).insert(key, ladder@),
{
    shelf.insert(key, ladder);
}

/// `DashMap::get`: a copy of the ladder under `key`, if there is one.
#[verifier::external_body]
fn shelf_get(shelf: &DashMap<u8, BTreeMap<u64, u64>>, key: u8) -> (found: Option<
    BTreeMap<u64, u64>,
>)
    ensures
        match found {
            Some(ladder) => ladders_in(*shelf).contains_key(key) && ladders_in(*shelf)[key]
                == ladder@,
            None => !ladders_in(*shelf).contains_key(key),
        },
{
    shelf.get(&key).map(|entry| entry.value().clone())
}

/// The levels that a stored ladder quotes: its entries with a positive
/// quantity.
pub open spec fn quoted(stored: Map<u64, u64>) -> Map<u64, u64> {
    Map::new(|price: u64| stored.contains_key(price) && stored[price] > 0, |price: u64| stored[price])
}

/// A ladder after one event, seen from the ladder of `exchange` and `side`.
///
/// An event for another exchange or side leaves it alone. A `ReplaceLadder`
/// empties it. A level with quantity zero removes its price; any other level
/// sets the quantity at its price, whatever was there.
pub open spec fn ladder_after(
    ladder: Map<u64, u64>,
    exchange: Exchange,
    side: Side,
    event: BookEvent,
) -> Map<u64, u64> {
    match event {
        BookEvent::ReplaceLadder { exchange: e, side: s } => if e == exchange && s == side {
            Map::empty()
        } else {
            ladder
        },
        BookEvent::Level(level) => if level.exchange() == exchange && level.side() == side {
            if level.quantity() == 0 {
                ladder.remove(level.price())
            } else {
                ladder.insert(level.price(), level.quantity())
            }
        } else {
            ladder
        },
    }
}

/// Keys that a B-tree hands out in increasing order grow strictly.
proof fn lemma_increasing_prices(prices: Seq<u64>)
    requires
        vstd::std_specs::btree::increasing_seq(prices),
    ensures
        forall|i: int, j: int| 0 <= i < j < prices.len() ==> prices[i] < prices[j],
{
    assert forall|i: int, j: int| 0 <= i < j < prices.len() implies prices[i] < prices[j] by {
        assert(prices[i].cmp_spec(&prices[j]) is Less);
    }
}

/// The quoted levels of a stored ladder as price and quantity, by ascending
/// price.
fn ladder_levels(ladder: &BTreeMap<u64, u64>) -> (levels: Vec<(u64, u64)>)
    ensures
        forall|i: int|
            0 <= i < levels.len() ==> quoted(ladder@).contains_key(#[trigger] levels[i].0)
                && quoted(ladder@)[levels[i].0] == levels[i].1,
        forall|i: int, j: int| 0 <= i < j < levels.len() ==> levels[i].0 < levels[j].0,
        forall|price: u64| #[trigger]
            quoted(ladder@).contains_key(price) ==> exists|i: int|
                0 <= i < levels.len() && levels[i].0 == price,
{
    let mut levels: Vec<(u64, u64)> = Vec::new();
    let entries = ladder.iter();
    let ghost all = entries.remaining();
    let ghost prices = all.map_values(|entry: (&u64, &u64)| *entry.0);
    assert(forall|i: int, j: int| 0 <= i < j < all.len() ==> *all[i].0 < *all[j].0) by {
        lemma_increasing_prices(prices);
        assert forall|i: int, j: int| 0 <= i < j < all.len() implies *all[i].0 < *all[j].0 by {
            assert(prices[i] == *all[i].0);
            assert(prices[j] == *all[j].0);
        }
    }
    let ghost mut origin: Seq<int> = Seq::empty();
    let ghost mut slot: Seq<int> = Seq::empty();
    for entry in it: entries
        invariant
            it.seq() == all,
            all == vstd::std_specs::btree::spec_btree_map_iter(ladder).remaining(),
            origin.len() == levels.len(),
            slot.len() == it.index(),
            forall|i: int|
                0 <= i < levels.len() ==> 0 <= #[trigger] origin[i] < it.index() && *all[origin[i]].0
                    == levels[i].0 && *all[origin[i]].1 == levels[i].1 && levels[i].1 > 0,
            forall|i: int, j: int|
                0 <= i < j < levels.len() ==> #[trigger] origin[i] < #[trigger] origin[j],
            forall|m: int|
                0 <= m < it.index() && *all[m].1 > 0 ==> 0 <= #[trigger] slot[m] < levels.len()
                    && levels[slot[m]].0 == *all[m].0,
    {
        let ghost at = it.index();
        if *entry.1 > 0 {
            proof {
                origin = origin.push(at);
                slot = slot.push(levels.len() as int);
            }
            levels.push((*entry.0, *entry.1));
        } else {
            proof {
                slot = slot.push(0);
            }
        }
    }
    assert forall|i: int| 0 <= i < levels.len() implies quoted(ladder@).contains_key(
        #[trigger] levels[i].0,
    ) && quoted(ladder@)[levels[i].0] == levels[i].1 by {
        let m = origin[i];
        assert(ladder@.contains_key(*all[m].0) && ladder@[*all[m].0] == *all[m].1);
    }
    assert forall|i: int, j: int| 0 <= i < j < levels.len() implies levels[i].0
        < levels[j].0 by {
        assert(origin[i] < origin[j]);
    }
    assert forall|price: u64| #[trigger] quoted(ladder@).contains_key(price) implies exists|
        i: int,
    | 0 <= i < levels.len() && levels[i].0 == price by {
        let stored = ladder@[price];
        assert(all.contains((&price, &stored)));
        let m = choose|m: int| 0 <= m < all.len() && all[m] == (&price, &stored);
        assert(*all[m].1 > 0);
        assert(levels[slot[m]].0 == price);
    }
    levels
}

/// How many levels a merged view of one side holds at most.
pub const TOP_LEVELS: usize = 10;

/// The time from one published snapshot of the book to the next, in
/// milliseconds.
pub const SNAPSHOT_PERIOD_MS: u64 = 500;

/// Whether `a` is listed before `b` in a view of `side`: the better price
/// first, which is the higher one for bids and the lower one for asks, and at
/// one price the exchange of lower rank first.
pub open spec fn listed_before(side: Side, a: (Exchange, u64, u64), b: (Exchange, u64, u64)) -> bool {
    if a.1 == b.1 {
        a.0.rank() < b.0.rank()
    } else {
        match side {
            Side::Buy => a.1 > b.1,
            Side::Sell => a.1 < b.1,
        }
    }
}

/// Whether each entry of `levels` is listed before all that follow it.
pub open spec fn best_first(side: Side, levels: Seq<(Exchange, u64, u64)>) -> bool {
    forall|i: int, j: int|
        0 <= i < j < levels.len() ==> listed_before(side, #[trigger] levels[i], #[trigger] levels[j])
}

fn comes_before(side: Side, a: &(Exchange, u64, u64), b: &(Exchange, u64, u64)) -> (r: bool)
    ensures
        r == listed_before(side, *a, *b),
{
    if a.1 == b.1 {
        a.0.rank() < b.0.rank()
    } else {
        match side {
            Side::Buy => a.1 > b.1,
            Side::Sell => a.1 < b.1,
        }
    }
}

/// The first `TOP_LEVELS` entries of the two lists taken together, in listing
/// order.
fn merge_top(
    first: &Vec<(Exchange, u64, u64)>,
    second: &Vec<(Exchange, u64, u64)>,
    side: Side,
) -> (top: Vec<(Exchange, u64, u64)>)
    requires
        best_first(side, first@),
        best_first(side, second@),
        forall|i: int, j: int|
            0 <= i < first.len() && 0 <= j < second.len() ==> (#[trigger] first[i]).0
                != (#[trigger] second[j]).0,
    ensures
        top.len() <= TOP_LEVELS,
        best_first(side, top@),
        forall|k: int|
            0 <= k < top.len() ==> first@.contains(#[trigger] top[k]) || second@.contains(top[k]),
        forall|level: (Exchange, u64, u64)|
            (first@.contains(level) || second@.contains(level)) && !(#[trigger] top@.contains(
                level,
            )) ==> top.len() == TOP_LEVELS && listed_before(side, top[TOP_LEVELS - 1], level),
{
    let mut top: Vec<(Exchange, u64, u64)> = Vec::new();
    let mut i: usize = 0;
    let mut j: usize = 0;
    let ghost mut place_first: Seq<int> = Seq::empty();
    let ghost mut place_second: Seq<int> = Seq::empty();
    while top.len() < TOP_LEVELS && (i < first.len() || j < second.len())
        invariant
            i <= first.len(),
            j <= second.len(),
            top.len() == i + j,
            top.len() <= TOP_LEVELS,
            best_first(side, first@),
            best_first(side, second@),
            forall|x: int, y: int|
                0 <= x < first.len() && 0 <= y < second.len() ==> (#[trigger] first[x]).0
                    != (#[trigger] second[y]).0,
            best_first(side, top@),
            place_first.len() == i,
            place_second.len() == j,
            forall|k: int|
                0 <= k < i ==> 0 <= #[trigger] place_first[k] < top.len() && top[place_first[k]]
                    == first[k],
            forall|k: int|
                0 <= k < j ==> 0 <= #[trigger] place_second[k] < top.len()
                    && top[place_second[k]] == second[k],
            forall|k: int|
                0 <= k < top.len() ==> first@.contains(#[trigger] top[k]) || second@.contains(
                    top[k],
                ),
            forall|k: int, m: int|
                0 <= k < top.len() && i <= m < first.len() ==> listed_before(
                    side,
                    #[trigger] top[k],
                    #[trigger] first[m],
                ),
            forall|k: int, m: int|
                0 <= k < top.len() && j <= m < second.len() ==> listed_before(
                    side,
                    #[trigger] top[k],
                    #[trigger] second[m],
                ),
        decreases first.len() - i + second.len() - j,
    {
        let ghost earlier = top@;
        let take_first: bool = if j >= second.len() {
            true
        } else if i >= first.len() {
            false
        } else {
            comes_before(side, &first[i], &second[j])
        };
        if take_first {
            let level = first[i];
            proof {
                place_first = place_first.push(top.len() as int);
                assert(first@.contains(level));
            }
            top.push(level);
            i += 1;
        } else {
            let level = second[j];
            proof {
                place_second = place_second.push(top.len() as int);
                assert(second@.contains(level));
            }
            top.push(level);
            j += 1;
        }
        assert forall|k: int| 0 <= k < top.len() implies first@.contains(#[trigger] top[k])
            || second@.contains(top[k]) by {
            if k < earlier.len() {
                assert(top[k] == earlier[k]);
            }
        }
    }
    assert forall|level: (Exchange, u64, u64)|
        (first@.contains(level) || second@.contains(level)) && !(#[trigger] top@.contains(
            level,
        )) implies top.len() == TOP_LEVELS && listed_before(side, top[TOP_LEVELS - 1], level) by {
        if first@.contains(level) {
            let m = choose|m: int| 0 <= m < first.len() && first[m] == level;
            if m < i {
                assert(top[place_first[m]] == level);
            }
        } else {
            let m = choose|m: int| 0 <= m < second.len() && second[m] == level;
            if m < j {
                assert(top[place_second[m]] == level);
            }
        }
    }
    top
}

/// The combined order book of one trading pair.
pub struct OrderBook {
    symbol: String,
    exchange_bids_price_level: DashMap<u8, BTreeMap<u64, u64>>,
    exchange_asks_price_level: DashMap<u8, BTreeMap<u64, u64>>,
}

impl OrderBook {
    /// The ladder of `exchange` on `side`: the quantity resting at each
    /// quoted price.
    pub closed spec fn ladder(&self, exchange: Exchange, side: Side) -> Map<u64, u64> {
        let shelf = match side {
            Side::Buy => ladders_in(self.exchange_bids_price_level),
            Side::Sell => ladders_in(self.exchange_asks_price_level),
        };
        if shelf.contains_key(exchange.rank()) {
            quoted(shelf[exchange.rank()])
        } else {
            Map::empty()
        }
    }

    /// The symbol or identifier that the book was made for.
    pub closed spec fn symbol_text(&self) -> Seq<char> {
        self.symbol@
    }

    /// The symbol or identifier for this order book.
    pub fn symbol(&self) -> (s: &str)
        ensures
            s@ == self.symbol_text(),
    {
        self.symbol.as_str()
    }

    /// An empty book for `symbol`.
    pub fn new(symbol: String) -> (book: OrderBook)
        ensures
            book.symbol_text() == symbol@,
            forall|exchange: Exchange, side: Side| #[trigger]
                book.ladder(exchange, side) == Map::<u64, u64>::empty(),
    {
        OrderBook {
            symbol,
            exchange_bids_price_level: shelf_new(),
            exchange_asks_price_level: shelf_new(),
        }
    }

    /// Sets the size at `price` in the ladder of `exchange` on `side`, or
    /// removes the price where `quantity` is zero.
    fn update_price_level_for_exchange(
        &mut self,
        exchange: Exchange,
        price: u64,
        quantity: u64,
        side: Side,
    )
        ensures
            final(self).symbol_text() == old(self).symbol_text(),
            forall|e: Exchange, s: Side| #[trigger]
                final(self).ladder(e, s) == (if e == exchange && s == side {
                    if quantity == 0 {
                        old(self).ladder(e, s).remove(price)
                    } else {
                        old(self).ladder(e, s).insert(price, quantity)
                    }
                } else {
                    old(self).ladder(e, s)
                }),
    {
        let key: u8 = exchange.rank();
        let taken = match side {
            Side::Buy => shelf_take(&mut self.exchange_bids_price_level, key),
            Side::Sell => shelf_take(&mut self.exchange_asks_price_level, key),
        };
        let mut ladder: BTreeMap<u64, u64> = match taken {
            Some(ladder) => ladder,
            None => BTreeMap::new(),
        };
        let ghost before = ladder@;
        if quantity == 0 {
            ladder.remove(&price);
            assert(quoted(ladder@) =~= quoted(before).remove(price));
        } else {
            ladder.insert(price, quantity);
            assert(quoted(ladder@) =~= quoted(before).insert(price, quantity));
        }
        match side {
            Side::Buy => shelf_put(&mut self.exchange_bids_price_level, key, ladder),
            Side::Sell => shelf_put(&mut self.exchange_asks_price_level, key, ladder),
        }
        assert forall|e: Exchange, s: Side| #[trigger]
            final(self).ladder(e, s) == (if e == exchange && s == side {
                if quantity == 0 {
                    old(self).ladder(e, s).remove(price)
                } else {
                    old(self).ladder(e, s).insert(price, quantity)
                }
            } else {
                old(self).ladder(e, s)
            }) by {
            if e == exchange && s == side {
                assert(quoted(before) =~= old(self).ladder(e, s));
            } else {
                assert(e.rank() != key || s != side);
            }
        }
    }

    /// Drops every level held for `exchange` on `side`.
    fn replace_ladder(&mut self, exchange: Exchange, side: Side)
        ensures
            final(self).symbol_text() == old(self).symbol_text(),
            forall|e: Exchange, s: Side| #[trigger]
                final(self).ladder(e, s) == (if e == exchange && s == side {
                    Map::<u64, u64>::empty()
                } else {
                    old(self).ladder(e, s)
                }),
    {
        let key: u8 = exchange.rank();
        let empty: BTreeMap<u64, u64> = BTreeMap::new();
        assert(quoted(empty@) =~= Map::<u64, u64>::empty());
        match side {
            Side::Buy => shelf_put(&mut self.exchange_bids_price_level, key, empty),
            Side::Sell => shelf_put(&mut self.exchange_asks_price_level, key, empty),
        }
        assert forall|e: Exchange, s: Side| #[trigger]
            final(self).ladder(e, s) == (if e == exchange && s == side {
                Map::<u64, u64>::empty()
            } else {
                old(self).ladder(e, s)
            }) by {
            if !(e == exchange && s == side) {
                assert(e.rank() != key || s != side);
            }
        }
    }

    /// Applies one event from the bus to the book.
    ///
    /// Each ladder afterwards is `ladder_after` of what it was: only the
    /// ladder that the event names changes, a level replaces the quantity at
    /// its price and never adds to it, a quantity of zero removes the price,
    /// and `ReplaceLadder` empties the ladder.
    pub fn apply(&mut self, event: BookEvent)
        ensures
            final(self).symbol_text() == old(self).symbol_text(),
            forall|exchange: Exchange, side: Side| #[trigger]
                final(self).ladder(exchange, side) == ladder_after(
                    old(self).ladder(exchange, side),
                    exchange,
                    side,
                    event,
                ),
    {
        match event {
            BookEvent::ReplaceLadder { exchange, side } => {
                self.replace_ladder(exchange, side);
            },
            BookEvent::Level(level) => {
                self.update_price_level(level);
            },
        }
    }

    /// Applies a run of events in order, as the events of one frame come.
    pub fn apply_all(&mut self, events: &Vec<BookEvent>)
        ensures
            final(self).symbol_text() == old(self).symbol_text(),
            forall|exchange: Exchange, side: Side| #[trigger]
                final(self).ladder(exchange, side) == replay(
                    old(self).ladder(exchange, side),
                    exchange,
                    side,
                    events@,
                ),
    {
        let mut i: usize = 0;
        assert(events@.take(0) =~= Seq::<BookEvent>::empty());
        while i < events.len()
            invariant
                i <= events.len(),
                self.symbol_text() == old(self).symbol_text(),
                forall|exchange: Exchange, side: Side| #[trigger]
                    self.ladder(exchange, side) == replay(
                        old(self).ladder(exchange, side),
                        exchange,
                        side,
                        events@.take(i as int),
                    ),
            decreases events.len() - i,
        {
            assert(events@.take(i + 1).drop_last() =~= events@.take(i as int));
            self.apply(events[i]);
            i += 1;
        }
        assert(events@.take(events.len() as int) =~= events@);
    }

    /// Update the per-exchange price levels from a single exchange-level
    /// price update.
    pub fn update_price_level(&mut self, order: ExchangePrice)
        ensures
            final(self).symbol_text() == old(self).symbol_text(),
            forall|exchange: Exchange, side: Side| #[trigger]
                final(self).ladder(exchange, side) == ladder_after(
                    old(self).ladder(exchange, side),
                    exchange,
                    side,
                    BookEvent::Level(order),
                ),
    {
        match order {
            ExchangePrice::Binance { price, quantity, side, .. } => {
                self.update_price_level_for_exchange(Exchange::Binance, price, quantity, side);
            },
            ExchangePrice::Bitstamp { price, quantity, side, .. } => {
                self.update_price_level_for_exchange(Exchange::Bitstamp, price, quantity, side);
            },
        }
    }

    /// Whether the book holds `level`, given as exchange, price and quantity,
    /// on `side`.
    pub open spec fn holds(&self, side: Side, level: (Exchange, u64, u64)) -> bool {
        self.ladder(level.0, side).contains_key(level.1) && self.ladder(level.0, side)[level.1]
            == level.2
    }

    /// Whether `top` is the merged top of `side`: at most `TOP_LEVELS` levels
    /// of the book, each listed before those that follow, and every level of
    /// the book that is left out comes after the last of a full list.
    pub open spec fn is_top_of_book(&self, side: Side, top: Seq<(Exchange, u64, u64)>) -> bool {
        &&& top.len() <= TOP_LEVELS
        &&& best_first(side, top)
        &&& forall|k: int| 0 <= k < top.len() ==> self.holds(side, #[trigger] top[k])
        &&& forall|level: (Exchange, u64, u64)|
            self.holds(side, level) && !(#[trigger] top.contains(level)) ==> top.len()
                == TOP_LEVELS && listed_before(side, top[TOP_LEVELS - 1], level)
    }

    /// The levels of `exchange` on `side`, best price first.
    fn side_levels(&self, exchange: Exchange, side: Side) -> (levels: Vec<(Exchange, u64, u64)>)
        ensures
            best_first(side, levels@),
            forall|k: int|
                0 <= k < levels.len() ==> (#[trigger] levels[k]).0 == exchange && self.holds(
                    side,
                    levels[k],
                ),
            forall|price: u64| #[trigger]
                self.ladder(exchange, side).contains_key(price) ==> levels@.contains(
                    (exchange, price, self.ladder(exchange, side)[price]),
                ),
    {
        let found = match side {
            Side::Buy => shelf_get(&self.exchange_bids_price_level, exchange.rank()),
            Side::Sell => shelf_get(&self.exchange_asks_price_level, exchange.rank()),
        };
        let ascending: Vec<(u64, u64)> = match found {
            Some(ladder) => ladder_levels(&ladder),
            None => Vec::new(),
        };
        let ghost quotes = self.ladder(exchange, side);
        let n: usize = ascending.len();
        let mut levels: Vec<(Exchange, u64, u64)> = Vec::new();
        let mut i: usize = 0;
        while i < n
            invariant
                i <= n,
                n == ascending.len(),
                levels.len() == i,
                forall|k: int|
                    0 <= k < i ==> #[trigger] levels[k] == (match side {
                        Side::Buy => (exchange, ascending[n - 1 - k].0, ascending[n - 1 - k].1),
                        Side::Sell => (exchange, ascending[k].0, ascending[k].1),
                    }),
            decreases n - i,
        {
            let at: usize = match side {
                Side::Buy => n - 1 - i,
                Side::Sell => i,
            };
            let entry = ascending[at];
            levels.push((exchange, entry.0, entry.1));
            i += 1;
        }
        assert forall|price: u64| #[trigger] quotes.contains_key(price) implies levels@.contains(
            (exchange, price, quotes[price]),
        ) by {
            let m = choose|m: int| 0 <= m < ascending.len() && ascending[m].0 == price;
            let k = match side {
                Side::Buy => n - 1 - m,
                Side::Sell => m,
            };
            assert(levels[k] == (exchange, price, quotes[price]));
        }
        levels
    }

    /// The merged top of `side` over all exchanges.
    fn top_of_book(&self, side: Side) -> (top: Vec<(Exchange, u64, u64)>)
        ensures
            self.is_top_of_book(side, top@),
    {
        let first = self.side_levels(Exchange::Binance, side);
        let second = self.side_levels(Exchange::Bitstamp, side);
        let top = merge_top(&first, &second, side);
        assert forall|k: int| 0 <= k < top.len() implies self.holds(side, #[trigger] top[k]) by {
            if first@.contains(top[k]) {
                let m = choose|m: int| 0 <= m < first.len() && first[m] == top[k];
                assert(self.holds(side, first[m]));
            } else {
                let m = choose|m: int| 0 <= m < second.len() && second[m] == top[k];
                assert(self.holds(side, second[m]));
            }
        }
        assert forall|level: (Exchange, u64, u64)|
            self.holds(side, level) && !(#[trigger] top@.contains(level)) implies top.len()
            == TOP_LEVELS && listed_before(side, top[TOP_LEVELS - 1], level) by {
            assert(level == (level.0, level.1, self.ladder(level.0, side)[level.1]));
            match level.0 {
                Exchange::Binance => {
                    assert(first@.contains(level));
                },
                Exchange::Bitstamp => {
                    assert(second@.contains(level));
                },
            }
        }
        top
    }

    /// Top 10 bid levels from the combined book (exchange, price, quantity),
    /// sorted best-first: highest price first, and at one price Binance
    /// before Bitstamp.
    pub fn top_bids_all_exchanges(&self) -> (top: Vec<(Exchange, u64, u64)>)
        ensures
            self.is_top_of_book(Side::Buy, top@),
    {
        self.top_of_book(Side::Buy)
    }

    /// Top 10 ask levels from the combined book (exchange, price, quantity),
    /// sorted best-first: lowest price first, and at one price Binance before
    /// Bitstamp.
    pub fn top_asks_all_exchanges(&self) -> (top: Vec<(Exchange, u64, u64)>)
        ensures
            self.is_top_of_book(Side::Sell, top@),
    {
        self.top_of_book(Side::Sell)
    }

    /// Whether `price` is the best price that any exchange quotes on `side`:
    /// the highest bid, or the lowest ask.
    pub open spec fn is_best_price(&self, side: Side, price: u64) -> bool {
        &&& exists|exchange: Exchange| #[trigger] self.ladder(exchange, side).contains_key(price)
        &&& forall|exchange: Exchange, other: u64| #[trigger]
            self.ladder(exchange, side).contains_key(other) ==> match side {
                Side::Buy => other <= price,
                Side::Sell => price <= other,
            }
    }

    /// The best price quoted on `side`, if any exchange quotes one.
    pub open spec fn best_price(&self, side: Side) -> Option<u64> {
        if exists|price: u64| self.is_best_price(side, price) {
            Some(choose|price: u64| self.is_best_price(side, price))
        } else {
            None
        }
    }

    /// The spread of the combined book: best ask minus best bid in cents,
    /// zero where the book is crossed, and none where a side is empty.
    pub open spec fn spread(&self) -> Option<u64> {
        match (self.best_price(Side::Buy), self.best_price(Side::Sell)) {
            (Some(bid), Some(ask)) => Some(
                if ask >= bid {
                    (ask - bid) as u64
                } else {
                    0u64
                },
            ),
            _ => None,
        }
    }

    /// Spread across all exchanges: best ask price - best bid price (in
    /// cents), using the combined top-of-book from all exchanges. Returns
    /// `None` only if either side is missing.
    pub fn spread_all_exchanges(&self) -> (spread: Option<u64>)
        ensures
            spread == self.spread(),
    {
        let top_bids = self.top_bids_all_exchanges();
        let top_asks = self.top_asks_all_exchanges();
        proof {
            lemma_best_price_of_top(*self, Side::Buy, top_bids@);
            lemma_best_price_of_top(*self, Side::Sell, top_asks@);
        }
        if top_bids.len() == 0 || top_asks.len() == 0 {
            return None;
        }
        let best_bid_price: u64 = top_bids[0].1;
        let best_ask_price: u64 = top_asks[0].1;
        Some(best_ask_price.saturating_sub(best_bid_price))
    }
}

/// The first level of a merged top carries the best price of its side, and
/// an empty top means that the side has no best price.
pub proof fn lemma_best_price_of_top(book: OrderBook, side: Side, top: Seq<(Exchange, u64, u64)>)
    requires
        book.is_top_of_book(side, top),
    ensures
        book.best_price(side) == (if top.len() > 0 {
            Some(top[0].1)
        } else {
            None
        }),
{
    if top.len() > 0 {
        let best = top[0];
        assert(book.holds(side, best));
        assert(book.ladder(best.0, side).contains_key(best.1));
        assert forall|exchange: Exchange, other: u64| #[trigger]
            book.ladder(exchange, side).contains_key(other) implies match side {
            Side::Buy => other <= best.1,
            Side::Sell => best.1 <= other,
        } by {
            let level = (exchange, other, book.ladder(exchange, side)[other]);
            assert(book.holds(side, level));
            if top.contains(level) {
                let k = choose|k: int| 0 <= k < top.len() && top[k] == level;
                if k > 0 {
                    assert(listed_before(side, top[0], top[k]));
                }
            } else {
                assert(listed_before(side, top[TOP_LEVELS - 1], level));
                if TOP_LEVELS - 1 > 0 {
                    assert(listed_before(side, top[0], top[TOP_LEVELS - 1]));
                }
            }
        }
        assert(book.is_best_price(side, best.1));
        let chosen = choose|price: u64| book.is_best_price(side, price);
        assert(book.is_best_price(side, chosen));
        let witness = choose|exchange: Exchange| #[trigger]
            book.ladder(exchange, side).contains_key(chosen);
        assert(book.ladder(witness, side).contains_key(chosen));
        assert(chosen == best.1);
    } else {
        assert forall|price: u64| !book.is_best_price(side, price) by {
            if book.is_best_price(side, price) {
                let exchange = choose|exchange: Exchange| #[trigger]
                    book.ladder(exchange, side).contains_key(price);
                let level = (exchange, price, book.ladder(exchange, side)[price]);
                assert(book.holds(side, level));
                assert(!top.contains(level));
            }
        }
    }
}

/// Every level of a ladder has a positive quantity.
pub proof fn lemma_levels_are_positive(book: OrderBook, exchange: Exchange, side: Side, price: u64)
    requires
        book.ladder(exchange, side).contains_key(price),
    ensures
        book.ladder(exchange, side)[price] > 0,
{
}

/// An event keeps every quantity of a ladder positive.
pub proof fn lemma_event_keeps_positive(
    ladder: Map<u64, u64>,
    exchange: Exchange,
    side: Side,
    event: BookEvent,
)
    requires
        forall|price: u64| ladder.contains_key(price) ==> ladder[price] > 0,
    ensures
        forall|price: u64|
            ladder_after(ladder, exchange, side, event).contains_key(price) ==> ladder_after(
                ladder,
                exchange,
                side,
                event,
            )[price] > 0,
{
}

/// Applying an event a second time changes nothing: a level sets the
/// quantity at its price and does not add to it.
pub proof fn lemma_apply_twice(
    ladder: Map<u64, u64>,
    exchange: Exchange,
    side: Side,
    event: BookEvent,
)
    ensures
        ladder_after(ladder_after(ladder, exchange, side, event), exchange, side, event)
            == ladder_after(ladder, exchange, side, event),
{
    assert(ladder_after(ladder_after(ladder, exchange, side, event), exchange, side, event)
        =~= ladder_after(ladder, exchange, side, event));
}

/// A ladder after a run of events, applied in order.
pub open spec fn replay(
    ladder: Map<u64, u64>,
    exchange: Exchange,
    side: Side,
    events: Seq<BookEvent>,
) -> Map<u64, u64>
    decreases events.len(),
{
    if events.len() == 0 {
        ladder
    } else {
        ladder_after(replay(ladder, exchange, side, events.drop_last()), exchange, side, events.last())
    }
}

/// Whether `event` decides what stands at `price` in the ladder of `exchange`
/// and `side`: a level at that price, or a `ReplaceLadder` of the ladder.
pub open spec fn touches(event: BookEvent, exchange: Exchange, side: Side, price: u64) -> bool {
    match event {
        BookEvent::ReplaceLadder { exchange: e, side: s } => e == exchange && s == side,
        BookEvent::Level(level) => level.exchange() == exchange && level.side() == side
            && level.price() == price,
    }
}

/// The quantity that an event leaves at a price it touches; zero says that
/// the price is not quoted.
pub open spec fn quantity_left(event: BookEvent) -> u64 {
    match event {
        BookEvent::ReplaceLadder { .. } => 0,
        BookEvent::Level(level) => level.quantity(),
    }
}

/// After a run of events, what stands at a price is what the last event that
/// touches the price left there, whatever came before it.
pub proof fn lemma_last_event_decides(
    ladder: Map<u64, u64>,
    exchange: Exchange,
    side: Side,
    price: u64,
    events: Seq<BookEvent>,
    last: int,
)
    requires
        0 <= last < events.len(),
        touches(events[last], exchange, side, price),
        forall|k: int| last < k < events.len() ==> !touches(events[k], exchange, side, price),
    ensures
        replay(ladder, exchange, side, events).contains_key(price) <==> quantity_left(events[last])
            > 0,
        quantity_left(events[last]) > 0 ==> replay(ladder, exchange, side, events)[price]
            == quantity_left(events[last]),
    decreases events.len(),
{
    let shorter = events.drop_last();
    if last < events.len() - 1 {
        assert(!touches(events[events.len() - 1], exchange, side, price));
        assert(shorter[last] == events[last]);
        lemma_last_event_decides(ladder, exchange, side, price, shorter, last);
    }
}

/// A price that no event of a run touches keeps what stood there.
pub proof fn lemma_untouched_price_stays(
    ladder: Map<u64, u64>,
    exchange: Exchange,
    side: Side,
    price: u64,
    events: Seq<BookEvent>,
)
    requires
        forall|k: int| 0 <= k < events.len() ==> !touches(events[k], exchange, side, price),
    ensures
        replay(ladder, exchange, side, events).contains_key(price) <==> ladder.contains_key(price),
        ladder.contains_key(price) ==> replay(ladder, exchange, side, events)[price]
            == ladder[price],
    decreases events.len(),
{
    if events.len() > 0 {
        let shorter = events.drop_last();
        assert(!touches(events[events.len() - 1], exchange, side, price));
        lemma_untouched_price_stays(ladder, exchange, side, price, shorter);
    }
}

/// A run of events for other ladders leaves a ladder as it was.
pub proof fn lemma_other_ladders_stay(
    ladder: Map<u64, u64>,
    exchange: Exchange,
    side: Side,
    events: Seq<BookEvent>,
)
    requires
        forall|k: int|
            0 <= k < events.len() ==> event_exchange(#[trigger] events[k]) != exchange
                || event_side(events[k]) != side,
    ensures
        replay(ladder, exchange, side, events) == ladder,
    decreases events.len(),
{
    if events.len() > 0 {
        let shorter = events.drop_last();
        assert forall|k: int| 0 <= k < shorter.len() implies event_exchange(
            #[trigger] shorter[k],
        ) != exchange || event_side(shorter[k]) != side by {
            assert(shorter[k] == events[k]);
        }
        lemma_other_ladders_stay(ladder, exchange, side, shorter);
        assert(event_exchange(events[events.len() - 1]) != exchange || event_side(
            events[events.len() - 1],
        ) != side);
    }
}

/// A run of events that holds a `ReplaceLadder` of a ladder leaves that
/// ladder the same whatever it held before the run: nothing from before the
/// replacement is left.
pub proof fn lemma_replace_forgets(
    first: Map<u64, u64>,
    second: Map<u64, u64>,
    exchange: Exchange,
    side: Side,
    events: Seq<BookEvent>,
    at: int,
)
    requires
        0 <= at < events.len(),
        events[at] == (BookEvent::ReplaceLadder { exchange, side }),
    ensures
        replay(first, exchange, side, events) == replay(second, exchange, side, events),
    decreases events.len(),
{
    if at < events.len() - 1 {
        let shorter = events.drop_last();
        assert(shorter[at] == events[at]);
        lemma_replace_forgets(first, second, exchange, side, shorter, at);
    }
}

/// A merged top never rises in price from one bid to the next and never
/// falls from one ask to the next, and the levels of one exchange in it
/// differ in price.
pub proof fn lemma_top_is_ordered(book: OrderBook, side: Side, top: Seq<(Exchange, u64, u64)>)
    requires
        book.is_top_of_book(side, top),
    ensures
        top.len() <= 10,
        forall|i: int, j: int|
            0 <= i < j < top.len() ==> match side {
                Side::Buy => (#[trigger] top[i]).1 >= (#[trigger] top[j]).1,
                Side::Sell => top[i].1 <= top[j].1,
            },
        forall|i: int, j: int|
            0 <= i < j < top.len() && (#[trigger] top[i]).0 == (#[trigger] top[j]).0 ==> top[i].1
                != top[j].1,
{
    assert forall|i: int, j: int| 0 <= i < j < top.len() implies match side {
        Side::Buy => (#[trigger] top[i]).1 >= (#[trigger] top[j]).1,
        Side::Sell => top[i].1 <= top[j].1,
    } by {
        assert(listed_before(side, top[i], top[j]));
    }
    assert forall|i: int, j: int|
        0 <= i < j < top.len() && (#[trigger] top[i]).0 == (#[trigger] top[j]).0 implies top[i].1
        != top[j].1 by {
        assert(listed_before(side, top[i], top[j]));
    }
}

/// Where no price is quoted on `side` by both exchanges, a merged top of
/// bids falls strictly in price and a merged top of asks rises strictly.
pub proof fn lemma_top_is_strictly_ordered(
    book: OrderBook,
    side: Side,
    top: Seq<(Exchange, u64, u64)>,
)
    requires
        book.is_top_of_book(side, top),
        forall|price: u64|
            !(book.ladder(Exchange::Binance, side).contains_key(price) && book.ladder(
                Exchange::Bitstamp,
                side,
            ).contains_key(price)),
    ensures
        top.len() <= 10,
        forall|i: int, j: int|
            0 <= i < j < top.len() ==> match side {
                Side::Buy => (#[trigger] top[i]).1 > (#[trigger] top[j]).1,
                Side::Sell => top[i].1 < top[j].1,
            },
{
    assert forall|i: int, j: int| 0 <= i < j < top.len() implies match side {
        Side::Buy => (#[trigger] top[i]).1 > (#[trigger] top[j]).1,
        Side::Sell => top[i].1 < top[j].1,
    } by {
        assert(listed_before(side, top[i], top[j]));
        assert(book.holds(side, top[i]));
        assert(book.holds(side, top[j]));
    }
}

/// The spread is none where the merged top of a side is empty, and else the
/// price of the first ask less the price of the first bid, or zero where
/// that bid is the higher.
pub proof fn lemma_spread_of_tops(
    book: OrderBook,
    bids: Seq<(Exchange, u64, u64)>,
    asks: Seq<(Exchange, u64, u64)>,
)
    requires
        book.is_top_of_book(Side::Buy, bids),
        book.is_top_of_book(Side::Sell, asks),
    ensures
        book.spread() == (if bids.len() > 0 && asks.len() > 0 {
            Some(
                if asks[0].1 >= bids[0].1 {
                    (asks[0].1 - bids[0].1) as u64
                } else {
                    0u64
                },
            )
        } else {
            None
        }),
{
    lemma_best_price_of_top(book, Side::Buy, bids);
    lemma_best_price_of_top(book, Side::Sell, asks);
}

/// Where two merged tops of one side agree before a position, the level of
/// the one at that position is not listed before that of the other.
proof fn lemma_no_earlier_level(
    book: OrderBook,
    side: Side,
    a: Seq<(Exchange, u64, u64)>,
    b: Seq<(Exchange, u64, u64)>,
    n: int,
)
    requires
        book.is_top_of_book(side, a),
        book.is_top_of_book(side, b),
        0 <= n < a.len(),
        n < b.len(),
        forall|m: int| 0 <= m < n ==> a[m] == b[m],
    ensures
        !listed_before(side, a[n], b[n]),
{
    let x = a[n];
    if listed_before(side, x, b[n]) {
        assert(book.holds(side, x));
        if b.contains(x) {
            let m = choose|m: int| 0 <= m < b.len() && b[m] == x;
            if m < n {
                assert(listed_before(side, a[m], a[n]));
            } else if m > n {
                assert(listed_before(side, b[n], b[m]));
            }
        } else {
            assert(listed_before(side, b[TOP_LEVELS - 1], x));
            if n < TOP_LEVELS - 1 {
                assert(listed_before(side, b[n], b[TOP_LEVELS - 1]));
            }
        }
    }
}

/// Two merged tops of one side agree level by level.
proof fn lemma_tops_agree(
    book: OrderBook,
    side: Side,
    a: Seq<(Exchange, u64, u64)>,
    b: Seq<(Exchange, u64, u64)>,
    k: int,
)
    requires
        book.is_top_of_book(side, a),
        book.is_top_of_book(side, b),
        0 <= k <= a.len(),
        k <= b.len(),
    ensures
        forall|m: int| 0 <= m < k ==> a[m] == b[m],
    decreases k,
{
    if k > 0 {
        lemma_tops_agree(book, side, a, b, k - 1);
        lemma_no_earlier_level(book, side, a, b, k - 1);
        lemma_no_earlier_level(book, side, b, a, k - 1);
        assert(book.holds(side, a[k - 1]));
        assert(book.holds(side, b[k - 1]));
    }
}

/// The merged top of a side is one list and no other: `is_top_of_book` holds
/// of a single sequence.
pub proof fn lemma_top_is_unique(
    book: OrderBook,
    side: Side,
    a: Seq<(Exchange, u64, u64)>,
    b: Seq<(Exchange, u64, u64)>,
)
    requires
        book.is_top_of_book(side, a),
        book.is_top_of_book(side, b),
    ensures
        a == b,
{
    let k = if a.len() <= b.len() {
        a.len() as int
    } else {
        b.len() as int
    };
    lemma_tops_agree(book, side, a, b, k);
    if a.len() < b.len() {
        let extra = b[k];
        assert(book.holds(side, extra));
        if a.contains(extra) {
            let m = choose|m: int| 0 <= m < a.len() && a[m] == extra;
            assert(listed_before(side, b[m], b[k]));
        }
    } else if b.len() < a.len() {
        let extra = a[k];
        assert(book.holds(side, extra));
        if b.contains(extra) {
            let m = choose|m: int| 0 <= m < b.len() && b[m] == extra;
            assert(listed_before(side, a[m], a[k]));
        }
    }
    assert(a =~= b);
}

} // verus!
