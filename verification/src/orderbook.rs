//! A price-indexed store of one instrument's resting liquidity, split into a
//! bid side and an ask side, with derived market signals: best prices,
//! mid-price, spread, depth totals and a fill-safety check.
//!
//! Each side holds at most one level per price and is kept sorted strictly
//! ascending by price, so the best bid is the last bid level and the best
//! ask is the first ask level. The mid-price of two tick prices need not be
//! a whole tick, so it is reported in half-ticks (twice its tick value),
//! which represents the arithmetic mean exactly.

use vstd::prelude::*;

verus! {

/// One resting level: the aggregated quantity resting at a price, together
/// with the exchange timestamp of the update that produced it.
#[derive(Clone, Copy, Debug, PartialEq, Eq, Structural)]
pub struct RestingOrder {
    /// Price in ticks.
    pub price: u64,
    /// Resting quantity in quantity units.
    pub size: u32,
    /// Exchange-supplied timestamp of the update.
    pub ts: u64,
}

/// Selector handed to the book's methods: a level to place on one side, or
/// a bare price naming a side for a lookup.
#[derive(Clone, Copy, Debug, PartialEq, Eq, Structural)]
pub enum RestingOrderType {
    BidOrder(RestingOrder),
    AskOrder(RestingOrder),
    BidPrice(u64),
    AskPrice(u64),
}

/// How a book query can fail.
#[derive(Clone, Copy, Debug, PartialEq, Eq, Structural)]
pub enum BookError {
    /// A best-price, mid-price or spread query hit a side with no levels.
    EmptySide,
    /// A fill-safety check named a price with no resting level.
    PriceNotFound,
}

/// The order book: both sides plus the timestamp of the most recently
/// applied update on either side.
#[derive(Clone, Debug, PartialEq)]
pub struct Orderbook {
    /// Bid levels, sorted strictly ascending by price. Best bid is last.
    pub bids: Vec<RestingOrder>,
    /// Ask levels, sorted strictly ascending by price. Best ask is first.
    pub asks: Vec<RestingOrder>,
    /// Timestamp of the most recent upsert, whichever side it touched.
    pub last_update_time: u64,
}

/// Abstract state of a book: both sides as sequences, plus the timestamp.
pub struct BookView {
    pub bids: Seq<RestingOrder>,
    pub asks: Seq<RestingOrder>,
    pub last_update_time: u64,
}

impl View for Orderbook {
    type V = BookView;

    open spec fn view(&self) -> BookView {
        BookView {
            bids: self.bids@,
            asks: self.asks@,
            last_update_time: self.last_update_time,
        }
    }
}

/// A side is well-formed when its prices are strictly ascending; a price
/// then occurs at most once on the side.
pub open spec fn sorted_by_price(s: Seq<RestingOrder>) -> bool {
    forall|i: int, j: int| 0 <= i < j < s.len() ==> s[i].price < s[j].price
}

/// The level resting at price `p` on side `s`, if any.
pub open spec fn seq_find(s: Seq<RestingOrder>, p: u64) -> Option<RestingOrder>
    decreases s.len(),
{
    if s.len() == 0 {
        None
    } else if s[0].price == p {
        Some(s[0])
    } else {
        seq_find(s.drop_first(), p)
    }
}

/// Insert-or-replace of level `l` in a side sorted ascending by price:
/// the result holds `l` in place of whatever rested at `l.price`, keeps
/// every other level, and stays sorted.
pub open spec fn seq_upsert(s: Seq<RestingOrder>, l: RestingOrder) -> Seq<RestingOrder>
    decreases s.len(),
{
    if s.len() == 0 {
        seq![l]
    } else if s[0].price < l.price {
        seq![s[0]] + seq_upsert(s.drop_first(), l)
    } else if s[0].price == l.price {
        seq![l] + s.drop_first()
    } else {
        seq![l] + s
    }
}

/// Total resting quantity on a side: the sum of the levels' sizes.
pub open spec fn sum_sizes(s: Seq<RestingOrder>) -> int
    decreases s.len(),
{
    if s.len() == 0 {
        0
    } else {
        s[0].size + sum_sizes(s.drop_first())
    }
}

/// A bid level lies in the window when its price is at or above the lower
/// bound `mid − diff`; bids are trimmed only on the side facing the
/// mid-price. `mid2` is the mid-price in half-ticks, `diff` the half-width
/// in ticks, and the comparison is carried out in half-ticks so that no
/// rounding enters.
pub open spec fn bid_in_window(l: RestingOrder, mid2: int, diff: int) -> bool {
    2 * l.price + 2 * diff >= mid2
}

/// An ask level lies in the window when its price is at or below the upper
/// bound `mid + diff`; asks are trimmed only on the side facing the
/// mid-price.
pub open spec fn ask_in_window(l: RestingOrder, mid2: int, diff: int) -> bool {
    2 * l.price <= mid2 + 2 * diff
}

/// Total size of the bid levels inside the window.
pub open spec fn sum_bid_sizes_in_window(s: Seq<RestingOrder>, mid2: int, diff: int) -> int
    decreases s.len(),
{
    if s.len() == 0 {
        0
    } else {
        (if bid_in_window(s[0], mid2, diff) {
            s[0].size as int
        } else {
            0
        }) + sum_bid_sizes_in_window(s.drop_first(), mid2, diff)
    }
}

/// Total size of the ask levels inside the window.
pub open spec fn sum_ask_sizes_in_window(s: Seq<RestingOrder>, mid2: int, diff: int) -> int
    decreases s.len(),
{
    if s.len() == 0 {
        0
    } else {
        (if ask_in_window(s[0], mid2, diff) {
            s[0].size as int
        } else {
            0
        }) + sum_ask_sizes_in_window(s.drop_first(), mid2, diff)
    }
}

/// True of the selector variants that carry a whole level.
pub open spec fn carries_level(order: RestingOrderType) -> bool {
    match order {
        RestingOrderType::BidOrder(_) => true,
        RestingOrderType::AskOrder(_) => true,
        RestingOrderType::BidPrice(_) => false,
        RestingOrderType::AskPrice(_) => false,
    }
}

/// True of the selector variants that carry a bare price.
pub open spec fn carries_price(order: RestingOrderType) -> bool {
    !carries_level(order)
}

/// What a fill-safety check answers at one side: the resting level at the
/// exact price decides — `Ok(true)` when the requested size is at most the
/// resting size (the order can be filled in full there), `Ok(false)` when
/// it exceeds it, and `PriceNotFound` when nothing rests at that price.
pub open spec fn spec_safety(s: Seq<RestingOrder>, p: u64, size: u32) -> Result<bool, BookError> {
    match seq_find(s, p) {
        Some(l) => Ok(size <= l.size),
        None => Err(BookError::PriceNotFound),
    }
}

impl BookView {
    /// Both sides sorted strictly ascending by price.
    pub open spec fn wf(self) -> bool {
        sorted_by_price(self.bids) && sorted_by_price(self.asks)
    }

    /// The mid-price in half-ticks: best bid plus best ask. Dividing by two
    /// gives the arithmetic mean of the two prices with no rounding.
    pub open spec fn mid_price_half_ticks(self) -> int {
        self.bids.last().price + self.asks.first().price
    }

    /// The spread in ticks: best ask minus best bid. Negative exactly when
    /// the book is crossed; it is not clamped.
    pub open spec fn spread(self) -> int {
        self.asks.first().price - self.bids.last().price
    }

    /// The state after applying one level update: the named side holds the
    /// level at its price (replacing any prior level there), the other side
    /// is untouched, and the book's timestamp becomes the level's.
    pub open spec fn upsert(self, order: RestingOrderType) -> BookView {
        match order {
            RestingOrderType::BidOrder(l) => BookView {
                bids: seq_upsert(self.bids, l),
                asks: self.asks,
                last_update_time: l.ts,
            },
            RestingOrderType::AskOrder(l) => BookView {
                bids: self.bids,
                asks: seq_upsert(self.asks, l),
                last_update_time: l.ts,
            },
            RestingOrderType::BidPrice(_) => self,
            RestingOrderType::AskPrice(_) => self,
        }
    }
}

impl Orderbook {
    /// An empty book with timestamp zero.
    pub fn new() -> (book: Orderbook)
        ensures
            book@.wf(),
            book@.bids.len() == 0,
            book@.asks.len() == 0,
            book@.last_update_time == 0,
    {
        Orderbook { bids: Vec::new(), asks: Vec::new(), last_update_time: 0 }
    }

    /// Inserts or replaces the carried level on the carried side and stamps
    /// the book with the level's timestamp. The price-only selector
    /// variants are lookup selectors, not updates, and are excluded here.
    pub fn insert_order(&mut self, order: RestingOrderType)
        requires
            old(self)@.wf(),
            carries_level(order),
        ensures
            final(self)@.wf(),
            final(self)@ == old(self)@.upsert(order),
    {
        match order {
            RestingOrderType::BidOrder(bid) => {
                self.last_update_time = bid.ts;
                upsert_level(&mut self.bids, bid);
            },
            RestingOrderType::AskOrder(ask) => {
                self.last_update_time = ask.ts;
                upsert_level(&mut self.asks, ask);
            },
            RestingOrderType::BidPrice(_) => {
                proof {
                    assert(false);
                }
            },
            RestingOrderType::AskPrice(_) => {
                proof {
                    assert(false);
                }
            },
        }
    }

    /// The best (highest-priced) bid level, or `EmptySide` exactly when no
    /// bid is resting.
    pub fn get_bid(&self) -> (r: Result<RestingOrder, BookError>)
        requires
            self@.wf(),
        ensures
            match r {
                Ok(l) => {
                    &&& self@.bids.len() > 0
                    &&& l == self@.bids.last()
                    &&& forall|i: int| 0 <= i < self@.bids.len() ==> self@.bids[i].price <= l.price
                },
                Err(e) => self@.bids.len() == 0 && e == BookError::EmptySide,
            },
    {
        if self.bids.len() == 0 {
            Err(BookError::EmptySide)
        } else {
            let l = self.bids[self.bids.len() - 1];
            proof {
                lemma_best_prices_dominate(self@);
            }
            Ok(l)
        }
    }

    /// The best (lowest-priced) ask level, or `EmptySide` exactly when no
    /// ask is resting.
    pub fn get_ask(&self) -> (r: Result<RestingOrder, BookError>)
        requires
            self@.wf(),
        ensures
            match r {
                Ok(l) => {
                    &&& self@.asks.len() > 0
                    &&& l == self@.asks.first()
                    &&& forall|i: int| 0 <= i < self@.asks.len() ==> l.price <= self@.asks[i].price
                },
                Err(e) => self@.asks.len() == 0 && e == BookError::EmptySide,
            },
    {
        if self.asks.len() == 0 {
            Err(BookError::EmptySide)
        } else {
            let l = self.asks[0];
            proof {
                lemma_best_prices_dominate(self@);
            }
            Ok(l)
        }
    }

    /// A read-only snapshot of the bid side, ascending by price. The book
    /// never hands out a live handle to its sides.
    pub fn get_bids(&self) -> (r: Vec<RestingOrder>)
        ensures
            r@ == self@.bids,
    {
        copy_levels(&self.bids)
    }

    /// A read-only snapshot of the ask side, ascending by price.
    pub fn get_asks(&self) -> (r: Vec<RestingOrder>)
        ensures
            r@ == self@.asks,
    {
        copy_levels(&self.asks)
    }

    /// The mid-price in half-ticks — best bid plus best ask, which is twice
    /// the arithmetic mean of the two prices, represented exactly.
    /// `EmptySide` exactly when either side is empty.
    pub fn get_mid_price(&self) -> (r: Result<u128, BookError>)
        requires
            self@.wf(),
        ensures
            match r {
                Ok(m) => {
                    &&& self@.bids.len() > 0
                    &&& self@.asks.len() > 0
                    &&& m as int == self@.mid_price_half_ticks()
                },
                Err(e) => {
                    &&& (self@.bids.len() == 0 || self@.asks.len() == 0)
                    &&& e == BookError::EmptySide
                },
            },
    {
        let bid = match self.get_bid() {
            Ok(l) => l,
            Err(e) => {
                return Err(e);
            },
        };
        let ask = match self.get_ask() {
            Ok(l) => l,
            Err(e) => {
                return Err(e);
            },
        };
        Ok(bid.price as u128 + ask.price as u128)
    }

    /// The spread in ticks — best ask minus best bid, negative exactly when
    /// the book is crossed. `EmptySide` exactly when either side is empty.
    pub fn get_orderbook_spread(&self) -> (r: Result<i128, BookError>)
        requires
            self@.wf(),
        ensures
            match r {
                Ok(sp) => {
                    &&& self@.bids.len() > 0
                    &&& self@.asks.len() > 0
                    &&& sp as int == self@.spread()
                },
                Err(e) => {
                    &&& (self@.bids.len() == 0 || self@.asks.len() == 0)
                    &&& e == BookError::EmptySide
                },
            },
    {
        let bid = match self.get_bid() {
            Ok(l) => l,
            Err(e) => {
                return Err(e);
            },
        };
        let ask = match self.get_ask() {
            Ok(l) => l,
            Err(e) => {
                return Err(e);
            },
        };
        Ok(ask.price as i128 - bid.price as i128)
    }

    /// Whether an order of `size` would be filled in full by the level
    /// resting at the carried price on the carried side: `Ok(true)` when the
    /// requested size is at most the resting size (equality included),
    /// `Ok(false)` when it exceeds it, `PriceNotFound` when no level rests
    /// at that exact price. The level-carrying selector variants are update
    /// selectors, not lookups, and are excluded here.
    pub fn safety_check_size(&self, price: RestingOrderType, size: u32) -> (r: Result<
        bool,
        BookError,
    >)
        requires
            self@.wf(),
            carries_price(price),
        ensures
            match price {
                RestingOrderType::BidPrice(p) => r == spec_safety(self@.bids, p, size),
                RestingOrderType::AskPrice(p) => r == spec_safety(self@.asks, p, size),
                _ => false,
            },
    {
        let level = match price {
            RestingOrderType::BidPrice(p) => find_level(&self.bids, p),
            RestingOrderType::AskPrice(p) => find_level(&self.asks, p),
            _ => {
                proof {
                    assert(false);
                }
                None
            },
        };
        match level {
            Some(l) => Ok(size <= l.size),
            None => Err(BookError::PriceNotFound),
        }
    }

    /// The total resting size of each side, bids first. These are the two
    /// depths whose log-ratio is the order-flow-imbalance signal; the
    /// logarithm itself is floating-point work and is taken by the caller,
    /// who must treat a zero depth (log of zero) as a non-finite signal.
    pub fn get_side_depths(&self) -> (r: (u128, u128))
        ensures
            r.0 as int == sum_sizes(self@.bids),
            r.1 as int == sum_sizes(self@.asks),
    {
        (side_depth(&self.bids), side_depth(&self.asks))
    }

    /// The total resting size of each side restricted to prices within
    /// `diff` ticks of the mid-price, bids first: bids at or above
    /// `mid − diff`, asks at or below `mid + diff` — each side is trimmed
    /// only on the bound facing the mid-price. `EmptySide` exactly when
    /// either side is empty, since the window needs a mid-price.
    pub fn get_side_depths_by_range(&self, diff: u64) -> (r: Result<(u128, u128), BookError>)
        requires
            self@.wf(),
        ensures
            match r {
                Ok(t) => {
                    &&& self@.bids.len() > 0
                    &&& self@.asks.len() > 0
                    &&& t.0 as int == sum_bid_sizes_in_window(
                        self@.bids,
                        self@.mid_price_half_ticks(),
                        diff as int,
                    )
                    &&& t.1 as int == sum_ask_sizes_in_window(
                        self@.asks,
                        self@.mid_price_half_ticks(),
                        diff as int,
                    )
                },
                Err(e) => {
                    &&& (self@.bids.len() == 0 || self@.asks.len() == 0)
                    &&& e == BookError::EmptySide
                },
            },
    {
        let mid2 = match self.get_mid_price() {
            Ok(m) => m,
            Err(e) => {
                return Err(e);
            },
        };
        let b = bid_depth_in_window(&self.bids, mid2, diff);
        let a = ask_depth_in_window(&self.asks, mid2, diff);
        Ok((b, a))
    }

    /// Whether the current spread is at most `max_spread` ticks — the
    /// pre-trade volatility gate. `EmptySide` exactly when either side is
    /// empty.
    pub fn safety_check_spread(&self, max_spread: i128) -> (r: Result<bool, BookError>)
        requires
            self@.wf(),
        ensures
            match r {
                Ok(b) => {
                    &&& self@.bids.len() > 0
                    &&& self@.asks.len() > 0
                    &&& b == (self@.spread() <= max_spread as int)
                },
                Err(e) => {
                    &&& (self@.bids.len() == 0 || self@.asks.len() == 0)
                    &&& e == BookError::EmptySide
                },
            },
    {
        match self.get_orderbook_spread() {
            Ok(sp) => Ok(sp <= max_spread),
            Err(e) => Err(e),
        }
    }
}

/// Law: in a well-formed book the best bid prices at least as high as every
/// resting bid level, and the best ask at most as low as every ask level.
pub proof fn lemma_best_prices_dominate(v: BookView)
    requires
        v.wf(),
    ensures
        forall|i: int| 0 <= i < v.bids.len() ==> v.bids[i].price <= v.bids.last().price,
        forall|i: int| 0 <= i < v.asks.len() ==> v.asks.first().price <= v.asks[i].price,
{
    assert forall|i: int| 0 <= i < v.bids.len() implies v.bids[i].price
        <= v.bids.last().price by {
        if i < v.bids.len() - 1 {
            assert(v.bids[i].price < v.bids[v.bids.len() - 1].price);
        }
    }
    assert forall|i: int| 0 <= i < v.asks.len() implies v.asks.first().price
        <= v.asks[i].price by {
        if 0 < i {
            assert(v.asks[0].price < v.asks[i].price);
        }
    }
}

/// A side's total size is bounded by its level count times the largest
/// size one level can hold, and is never negative.
proof fn lemma_sum_sizes_bound(s: Seq<RestingOrder>)
    ensures
        0 <= sum_sizes(s) <= s.len() * 0xffff_ffff,
    decreases s.len(),
{
    if s.len() > 0 {
        lemma_sum_sizes_bound(s.drop_first());
    }
}

/// The windowed sums are bounded the same way as the full sums, and each
/// lies between zero and the full sum of the side.
proof fn lemma_sum_in_window_bound(s: Seq<RestingOrder>, mid2: int, diff: int)
    ensures
        0 <= sum_bid_sizes_in_window(s, mid2, diff) <= s.len() * 0xffff_ffff,
        0 <= sum_ask_sizes_in_window(s, mid2, diff) <= s.len() * 0xffff_ffff,
    decreases s.len(),
{
    if s.len() > 0 {
        lemma_sum_in_window_bound(s.drop_first(), mid2, diff);
    }
}

/// Sums the sizes of a whole side.
fn side_depth(v: &Vec<RestingOrder>) -> (total: u128)
    ensures
        total as int == sum_sizes(v@),
{
    let mut i: usize = v.len();
    let mut total: u128 = 0;
    proof {
        assert(v@.skip(v@.len() as int) =~= Seq::<RestingOrder>::empty());
    }
    while i > 0
        invariant
            0 <= i <= v.len(),
            total as int == sum_sizes(v@.skip(i as int)),
        decreases i,
    {
        i = i - 1;
        proof {
            assert(v@.skip(i as int).drop_first() =~= v@.skip(i as int + 1));
            lemma_sum_sizes_bound(v@.skip(i as int));
        }
        total = total + v[i].size as u128;
    }
    proof {
        assert(v@.skip(0) =~= v@);
    }
    total
}

/// Sums the sizes of the bid levels inside the window.
fn bid_depth_in_window(v: &Vec<RestingOrder>, mid2: u128, diff: u64) -> (total: u128)
    ensures
        total as int == sum_bid_sizes_in_window(v@, mid2 as int, diff as int),
{
    let mut i: usize = v.len();
    let mut total: u128 = 0;
    proof {
        assert(v@.skip(v@.len() as int) =~= Seq::<RestingOrder>::empty());
    }
    while i > 0
        invariant
            0 <= i <= v.len(),
            total as int == sum_bid_sizes_in_window(v@.skip(i as int), mid2 as int, diff as int),
        decreases i,
    {
        i = i - 1;
        proof {
            assert(v@.skip(i as int).drop_first() =~= v@.skip(i as int + 1));
            lemma_sum_in_window_bound(v@.skip(i as int), mid2 as int, diff as int);
        }
        let p2 = 2 * (v[i].price as u128);
        let inside = if p2 >= mid2 {
            true
        } else {
            mid2 - p2 <= 2 * (diff as u128)
        };
        if inside {
            total = total + v[i].size as u128;
        }
    }
    proof {
        assert(v@.skip(0) =~= v@);
    }
    total
}

/// Sums the sizes of the ask levels inside the window.
fn ask_depth_in_window(v: &Vec<RestingOrder>, mid2: u128, diff: u64) -> (total: u128)
    ensures
        total as int == sum_ask_sizes_in_window(v@, mid2 as int, diff as int),
{
    let mut i: usize = v.len();
    let mut total: u128 = 0;
    proof {
        assert(v@.skip(v@.len() as int) =~= Seq::<RestingOrder>::empty());
    }
    while i > 0
        invariant
            0 <= i <= v.len(),
            total as int == sum_ask_sizes_in_window(v@.skip(i as int), mid2 as int, diff as int),
        decreases i,
    {
        i = i - 1;
        proof {
            assert(v@.skip(i as int).drop_first() =~= v@.skip(i as int + 1));
            lemma_sum_in_window_bound(v@.skip(i as int), mid2 as int, diff as int);
        }
        let p2 = 2 * (v[i].price as u128);
        let inside = if p2 <= mid2 {
            true
        } else {
            p2 - mid2 <= 2 * (diff as u128)
        };
        if inside {
            total = total + v[i].size as u128;
        }
    }
    proof {
        assert(v@.skip(0) =~= v@);
    }
    total
}

/// The level resting at exactly price `p`, if any.
fn find_level(v: &Vec<RestingOrder>, p: u64) -> (r: Option<RestingOrder>)
    ensures
        r == seq_find(v@, p),
{
    let mut i: usize = 0;
    proof {
        assert(v@.skip(0) =~= v@);
    }
    while i < v.len()
        invariant
            0 <= i <= v.len(),
            seq_find(v@, p) == seq_find(v@.skip(i as int), p),
        decreases v.len() - i,
    {
        if v[i].price == p {
            proof {
                assert(v@.skip(i as int)[0] == v@[i as int]);
            }
            return Some(v[i]);
        }
        proof {
            assert(v@.skip(i as int).drop_first() =~= v@.skip(i as int + 1));
        }
        i = i + 1;
    }
    proof {
        assert(v@.skip(i as int) =~= Seq::<RestingOrder>::empty());
    }
    None
}

/// An element-wise copy of one side.
fn copy_levels(v: &Vec<RestingOrder>) -> (r: Vec<RestingOrder>)
    ensures
        r@ == v@,
{
    let mut r: Vec<RestingOrder> = Vec::new();
    let mut i: usize = 0;
    while i < v.len()
        invariant
            0 <= i <= v.len(),
            r@ =~= v@.take(i as int),
        decreases v.len() - i,
    {
        r.push(v[i]);
        i = i + 1;
    }
    proof {
        assert(r@ =~= v@);
    }
    r
}

/// Every level of an upserted side is either the level just applied or one
/// that was already resting there.
proof fn lemma_seq_upsert_elems(s: Seq<RestingOrder>, l: RestingOrder)
    ensures
        forall|k: int|
            0 <= k < seq_upsert(s, l).len() ==> (seq_upsert(s, l)[k] == l || (exists|j: int|
                0 <= j < s.len() && s[j] == seq_upsert(s, l)[k])),
    decreases s.len(),
{
    let u = seq_upsert(s, l);
    if s.len() == 0 {
        assert(u[0] == l);
    } else if s[0].price < l.price {
        let t = s.drop_first();
        let u2 = seq_upsert(t, l);
        lemma_seq_upsert_elems(t, l);
        assert forall|k: int| 0 <= k < u.len() implies (u[k] == l || (exists|j: int|
            0 <= j < s.len() && s[j] == u[k])) by {
            if k == 0 {
                assert(s[0] == u[k]);
            } else {
                assert(u[k] == u2[k - 1]);
                if u2[k - 1] != l {
                    let w = choose|j: int| 0 <= j < t.len() && t[j] == u2[k - 1];
                    assert(s[w + 1] == u[k]);
                }
            }
        }
    } else if s[0].price == l.price {
        let t = s.drop_first();
        assert forall|k: int| 0 <= k < u.len() implies (u[k] == l || (exists|j: int|
            0 <= j < s.len() && s[j] == u[k])) by {
            if k > 0 {
                assert(s[k] == u[k]);
            }
        }
    } else {
        assert forall|k: int| 0 <= k < u.len() implies (u[k] == l || (exists|j: int|
            0 <= j < s.len() && s[j] == u[k])) by {
            if k > 0 {
                assert(s[k - 1] == u[k]);
            }
        }
    }
}

/// An upsert keeps a side sorted strictly ascending by price.
pub proof fn lemma_seq_upsert_sorted(s: Seq<RestingOrder>, l: RestingOrder)
    requires
        sorted_by_price(s),
    ensures
        sorted_by_price(seq_upsert(s, l)),
    decreases s.len(),
{
    let u = seq_upsert(s, l);
    if s.len() == 0 {
    } else if s[0].price < l.price {
        let t = s.drop_first();
        let u2 = seq_upsert(t, l);
        assert(sorted_by_price(t)) by {
            assert(forall|i: int| 0 <= i < t.len() ==> t[i] == s[i + 1]);
        }
        lemma_seq_upsert_sorted(t, l);
        lemma_seq_upsert_elems(t, l);
        assert forall|i: int, j: int| 0 <= i < j < u.len() implies u[i].price < u[j].price by {
            if i == 0 {
                assert(u[0] == s[0]);
                assert(u[j] == u2[j - 1]);
                if u2[j - 1] != l {
                    let w = choose|q: int| 0 <= q < t.len() && t[q] == u2[j - 1];
                    assert(t[w] == s[w + 1]);
                    assert(s[0].price < s[w + 1].price);
                }
            } else {
                assert(u[i] == u2[i - 1]);
                assert(u[j] == u2[j - 1]);
                assert(u2[i - 1].price < u2[j - 1].price);
            }
        }
    } else if s[0].price == l.price {
        let t = s.drop_first();
        assert forall|i: int, j: int| 0 <= i < j < u.len() implies u[i].price < u[j].price by {
            assert(u[j] == s[j]);
            if i == 0 {
                assert(u[0] == l);
                assert(s[0].price < s[j].price);
            } else {
                assert(u[i] == s[i]);
            }
        }
    } else {
        assert forall|i: int, j: int| 0 <= i < j < u.len() implies u[i].price < u[j].price by {
            assert(u[j] == s[j - 1]);
            if i == 0 {
                assert(u[0] == l);
                if j == 1 {
                    assert(l.price < s[0].price);
                } else {
                    assert(s[0].price < s[j - 1].price);
                }
            } else {
                assert(u[i] == s[i - 1]);
            }
        }
    }
}

/// Law: an upsert preserves the book's well-formedness.
pub proof fn lemma_upsert_preserves_wf(v: BookView, order: RestingOrderType)
    requires
        v.wf(),
    ensures
        v.upsert(order).wf(),
{
    match order {
        RestingOrderType::BidOrder(l) => {
            lemma_seq_upsert_sorted(v.bids, l);
        },
        RestingOrderType::AskOrder(l) => {
            lemma_seq_upsert_sorted(v.asks, l);
        },
        RestingOrderType::BidPrice(_) => {
        },
        RestingOrderType::AskPrice(_) => {
        },
    }
}

/// What `seq_find` locates carries exactly the price it was asked for and
/// is one of the side's resting levels.
pub proof fn lemma_find_properties(s: Seq<RestingOrder>, p: u64)
    requires
        seq_find(s, p) is Some,
    ensures
        seq_find(s, p)->Some_0.price == p,
        exists|i: int| 0 <= i < s.len() && s[i] == seq_find(s, p)->Some_0,
    decreases s.len(),
{
    if s.len() == 0 {
    } else if s[0].price == p {
        assert(s[0] == seq_find(s, p)->Some_0);
    } else {
        let t = s.drop_first();
        lemma_find_properties(t, p);
        let w = choose|i: int| 0 <= i < t.len() && t[i] == seq_find(t, p)->Some_0;
        assert(s[w + 1] == seq_find(s, p)->Some_0);
    }
}

/// Law: a just-upserted level rests in the book at its price, and the best
/// price of its side covers it — the best bid prices at or above a new bid,
/// the best ask at or below a new ask. With `lemma_upsert_find` this holds
/// through any further upserts at other prices.
pub proof fn lemma_upsert_bounds_best(v: BookView, l: RestingOrder)
    requires
        v.wf(),
    ensures
        seq_find(v.upsert(RestingOrderType::BidOrder(l)).bids, l.price) == Some(l),
        l.price <= v.upsert(RestingOrderType::BidOrder(l)).bids.last().price,
        seq_find(v.upsert(RestingOrderType::AskOrder(l)).asks, l.price) == Some(l),
        v.upsert(RestingOrderType::AskOrder(l)).asks.first().price <= l.price,
{
    let ub = seq_upsert(v.bids, l);
    lemma_upsert_find(v.bids, l, l.price);
    lemma_seq_upsert_sorted(v.bids, l);
    lemma_find_properties(ub, l.price);
    let wb = choose|i: int| 0 <= i < ub.len() && ub[i] == seq_find(ub, l.price)->Some_0;
    assert(ub[wb].price <= ub.last().price) by {
        if wb < ub.len() - 1 {
            assert(ub[wb].price < ub[ub.len() - 1].price);
        }
    }
    let ua = seq_upsert(v.asks, l);
    lemma_upsert_find(v.asks, l, l.price);
    lemma_seq_upsert_sorted(v.asks, l);
    lemma_find_properties(ua, l.price);
    let wa = choose|i: int| 0 <= i < ua.len() && ua[i] == seq_find(ua, l.price)->Some_0;
    assert(ua.first().price <= ua[wa].price) by {
        if 0 < wa {
            assert(ua[0].price < ua[wa].price);
        }
    }
}

/// Law: an upsert behaves as a map update on the side it touches — after
/// it, the level resting at the new level's price is exactly the new level,
/// and every other price resolves as it did before.
pub proof fn lemma_upsert_find(s: Seq<RestingOrder>, l: RestingOrder, p: u64)
    ensures
        seq_find(seq_upsert(s, l), p) == if p == l.price {
            Some(l)
        } else {
            seq_find(s, p)
        },
    decreases s.len(),
{
    let u = seq_upsert(s, l);
    if s.len() == 0 {
        assert(u[0] == l);
        assert(u.drop_first() =~= Seq::<RestingOrder>::empty());
        assert(seq_find(u.drop_first(), p) == None::<RestingOrder>);
    } else if s[0].price < l.price {
        lemma_upsert_find(s.drop_first(), l, p);
        assert(u[0] == s[0]);
        assert(u.drop_first() =~= seq_upsert(s.drop_first(), l));
        if s[0].price == p {
            assert(seq_find(u, p) == Some(s[0]));
            assert(seq_find(s, p) == Some(s[0]));
            assert(p != l.price);
        } else {
            assert(seq_find(u, p) == seq_find(seq_upsert(s.drop_first(), l), p));
            assert(seq_find(s, p) == seq_find(s.drop_first(), p));
        }
    } else if s[0].price == l.price {
        assert(u[0] == l);
        assert(u.drop_first() =~= s.drop_first());
        if p == l.price {
            assert(seq_find(u, p) == Some(l));
        } else {
            assert(seq_find(u, p) == seq_find(s.drop_first(), p));
            assert(seq_find(s, p) == seq_find(s.drop_first(), p));
        }
    } else {
        assert(u[0] == l);
        assert(u.drop_first() =~= s);
        if p == l.price {
            assert(seq_find(u, p) == Some(l));
        } else {
            assert(seq_find(u, p) == seq_find(s, p));
        }
    }
}

/// Law: upsert is idempotent — re-applying the identical level leaves the
/// side exactly as one application left it.
pub proof fn lemma_seq_upsert_idempotent(s: Seq<RestingOrder>, l: RestingOrder)
    ensures
        seq_upsert(seq_upsert(s, l), l) == seq_upsert(s, l),
    decreases s.len(),
{
    let t = seq_upsert(s, l);
    if s.len() == 0 {
        assert(t[0] == l);
        assert(seq_upsert(t, l) =~= t);
    } else if s[0].price < l.price {
        lemma_seq_upsert_idempotent(s.drop_first(), l);
        assert(t[0] == s[0]);
        assert(t.drop_first() =~= seq_upsert(s.drop_first(), l));
        assert(seq_upsert(t, l) =~= t);
    } else if s[0].price == l.price {
        assert(t[0] == l);
        assert(t.drop_first() =~= s.drop_first());
        assert(seq_upsert(t, l) =~= t);
    } else {
        assert(t[0] == l);
        assert(t.drop_first() =~= s);
        assert(seq_upsert(t, l) =~= t);
    }
}

/// Law: applying the same level update to a book twice yields the same book
/// state as applying it once — the same sides and the same timestamp.
pub proof fn lemma_upsert_idempotent(v: BookView, order: RestingOrderType)
    ensures
        v.upsert(order).upsert(order) == v.upsert(order),
{
    match order {
        RestingOrderType::BidOrder(l) => {
            lemma_seq_upsert_idempotent(v.bids, l);
        },
        RestingOrderType::AskOrder(l) => {
            lemma_seq_upsert_idempotent(v.asks, l);
        },
        RestingOrderType::BidPrice(_) => {
        },
        RestingOrderType::AskPrice(_) => {
        },
    }
}

/// Law: after any upsert the book's timestamp equals the timestamp of the
/// level just applied, whichever side carried it.
pub proof fn lemma_upsert_sets_time(v: BookView, l: RestingOrder)
    ensures
        v.upsert(RestingOrderType::BidOrder(l)).last_update_time == l.ts,
        v.upsert(RestingOrderType::AskOrder(l)).last_update_time == l.ts,
{
}

/// Where `seq_upsert` replaces: when the level at index `i` already carries
/// the new level's price, the upsert is an in-place update at `i`.
proof fn lemma_seq_upsert_is_update(s: Seq<RestingOrder>, l: RestingOrder, i: int)
    requires
        sorted_by_price(s),
        0 <= i < s.len(),
        forall|k: int| 0 <= k < i ==> s[k].price < l.price,
        s[i].price == l.price,
    ensures
        seq_upsert(s, l) == s.update(i, l),
    decreases i,
{
    if i == 0 {
        assert(seq_upsert(s, l) =~= s.update(0, l));
    } else {
        let t = s.drop_first();
        assert(s[0].price < l.price);
        lemma_seq_upsert_is_update(t, l, i - 1);
        assert(seq_upsert(s, l) =~= s.update(i, l));
    }
}

/// Where `seq_upsert` inserts: when every level before index `i` prices
/// below the new level and the one at `i` (if any) prices above it, the
/// upsert is an insertion at `i`.
proof fn lemma_seq_upsert_is_insert(s: Seq<RestingOrder>, l: RestingOrder, i: int)
    requires
        sorted_by_price(s),
        0 <= i <= s.len(),
        forall|k: int| 0 <= k < i ==> s[k].price < l.price,
        i < s.len() ==> s[i].price > l.price,
    ensures
        seq_upsert(s, l) == s.insert(i, l),
    decreases i,
{
    if i == 0 {
        if s.len() == 0 {
            assert(seq_upsert(s, l) =~= s.insert(0, l));
        } else {
            assert(s[0].price > l.price);
            assert(seq_upsert(s, l) =~= s.insert(0, l));
        }
    } else {
        let t = s.drop_first();
        assert(s[0].price < l.price);
        lemma_seq_upsert_is_insert(t, l, i - 1);
        assert(seq_upsert(s, l) =~= s.insert(i, l));
    }
}

/// Insert-or-replace of one level in a sorted side.
fn upsert_level(v: &mut Vec<RestingOrder>, l: RestingOrder)
    requires
        sorted_by_price(old(v)@),
    ensures
        final(v)@ == seq_upsert(old(v)@, l),
        sorted_by_price(final(v)@),
{
    let ghost s0 = v@;
    let mut i: usize = 0;
    while i < v.len() && v[i].price < l.price
        invariant
            0 <= i <= v.len(),
            v@ == s0,
            sorted_by_price(s0),
            forall|k: int| 0 <= k < i ==> s0[k].price < l.price,
        decreases v.len() - i,
    {
        i = i + 1;
    }
    if i < v.len() && v[i].price == l.price {
        proof {
            lemma_seq_upsert_is_update(s0, l, i as int);
        }
        v[i] = l;
        assert(sorted_by_price(v@)) by {
            assert(forall|k: int| 0 <= k < v@.len() && k != i ==> v@[k] == s0[k]);
        }
    } else {
        proof {
            lemma_seq_upsert_is_insert(s0, l, i as int);
        }
        v.insert(i, l);
        assert(sorted_by_price(v@)) by {
            assert(forall|k: int| 0 <= k < i ==> v@[k] == s0[k]);
            assert(v@[i as int] == l);
            assert(forall|k: int| i < k < v@.len() ==> v@[k] == s0[k - 1]);
        }
    }
}

} // verus!
