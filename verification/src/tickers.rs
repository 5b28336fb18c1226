use vstd::prelude::*;

use crate::error::ParseError;
use crate::text::{all_digits, dec_value, parse_u32, split_fields, split_on, str_eq};

verus! {

/// Open/high/low/close prices (fixed-point price units) and traded volume.
#[derive(Debug, Clone)]
pub struct OHLC {
    pub open: u64,
    pub high: u64,
    pub low: u64,
    pub close: u64,
    pub volume: u64,
}

/// One price level of a depth snapshot: an exact fixed-point price and the
/// quantity resting at that price.
#[derive(Debug, Clone, Copy, PartialEq, Eq, Structural)]
pub struct DepthOrder {
    pub price: u64,
    pub quantity: u32,
}

/// A read-only snapshot of the order book for one instrument. `bid` and
/// `ask` hold the levels of each side, best price first: bids descending,
/// asks ascending.
#[derive(Debug, Clone)]
pub struct Depth {
    pub depth: u8,
    pub total_bid: u32,
    pub total_ask: u32,
    pub bid: Vec<DepthOrder>,
    pub ask: Vec<DepthOrder>,
}

/// A live quote: last traded price, the day's OHLC and the current depth.
#[derive(Debug, Clone)]
pub struct Ticker {
    pub ltp: u64,
    pub ohlc: OHLC,
    pub depth: Depth,
}

impl Default for OHLC {
    fn default() -> (d: Self)
        ensures
            d == (OHLC { open: 0, high: 0, low: 0, close: 0, volume: 0 }),
    {
        OHLC { open: 0, high: 0, low: 0, close: 0, volume: 0 }
    }
}

impl Default for DepthOrder {
    fn default() -> (d: Self)
        ensures
            d == (DepthOrder { price: 0, quantity: 0 }),
    {
        DepthOrder { price: 0, quantity: 0 }
    }
}

impl Default for Depth {
    fn default() -> (d: Self)
        ensures
            d.depth == 0,
            d.total_bid == 0,
            d.total_ask == 0,
            d.bid@ == Seq::<DepthOrder>::empty(),
            d.ask@ == Seq::<DepthOrder>::empty(),
    {
        Depth { depth: 0, total_bid: 0, total_ask: 0, bid: Vec::new(), ask: Vec::new() }
    }
}

impl Default for Ticker {
    fn default() -> (t: Self)
        ensures
            t.ltp == 0,
            t.ohlc == (OHLC { open: 0, high: 0, low: 0, close: 0, volume: 0 }),
            t.depth.depth == 0,
            t.depth.total_bid == 0,
            t.depth.total_ask == 0,
            t.depth.bid@ == Seq::<DepthOrder>::empty(),
            t.depth.ask@ == Seq::<DepthOrder>::empty(),
    {
        Ticker { ltp: 0, ohlc: Default::default(), depth: Default::default() }
    }
}

/// Total quantity resting on a side, summed over its levels.
pub open spec fn side_quantity(levels: Seq<DepthOrder>) -> int
    decreases levels.len(),
{
    if levels.len() == 0 {
        0
    } else {
        levels[0].quantity + side_quantity(levels.drop_first())
    }
}

/// Total cost of consuming a side completely: the sum of price times
/// quantity over its levels.
pub open spec fn side_cost(levels: Seq<DepthOrder>) -> int
    decreases levels.len(),
{
    if levels.len() == 0 {
        0
    } else {
        levels[0].price * levels[0].quantity + side_cost(levels.drop_first())
    }
}

/// Cost of filling `remaining` units by walking the levels in priority
/// order, consuming `min(remaining, level.quantity)` units at each level's
/// price and moving to the next level once the current one is exhausted.
pub open spec fn walk_cost(levels: Seq<DepthOrder>, remaining: int) -> int
    decreases levels.len(),
{
    if remaining <= 0 || levels.len() == 0 {
        0
    } else {
        let take = if remaining < levels[0].quantity as int {
            remaining
        } else {
            levels[0].quantity as int
        };
        take * levels[0].price + walk_cost(levels.drop_first(), remaining - take)
    }
}

/// How many levels a walk for `remaining` units touches before it stops.
pub open spec fn consumed_levels(levels: Seq<DepthOrder>, remaining: int) -> int
    decreases levels.len(),
{
    if remaining <= 0 || levels.len() == 0 {
        0
    } else {
        let take = if remaining < levels[0].quantity as int {
            remaining
        } else {
            levels[0].quantity as int
        };
        1 + consumed_levels(levels.drop_first(), remaining - take)
    }
}

/// A walk touches between zero and all of the levels.
pub proof fn lemma_consumed_levels_bounds(levels: Seq<DepthOrder>, remaining: int)
    ensures
        0 <= consumed_levels(levels, remaining) <= levels.len(),
    decreases levels.len(),
{
    if !(remaining <= 0 || levels.len() == 0) {
        let take = if remaining < levels[0].quantity as int {
            remaining
        } else {
            levels[0].quantity as int
        };
        lemma_consumed_levels_bounds(levels.drop_first(), remaining - take);
    }
}

/// A full fill pays a price within the range of the consumed levels: if
/// every level the walk touches has its price between `lo` and `hi`, the
/// total cost of filling `q` units lies between `q * lo` and `q * hi`.
pub proof fn lemma_fill_price_in_range(levels: Seq<DepthOrder>, q: int, lo: int, hi: int)
    requires
        0 < q <= side_quantity(levels),
        forall|i: int|
            0 <= i < consumed_levels(levels, q) ==> lo <= (#[trigger] levels[i]).price <= hi,
    ensures
        q * lo <= walk_cost(levels, q) <= q * hi,
    decreases levels.len(),
{
    lemma_side_quantity_nonneg(levels);
    assert(levels.len() > 0);
    let qty0 = levels[0].quantity as int;
    let p0 = levels[0].price as int;
    let take = if q < qty0 {
        q
    } else {
        qty0
    };
    lemma_consumed_levels_bounds(levels.drop_first(), q - take);
    assert(consumed_levels(levels, q) >= 1);
    assert(lo <= p0 <= hi);
    if take == q {
        assert(walk_cost(levels.drop_first(), 0) == 0);
        assert(walk_cost(levels, q) == q * p0);
        assert(q * lo <= q * p0 <= q * hi) by (nonlinear_arith)
            requires
                q > 0,
                lo <= p0 <= hi,
        ;
    } else {
        let rest = levels.drop_first();
        let q2 = q - take;
        assert(side_quantity(levels) == qty0 + side_quantity(rest));
        assert forall|i: int|
            0 <= i < consumed_levels(rest, q2) implies lo <= (#[trigger] rest[i]).price <= hi by {
            lemma_consumed_levels_bounds(rest, q2);
            assert(rest[i] == levels[i + 1]);
            assert(i + 1 < consumed_levels(levels, q));
            assert(lo <= levels[i + 1].price <= hi);
        }
        lemma_fill_price_in_range(rest, q2, lo, hi);
        assert(walk_cost(levels, q) == take * p0 + walk_cost(rest, q2));
        assert(q * lo <= take * p0 + q2 * lo) by (nonlinear_arith)
            requires
                take + q2 == q,
                take >= 0,
                lo <= p0,
        ;
        assert(take * p0 + q2 * hi <= q * hi) by (nonlinear_arith)
            requires
                take + q2 == q,
                take >= 0,
                p0 <= hi,
        ;
    }
}

/// Prices never increase along the sequence (bids: best bid first).
pub open spec fn prices_descending(levels: Seq<DepthOrder>) -> bool {
    forall|i: int, j: int| 0 <= i <= j < levels.len() ==> levels[i].price >= levels[j].price
}

/// Prices never decrease along the sequence (asks: best ask first).
pub open spec fn prices_ascending(levels: Seq<DepthOrder>) -> bool {
    forall|i: int, j: int| 0 <= i <= j < levels.len() ==> levels[i].price <= levels[j].price
}

impl Depth {
    /// The invariant of a usable snapshot: each side is ordered best price
    /// first, and each side's totals fit the machine integers the walk
    /// accumulates into.
    pub open spec fn well_formed(self) -> bool {
        &&& prices_descending(self.bid@)
        &&& prices_ascending(self.ask@)
        &&& side_quantity(self.bid@) <= i32::MAX
        &&& side_quantity(self.ask@) <= i32::MAX
        &&& side_cost(self.bid@) <= u64::MAX
        &&& side_cost(self.ask@) <= u64::MAX
    }

    /// Runtime check of `well_formed`, for callers that receive a snapshot
    /// from an outside source and must validate it before execution.
    pub fn is_well_formed(&self) -> (b: bool)
        ensures
            b == self.well_formed(),
    {
        side_sorted(&self.bid, false) && side_sorted(&self.ask, true) && side_bounded(&self.bid)
            && side_bounded(&self.ask)
    }
}

pub proof fn lemma_side_quantity_nonneg(levels: Seq<DepthOrder>)
    ensures
        side_quantity(levels) >= 0,
    decreases levels.len(),
{
    if levels.len() > 0 {
        lemma_side_quantity_nonneg(levels.drop_first());
    }
}

pub proof fn lemma_side_cost_nonneg(levels: Seq<DepthOrder>)
    ensures
        side_cost(levels) >= 0,
    decreases levels.len(),
{
    if levels.len() > 0 {
        lemma_side_cost_nonneg(levels.drop_first());
    }
}

pub proof fn lemma_side_quantity_push(levels: Seq<DepthOrder>, x: DepthOrder)
    ensures
        side_quantity(levels.push(x)) == side_quantity(levels) + x.quantity,
    decreases levels.len(),
{
    assert(levels.push(x).len() == levels.len() + 1);
    if levels.len() == 0 {
        assert(levels.push(x)[0] == x);
        assert(levels.push(x).drop_first() =~= Seq::<DepthOrder>::empty());
        assert(side_quantity(levels.push(x)) == x.quantity + side_quantity(
            levels.push(x).drop_first(),
        ));
        assert(side_quantity(levels.push(x).drop_first()) == 0);
        assert(side_quantity(levels) == 0);
    } else {
        assert(levels.push(x)[0] == levels[0]);
        assert(levels.push(x).drop_first() =~= levels.drop_first().push(x));
        lemma_side_quantity_push(levels.drop_first(), x);
        assert(side_quantity(levels.push(x)) == levels[0].quantity + side_quantity(
            levels.push(x).drop_first(),
        ));
        assert(side_quantity(levels) == levels[0].quantity + side_quantity(levels.drop_first()));
    }
}

pub proof fn lemma_side_cost_push(levels: Seq<DepthOrder>, x: DepthOrder)
    ensures
        side_cost(levels.push(x)) == side_cost(levels) + x.price * x.quantity,
    decreases levels.len(),
{
    assert(levels.push(x).len() == levels.len() + 1);
    if levels.len() == 0 {
        assert(levels.push(x)[0] == x);
        assert(levels.push(x).drop_first() =~= Seq::<DepthOrder>::empty());
        assert(side_cost(levels.push(x)) == x.price * x.quantity + side_cost(
            levels.push(x).drop_first(),
        ));
        assert(side_cost(levels.push(x).drop_first()) == 0);
        assert(side_cost(levels) == 0);
    } else {
        assert(levels.push(x)[0] == levels[0]);
        assert(levels.push(x).drop_first() =~= levels.drop_first().push(x));
        lemma_side_cost_push(levels.drop_first(), x);
        assert(side_cost(levels.push(x)) == levels[0].price * levels[0].quantity + side_cost(
            levels.push(x).drop_first(),
        ));
        assert(side_cost(levels) == levels[0].price * levels[0].quantity + side_cost(
            levels.drop_first(),
        ));
    }
}

/// The sum over a prefix never exceeds the sum over the whole side.
pub proof fn lemma_side_quantity_take_le(levels: Seq<DepthOrder>, i: int)
    requires
        0 <= i <= levels.len(),
    ensures
        side_quantity(levels.take(i)) <= side_quantity(levels),
    decreases levels.len() - i,
{
    if i < levels.len() {
        lemma_side_quantity_push(levels.take(i), levels[i]);
        assert(levels.take(i + 1) =~= levels.take(i).push(levels[i]));
        lemma_side_quantity_take_le(levels, i + 1);
    } else {
        assert(levels.take(i) =~= levels);
    }
}

/// The cost over a prefix never exceeds the cost over the whole side.
pub proof fn lemma_side_cost_take_le(levels: Seq<DepthOrder>, i: int)
    requires
        0 <= i <= levels.len(),
    ensures
        side_cost(levels.take(i)) <= side_cost(levels),
    decreases levels.len() - i,
{
    if i < levels.len() {
        lemma_side_cost_push(levels.take(i), levels[i]);
        assert(levels.take(i + 1) =~= levels.take(i).push(levels[i]));
        lemma_side_cost_take_le(levels, i + 1);
    } else {
        assert(levels.take(i) =~= levels);
    }
}

/// A quote paired with the instrument it belongs to.
#[derive(Debug)]
pub struct CompleteTicker {
    pub ticker: Ticker,
    pub scrip: crate::scrip::Scrip,
}

impl CompleteTicker {
    /// Pairs an instrument with the quote fetched for it.
    pub fn from_scrip(scrip: crate::scrip::Scrip, ticker: Ticker) -> (r: Self)
        ensures
            r.scrip == scrip,
            r.ticker == ticker,
    {
        Self { ticker, scrip }
    }

    /// Replaces the quote with a freshly fetched one.
    pub fn reload(&mut self, updated_ticker: Ticker)
        ensures
            final(self).scrip == old(self).scrip,
            final(self).ticker.ltp == updated_ticker.ltp,
            final(self).ticker.ohlc == updated_ticker.ohlc,
            final(self).ticker.depth == updated_ticker.depth,
    {
        self.ticker.update_from_ticker(updated_ticker);
    }
}

/// A walk never pays a negative cost.
pub proof fn lemma_walk_cost_nonneg(levels: Seq<DepthOrder>, remaining: int)
    ensures
        walk_cost(levels, remaining) >= 0,
    decreases levels.len(),
{
    if !(remaining <= 0 || levels.len() == 0) {
        let take = if remaining < levels[0].quantity as int {
            remaining
        } else {
            levels[0].quantity as int
        };
        assert(take * levels[0].price >= 0) by (nonlinear_arith)
            requires
                take >= 0,
                levels[0].price >= 0,
        ;
        lemma_walk_cost_nonneg(levels.drop_first(), remaining - take);
    }
}

/// A walk never pays more than consuming the whole side would.
pub proof fn lemma_walk_cost_le_side_cost(levels: Seq<DepthOrder>, remaining: int)
    ensures
        walk_cost(levels, remaining) <= side_cost(levels),
    decreases levels.len(),
{
    if levels.len() == 0 {
    } else if remaining <= 0 {
        lemma_side_cost_nonneg(levels);
    } else {
        let take = if remaining < levels[0].quantity as int {
            remaining
        } else {
            levels[0].quantity as int
        };
        assert(take * levels[0].price <= levels[0].price * levels[0].quantity)
            by (nonlinear_arith)
            requires
                0 <= take <= levels[0].quantity,
                levels[0].price >= 0,
        ;
        lemma_walk_cost_le_side_cost(levels.drop_first(), remaining - take);
    }
}

/// Checks that one side's prices are sorted: ascending if `asc`, else
/// descending.
fn side_sorted(levels: &Vec<DepthOrder>, asc: bool) -> (b: bool)
    ensures
        b == if asc {
            prices_ascending(levels@)
        } else {
            prices_descending(levels@)
        },
{
    let n = levels.len();
    let mut i: usize = 1;
    if n == 0 {
        return true;
    }
    while i < n
        invariant
            1 <= i <= n == levels@.len(),
            if asc {
                prices_ascending(levels@.take(i as int))
            } else {
                prices_descending(levels@.take(i as int))
            },
        decreases n - i,
    {
        let prev = levels[i - 1].price;
        let cur = levels[i].price;
        if asc {
            if prev > cur {
                assert(!prices_ascending(levels@)) by {
                    assert(levels@[i - 1].price > levels@[i as int].price);
                }
                return false;
            }
        } else {
            if prev < cur {
                assert(!prices_descending(levels@)) by {
                    assert(levels@[i - 1].price < levels@[i as int].price);
                }
                return false;
            }
        }
        proof {
            let pre = levels@.take(i as int);
            let ext = levels@.take(i + 1);
            assert forall|a: int, b: int| 0 <= a <= b < ext.len() implies {
                if asc {
                    ext[a].price <= ext[b].price
                } else {
                    ext[a].price >= ext[b].price
                }
            } by {
                if b < i {
                    assert(pre[a] == ext[a] && pre[b] == ext[b]);
                } else if a < i {
                    assert(pre[a] == ext[a] && pre[i - 1] == levels@[i - 1]);
                }
            }
        }
        i = i + 1;
    }
    proof {
        assert(levels@.take(n as int) =~= levels@);
    }
    true
}

/// Checks that one side's total quantity fits an `i32` and its total cost
/// fits a `u64`.
fn side_bounded(levels: &Vec<DepthOrder>) -> (b: bool)
    ensures
        b == (side_quantity(levels@) <= i32::MAX && side_cost(levels@) <= u64::MAX),
{
    let n = levels.len();
    let mut i: usize = 0;
    let mut qty: u32 = 0;
    let mut cost: u64 = 0;
    proof {
        assert(levels@.take(0) =~= Seq::<DepthOrder>::empty());
    }
    while i < n
        invariant
            0 <= i <= n == levels@.len(),
            qty as int == side_quantity(levels@.take(i as int)),
            qty <= i32::MAX,
            cost as int == side_cost(levels@.take(i as int)),
        decreases n - i,
    {
        let q = levels[i].quantity;
        let p = levels[i].price;
        proof {
            lemma_side_quantity_push(levels@.take(i as int), levels@[i as int]);
            lemma_side_cost_push(levels@.take(i as int), levels@[i as int]);
            assert(levels@.take(i + 1) =~= levels@.take(i as int).push(levels@[i as int]));
        }
        let new_qty = match qty.checked_add(q) {
            Some(s) => s,
            None => {
                proof {
                    lemma_side_quantity_take_le(levels@, i + 1);
                }
                return false;
            },
        };
        if new_qty > i32::MAX as u32 {
            proof {
                lemma_side_quantity_take_le(levels@, i + 1);
            }
            return false;
        }
        let level_cost = match p.checked_mul(q as u64) {
            Some(c) => c,
            None => {
                proof {
                    lemma_side_cost_take_le(levels@, i + 1);
                }
                return false;
            },
        };
        let new_cost = match cost.checked_add(level_cost) {
            Some(c) => c,
            None => {
                proof {
                    lemma_side_cost_take_le(levels@, i + 1);
                }
                return false;
            },
        };
        qty = new_qty;
        cost = new_cost;
        i = i + 1;
    }
    proof {
        assert(levels@.take(n as int) =~= levels@);
    }
    true
}

/// Two depth snapshots hold the same data.
pub open spec fn same_depth(a: Depth, b: Depth) -> bool {
    &&& a.depth == b.depth
    &&& a.total_bid == b.total_bid
    &&& a.total_ask == b.total_ask
    &&& a.bid@ == b.bid@
    &&& a.ask@ == b.ask@
}

/// Two quotes hold the same data.
pub open spec fn same_ticker(a: Ticker, b: Ticker) -> bool {
    a.ltp == b.ltp && a.ohlc == b.ohlc && same_depth(a.depth, b.depth)
}

/// Why a store field under `key` with integer `value` is rejected, or
/// `None` when it applies cleanly. Scalar fields reject values that do not
/// fit; any other key must read `bid|ask:rate|quantity:index`.
pub open spec fn spec_update_error(key: Seq<char>, value: int) -> Option<ParseError> {
    if key == "ltp"@ || key == "open"@ || key == "high"@ || key == "low"@ || key == "close"@ || key
        == "total_volume"@ {
        None
    } else if key == "depth"@ {
        if value <= u8::MAX {
            None
        } else {
            Some(ParseError::ValueOutOfRange)
        }
    } else if key == "total_bid"@ || key == "total_ask"@ {
        if value <= u32::MAX {
            None
        } else {
            Some(ParseError::ValueOutOfRange)
        }
    } else {
        spec_depth_key_error(key, value)
    }
}

/// Why a depth-level key is rejected, or `None` when it applies cleanly.
pub open spec fn spec_depth_key_error(key: Seq<char>, value: int) -> Option<ParseError> {
    let parts = split_on(key, ':');
    if parts.len() != 3 {
        Some(ParseError::MalformedKey)
    } else if parts[0] != "bid"@ && parts[0] != "ask"@ {
        Some(ParseError::MalformedKey)
    } else if parts[1] != "rate"@ && parts[1] != "quantity"@ {
        Some(ParseError::MalformedKey)
    } else if !(parts[2].len() > 0 && all_digits(parts[2]) && dec_value(parts[2]) <= u32::MAX) {
        Some(ParseError::BadNumber)
    } else if parts[1] == "quantity"@ && value > u32::MAX {
        Some(ParseError::ValueOutOfRange)
    } else {
        None
    }
}

/// One side after a level update: the side grown with zeroed levels up to
/// the index if needed, then the rate or quantity at the index replaced.
pub open spec fn updated_side(side: Seq<DepthOrder>, idx: int, rate: bool, value: int) -> Seq<
    DepthOrder,
> {
    let padded = if idx < side.len() {
        side
    } else {
        side + Seq::new((idx + 1 - side.len()) as nat, |j: int| DepthOrder { price: 0, quantity: 0 })
    };
    if rate {
        padded.update(idx, DepthOrder { price: value as u64, quantity: padded[idx].quantity })
    } else {
        padded.update(idx, DepthOrder { price: padded[idx].price, quantity: value as u32 })
    }
}

/// How a quote changes under a store field: exactly one scalar field is
/// replaced, or exactly one level of one side is written through
/// `updated_side`.
pub open spec fn spec_updated(t0: Ticker, t1: Ticker, key: Seq<char>, value: int) -> bool {
    if key == "ltp"@ {
        t1.ltp == value as u64 && t1.ohlc == t0.ohlc && same_depth(t0.depth, t1.depth)
    } else if key == "open"@ {
        t1.ltp == t0.ltp && t1.ohlc == (OHLC { open: value as u64, ..t0.ohlc }) && same_depth(
            t0.depth,
            t1.depth,
        )
    } else if key == "high"@ {
        t1.ltp == t0.ltp && t1.ohlc == (OHLC { high: value as u64, ..t0.ohlc }) && same_depth(
            t0.depth,
            t1.depth,
        )
    } else if key == "low"@ {
        t1.ltp == t0.ltp && t1.ohlc == (OHLC { low: value as u64, ..t0.ohlc }) && same_depth(
            t0.depth,
            t1.depth,
        )
    } else if key == "close"@ {
        t1.ltp == t0.ltp && t1.ohlc == (OHLC { close: value as u64, ..t0.ohlc }) && same_depth(
            t0.depth,
            t1.depth,
        )
    } else if key == "total_volume"@ {
        t1.ltp == t0.ltp && t1.ohlc == (OHLC { volume: value as u64, ..t0.ohlc }) && same_depth(
            t0.depth,
            t1.depth,
        )
    } else if key == "depth"@ {
        &&& t1.ltp == t0.ltp && t1.ohlc == t0.ohlc
        &&& t1.depth.depth == value as u8
        &&& t1.depth.total_bid == t0.depth.total_bid && t1.depth.total_ask == t0.depth.total_ask
        &&& t1.depth.bid@ == t0.depth.bid@ && t1.depth.ask@ == t0.depth.ask@
    } else if key == "total_bid"@ {
        &&& t1.ltp == t0.ltp && t1.ohlc == t0.ohlc
        &&& t1.depth.depth == t0.depth.depth
        &&& t1.depth.total_bid == value as u32 && t1.depth.total_ask == t0.depth.total_ask
        &&& t1.depth.bid@ == t0.depth.bid@ && t1.depth.ask@ == t0.depth.ask@
    } else if key == "total_ask"@ {
        &&& t1.ltp == t0.ltp && t1.ohlc == t0.ohlc
        &&& t1.depth.depth == t0.depth.depth
        &&& t1.depth.total_bid == t0.depth.total_bid && t1.depth.total_ask == value as u32
        &&& t1.depth.bid@ == t0.depth.bid@ && t1.depth.ask@ == t0.depth.ask@
    } else {
        let parts = split_on(key, ':');
        let idx = dec_value(parts[2]);
        let rate = parts[1] == "rate"@;
        &&& t1.ltp == t0.ltp && t1.ohlc == t0.ohlc
        &&& t1.depth.depth == t0.depth.depth
        &&& t1.depth.total_bid == t0.depth.total_bid && t1.depth.total_ask == t0.depth.total_ask
        &&& if parts[0] == "bid"@ {
            t1.depth.bid@ == updated_side(t0.depth.bid@, idx, rate, value) && t1.depth.ask@
                == t0.depth.ask@
        } else {
            t1.depth.ask@ == updated_side(t0.depth.ask@, idx, rate, value) && t1.depth.bid@
                == t0.depth.bid@
        }
    }
}

/// Writes one level's rate or quantity, growing the side with zeroed
/// levels when the index lies beyond it.
fn set_level(side: &mut Vec<DepthOrder>, idx: usize, rate: bool, value: u64) -> (r: ())
    requires
        !rate ==> value <= u32::MAX,
    ensures
        final(side)@ == updated_side(old(side)@, idx as int, rate, value as int),
{
    let ghost orig = side@;
    while side.len() <= idx
        invariant
            orig.len() <= side@.len(),
            side@.len() <= idx + 1 || side@.len() == orig.len(),
            forall|j: int| 0 <= j < orig.len() ==> side@[j] == orig[j],
            forall|j: int|
                orig.len() <= j < side@.len() ==> side@[j] == (DepthOrder {
                    price: 0,
                    quantity: 0,
                }),
        decreases idx + 1 - side@.len(),
    {
        side.push(DepthOrder { price: 0, quantity: 0 });
    }
    proof {
        let padded = if idx < orig.len() {
            orig
        } else {
            orig + Seq::new(
                (idx + 1 - orig.len()) as nat,
                |j: int| DepthOrder { price: 0, quantity: 0 },
            )
        };
        assert(side@ =~= padded);
    }
    let cur = side[idx];
    let new_level = if rate {
        DepthOrder { price: value, quantity: cur.quantity }
    } else {
        DepthOrder { price: cur.price, quantity: value as u32 }
    };
    side.remove(idx);
    side.insert(idx, new_level);
    proof {
        let padded = if idx < orig.len() {
            orig
        } else {
            orig + Seq::new(
                (idx + 1 - orig.len()) as nat,
                |j: int| DepthOrder { price: 0, quantity: 0 },
            )
        };
        assert(side@ =~= padded.update(idx as int, new_level));
    }
}

impl Ticker {
    /// A fresh, empty quote: all prices zero, no depth.
    pub fn new() -> (t: Self)
        ensures
            t.ltp == 0,
            t.ohlc == (OHLC { open: 0, high: 0, low: 0, close: 0, volume: 0 }),
            t.depth.bid@ == Seq::<DepthOrder>::empty(),
            t.depth.ask@ == Seq::<DepthOrder>::empty(),
            t.depth.depth == 0,
            t.depth.total_bid == 0,
            t.depth.total_ask == 0,
    {
        let ticker: Ticker = Default::default();
        ticker
    }

    /// Applies one field arriving from the live store, already converted
    /// to an integer: prices in price units, counts as plain values. The
    /// known scalar fields set the matching struct field; any other key
    /// must name one level's rate or quantity, `bid|ask:rate|quantity:i`.
    /// A value too large for its field, or an unrecognized key, is a typed
    /// error and leaves the quote unchanged.
    pub fn update(&mut self, key: &str, value: u64) -> (r: Result<(), ParseError>)
        ensures
            r is Ok <==> spec_update_error(key@, value as int) is None,
            r matches Err(e) ==> Some(e) == spec_update_error(key@, value as int) && same_ticker(
                *old(self),
                *final(self),
            ),
            r is Ok ==> spec_updated(*old(self), *final(self), key@, value as int),
    {
        if str_eq(key, "ltp") {
            self.ltp = value;
            Ok(())
        } else if str_eq(key, "open") {
            self.ohlc.open = value;
            Ok(())
        } else if str_eq(key, "high") {
            self.ohlc.high = value;
            Ok(())
        } else if str_eq(key, "low") {
            self.ohlc.low = value;
            Ok(())
        } else if str_eq(key, "close") {
            self.ohlc.close = value;
            Ok(())
        } else if str_eq(key, "total_volume") {
            self.ohlc.volume = value;
            Ok(())
        } else if str_eq(key, "depth") {
            if value > u8::MAX as u64 {
                return Err(ParseError::ValueOutOfRange);
            }
            self.depth.depth = value as u8;
            Ok(())
        } else if str_eq(key, "total_bid") {
            if value > u32::MAX as u64 {
                return Err(ParseError::ValueOutOfRange);
            }
            self.depth.total_bid = value as u32;
            Ok(())
        } else if str_eq(key, "total_ask") {
            if value > u32::MAX as u64 {
                return Err(ParseError::ValueOutOfRange);
            }
            self.depth.total_ask = value as u32;
            Ok(())
        } else {
            self.update_depth(key, value)
        }
    }

    /// Applies one depth-level field, `bid|ask:rate|quantity:index`.
    fn update_depth(&mut self, key: &str, value: u64) -> (r: Result<(), ParseError>)
        ensures
            r is Ok <==> spec_depth_key_error(key@, value as int) is None,
            r matches Err(e) ==> Some(e) == spec_depth_key_error(key@, value as int)
                && same_ticker(*old(self), *final(self)),
            r is Ok ==> ({
                let parts = split_on(key@, ':');
                let idx = dec_value(parts[2]);
                let rate = parts[1] == "rate"@;
                &&& final(self).ltp == old(self).ltp && final(self).ohlc == old(self).ohlc
                &&& final(self).depth.depth == old(self).depth.depth
                &&& final(self).depth.total_bid == old(self).depth.total_bid
                &&& final(self).depth.total_ask == old(self).depth.total_ask
                &&& if parts[0] == "bid"@ {
                    final(self).depth.bid@ == updated_side(old(self).depth.bid@, idx, rate, value as int)
                        && final(self).depth.ask@ == old(self).depth.ask@
                } else {
                    final(self).depth.ask@ == updated_side(old(self).depth.ask@, idx, rate, value as int)
                        && final(self).depth.bid@ == old(self).depth.bid@
                }
            }),
    {
        let ghost parts_spec = split_on(key@, ':');
        let parts = split_fields(key, ':');
        proof {
            reveal_strlit("bid");
            reveal_strlit("ask");
            reveal_strlit("rate");
            reveal_strlit("quantity");
            assert("bid"@ =~= seq!['b', 'i', 'd'] && "ask"@ =~= seq!['a', 's', 'k']);
            assert("rate"@.len() == 4 && "quantity"@.len() == 8);
            assert forall|i: int| 0 <= i < parts@.len() implies parts@[i]@ == parts_spec[i] by {
                assert(parts@.map_values(|p: String| p@)[i] == parts@[i]@);
            }
        }
        if parts.len() != 3 {
            return Err(ParseError::MalformedKey);
        }
        let bid = if str_eq(parts[0].as_str(), "bid") {
            true
        } else if str_eq(parts[0].as_str(), "ask") {
            false
        } else {
            return Err(ParseError::MalformedKey);
        };
        let rate = if str_eq(parts[1].as_str(), "rate") {
            true
        } else if str_eq(parts[1].as_str(), "quantity") {
            false
        } else {
            return Err(ParseError::MalformedKey);
        };
        let idx = match parse_u32(parts[2].as_str()) {
            Some(v) => v,
            None => {
                return Err(ParseError::BadNumber);
            },
        };
        if !rate && value > u32::MAX as u64 {
            return Err(ParseError::ValueOutOfRange);
        }
        if bid {
            set_level(&mut self.depth.bid, idx as usize, rate, value);
        } else {
            set_level(&mut self.depth.ask, idx as usize, rate, value);
        }
        Ok(())
    }

    /// Replaces every live field of `self` with the values of a freshly
    /// fetched quote.
    pub fn update_from_ticker(&mut self, updated_ticker: Ticker)
        ensures
            final(self).ltp == updated_ticker.ltp,
            final(self).ohlc == updated_ticker.ohlc,
            final(self).depth == updated_ticker.depth,
    {
        self.ltp = updated_ticker.ltp;
        self.ohlc = updated_ticker.ohlc;
        self.depth = updated_ticker.depth;
    }
}

} // verus!
