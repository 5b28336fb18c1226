use vstd::prelude::*;

use crate::clock::now_millis;
use crate::error::Error;
use crate::position::{lemma_holdings_entry_bound, lookup, AvgPrice, Position, Transaction};
use crate::scrip::Scrip;
use crate::tickers::{
    consumed_levels, lemma_fill_price_in_range, lemma_side_quantity_nonneg,
    lemma_side_quantity_push, lemma_side_quantity_take_le, lemma_walk_cost_le_side_cost,
    lemma_walk_cost_nonneg,
};
use crate::tickers::{side_cost, side_quantity, walk_cost, Depth, DepthOrder, Ticker};

verus! {

/// How an order prices itself: at whatever the book offers, or at a fixed
/// limit price (in price units).
#[derive(Debug, Clone, Copy, PartialEq, Eq, Structural)]
pub enum OrderType {
    MarketOrder,
    LimitOrder(u64),
}

/// A desired trade: a signed quantity of an instrument (positive buys,
/// negative sells) and the pricing rule.
#[derive(Debug)]
pub struct Order {
    pub scrip: Scrip,
    pub quantity: i32,
    pub order_type: OrderType,
}

impl Clone for Order {
    /// A copy asking for exactly the same trade.
    fn clone(&self) -> (r: Self)
        ensures
            r == self,
    {
        Order { scrip: self.scrip.clone(), quantity: self.quantity, order_type: self.order_type }
    }
}

/// The side of the book an order consumes: buys take the asks, sells the
/// bids.
pub open spec fn order_side(o: Order, d: Depth) -> Seq<DepthOrder> {
    if o.quantity > 0 {
        d.ask@
    } else {
        d.bid@
    }
}

/// The absolute quantity an order asks for.
pub open spec fn order_abs_quantity(o: Order) -> int {
    if o.quantity >= 0 {
        o.quantity as int
    } else {
        -(o.quantity as int)
    }
}

/// What the depth walk yields for an order against a snapshot: the exact
/// average price over the consumed levels, `EmptyDepth` when the required
/// side has no levels, and `InsufficientDepth` with the unfilled remainder
/// when the side runs dry.
pub open spec fn spec_avg_price(o: Order, d: Depth) -> Result<AvgPrice, Error> {
    let side = order_side(o, d);
    let q = order_abs_quantity(o);
    if side.len() == 0 {
        Err(Error::EmptyDepth)
    } else if side_quantity(side) >= q {
        Ok(AvgPrice { cost: walk_cost(side, q) as u64, quantity: q as u32 })
    } else {
        Err(Error::InsufficientDepth((q - side_quantity(side)) as i32))
    }
}

/// The average price a transaction records for an order: market orders
/// walk the book; limit orders take the stated price unconditionally, with
/// an `Overflow` error when the exact total cost cannot be represented.
pub open spec fn spec_order_price(o: Order, d: Depth) -> Result<AvgPrice, Error> {
    match o.order_type {
        OrderType::MarketOrder => spec_avg_price(o, d),
        OrderType::LimitOrder(p) => if p * order_abs_quantity(o) <= u64::MAX {
            Ok(
                AvgPrice {
                    cost: (p * order_abs_quantity(o)) as u64,
                    quantity: order_abs_quantity(o) as u32,
                },
            )
        } else {
            Err(Error::Overflow)
        },
    }
}

/// The margin one order requires, as an exact per-unit price: the walked
/// average for a market order, the flat limit price for a limit order.
pub open spec fn spec_margin(o: Order, d: Depth) -> Result<AvgPrice, Error> {
    match o.order_type {
        OrderType::MarketOrder => spec_avg_price(o, d),
        OrderType::LimitOrder(p) => Ok(AvgPrice { cost: p, quantity: 1 }),
    }
}

impl Order {
    /// An order asks for a non-zero quantity whose magnitude a 32-bit
    /// signed remainder can still report.
    pub open spec fn wf(self) -> bool {
        self.quantity != 0 && self.quantity != i32::MIN
    }

    /// Builds an order.
    pub fn new(scrip: Scrip, quantity: i32, order_type: OrderType) -> (o: Self)
        ensures
            o.scrip == scrip,
            o.quantity == quantity,
            o.order_type == order_type,
    {
        Self { scrip, quantity, order_type }
    }

    /// Total quantity resting on the side this order would consume: asks
    /// when `buy`, bids otherwise.
    pub fn available_quantity(&self, ticker: Ticker, buy: bool) -> (r: i32)
        requires
            side_quantity(if buy {
                ticker.depth.ask@
            } else {
                ticker.depth.bid@
            }) <= i32::MAX,
        ensures
            r as int == side_quantity(
                if buy {
                    ticker.depth.ask@
                } else {
                    ticker.depth.bid@
                },
            ),
    {
        let levels = if buy {
            &ticker.depth.ask
        } else {
            &ticker.depth.bid
        };
        let n = levels.len();
        let mut acc: i32 = 0;
        let mut i: usize = 0;
        proof {
            assert(levels@.take(0) =~= Seq::<DepthOrder>::empty());
        }
        while i < n
            invariant
                0 <= i <= n == levels@.len(),
                side_quantity(levels@) <= i32::MAX,
                acc as int == side_quantity(levels@.take(i as int)),
                acc >= 0,
            decreases n - i,
        {
            proof {
                lemma_side_quantity_push(levels@.take(i as int), levels@[i as int]);
                assert(levels@.take(i + 1) =~= levels@.take(i as int).push(levels@[i as int]));
                lemma_side_quantity_take_le(levels@, i + 1);
                lemma_side_quantity_nonneg(levels@.take(i + 1));
            }
            let q = levels[i].quantity;
            acc = acc + (q as i32);
            i = i + 1;
        }
        proof {
            assert(levels@.take(n as int) =~= levels@);
        }
        acc
    }

    /// Walks the book for this order's absolute quantity and returns the
    /// exact average fill price, regardless of the order's pricing rule.
    pub fn avg_price(&self, depth: &Depth) -> (r: Result<AvgPrice, Error>)
        requires
            self.wf(),
            depth.well_formed(),
        ensures
            r == spec_avg_price(*self, *depth),
    {
        let q: u32 = if self.quantity > 0 {
            self.quantity as u32
        } else {
            (-(self.quantity as i64)) as u32
        };
        let side = if self.quantity > 0 {
            &depth.ask
        } else {
            &depth.bid
        };
        proof {
            lemma_walk_cost_nonneg(side@, q as int);
            lemma_walk_cost_le_side_cost(side@, q as int);
        }
        match fill_cost(side, q) {
            Ok(c) => Ok(AvgPrice { cost: c, quantity: q }),
            Err(e) => Err(e),
        }
    }
}

/// Full fill within depth: an order whose quantity does not exceed the
/// aggregate quantity of its required side executes successfully, and its
/// exact average fill price lies within the price range spanned by the
/// consumed levels — between `lo` and `hi` per unit, whenever every
/// consumed level's price does.
pub proof fn lemma_full_fill_within_depth(o: Order, d: Depth, lo: int, hi: int)
    requires
        o.wf(),
        d.well_formed(),
        order_abs_quantity(o) <= side_quantity(order_side(o, d)),
        forall|i: int|
            0 <= i < consumed_levels(order_side(o, d), order_abs_quantity(o)) ==> lo <= (
            #[trigger] order_side(o, d)[i]).price <= hi,
    ensures
        spec_avg_price(o, d) matches Ok(a) && a.quantity == order_abs_quantity(o)
            && order_abs_quantity(o) * lo <= a.cost <= order_abs_quantity(o) * hi,
{
    let side = order_side(o, d);
    let q = order_abs_quantity(o);
    lemma_side_quantity_nonneg(side);
    assert(q > 0);
    assert(side.len() > 0);
    lemma_walk_cost_nonneg(side, q);
    lemma_walk_cost_le_side_cost(side, q);
    lemma_fill_price_in_range(side, q, lo, hi);
}

/// The one aggregation policy a basket offers: its orders are meant to
/// fill together. Execution stops at the first failure and the partially
/// built position is discarded; fills already computed are not rolled
/// back, they simply never reach the caller. No atomicity holds beyond
/// this in-memory model.
#[derive(Debug, Clone, Copy, PartialEq, Eq, Structural)]
pub enum BasketOrderType {
    AllOrNone,
}

/// An ordered collection of orders executed together under one policy.
#[derive(Debug)]
pub struct BasketOrder {
    pub basket_order_type: BasketOrderType,
    pub orders: Vec<Order>,
}

/// Every order of the basket asks a valid quantity, every snapshot is a
/// usable book, and they are aligned one to one.
pub open spec fn basket_inputs_wf(orders: Seq<Order>, depths: Seq<Depth>) -> bool {
    &&& depths.len() == orders.len()
    &&& forall|i: int| 0 <= i < orders.len() ==> (#[trigger] orders[i]).wf()
    &&& forall|i: int| 0 <= i < depths.len() ==> (#[trigger] depths[i]).well_formed()
}

/// Every order of the basket prices successfully against its snapshot.
pub open spec fn basket_all_ok(orders: Seq<Order>, depths: Seq<Depth>) -> bool {
    forall|i: int|
        0 <= i < orders.len() ==> (#[trigger] spec_order_price(orders[i], depths[i])) is Ok
}

/// The exact rational sum of the first `i` orders' margins, accumulated
/// left to right without reduction: a pair (numerator, denominator).
pub open spec fn margin_sum(orders: Seq<Order>, depths: Seq<Depth>, i: int) -> (int, int)
    decreases i,
{
    if i <= 0 {
        (0, 1)
    } else {
        let prev = margin_sum(orders, depths, i - 1);
        let a = spec_margin(orders[i - 1], depths[i - 1])->Ok_0;
        (prev.0 * a.quantity + a.cost * prev.1, prev.1 * a.quantity)
    }
}

/// Whether every partial margin sum stays within `u128`.
pub open spec fn margin_sum_fits(orders: Seq<Order>, depths: Seq<Depth>, n: int) -> bool {
    forall|i: int|
        0 <= i <= n ==> (#[trigger] margin_sum(orders, depths, i)).0 <= u128::MAX && margin_sum(
            orders,
            depths,
            i,
        ).1 <= u128::MAX
}

/// The exact total margin of a basket: an unreduced rational,
/// numerator over denominator, in price units per unit of quantity.
#[derive(Debug, Clone, Copy, PartialEq, Eq, Structural)]
pub struct MarginTotal {
    pub num: u128,
    pub den: u128,
}

/// Margin sums have a non-negative numerator and a positive denominator,
/// as long as every margin priced successfully so far.
proof fn lemma_margin_sum_pos(orders: Seq<Order>, depths: Seq<Depth>, i: int)
    requires
        0 <= i <= orders.len(),
        depths.len() == orders.len(),
        forall|j: int| 0 <= j < orders.len() ==> (#[trigger] orders[j]).wf(),
        forall|j: int|
            0 <= j < i ==> (#[trigger] spec_margin(orders[j], depths[j])) is Ok,
    ensures
        margin_sum(orders, depths, i).0 >= 0,
        margin_sum(orders, depths, i).1 >= 1,
    decreases i,
{
    if i > 0 {
        lemma_margin_sum_pos(orders, depths, i - 1);
        let prev = margin_sum(orders, depths, i - 1);
        let a = spec_margin(orders[i - 1], depths[i - 1])->Ok_0;
        assert(a.quantity >= 1);
        assert(prev.0 * a.quantity >= 0 && a.cost * prev.1 >= 0 && prev.1 * a.quantity >= 1)
            by (nonlinear_arith)
            requires
                prev.0 >= 0,
                prev.1 >= 1,
                a.quantity >= 1,
                a.cost >= 0,
        ;
    }
}

impl Clone for BasketOrder {
    /// A copy holding the same orders under the same policy.
    fn clone(&self) -> (r: Self)
        ensures
            r.basket_order_type == self.basket_order_type,
            r.orders@ == self.orders@,
    {
        let mut orders: Vec<Order> = Vec::new();
        let n = self.orders.len();
        let mut i: usize = 0;
        while i < n
            invariant
                0 <= i <= n == self.orders@.len(),
                orders@.len() == i,
                forall|j: int| 0 <= j < i ==> orders@[j] == self.orders@[j],
            decreases n - i,
        {
            orders.push(self.orders[i].clone());
            i = i + 1;
        }
        proof {
            assert(orders@ =~= self.orders@);
        }
        BasketOrder { basket_order_type: self.basket_order_type, orders }
    }
}

impl BasketOrder {
    /// Appends one order to the basket.
    pub fn add_order(&mut self, order: Order)
        ensures
            final(self).orders@ == old(self).orders@.push(order),
            final(self).basket_order_type == old(self).basket_order_type,
    {
        self.orders.push(order);
    }

    /// Appends another basket's orders, optionally replacing the policy.
    pub fn extend(&mut self, other: Self, basket_order_type: Option<BasketOrderType>)
        ensures
            final(self).orders@ == old(self).orders@ + other.orders@,
            final(self).basket_order_type == if basket_order_type is Some {
                basket_order_type->0
            } else {
                old(self).basket_order_type
            },
    {
        let mut other = other;
        self.orders.append(&mut other.orders);
        if let Some(ot) = basket_order_type {
            self.basket_order_type = ot;
        }
    }

    /// Prices every order of the basket against its snapshot and folds the
    /// resulting transactions into a fresh position. Stops at the first
    /// order that fails and returns its error; nothing already built is
    /// kept or returned.
    pub fn to_position(&self, depths: &Vec<Depth>) -> (r: Result<Position, Error>)
        requires
            basket_inputs_wf(self.orders@, depths@),
            self.orders@.len() <= 0x8000_0000,
        ensures
            r is Ok <==> basket_all_ok(self.orders@, depths@),
            r matches Err(e) ==> exists|i: int|
                0 <= i < self.orders@.len() && (#[trigger] spec_order_price(
                    self.orders@[i],
                    depths@[i],
                )) == Err::<AvgPrice, Error>(e) && (forall|j: int|
                    0 <= j < i ==> (#[trigger] spec_order_price(self.orders@[j], depths@[j])) is Ok),
            r matches Ok(p) ==> {
                &&& p.history@.len() == self.orders@.len()
                &&& forall|i: int|
                    0 <= i < self.orders@.len() ==> (#[trigger] p.history@[i]).scrip
                        == self.orders@[i].scrip && p.history@[i].quantity
                        == self.orders@[i].quantity && spec_order_price(self.orders@[i], depths@[i])
                        == Ok::<AvgPrice, Error>(p.history@[i].avg_price)
                &&& p.consistent()
            },
    {
        let mut position: Position = Default::default();
        let n = self.orders.len();
        let mut i: usize = 0;
        while i < n
            invariant
                0 <= i <= n == self.orders@.len(),
                n <= 0x8000_0000,
                basket_inputs_wf(self.orders@, depths@),
                position.consistent(),
                position.history@.len() == i,
                forall|j: int|
                    0 <= j < i ==> (#[trigger] spec_order_price(
                        self.orders@[j],
                        depths@[j],
                    )) is Ok,
                forall|j: int|
                    0 <= j < i ==> (#[trigger] position.history@[j]).scrip
                        == self.orders@[j].scrip && position.history@[j].quantity
                        == self.orders@[j].quantity && spec_order_price(
                        self.orders@[j],
                        depths@[j],
                    ) == Ok::<AvgPrice, Error>(position.history@[j].avg_price),
            decreases n - i,
        {
            let order = &self.orders[i];
            let transaction = match order.to_transaction(&depths[i]) {
                Ok(t) => t,
                Err(e) => {
                    return Err(e);
                },
            };
            proof {
                lemma_holdings_entry_bound(
                    position.history@,
                    0x8000_0000,
                    u64::MAX as int,
                    transaction.scrip.spec_key(),
                );
                assert(position.history@.len() * 0x8000_0000 <= 0x8000_0000 * 0x8000_0000)
                    by (nonlinear_arith)
                    requires
                        0 <= position.history@.len() <= 0x8000_0000,
                ;
                assert(position.history@.len() * (u64::MAX as int) <= 0x8000_0000 * (
                u64::MAX as int)) by (nonlinear_arith)
                    requires
                        0 <= position.history@.len() <= 0x8000_0000,
                ;
            }
            let res = position.add_transaction(transaction);
            proof {
                assert(res is Ok);
            }
            i = i + 1;
        }
        Ok(position)
    }

    /// Executes every order of the basket in sequence and folds the fills
    /// into a fresh position; the first failure aborts the basket and its
    /// error is returned. Fills already computed are discarded, not rolled
    /// back: this engine places nothing outside its own memory.
    pub fn execute(&self, depths: &Vec<Depth>) -> (r: Result<Position, Error>)
        requires
            basket_inputs_wf(self.orders@, depths@),
            self.orders@.len() <= 0x8000_0000,
        ensures
            r is Ok <==> basket_all_ok(self.orders@, depths@),
            r matches Err(e) ==> exists|i: int|
                0 <= i < self.orders@.len() && (#[trigger] spec_order_price(
                    self.orders@[i],
                    depths@[i],
                )) == Err::<AvgPrice, Error>(e) && (forall|j: int|
                    0 <= j < i ==> (#[trigger] spec_order_price(self.orders@[j], depths@[j])) is Ok),
            r matches Ok(p) ==> {
                &&& p.history@.len() == self.orders@.len()
                &&& forall|i: int|
                    0 <= i < self.orders@.len() ==> (#[trigger] p.history@[i]).scrip
                        == self.orders@[i].scrip && p.history@[i].quantity
                        == self.orders@[i].quantity && spec_order_price(self.orders@[i], depths@[i])
                        == Ok::<AvgPrice, Error>(p.history@[i].avg_price)
                &&& p.consistent()
            },
    {
        // Order-level execution is a no-op handoff, so executing the basket
        // is pricing it.
        self.to_position(depths)
    }

    /// Sums the margins of all orders as one exact rational. The first
    /// order whose margin fails decides the error; if the exact running
    /// sums leave `u128`, the sum fails with `Overflow`.
    pub fn margin(&self, depths: &Vec<Depth>) -> (r: Result<MarginTotal, Error>)
        requires
            basket_inputs_wf(self.orders@, depths@),
        ensures
            r matches Err(e) ==> e == Error::Overflow || exists|i: int|
                0 <= i < self.orders@.len() && (#[trigger] spec_margin(self.orders@[i], depths@[i]))
                    == Err::<AvgPrice, Error>(e) && (forall|j: int|
                    0 <= j < i ==> (#[trigger] spec_margin(self.orders@[j], depths@[j])) is Ok),
            ({
                let all_ok = forall|i: int|
                    0 <= i < self.orders@.len() ==> (#[trigger] spec_margin(
                        self.orders@[i],
                        depths@[i],
                    )) is Ok;
                let total = margin_sum(self.orders@, depths@, self.orders@.len() as int);
                let fits = margin_sum_fits(self.orders@, depths@, self.orders@.len() as int);
                &&& (all_ok && fits) ==> (r matches Ok(m) && m.num == total.0 && m.den == total.1)
                &&& (all_ok && !fits) ==> r == Err::<MarginTotal, Error>(Error::Overflow)
            }),
    {
        let n = self.orders.len();
        let mut num: u128 = 0;
        let mut den: u128 = 1;
        let mut i: usize = 0;
        while i < n
            invariant
                0 <= i <= n == self.orders@.len() == depths@.len(),
                basket_inputs_wf(self.orders@, depths@),
                forall|j: int|
                    0 <= j < i ==> (#[trigger] spec_margin(self.orders@[j], depths@[j])) is Ok,
                num as int == margin_sum(self.orders@, depths@, i as int).0,
                den as int == margin_sum(self.orders@, depths@, i as int).1,
                den >= 1,
                margin_sum_fits(self.orders@, depths@, i as int),
            decreases n - i,
        {
            let order = &self.orders[i];
            let m = match order.margin(&depths[i]) {
                Ok(m) => m,
                Err(e) => {
                    return Err(e);
                },
            };
            proof {
                lemma_margin_sum_pos(self.orders@, depths@, i as int);
                assert(m.quantity >= 1);
            }
            let ghost next = margin_sum(self.orders@, depths@, i + 1);
            proof {
                assert(next.0 == num * m.quantity + m.cost * den && next.1 == den * m.quantity);
                assert(num * m.quantity >= 0 && m.cost * den >= 0 && den * m.quantity >= 1)
                    by (nonlinear_arith)
                    requires
                        num >= 0,
                        den >= 1,
                        m.quantity >= 1,
                        m.cost >= 0,
                ;
            }
            let a = match num.checked_mul(m.quantity as u128) {
                Some(v) => v,
                None => {
                    proof {
                        margin_overflow_witness(self.orders@, depths@, i + 1);
                    }
                    return Err(Error::Overflow);
                },
            };
            let b = match (m.cost as u128).checked_mul(den) {
                Some(v) => v,
                None => {
                    proof {
                        margin_overflow_witness(self.orders@, depths@, i + 1);
                    }
                    return Err(Error::Overflow);
                },
            };
            let new_num = match a.checked_add(b) {
                Some(v) => v,
                None => {
                    proof {
                        margin_overflow_witness(self.orders@, depths@, i + 1);
                    }
                    return Err(Error::Overflow);
                },
            };
            let new_den = match den.checked_mul(m.quantity as u128) {
                Some(v) => v,
                None => {
                    proof {
                        margin_overflow_witness(self.orders@, depths@, i + 1);
                    }
                    return Err(Error::Overflow);
                },
            };
            num = new_num;
            den = new_den;
            proof {
                assert forall|j: int|
                    0 <= j <= i + 1 implies (#[trigger] margin_sum(self.orders@, depths@, j)).0
                    <= u128::MAX && margin_sum(self.orders@, depths@, j).1 <= u128::MAX by {
                    if j == i + 1 {
                        assert(margin_sum(self.orders@, depths@, j) == (
                            new_num as int,
                            new_den as int,
                        ));
                    }
                }
            }
            i = i + 1;
        }
        Ok(MarginTotal { num, den })
    }
}

/// If one partial margin sum leaves `u128`, the whole accumulation does
/// not fit.
proof fn margin_overflow_witness(orders: Seq<Order>, depths: Seq<Depth>, i: int)
    requires
        0 <= i <= orders.len(),
        margin_sum(orders, depths, i).0 > u128::MAX || margin_sum(orders, depths, i).1
            > u128::MAX,
    ensures
        !margin_sum_fits(orders, depths, orders.len() as int),
{
}

impl Order {
    /// Converts this order into a transaction. A market order walks the
    /// depth snapshot for its exact average price; a limit order executes
    /// blindly at its stated price, whatever the depth holds. The execution
    /// time is stamped from the wall clock, the one field no contract pins
    /// down.
    pub fn to_transaction(&self, depth: &Depth) -> (r: Result<Transaction, Error>)
        requires
            self.wf(),
            depth.well_formed(),
        ensures
            r is Ok <==> spec_order_price(*self, *depth) is Ok,
            r matches Ok(t) ==> spec_order_price(*self, *depth) == Ok::<AvgPrice, Error>(
                t.avg_price,
            ) && t.scrip == self.scrip && t.quantity == self.quantity && t.wf(),
            r matches Err(e) ==> spec_order_price(*self, *depth) == Err::<AvgPrice, Error>(e),
    {
        let avg_price = match self.order_type {
            OrderType::MarketOrder => match self.avg_price(depth) {
                Ok(a) => a,
                Err(e) => {
                    return Err(e);
                },
            },
            OrderType::LimitOrder(price) => {
                let q: u32 = if self.quantity > 0 {
                    self.quantity as u32
                } else {
                    (-(self.quantity as i64)) as u32
                };
                match price.checked_mul(q as u64) {
                    Some(c) => AvgPrice { cost: c, quantity: q },
                    None => {
                        return Err(Error::Overflow);
                    },
                }
            },
        };
        let transaction = Transaction {
            scrip: self.scrip.clone(),
            quantity: self.quantity,
            avg_price,
            exec_time: now_millis(),
        };
        Ok(transaction)
    }

    /// Executes the order: hands it to the (in-memory, no-op) venue and
    /// returns the resulting transaction. Identical in effect to
    /// `to_transaction`.
    pub fn execute(&self, depth: &Depth) -> (r: Result<Transaction, Error>)
        requires
            self.wf(),
            depth.well_formed(),
        ensures
            r is Ok <==> spec_order_price(*self, *depth) is Ok,
            r matches Ok(t) ==> spec_order_price(*self, *depth) == Ok::<AvgPrice, Error>(
                t.avg_price,
            ) && t.scrip == self.scrip && t.quantity == self.quantity && t.wf(),
            r matches Err(e) ==> spec_order_price(*self, *depth) == Err::<AvgPrice, Error>(e),
    {
        // A real venue would be handed the order here; this engine only
        // models the fill.
        self.to_transaction(depth)
    }

    /// The margin this order requires, as an exact per-unit price: the
    /// walked average for a market order, the flat limit price otherwise.
    pub fn margin(&self, depth: &Depth) -> (r: Result<AvgPrice, Error>)
        requires
            self.wf(),
            depth.well_formed(),
        ensures
            r == spec_margin(*self, *depth),
    {
        match self.order_type {
            OrderType::MarketOrder => self.avg_price(depth),
            OrderType::LimitOrder(p) => Ok(AvgPrice { cost: p, quantity: 1 }),
        }
    }
}

/// Cost of filling `q` units from `levels`, walking levels in priority
/// order. Exactly `walk_cost`; fails with `EmptyDepth` on an empty side
/// and with `InsufficientDepth` carrying the unfilled remainder when the
/// side holds less than `q` in total.
fn fill_cost(levels: &Vec<DepthOrder>, q: u32) -> (r: Result<u64, Error>)
    requires
        0 < q <= i32::MAX,
        side_cost(levels@) <= u64::MAX,
    ensures
        levels@.len() == 0 ==> r == Err::<u64, Error>(Error::EmptyDepth),
        levels@.len() > 0 && side_quantity(levels@) >= q ==> (r matches Ok(c) && c
            == walk_cost(levels@, q as int)),
        levels@.len() > 0 && side_quantity(levels@) < q ==> r == Err::<u64, Error>(
            Error::InsufficientDepth((q - side_quantity(levels@)) as i32),
        ),
{
    let n = levels.len();
    if n == 0 {
        return Err(Error::EmptyDepth);
    }
    let mut residual: u32 = q;
    let mut cost: u64 = 0;
    let mut i: usize = 0;
    proof {
        assert(levels@.take(0) =~= Seq::<DepthOrder>::empty());
        assert(levels@.skip(0) =~= levels@);
        lemma_walk_cost_le_side_cost(levels@, q as int);
    }
    while residual != 0
        invariant
            0 <= i <= n == levels@.len(),
            0 < n,
            0 < q <= i32::MAX,
            residual <= q,
            side_cost(levels@) <= u64::MAX,
            walk_cost(levels@, q as int) <= side_cost(levels@),
            residual as int == if side_quantity(levels@.take(i as int)) < q {
                q - side_quantity(levels@.take(i as int))
            } else {
                0
            },
            cost as int + walk_cost(levels@.skip(i as int), residual as int) == walk_cost(
                levels@,
                q as int,
            ),
        decreases n - i,
    {
        if i >= n {
            proof {
                assert(levels@.take(i as int) =~= levels@);
                lemma_side_quantity_nonneg(levels@);
            }
            return Err(Error::InsufficientDepth(residual as i32));
        }
        let level = levels[i];
        let avail = level.quantity;
        let take: u32 = if residual > avail {
            avail
        } else {
            residual
        };
        proof {
            assert(levels@.skip(i as int)[0] == levels@[i as int]);
            assert(levels@.skip(i as int).drop_first() =~= levels@.skip(i + 1));
            assert(walk_cost(levels@.skip(i as int), residual as int) == take * level.price
                + walk_cost(levels@.skip(i + 1), residual - take));
            lemma_walk_cost_nonneg(levels@.skip(i + 1), residual - take);
            assert(take * level.price >= 0) by (nonlinear_arith)
                requires
                    take >= 0,
                    level.price >= 0,
            ;
            assert(cost + take * level.price <= u64::MAX);
            assert((take as u64) * level.price == take * level.price) by (nonlinear_arith);
            lemma_side_quantity_push(levels@.take(i as int), levels@[i as int]);
            assert(levels@.take(i + 1) =~= levels@.take(i as int).push(levels@[i as int]));
        }
        let add: u64 = (take as u64) * level.price;
        cost = cost + add;
        residual = residual - take;
        i = i + 1;
    }
    proof {
        assert(walk_cost(levels@.skip(i as int), 0) == 0);
        if side_quantity(levels@) < q {
            lemma_side_quantity_take_le(levels@, i as int);
        }
    }
    Ok(cost)
}

} // verus!
