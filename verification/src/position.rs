use vstd::prelude::*;

use crate::error::Error;
use crate::scrip::Scrip;

verus! {

/// An exact average price: `cost` price units were paid in total for
/// `quantity` units of the instrument. The price per unit is the rational
/// `cost / quantity`; it is carried unreduced and never rounded.
#[derive(Debug, Clone, Copy, PartialEq, Eq, Structural)]
pub struct AvgPrice {
    pub cost: u64,
    pub quantity: u32,
}

impl AvgPrice {
    /// A price is over a positive quantity.
    pub open spec fn wf(self) -> bool {
        self.quantity > 0
    }

    /// True exactly when this average price is `units` price units per unit
    /// of quantity.
    pub fn is_exactly(&self, units: u64) -> (b: bool)
        ensures
            b == (self.cost == units * self.quantity),
    {
        match units.checked_mul(self.quantity as u64) {
            Some(p) => self.cost == p,
            None => false,
        }
    }
}

/// One executed fill: a signed quantity of an instrument at an exact
/// average price, stamped with the execution time in milliseconds.
#[derive(Debug)]
pub struct Transaction {
    pub scrip: Scrip,
    pub quantity: i32,
    pub avg_price: AvgPrice,
    pub exec_time: i64,
}

impl Transaction {
    /// A transaction moves a non-zero quantity, and its average price is
    /// stated over exactly that quantity.
    pub open spec fn wf(self) -> bool {
        &&& self.quantity != 0
        &&& self.avg_price.quantity == if self.quantity >= 0 {
            self.quantity as int
        } else {
            -(self.quantity as int)
        }
    }

    /// The signed cost basis this transaction contributes: the full cost,
    /// positive when buying and negative when selling.
    pub open spec fn signed_cost(self) -> int {
        if self.quantity >= 0 {
            self.avg_price.cost as int
        } else {
            -(self.avg_price.cost as int)
        }
    }
}

impl Clone for Transaction {
    /// A copy recording exactly the same fill.
    fn clone(&self) -> (r: Self)
        ensures
            r == self,
    {
        Transaction {
            scrip: self.scrip.clone(),
            quantity: self.quantity,
            avg_price: self.avg_price,
            exec_time: self.exec_time,
        }
    }
}

/// The net state of one instrument inside a position: the signed net
/// quantity and the signed total cost basis. The weighted-average price is
/// the rational `cost / quantity`, which is undefined for a flat position
/// (`quantity == 0`); a flat holding is kept, with its residual cost, and
/// the average is simply not offered for it.
#[derive(Debug, Clone, Copy, PartialEq, Eq, Structural)]
pub struct Holding {
    pub quantity: i64,
    pub cost: i128,
}

impl Holding {
    /// The exact numerator and denominator of the weighted-average price,
    /// or `None` for a flat position, whose average is undefined.
    pub fn average_price(&self) -> (r: Option<(i128, i64)>)
        ensures
            self.quantity == 0 ==> r is None,
            self.quantity != 0 ==> r == Some::<(i128, i64)>((self.cost, self.quantity)),
    {
        if self.quantity == 0 {
            None
        } else {
            Some((self.cost, self.quantity))
        }
    }
}

/// The holding entry for key `k` in an association list, reading from the
/// front; `None` when no entry carries that key.
pub open spec fn lookup(h: Seq<(Scrip, Holding)>, k: Seq<char>) -> Option<(int, int)>
    decreases h.len(),
{
    if h.len() == 0 {
        None
    } else if h[0].0.spec_key() == k {
        Some((h[0].1.quantity as int, h[0].1.cost as int))
    } else {
        lookup(h.drop_first(), k)
    }
}

/// No two entries of the holdings list carry the same instrument key.
pub open spec fn holding_keys_unique(h: Seq<(Scrip, Holding)>) -> bool {
    forall|i: int, j: int|
        0 <= i < j < h.len() ==> h[i].0.spec_key() != h[j].0.spec_key()
}

/// The aggregate (net quantity, net cost) that a transaction history
/// yields for instrument key `k`: the sum of the signed quantities and
/// signed costs of the matching transactions, `None` when none match.
pub open spec fn holdings_entry(txs: Seq<Transaction>, k: Seq<char>) -> Option<(int, int)>
    decreases txs.len(),
{
    if txs.len() == 0 {
        None
    } else {
        let rest = holdings_entry(txs.drop_last(), k);
        let t = txs.last();
        if t.scrip.spec_key() == k {
            let prev = if rest is Some {
                rest->0
            } else {
                (0, 0)
            };
            Some((prev.0 + t.quantity, prev.1 + t.signed_cost()))
        } else {
            rest
        }
    }
}

/// Aggregates of a history are bounded by its length: a history of `n`
/// transactions, each moving at most `qb` quantity at a total cost of at
/// most `cb`, yields holdings within `n * qb` and `n * cb`.
pub proof fn lemma_holdings_entry_bound(txs: Seq<Transaction>, qb: int, cb: int, k: Seq<char>)
    requires
        qb >= 0,
        cb >= 0,
        forall|i: int|
            0 <= i < txs.len() ==> -qb <= (#[trigger] txs[i]).quantity <= qb && -cb
                <= txs[i].signed_cost() <= cb,
    ensures
        holdings_entry(txs, k) matches Some(p) ==> -(txs.len() * qb) <= p.0 <= txs.len() * qb && -(
        txs.len() * cb) <= p.1 <= txs.len() * cb,
    decreases txs.len(),
{
    if txs.len() > 0 {
        let prefix = txs.drop_last();
        assert(forall|i: int|
            0 <= i < prefix.len() ==> -qb <= (#[trigger] prefix[i]).quantity <= qb && -cb
                <= prefix[i].signed_cost() <= cb) by {
            assert(forall|i: int| 0 <= i < prefix.len() ==> prefix[i] == txs[i]);
        }
        lemma_holdings_entry_bound(prefix, qb, cb, k);
        assert(prefix.len() * qb + qb == txs.len() * qb) by (nonlinear_arith)
            requires
                prefix.len() + 1 == txs.len(),
        ;
        assert(prefix.len() * cb + cb == txs.len() * cb) by (nonlinear_arith)
            requires
                prefix.len() + 1 == txs.len(),
        ;
        assert(prefix.len() * qb >= 0 && prefix.len() * cb >= 0) by (nonlinear_arith)
            requires
                qb >= 0,
                cb >= 0,
                prefix.len() >= 0,
        ;
    }
}

/// Pointwise sum of two optional holdings; absent entries count as zero,
/// and the sum is absent only when both sides are.
pub open spec fn opt_add(a: Option<(int, int)>, b: Option<(int, int)>) -> Option<(int, int)> {
    if a is None && b is None {
        None
    } else {
        let x = if a is Some {
            a->0
        } else {
            (0, 0)
        };
        let y = if b is Some {
            b->0
        } else {
            (0, 0)
        };
        Some((x.0 + y.0, x.1 + y.1))
    }
}

/// The aggregate a single transaction contributes for key `k`.
pub open spec fn tx_entry(t: Transaction, k: Seq<char>) -> Option<(int, int)> {
    if t.scrip.spec_key() == k {
        Some((t.quantity as int, t.signed_cost()))
    } else {
        None
    }
}

/// Removing one transaction splits the aggregate: the whole history's
/// entry is the removed transaction's contribution added to the entry of
/// the remainder.
pub proof fn lemma_holdings_entry_remove(txs: Seq<Transaction>, k: Seq<char>, i: int)
    requires
        0 <= i < txs.len(),
    ensures
        holdings_entry(txs, k) == opt_add(holdings_entry(txs.remove(i), k), tx_entry(txs[i], k)),
    decreases txs.len(),
{
    if i == txs.len() - 1 {
        assert(txs.remove(i) =~= txs.drop_last());
    } else {
        let last = txs.last();
        let body = txs.drop_last();
        assert(txs.remove(i).drop_last() =~= body.remove(i));
        assert(txs.remove(i).last() == last);
        lemma_holdings_entry_remove(body, k, i);
        assert(body[i] == txs[i]);
    }
}

/// Histories with the same transactions as a multiset yield the same
/// aggregate for every instrument: folding holdings is commutative, so
/// the insertion order of the history does not matter.
pub proof fn lemma_holdings_entry_permutation(
    t1: Seq<Transaction>,
    t2: Seq<Transaction>,
    k: Seq<char>,
)
    requires
        t1.to_multiset() == t2.to_multiset(),
    ensures
        holdings_entry(t1, k) == holdings_entry(t2, k),
    decreases t1.len(),
{
    broadcast use vstd::seq_lib::group_to_multiset_ensures;

    if t1.len() == 0 {
        assert(t1.to_multiset().len() == t1.len());
        assert(t2.to_multiset().len() == t2.len());
        assert(t2.len() == 0);
    } else {
        let x = t1.last();
        let li = t1.len() - 1;
        assert(t1.to_multiset().count(x) > 0) by {
            assert(t1.contains(x));
        }
        assert(t2.contains(x));
        let j = choose|j: int| 0 <= j < t2.len() && t2[j] == x;
        assert(t1.remove(li).to_multiset() == t1.to_multiset().remove(x));
        assert(t2.remove(j).to_multiset() == t2.to_multiset().remove(x));
        assert(t1.remove(li) =~= t1.drop_last());
        lemma_holdings_entry_permutation(t1.drop_last(), t2.remove(j), k);
        lemma_holdings_entry_remove(t2, k, j);
        assert(holdings_entry(t1, k) == opt_add(holdings_entry(t1.drop_last(), k), tx_entry(x, k)));
    }
}

/// Order-independence of holdings: permuting the insertion order of a
/// position's transaction history (whatever their timestamps) leaves the
/// derived holding of every instrument exactly the same.
pub proof fn lemma_holdings_order_independent(t1: Seq<Transaction>, t2: Seq<Transaction>)
    requires
        t1.to_multiset() == t2.to_multiset(),
    ensures
        forall|k: Seq<char>| #[trigger]
            holdings_entry(t1, k) == holdings_entry(t2, k),
{
    assert forall|k: Seq<char>| #[trigger]
        holdings_entry(t1, k) == holdings_entry(t2, k) by {
        lemma_holdings_entry_permutation(t1, t2, k);
    }
}

/// Sum of the signed quantities of a history.
pub open spec fn sum_quantity(txs: Seq<Transaction>) -> int
    decreases txs.len(),
{
    if txs.len() == 0 {
        0
    } else {
        sum_quantity(txs.drop_last()) + txs.last().quantity
    }
}

/// Sum of the signed costs of a history.
pub open spec fn sum_signed_cost(txs: Seq<Transaction>) -> int
    decreases txs.len(),
{
    if txs.len() == 0 {
        0
    } else {
        sum_signed_cost(txs.drop_last()) + txs.last().signed_cost()
    }
}

/// Sum of the filled (absolute) quantities of a history.
pub open spec fn sum_fill_quantity(txs: Seq<Transaction>) -> int
    decreases txs.len(),
{
    if txs.len() == 0 {
        0
    } else {
        sum_fill_quantity(txs.drop_last()) + txs.last().avg_price.quantity
    }
}

/// Sum of the filled costs of a history.
pub open spec fn sum_fill_cost(txs: Seq<Transaction>) -> int
    decreases txs.len(),
{
    if txs.len() == 0 {
        0
    } else {
        sum_fill_cost(txs.drop_last()) + txs.last().avg_price.cost
    }
}

/// Weighted-average correctness: a history of same-direction transactions
/// on one instrument aggregates to the volume-weighted mean of its fills.
/// The holding is exactly (sum of quantities, sum of costs), and for a
/// same-direction history those sums carry one sign: the average price
/// `cost / quantity` is therefore `sum of fill costs / sum of fill
/// quantities`, the mean of the individual prices `cost_i / quantity_i`
/// weighted by the quantities.
pub proof fn lemma_weighted_average(txs: Seq<Transaction>, k: Seq<char>)
    requires
        txs.len() > 0,
        forall|i: int| 0 <= i < txs.len() ==> (#[trigger] txs[i]).scrip.spec_key() == k,
        forall|i: int| 0 <= i < txs.len() ==> (#[trigger] txs[i]).wf(),
        (forall|i: int| 0 <= i < txs.len() ==> (#[trigger] txs[i]).quantity > 0) || (forall|i: int|
            0 <= i < txs.len() ==> (#[trigger] txs[i]).quantity < 0),
    ensures
        holdings_entry(txs, k) == Some((sum_quantity(txs), sum_signed_cost(txs))),
        (forall|i: int| 0 <= i < txs.len() ==> (#[trigger] txs[i]).quantity > 0) ==> sum_quantity(
            txs,
        ) == sum_fill_quantity(txs) && sum_signed_cost(txs) == sum_fill_cost(txs),
        (forall|i: int| 0 <= i < txs.len() ==> (#[trigger] txs[i]).quantity < 0) ==> sum_quantity(
            txs,
        ) == -sum_fill_quantity(txs) && sum_signed_cost(txs) == -sum_fill_cost(txs),
    decreases txs.len(),
{
    let body = txs.drop_last();
    let t = txs.last();
    assert(forall|i: int| 0 <= i < body.len() ==> body[i] == txs[i]);
    assert(t == txs[txs.len() - 1] && t.scrip.spec_key() == k && t.wf());
    assert(sum_quantity(txs) == sum_quantity(body) + t.quantity);
    assert(sum_signed_cost(txs) == sum_signed_cost(body) + t.signed_cost());
    assert(sum_fill_quantity(txs) == sum_fill_quantity(body) + t.avg_price.quantity);
    assert(sum_fill_cost(txs) == sum_fill_cost(body) + t.avg_price.cost);
    if txs.len() == 1 {
        assert(holdings_entry(body, k) is None);
        assert(sum_quantity(body) == 0 && sum_signed_cost(body) == 0);
        assert(sum_fill_quantity(body) == 0 && sum_fill_cost(body) == 0);
        assert(holdings_entry(txs, k) == Some((t.quantity as int, t.signed_cost())));
    } else {
        lemma_weighted_average(body, k);
        assert(holdings_entry(txs, k) == Some(
            (sum_quantity(body) + t.quantity, sum_signed_cost(body) + t.signed_cost()),
        ));
    }
}

/// Order-independence at the ledger level: two consistent positions whose
/// histories hold the same transactions, in whatever order, hold exactly
/// the same quantity and cost for every instrument.
pub proof fn lemma_position_order_independent(p1: Position, p2: Position)
    requires
        p1.consistent(),
        p2.consistent(),
        p1.history@.to_multiset() == p2.history@.to_multiset(),
    ensures
        forall|k: Seq<char>| #[trigger]
            lookup(p1.holding@, k) == lookup(p2.holding@, k),
{
    lemma_holdings_order_independent(p1.history@, p2.history@);
}

/// Weighted-average correctness at the ledger level: in a consistent
/// position whose history is same-direction fills of one instrument, the
/// held quantity and cost are exactly the sums over the fills, so the
/// average price `cost / quantity` is the volume-weighted mean of the
/// fills' prices.
pub proof fn lemma_position_weighted_average(p: Position, k: Seq<char>)
    requires
        p.consistent(),
        p.history@.len() > 0,
        forall|i: int|
            0 <= i < p.history@.len() ==> (#[trigger] p.history@[i]).scrip.spec_key() == k,
        (forall|i: int| 0 <= i < p.history@.len() ==> (#[trigger] p.history@[i]).quantity > 0) || (
        forall|i: int| 0 <= i < p.history@.len() ==> (#[trigger] p.history@[i]).quantity < 0),
    ensures
        lookup(p.holding@, k) == Some((sum_quantity(p.history@), sum_signed_cost(p.history@))),
{
    lemma_weighted_average(p.history@, k);
}

/// Whether folding every entry of `add` onto `base` stays within the
/// holding's integer ranges; entries of `add` are independent when its
/// keys are unique.
pub open spec fn merge_fits(base: Seq<(Scrip, Holding)>, add: Seq<(Scrip, Holding)>) -> bool {
    forall|j: int|
        0 <= j < add.len() ==> {
            let prev = lookup(base, (#[trigger] add[j]).0.spec_key());
            let p = if prev is Some {
                prev->0
            } else {
                (0, 0)
            };
            &&& i64::MIN <= p.0 + add[j].1.quantity <= i64::MAX
            &&& i128::MIN <= p.1 + add[j].1.cost <= i128::MAX
        }
}

/// Holdings aggregate by concatenation: the entry of a joined history is
/// the pointwise sum of the entries of its parts.
pub proof fn lemma_holdings_entry_concat(t1: Seq<Transaction>, t2: Seq<Transaction>, k: Seq<char>)
    ensures
        holdings_entry(t1 + t2, k) == opt_add(holdings_entry(t1, k), holdings_entry(t2, k)),
    decreases t2.len(),
{
    if t2.len() == 0 {
        assert(t1 + t2 =~= t1);
    } else {
        lemma_holdings_entry_concat(t1, t2.drop_last(), k);
        assert((t1 + t2).drop_last() =~= t1 + t2.drop_last());
        assert((t1 + t2).last() == t2.last());
    }
}

/// The unrealized profit of the first `i` holdings against their live
/// prices: market value minus cost basis, summed. A flat holding with a
/// residual cost contributes exactly the negation of that cost.
pub open spec fn pnl_prefix(h: Seq<(Scrip, Holding)>, prices: Seq<u64>, i: int) -> int
    decreases i,
{
    if i <= 0 {
        0
    } else {
        pnl_prefix(h, prices, i - 1) + h[i - 1].1.quantity * prices[i - 1] - h[i - 1].1.cost
    }
}

/// Whether the profit computation stays within `i128` at every step, in
/// the order the sum is taken.
pub open spec fn pnl_fits(h: Seq<(Scrip, Holding)>, prices: Seq<u64>, n: int) -> bool {
    forall|i: int|
        0 <= i < n ==> {
            &&& i128::MIN <= pnl_prefix(h, prices, i) + (#[trigger] h[i]).1.quantity * prices[i]
                <= i128::MAX
            &&& i128::MIN <= pnl_prefix(h, prices, i + 1) <= i128::MAX
        }
}

/// Transactions ordered by their execution timestamps, earliest first.
pub open spec fn sorted_by_time(txs: Seq<Transaction>) -> bool {
    forall|i: int, j: int| 0 <= i <= j < txs.len() ==> txs[i].exec_time <= txs[j].exec_time
}

/// A running ledger: the executed transactions in insertion order, and the
/// derived holdings, one entry per instrument.
#[derive(Debug)]
pub struct Position {
    pub history: Vec<Transaction>,
    pub holding: Vec<(Scrip, Holding)>,
}

impl Position {
    /// The ledger invariant: every transaction is well formed, holdings
    /// carry one entry per instrument, and each entry is exactly the
    /// aggregate of the history for its key.
    pub open spec fn consistent(self) -> bool {
        &&& forall|i: int| 0 <= i < self.history@.len() ==> (#[trigger] self.history@[i]).wf()
        &&& holding_keys_unique(self.holding@)
        &&& forall|k: Seq<char>| #[trigger]
            lookup(self.holding@, k) == holdings_entry(self.history@, k)
    }
}

impl Default for Position {
    /// An empty ledger.
    fn default() -> (p: Self)
        ensures
            p.history@ == Seq::<Transaction>::empty(),
            p.holding@ == Seq::<(Scrip, Holding)>::empty(),
            p.consistent(),
    {
        let p = Position { history: Vec::new(), holding: Vec::new() };
        proof {
            assert(forall|k: Seq<char>|
                lookup(p.holding@, k) is None && holdings_entry(p.history@, k) is None);
        }
        p
    }
}

/// If no entry before `i` matches `k` and entry `i` does, the lookup
/// returns entry `i`.
proof fn lemma_lookup_at(h: Seq<(Scrip, Holding)>, k: Seq<char>, i: int)
    requires
        0 <= i < h.len(),
        forall|j: int| 0 <= j < i ==> h[j].0.spec_key() != k,
        h[i].0.spec_key() == k,
    ensures
        lookup(h, k) == Some((h[i].1.quantity as int, h[i].1.cost as int)),
    decreases i,
{
    if i > 0 {
        assert(h[0].0.spec_key() != k);
        assert forall|j: int| 0 <= j < i - 1 implies h.drop_first()[j].0.spec_key() != k by {
            assert(h.drop_first()[j] == h[j + 1]);
        }
        assert(h.drop_first()[i - 1] == h[i]);
        lemma_lookup_at(h.drop_first(), k, i - 1);
    }
}

/// If no entry matches `k`, the lookup is `None`.
proof fn lemma_lookup_none(h: Seq<(Scrip, Holding)>, k: Seq<char>)
    requires
        forall|j: int| 0 <= j < h.len() ==> h[j].0.spec_key() != k,
    ensures
        lookup(h, k) is None,
    decreases h.len(),
{
    if h.len() > 0 {
        assert forall|j: int| 0 <= j < h.len() - 1 implies h.drop_first()[j].0.spec_key() != k by {
            assert(h.drop_first()[j] == h[j + 1]);
        }
        lemma_lookup_none(h.drop_first(), k);
    }
}

/// Replacing the holding at a position with one of the same key changes
/// the lookup of that key alone.
proof fn lemma_lookup_update(
    h: Seq<(Scrip, Holding)>,
    h2: Seq<(Scrip, Holding)>,
    i: int,
    k: Seq<char>,
)
    requires
        0 <= i < h.len(),
        h2 =~= h.update(i, (h[i].0, h2[i].1)),
        h2[i].0 == h[i].0,
        forall|j: int| 0 <= j < i ==> h[j].0.spec_key() != h[i].0.spec_key(),
        h[i].0.spec_key() == k,
        holding_keys_unique(h),
    ensures
        lookup(h2, k) == Some((h2[i].1.quantity as int, h2[i].1.cost as int)),
        forall|k2: Seq<char>| k2 != k ==> lookup(h2, k2) == lookup(h, k2),
        holding_keys_unique(h2),
{
    assert(h2.len() == h.len());
    assert forall|j: int| 0 <= j < i implies h2[j].0.spec_key() != k by {
        assert(h2[j] == h[j]);
    }
    lemma_lookup_at(h2, k, i);
    assert forall|k2: Seq<char>| k2 != k implies lookup(h2, k2) == lookup(h, k2) by {
        lemma_lookup_agree(h, h2, k2, i);
    }
}

/// Two holding lists that differ only in the value at one position agree
/// on the lookup of every other key.
proof fn lemma_lookup_agree(
    h: Seq<(Scrip, Holding)>,
    h2: Seq<(Scrip, Holding)>,
    k2: Seq<char>,
    i: int,
)
    requires
        0 <= i < h.len(),
        h2.len() == h.len(),
        forall|j: int| 0 <= j < h.len() && j != i ==> h2[j] == h[j],
        h2[i].0 == h[i].0,
        h[i].0.spec_key() != k2,
    ensures
        lookup(h2, k2) == lookup(h, k2),
    decreases h.len(),
{
    if h.len() > 0 {
        if i == 0 {
            assert(h2.drop_first() =~= h.drop_first());
        } else {
            assert(h2[0] == h[0]);
            assert forall|j: int|
                0 <= j < h.drop_first().len() && j != i - 1 implies h2.drop_first()[j]
                == h.drop_first()[j] by {
                assert(h2.drop_first()[j] == h2[j + 1]);
                assert(h.drop_first()[j] == h[j + 1]);
            }
            assert(h2.drop_first()[i - 1] == h2[i]);
            assert(h.drop_first()[i - 1] == h[i]);
            lemma_lookup_agree(h.drop_first(), h2.drop_first(), k2, i - 1);
        }
    }
}

/// Appending a fresh key changes the lookup of that key alone.
proof fn lemma_lookup_push(h: Seq<(Scrip, Holding)>, entry: (Scrip, Holding))
    requires
        forall|j: int| 0 <= j < h.len() ==> h[j].0.spec_key() != entry.0.spec_key(),
    ensures
        lookup(h.push(entry), entry.0.spec_key()) == Some(
            (entry.1.quantity as int, entry.1.cost as int),
        ),
        forall|k2: Seq<char>|
            k2 != entry.0.spec_key() ==> lookup(h.push(entry), k2) == lookup(h, k2),
    decreases h.len(),
{
    let hp = h.push(entry);
    assert forall|j: int| 0 <= j < h.len() implies hp[j] == h[j] by {}
    assert(hp[h.len() as int] == entry);
    lemma_lookup_at(hp, entry.0.spec_key(), h.len() as int);
    assert forall|k2: Seq<char>|
        k2 != entry.0.spec_key() implies lookup(hp, k2) == lookup(h, k2) by {
        lemma_lookup_push_other(h, entry, k2);
    }
}

proof fn lemma_lookup_push_other(h: Seq<(Scrip, Holding)>, entry: (Scrip, Holding), k2: Seq<char>)
    requires
        k2 != entry.0.spec_key(),
    ensures
        lookup(h.push(entry), k2) == lookup(h, k2),
    decreases h.len(),
{
    let hp = h.push(entry);
    assert(hp.len() == h.len() + 1);
    if h.len() == 0 {
        assert(hp[0] == entry);
        assert(hp.drop_first() =~= Seq::<(Scrip, Holding)>::empty());
        assert(lookup(hp, k2) == lookup(hp.drop_first(), k2));
        assert(lookup(hp.drop_first(), k2) is None);
        assert(lookup(h, k2) is None);
    } else {
        assert(hp[0] == h[0]);
        assert(hp.drop_first() =~= h.drop_first().push(entry));
        lemma_lookup_push_other(h.drop_first(), entry, k2);
        if h[0].0.spec_key() == k2 {
            assert(lookup(hp, k2) == Some((hp[0].1.quantity as int, hp[0].1.cost as int)));
            assert(lookup(h, k2) == Some((h[0].1.quantity as int, h[0].1.cost as int)));
        } else {
            assert(lookup(hp, k2) == lookup(hp.drop_first(), k2));
            assert(lookup(h, k2) == lookup(h.drop_first(), k2));
        }
    }
}

/// Position of the entry carrying the instrument's key, if any.
fn find_entry(h: &Vec<(Scrip, Holding)>, scrip: &Scrip) -> (r: Option<usize>)
    ensures
        r matches Some(i) ==> i < h@.len() && h@[i as int].0.spec_key() == scrip.spec_key() && (
        forall|j: int| 0 <= j < i ==> h@[j].0.spec_key() != scrip.spec_key()),
        r is None ==> forall|j: int| 0 <= j < h@.len() ==> h@[j].0.spec_key() != scrip.spec_key(),
{
    let n = h.len();
    let mut i: usize = 0;
    while i < n
        invariant
            0 <= i <= n == h@.len(),
            forall|j: int| 0 <= j < i ==> h@[j].0.spec_key() != scrip.spec_key(),
        decreases n - i,
    {
        if h[i].0 == *scrip {
            return Some(i);
        }
        i = i + 1;
    }
    None
}

/// Adds a (quantity, cost) delta to the entry for `scrip`, inserting the
/// entry if absent. Fails with `Overflow`, leaving the list unchanged,
/// exactly when a sum leaves the range of the holding fields.
#[verifier::rlimit(50)]
fn apply_delta(h: &mut Vec<(Scrip, Holding)>, scrip: Scrip, dq: i64, dcost: i128) -> (r: Result<
    (),
    Error,
>)
    requires
        holding_keys_unique(old(h)@),
    ensures
        holding_keys_unique(final(h)@),
        ({
            let prev = lookup(old(h)@, scrip.spec_key());
            let p = if prev is Some {
                prev->0
            } else {
                (0, 0)
            };
            let fits = i64::MIN <= p.0 + dq <= i64::MAX && i128::MIN <= p.1 + dcost <= i128::MAX;
            &&& r is Ok <==> fits
            &&& r is Err ==> r == Err::<(), Error>(Error::Overflow) && final(h)@ == old(h)@
            &&& r is Ok ==> lookup(final(h)@, scrip.spec_key()) == Some(
                (p.0 + dq, p.1 + dcost),
            ) && (forall|k2: Seq<char>|
                k2 != scrip.spec_key() ==> lookup(final(h)@, k2) == lookup(old(h)@, k2))
        }),
{
    let ghost key = scrip.spec_key();
    match find_entry(h, &scrip) {
        Some(i) => {
            let entry = h[i].1;
            proof {
                lemma_lookup_at(h@, key, i as int);
            }
            let new_qty = match entry.quantity.checked_add(dq) {
                Some(v) => v,
                None => {
                    return Err(Error::Overflow);
                },
            };
            let new_cost = match entry.cost.checked_add(dcost) {
                Some(v) => v,
                None => {
                    return Err(Error::Overflow);
                },
            };
            let (s, _) = h.remove(i);
            h.insert(i, (s, Holding { quantity: new_qty, cost: new_cost }));
            proof {
                assert(h@ =~= old(h)@.update(i as int, (old(h)@[i as int].0, h@[i as int].1)));
                lemma_lookup_update(old(h)@, h@, i as int, key);
            }
            return Ok(());
        },
        None => {},
    }
    proof {
        lemma_lookup_none(h@, key);
    }
    let new_qty = match 0i64.checked_add(dq) {
        Some(v) => v,
        None => {
            return Err(Error::Overflow);
        },
    };
    let new_cost = match 0i128.checked_add(dcost) {
        Some(v) => v,
        None => {
            return Err(Error::Overflow);
        },
    };
    h.push((scrip, Holding { quantity: new_qty, cost: new_cost }));
    proof {
        lemma_lookup_push(old(h)@, h@[(h@.len() - 1) as int]);
        assert(h@ =~= old(h)@.push(h@[(h@.len() - 1) as int]));
        assert forall|a: int, b: int|
            0 <= a < b < h@.len() implies h@[a].0.spec_key() != h@[b].0.spec_key() by {
            if b < h@.len() - 1 {
                assert(h@[a] == old(h)@[a] && h@[b] == old(h)@[b]);
            } else if a < h@.len() - 1 {
                assert(h@[a] == old(h)@[a]);
            }
        }
    }
    Ok(())
}

impl Position {
    /// Folds one (quantity, price) delta for an instrument into the
    /// holdings, leaving the history untouched: a fresh entry if the
    /// instrument is new, otherwise the running sums that realize the
    /// weighted-average update. Fails with `Overflow`, changing nothing,
    /// exactly when a sum leaves the holding's range.
    pub fn update_holding(&mut self, scrip: Scrip, quantity: i32, price: AvgPrice) -> (r: Result<
        (),
        Error,
    >)
        requires
            holding_keys_unique(old(self).holding@),
            quantity != 0,
            price.quantity == if quantity >= 0 {
                quantity as int
            } else {
                -(quantity as int)
            },
        ensures
            final(self).history == old(self).history,
            holding_keys_unique(final(self).holding@),
            ({
                let dcost = if quantity >= 0 {
                    price.cost as int
                } else {
                    -(price.cost as int)
                };
                let prev = lookup(old(self).holding@, scrip.spec_key());
                let p = if prev is Some {
                    prev->0
                } else {
                    (0, 0)
                };
                let fits = i64::MIN <= p.0 + quantity <= i64::MAX && i128::MIN <= p.1 + dcost
                    <= i128::MAX;
                &&& r is Ok <==> fits
                &&& r is Err ==> r == Err::<(), Error>(Error::Overflow) && final(self).holding@
                    == old(self).holding@
                &&& r is Ok ==> lookup(final(self).holding@, scrip.spec_key()) == Some(
                    (p.0 + quantity, p.1 + dcost),
                ) && (forall|k2: Seq<char>|
                    k2 != scrip.spec_key() ==> lookup(final(self).holding@, k2) == lookup(
                        old(self).holding@,
                        k2,
                    ))
            }),
    {
        let dcost: i128 = if quantity >= 0 {
            price.cost as i128
        } else {
            -(price.cost as i128)
        };
        apply_delta(&mut self.holding, scrip, quantity as i64, dcost)
    }

    /// Appends a transaction to the history and folds it into the
    /// holdings. Fails with `Overflow`, changing nothing, exactly when the
    /// holding sums would leave their range.
    pub fn add_transaction(&mut self, transaction: Transaction) -> (r: Result<(), Error>)
        requires
            transaction.wf(),
            holding_keys_unique(old(self).holding@),
        ensures
            holding_keys_unique(final(self).holding@),
            ({
                let key = transaction.scrip.spec_key();
                let prev = lookup(old(self).holding@, key);
                let p = if prev is Some {
                    prev->0
                } else {
                    (0, 0)
                };
                let fits = i64::MIN <= p.0 + transaction.quantity <= i64::MAX && i128::MIN <= p.1
                    + transaction.signed_cost() <= i128::MAX;
                &&& r is Ok <==> fits
                &&& r is Err ==> r == Err::<(), Error>(Error::Overflow) && final(self).history
                    == old(self).history && final(self).holding@ == old(self).holding@
                &&& r is Ok ==> {
                    &&& final(self).history@ == old(self).history@.push(transaction)
                    &&& lookup(final(self).holding@, key) == Some(
                        (p.0 + transaction.quantity, p.1 + transaction.signed_cost()),
                    )
                    &&& forall|k2: Seq<char>|
                        k2 != key ==> lookup(final(self).holding@, k2) == lookup(
                            old(self).holding@,
                            k2,
                        )
                }
            }),
            old(self).consistent() && r is Ok ==> final(self).consistent(),
    {
        let scrip = transaction.scrip.clone();
        let quantity = transaction.quantity;
        let price = transaction.avg_price;
        let res = self.update_holding(scrip, quantity, price);
        match res {
            Ok(()) => {
                let ghost old_history = self.history@;
                self.history.push(transaction);
                proof {
                    assert(self.history@.drop_last() =~= old_history);
                    if old(self).consistent() {
                        let key = transaction.scrip.spec_key();
                        assert forall|k: Seq<char>| #[trigger]
                            lookup(self.holding@, k) == holdings_entry(self.history@, k) by {
                            assert(lookup(old(self).holding@, k) == holdings_entry(
                                old_history,
                                k,
                            ));
                            if k != key {
                                assert(lookup(self.holding@, k) == lookup(old(self).holding@, k));
                            }
                        }
                        assert forall|i: int|
                            0 <= i < self.history@.len() implies (#[trigger] self.history@[i]).wf()
                        by {
                            if i < self.history@.len() - 1 {
                                assert(self.history@[i] == old_history[i]);
                            }
                        }
                    }
                }
                Ok(())
            },
            Err(e) => Err(e),
        }
    }

    /// Merges another position into this one: its history is appended and
    /// its holdings are folded in entry by entry, the weighted-average
    /// arithmetic being the same running sums. Fails with `Overflow`,
    /// changing nothing, exactly when one merged holding would leave its
    /// range.
    pub fn extend(&mut self, new_position: Position) -> (r: Result<(), Error>)
        requires
            holding_keys_unique(old(self).holding@),
            holding_keys_unique(new_position.holding@),
        ensures
            holding_keys_unique(final(self).holding@),
            r is Ok <==> merge_fits(old(self).holding@, new_position.holding@),
            r is Err ==> r == Err::<(), Error>(Error::Overflow) && final(self).history == old(self).history && final(self).holding@ == old(self).holding@,
            r is Ok ==> {
                &&& final(self).history@ == old(self).history@ + new_position.history@
                &&& forall|k: Seq<char>| #[trigger]
                    lookup(final(self).holding@, k) == opt_add(
                        lookup(old(self).holding@, k),
                        lookup(new_position.holding@, k),
                    )
            },
            old(self).consistent() && new_position.consistent() && r is Ok ==> final(self).consistent(),
    {
        let mut merged = clone_holdings(&self.holding);
        let mut other = new_position;
        let n = other.holding.len();
        let mut i: usize = 0;
        while i < n
            invariant
                0 <= i <= n == other.holding@.len(),
                other.holding@ == new_position.holding@,
                other.history@ == new_position.history@,
                self.history == old(self).history,
                self.holding@ == old(self).holding@,
                holding_keys_unique(old(self).holding@),
                holding_keys_unique(other.holding@),
                holding_keys_unique(merged@),
                forall|j: int|
                    0 <= j < i ==> {
                        let prev = lookup(old(self).holding@, (#[trigger] other.holding@[j]).0.spec_key());
                        let p = if prev is Some {
                            prev->0
                        } else {
                            (0, 0)
                        };
                        &&& i64::MIN <= p.0 + other.holding@[j].1.quantity <= i64::MAX
                        &&& i128::MIN <= p.1 + other.holding@[j].1.cost <= i128::MAX
                    },
                forall|k: Seq<char>| #[trigger]
                    lookup(merged@, k) == if exists|j: int|
                        0 <= j < i && (#[trigger] other.holding@[j]).0.spec_key() == k {
                        opt_add(lookup(old(self).holding@, k), lookup(other.holding@, k))
                    } else {
                        lookup(old(self).holding@, k)
                    },
            decreases n - i,
        {
            let ghost key = other.holding@[i as int].0.spec_key();
            proof {
                assert forall|j: int| 0 <= j < i implies (#[trigger] other.holding@[j]).0.spec_key()
                    != key by {}
                lemma_lookup_at(other.holding@, key, i as int);
                assert(lookup(merged@, key) == lookup(old(self).holding@, key));
            }
            let scrip = other.holding[i].0.clone();
            let delta = other.holding[i].1;
            match apply_delta(&mut merged, scrip, delta.quantity, delta.cost) {
                Ok(()) => {},
                Err(_) => {
                    proof {
                        assert(!merge_fits(old(self).holding@, new_position.holding@)) by {
                            if merge_fits(old(self).holding@, new_position.holding@) {
                                assert(new_position.holding@[i as int]
                                    == other.holding@[i as int]);
                            }
                        }
                    }
                    return Err(Error::Overflow);
                },
            }
            proof {
                assert forall|k: Seq<char>| #[trigger]
                    lookup(merged@, k) == (if exists|j: int|
                        0 <= j < i + 1 && (#[trigger] other.holding@[j]).0.spec_key() == k {
                        opt_add(lookup(old(self).holding@, k), lookup(other.holding@, k))
                    } else {
                        lookup(old(self).holding@, k)
                    }) by {
                    if k == key {
                        assert(other.holding@[i as int].0.spec_key() == k);
                    }
                }
            }
            i = i + 1;
        }
        proof {
            assert(merge_fits(old(self).holding@, new_position.holding@)) by {
                assert forall|j: int|
                    0 <= j < new_position.holding@.len() implies {
                    let prev = lookup(
                        old(self).holding@,
                        (#[trigger] new_position.holding@[j]).0.spec_key(),
                    );
                    let p = if prev is Some {
                        prev->0
                    } else {
                        (0, 0)
                    };
                    &&& i64::MIN <= p.0 + new_position.holding@[j].1.quantity <= i64::MAX
                    &&& i128::MIN <= p.1 + new_position.holding@[j].1.cost <= i128::MAX
                } by {
                    assert(new_position.holding@[j] == other.holding@[j]);
                }
            }
            assert forall|k: Seq<char>| #[trigger]
                lookup(merged@, k) == opt_add(
                    lookup(old(self).holding@, k),
                    lookup(new_position.holding@, k),
                ) by {
                if !(exists|j: int|
                    0 <= j < n && (#[trigger] other.holding@[j]).0.spec_key() == k) {
                    lemma_lookup_none(other.holding@, k);
                }
            }
        }
        let ghost old_history = self.history@;
        self.history.append(&mut other.history);
        self.holding = merged;
        proof {
            assert(self.history@ == old_history + new_position.history@);
            if old(self).consistent() && new_position.consistent() {
                assert forall|k: Seq<char>| #[trigger]
                    lookup(self.holding@, k) == holdings_entry(self.history@, k) by {
                    lemma_holdings_entry_concat(old_history, new_position.history@, k);
                }
                assert forall|j: int|
                    0 <= j < self.history@.len() implies (#[trigger] self.history@[j]).wf() by {
                    if j < old_history.len() {
                        assert(self.history@[j] == old_history[j]);
                    } else {
                        assert(self.history@[j] == new_position.history@[j - old_history.len()]);
                    }
                }
            }
        }
        Ok(())
    }

    /// The unrealized profit and loss of the whole position: for each
    /// holding, its net quantity times the live price handed in for it,
    /// minus its cost basis, all summed exactly. `prices[i]` must be the
    /// live price of the instrument of `holding[i]`. Fails with `Overflow`
    /// exactly when the exact sum leaves `i128` at some step.
    pub fn get_pnl(&self, prices: &Vec<u64>) -> (r: Result<i128, Error>)
        requires
            prices@.len() == self.holding@.len(),
        ensures
            pnl_fits(self.holding@, prices@, self.holding@.len() as int) ==> (r matches Ok(v) && v
                == pnl_prefix(self.holding@, prices@, self.holding@.len() as int)),
            !pnl_fits(self.holding@, prices@, self.holding@.len() as int) ==> r == Err::<
                i128,
                Error,
            >(Error::Overflow),
    {
        let n = self.holding.len();
        let mut acc: i128 = 0;
        let mut i: usize = 0;
        while i < n
            invariant
                0 <= i <= n == self.holding@.len() == prices@.len(),
                acc as int == pnl_prefix(self.holding@, prices@, i as int),
                forall|j: int|
                    0 <= j < i ==> {
                        &&& i128::MIN <= pnl_prefix(self.holding@, prices@, j) + (#[trigger] self
                            .holding@[j]).1.quantity * prices@[j] <= i128::MAX
                        &&& i128::MIN <= pnl_prefix(self.holding@, prices@, j + 1) <= i128::MAX
                    },
            decreases n - i,
        {
            let q = self.holding[i].1.quantity;
            let c = self.holding[i].1.cost;
            let p = prices[i];
            proof {
                assert((q as int) * (p as int) <= i128::MAX && i128::MIN <= (q as int) * (
                p as int)) by (nonlinear_arith)
                    requires
                        -0x8000_0000_0000_0000 <= q as int <= 0x7fff_ffff_ffff_ffff,
                        0 <= p as int <= 0xffff_ffff_ffff_ffff,
                ;
            }
            let prod: i128 = (q as i128) * (p as i128);
            let with_value = match acc.checked_add(prod) {
                Some(v) => v,
                None => {
                    return Err(Error::Overflow);
                },
            };
            let next = match with_value.checked_sub(c) {
                Some(v) => v,
                None => {
                    return Err(Error::Overflow);
                },
            };
            acc = next;
            i = i + 1;
        }
        Ok(acc)
    }
}

impl Position {
    /// Reorders the history by execution timestamp, earliest first. The
    /// holdings are untouched: their aggregation is order-independent, so
    /// they still derive from the reordered history.
    pub fn sort_history(&mut self)
        ensures
            final(self).history@.to_multiset() == old(self).history@.to_multiset(),
            sorted_by_time(final(self).history@),
            final(self).holding == old(self).holding,
            old(self).consistent() ==> final(self).consistent(),
    {
        broadcast use vstd::seq_lib::group_to_multiset_ensures;

        let n = self.history.len();
        if n == 0 {
            return ;
        }
        let mut i: usize = 1;
        while i < n
            invariant
                1 <= i <= n == self.history@.len(),
                self.holding == old(self).holding,
                self.history@.to_multiset() == old(self).history@.to_multiset(),
                sorted_by_time(self.history@.take(i as int)),
            decreases n - i,
        {
            let ghost pre = self.history@;
            let tx = self.history.remove(i);
            let ghost removed = self.history@;
            let mut j: usize = i;
            while j > 0 && self.history[j - 1].exec_time > tx.exec_time
                invariant
                    0 <= j <= i < removed.len() + 1,
                    self.history@ == removed,
                    forall|b: int| j <= b < i ==> removed[b].exec_time > tx.exec_time,
                decreases j,
            {
                j = j - 1;
            }
            self.history.insert(j, tx);
            proof {
                let post = self.history@;
                assert(post == removed.insert(j as int, tx));
                assert(removed == pre.remove(i as int));
                vstd::seq_lib::to_multiset_remove::<Transaction>(pre, i as int);
                vstd::seq_lib::to_multiset_insert::<Transaction>(removed, j as int, tx);
                vstd::seq_lib::to_multiset_contains::<Transaction>(pre, tx);
                assert(pre.contains(tx)) by {
                    assert(pre[i as int] == tx);
                }
                assert(post.to_multiset() =~= pre.to_multiset());
                let sp = pre.take(i as int);
                assert(forall|c: int| 0 <= c < i ==> removed[c] == pre[c]);
                assert(forall|c: int| 0 <= c < i ==> sp[c] == pre[c]);
                assert(forall|c: int| 0 <= c < j ==> post[c] == removed[c]);
                assert(post[j as int] == tx);
                assert(forall|c: int| j < c < post.len() ==> post[c] == removed[c - 1]);
                assert(sorted_by_time(post.take(i + 1))) by {
                    let win = post.take(i + 1);
                    assert forall|a: int, b: int|
                        0 <= a <= b < win.len() implies win[a].exec_time <= win[b].exec_time by {
                        assert(forall|c: int| 0 <= c <= i ==> win[c] == post[c]);
                        assert(forall|c: int, d: int|
                            0 <= c <= d < i ==> sp[c].exec_time <= sp[d].exec_time);
                        if j > 0 {
                            assert(removed[j - 1].exec_time <= tx.exec_time);
                        }
                        assert(forall|c: int| j <= c < i ==> removed[c].exec_time > tx.exec_time);
                    }
                }
            }
            i = i + 1;
        }
        proof {
            assert(self.history@.take(n as int) =~= self.history@);
            if old(self).consistent() {
                assert forall|k: Seq<char>| #[trigger]
                    lookup(self.holding@, k) == holdings_entry(self.history@, k) by {
                    lemma_holdings_entry_permutation(self.history@, old(self).history@, k);
                }
                assert forall|idx: int|
                    0 <= idx < self.history@.len() implies (#[trigger] self.history@[idx]).wf() by {
                    let t = self.history@[idx];
                    assert(self.history@.contains(t));
                    assert(self.history@.to_multiset().count(t) > 0);
                    assert(old(self).history@.to_multiset().count(t) > 0);
                    assert(old(self).history@.contains(t));
                    let w = choose|w: int|
                        0 <= w < old(self).history@.len() && old(self).history@[w] == t;
                    assert(old(self).history@[w].wf());
                }
            }
        }
    }
}

/// An entry-by-entry copy of a holdings list.
fn clone_holdings(h: &Vec<(Scrip, Holding)>) -> (r: Vec<(Scrip, Holding)>)
    ensures
        r@ == h@,
{
    let mut r: Vec<(Scrip, Holding)> = Vec::new();
    let n = h.len();
    let mut i: usize = 0;
    while i < n
        invariant
            0 <= i <= n == h@.len(),
            r@.len() == i,
            forall|j: int| 0 <= j < i ==> r@[j] == h@[j],
        decreases n - i,
    {
        let scrip = h[i].0.clone();
        let holding = h[i].1;
        r.push((scrip, holding));
        i = i + 1;
    }
    proof {
        assert(r@ =~= h@);
    }
    r
}

} // verus!
