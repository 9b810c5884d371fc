//! The limit order book: price levels kept best-first on each side, and
//! matching by price-time priority.
use crate::digest::sha256_of;
use crate::market::{make_trade, volume_of, order_preimage, trade_preimage, Order, OrderSide, OrderView, Trade, TradeView};
use vstd::prelude::*;

verus! {

// ----------------------------------------------------------------------------
// Price levels
// ----------------------------------------------------------------------------

/// Sum of the remaining quantities of a sequence of orders.
pub open spec fn sum_remaining(s: Seq<OrderView>) -> int
    decreases s.len(),
{
    if s.len() == 0 {
        0
    } else {
        sum_remaining(s.drop_last()) + s.last().remaining()
    }
}

/// The orders of `s` that are not yet filled, in their order.
pub open spec fn unfilled(s: Seq<OrderView>) -> Seq<OrderView>
    decreases s.len(),
{
    if s.len() == 0 {
        Seq::empty()
    } else if s.last().filled < s.last().quantity {
        unfilled(s.drop_last()).push(s.last())
    } else {
        unfilled(s.drop_last())
    }
}

pub open spec fn orders_view(v: Seq<Order>) -> Seq<OrderView> {
    v.map_values(|o: Order| o@)
}

pub open spec fn trades_view(v: Seq<Trade>) -> Seq<TradeView> {
    v.map_values(|t: Trade| t@)
}

pub proof fn lemma_sum_first(s: Seq<OrderView>)
    requires
        s.len() > 0,
    ensures
        sum_remaining(s) == s[0].remaining() + sum_remaining(s.drop_first()),
    decreases s.len(),
{
    if s.len() > 1 {
        lemma_sum_first(s.drop_last());
        assert(s.drop_last().drop_first() =~= s.drop_first().drop_last());
        assert(s.drop_first().last() == s.last());
        assert(s.drop_last()[0] == s[0]);
        let t = s.drop_first();
        assert(sum_remaining(t) == sum_remaining(t.drop_last()) + t.last().remaining());
    } else {
        assert(s.drop_first().len() == 0);
        assert(s.drop_last().len() == 0);
        assert(sum_remaining(s.drop_last()) == 0);
        assert(sum_remaining(s.drop_first()) == 0);
        assert(s.last() == s[0]);
    }
}

pub proof fn lemma_sum_nonneg(s: Seq<OrderView>)
    requires
        forall|k: int| 0 <= k < s.len() ==> (#[trigger] s[k]).filled <= s[k].quantity,
    ensures
        sum_remaining(s) >= 0,
    decreases s.len(),
{
    if s.len() > 0 {
        lemma_sum_nonneg(s.drop_last());
    }
}

proof fn lemma_sum_unfilled_le(s: Seq<OrderView>)
    requires
        forall|k: int| 0 <= k < s.len() ==> (#[trigger] s[k]).filled <= s[k].quantity,
    ensures
        0 <= sum_remaining(unfilled(s)) <= sum_remaining(s),
        forall|k: int|
            0 <= k < unfilled(s).len() ==> (#[trigger] unfilled(s)[k]).filled
                <= unfilled(s)[k].quantity,
    decreases s.len(),
{
    if s.len() > 0 {
        lemma_sum_unfilled_le(s.drop_last());
        let p = unfilled(s.drop_last());
        if s.last().filled < s.last().quantity {
            assert(p.push(s.last()).drop_last() =~= p);
        }
    }
}

/// The abstract content of a price level.
pub struct LevelView {
    pub price: u64,
    pub orders: Seq<OrderView>,
    pub total_quantity: u64,
}

/// A FIFO queue of resting orders at one price.
pub struct PriceLevel {
    pub price: u64,
    pub orders: Vec<Order>,
    pub total_quantity: u64,
}

impl View for PriceLevel {
    type V = LevelView;

    open spec fn view(&self) -> LevelView {
        LevelView {
            price: self.price,
            orders: orders_view(self.orders@),
            total_quantity: self.total_quantity,
        }
    }
}

impl PriceLevel {
    pub fn new(price: u64) -> (r: PriceLevel)
        ensures
            r@.price == price,
            r@.orders.len() == 0,
            r@.total_quantity == 0,
    {
        PriceLevel { price, orders: Vec::new(), total_quantity: 0 }
    }

    /// Appends an order at the back of the queue.
    pub fn add_order(&mut self, order: Order)
        requires
            order@.filled <= order@.quantity,
            old(self)@.total_quantity + order@.remaining() <= u64::MAX,
        ensures
            final(self)@ == (LevelView {
                orders: old(self)@.orders.push(order@),
                total_quantity: (old(self)@.total_quantity + order@.remaining()) as u64,
                ..old(self)@
            }),
    {
        self.total_quantity = self.total_quantity + order.remaining();
        self.orders.push(order);
        assert(orders_view(self.orders@) =~= orders_view(old(self).orders@).push(order@));
    }

    /// Drops the filled orders and recomputes the aggregate quantity.
    pub fn remove_filled_orders(&mut self)
        requires
            forall|k: int|
                0 <= k < old(self)@.orders.len() ==> (#[trigger] old(self)@.orders[k]).filled
                    <= old(self)@.orders[k].quantity,
            sum_remaining(old(self)@.orders) <= u64::MAX,
        ensures
            final(self)@.price == old(self)@.price,
            final(self)@.orders == unfilled(old(self)@.orders),
            final(self)@.total_quantity == sum_remaining(unfilled(old(self)@.orders)),
    {
        let ghost orig = orders_view(self.orders@);
        let mut kept: Vec<Order> = Vec::new();
        let mut total: u64 = 0;
        let ghost mut i: int = 0;
        proof {
            lemma_sum_unfilled_le(orig);
        }
        while self.orders.len() > 0
            invariant
                0 <= i <= orig.len(),
                orders_view(self.orders@) == orig.subrange(i, orig.len() as int),
                orders_view(kept@) == unfilled(orig.subrange(0, i)),
                total == sum_remaining(unfilled(orig.subrange(0, i))),
                forall|k: int| 0 <= k < orig.len() ==> (#[trigger] orig[k]).filled <= orig[k].quantity,
                sum_remaining(orig) <= u64::MAX,
                self.price == old(self).price,
            decreases self.orders.len(),
        {
            proof {
                assert(orders_view(self.orders@).len() == self.orders@.len());
                assert(orders_view(self.orders@)[0] == orig[i]);
            }
            let ghost before = self.orders@;
            let o = self.orders.remove(0);
            proof {
                assert(forall|k: int|
                    0 <= k < self.orders@.len() ==> self.orders@[k] == before[k + 1]);
                assert(forall|k: int|
                    0 <= k < before.len() ==> #[trigger] orders_view(before)[k] == before[k]@);
                let pre = orig.subrange(0, i + 1);
                assert(pre.drop_last() =~= orig.subrange(0, i));
                assert(pre.last() == orig[i]);
                lemma_sum_unfilled_le(pre);
                lemma_sum_unfilled_le(orig.subrange(0, i));
                assert forall|k: int| 0 <= k < self.orders@.len() implies #[trigger] orders_view(
                    self.orders@,
                )[k] == orig.subrange(i + 1, orig.len() as int)[k] by {
                    assert(orders_view(before)[k + 1] == orig.subrange(i, orig.len() as int)[k
                        + 1]);
                }
                assert(orders_view(self.orders@) =~= orig.subrange(i + 1, orig.len() as int));
            }
            if o.filled < o.quantity {
                proof {
                    let p = unfilled(orig.subrange(0, i));
                    assert(p.push(o@).drop_last() =~= p);
                    lemma_prefix_sum_le(orig, i + 1);
                }
                total = total + (o.quantity - o.filled);
                kept.push(o);
                proof {
                    assert(orders_view(kept@) =~= unfilled(orig.subrange(0, i)).push(o@));
                }
            }
            proof {
                i = i + 1;
            }
        }
        proof {
            assert(orig.subrange(0, i) =~= orig);
        }
        self.orders = kept;
        self.total_quantity = total;
    }
}

proof fn lemma_prefix_sum_le(s: Seq<OrderView>, n: int)
    requires
        0 <= n <= s.len(),
        forall|k: int| 0 <= k < s.len() ==> (#[trigger] s[k]).filled <= s[k].quantity,
    ensures
        sum_remaining(unfilled(s.subrange(0, n))) <= sum_remaining(s),
    decreases s.len(),
{
    lemma_sum_unfilled_le(s.subrange(0, n));
    lemma_prefix_le(s, n);
}

proof fn lemma_prefix_le(s: Seq<OrderView>, n: int)
    requires
        0 <= n <= s.len(),
        forall|k: int| 0 <= k < s.len() ==> (#[trigger] s[k]).filled <= s[k].quantity,
    ensures
        sum_remaining(s.subrange(0, n)) <= sum_remaining(s),
    decreases s.len(),
{
    if n < s.len() {
        assert(s.drop_last().len() == s.len() - 1);
        lemma_prefix_le(s.drop_last(), n);
        assert(s.drop_last().subrange(0, n) =~= s.subrange(0, n));
    } else {
        assert(s.subrange(0, n) =~= s);
    }
}

// ----------------------------------------------------------------------------
// Sides, matching and resting, as mathematics
// ----------------------------------------------------------------------------

pub open spec fn levels_view(v: Seq<PriceLevel>) -> Seq<LevelView> {
    v.map_values(|l: PriceLevel| l@)
}

pub open spec fn opposite(side: OrderSide) -> OrderSide {
    match side {
        OrderSide::Buy => OrderSide::Sell,
        OrderSide::Sell => OrderSide::Buy,
    }
}

/// Price `a` ranks ahead of price `b` among resting orders of `side`:
/// higher bids and lower asks come first.
pub open spec fn better(side: OrderSide, a: u64, b: u64) -> bool {
    match side {
        OrderSide::Buy => a > b,
        OrderSide::Sell => a < b,
    }
}

/// An incoming order of `side` limited at `limit` can trade with a resting
/// level of the other side at `level_price`.
pub open spec fn crosses(side: OrderSide, limit: u64, level_price: u64) -> bool {
    match side {
        OrderSide::Buy => level_price <= limit,
        OrderSide::Sell => level_price >= limit,
    }
}

/// A resting order: well formed, not yet filled, on `side` at `price`.
pub open spec fn resting_wf(o: OrderView, side: OrderSide, price: u64) -> bool {
    &&& o.wf()
    &&& o.filled < o.quantity
    &&& o.side == side
    &&& o.price == price
}

pub open spec fn level_wf(l: LevelView, side: OrderSide) -> bool {
    &&& l.price > 0
    &&& l.orders.len() > 0
    &&& l.total_quantity == sum_remaining(l.orders)
    &&& forall|k: int| 0 <= k < l.orders.len() ==> resting_wf(#[trigger] l.orders[k], side, l.price)
}

/// The levels of one side: best price first, distinct prices, each level well formed.
pub open spec fn side_wf(levels: Seq<LevelView>, side: OrderSide) -> bool {
    &&& forall|i: int, j: int|
        0 <= i < j < levels.len() ==> better(side, #[trigger] levels[i].price, #[trigger] levels[j].price)
    &&& forall|i: int| 0 <= i < levels.len() ==> level_wf(#[trigger] levels[i], side)
}

/// The next fill can happen: the incoming order has quantity left and the
/// best opposite level has a resting order at a crossing price.
pub open spec fn can_match(levels: Seq<LevelView>, o: OrderView) -> bool {
    &&& o.filled < o.quantity
    &&& levels.len() > 0
    &&& levels[0].orders.len() > 0
    &&& crosses(o.side, o.price, levels[0].price)
    &&& levels[0].orders[0].filled < levels[0].orders[0].quantity
    &&& !self_match_blocked(levels, o)
}

/// The next fill would be with an order of the incoming order's own trader,
/// which the incoming order refuses.
pub open spec fn self_match_blocked(levels: Seq<LevelView>, o: OrderView) -> bool {
    &&& o.reject_self_match
    &&& levels.len() > 0
    &&& levels[0].orders.len() > 0
    &&& crosses(o.side, o.price, levels[0].price)
    &&& levels[0].orders[0].trader == o.trader
}

/// Quantity of the next fill: the smaller of the two remaining quantities.
pub open spec fn fill_quantity(levels: Seq<LevelView>, o: OrderView) -> u64 {
    let r = levels[0].orders[0];
    if o.remaining() < r.remaining() {
        o.remaining() as u64
    } else {
        r.remaining() as u64
    }
}

/// The trade between incoming order `o` and resting order `r`.
pub open spec fn fill_trade(
    symbol: Seq<char>,
    id: u64,
    o: OrderView,
    r: OrderView,
    price: u64,
    q: u64,
) -> TradeView {
    match o.side {
        OrderSide::Buy => make_trade(id, o.timestamp, symbol, price, q, o.trader, r.trader, o.id, r.id),
        OrderSide::Sell => make_trade(id, o.timestamp, symbol, price, q, r.trader, o.trader, r.id, o.id),
    }
}

/// The opposite side after its head order is filled by `q`: the order leaves
/// once filled, and the level once empty.
pub open spec fn after_fill(levels: Seq<LevelView>, q: u64) -> Seq<LevelView> {
    let lvl2 = level_after_fill(levels[0], q);
    if lvl2.orders.len() == 0 {
        levels.drop_first()
    } else {
        levels.update(0, lvl2)
    }
}

/// Walks the opposite side, filling against the head of the best level at the
/// resting price, until nothing more can match. Returns the side, the incoming
/// order, the trade ledger and the last traded price.
pub open spec fn match_all(
    symbol: Seq<char>,
    levels: Seq<LevelView>,
    o: OrderView,
    ledger: Seq<TradeView>,
    last: Option<u64>,
) -> (Seq<LevelView>, OrderView, Seq<TradeView>, Option<u64>)
    decreases o.quantity - o.filled,
{
    if can_match(levels, o) {
        let q = fill_quantity(levels, o);
        let t = fill_trade(symbol, ledger.len() as u64, o, levels[0].orders[0], levels[0].price, q);
        match_all(
            symbol,
            after_fill(levels, q),
            o.with_filled((o.filled + q) as u64),
            ledger.push(t),
            Some(levels[0].price),
        )
    } else {
        (levels, o, ledger, last)
    }
}

pub open spec fn new_level(o: OrderView) -> LevelView {
    LevelView { price: o.price, orders: seq![o], total_quantity: o.remaining() as u64 }
}

/// Places `o` on its own side: at the back of the level at its price, or in a
/// new level at its rank.
pub open spec fn rest_order(levels: Seq<LevelView>, o: OrderView) -> Seq<LevelView>
    decreases levels.len(),
{
    if levels.len() == 0 {
        seq![new_level(o)]
    } else if levels[0].price == o.price {
        levels.update(
            0,
            LevelView {
                orders: levels[0].orders.push(o),
                total_quantity: (levels[0].total_quantity + o.remaining()) as u64,
                ..levels[0]
            },
        )
    } else if better(o.side, o.price, levels[0].price) {
        seq![new_level(o)] + levels
    } else {
        seq![levels[0]] + rest_order(levels.drop_first(), o)
    }
}

/// The abstract content of an order book.
pub struct BookView {
    pub symbol: Seq<char>,
    pub bids: Seq<LevelView>,
    pub asks: Seq<LevelView>,
    pub last_price: Option<u64>,
    pub trades: Seq<TradeView>,
}

impl BookView {
    pub open spec fn side(self, s: OrderSide) -> Seq<LevelView> {
        match s {
            OrderSide::Buy => self.bids,
            OrderSide::Sell => self.asks,
        }
    }

    /// Both sides are non-empty and the best bid is not below the best ask.
    pub open spec fn crossed(self) -> bool {
        &&& self.bids.len() > 0
        &&& self.asks.len() > 0
        &&& self.bids[0].price >= self.asks[0].price
    }

    pub open spec fn wf(self) -> bool {
        &&& side_wf(self.bids, OrderSide::Buy)
        &&& side_wf(self.asks, OrderSide::Sell)
        &&& !self.crossed()
        &&& forall|k: int| 0 <= k < self.trades.len() ==> (#[trigger] self.trades[k]).wf()
    }

    /// The level at the order's price, if any, has room for the order's quantity.
    pub open spec fn accepts(self, o: OrderView) -> bool {
        forall|i: int|
            0 <= i < self.side(o.side).len() && (#[trigger] self.side(o.side)[i]).price == o.price
                ==> self.side(o.side)[i].total_quantity + o.quantity <= u64::MAX
    }

    /// A new order that the book takes: positive price and quantity, unfilled,
    /// with a matching hash, and room at its price.
    pub open spec fn admits(self, o: OrderView) -> bool {
        &&& o.wf()
        &&& o.filled == 0
        &&& o.price > 0
        &&& o.quantity > 0
        &&& self.accepts(o)
    }

    /// The book after `o` is matched and its remainder rests, with the
    /// trades that were made.
    pub open spec fn add_order(self, o: OrderView) -> (BookView, Seq<TradeView>) {
        let (opp2, o2, ledger2, last2) = match_all(
            self.symbol,
            self.side(opposite(o.side)),
            o,
            self.trades,
            self.last_price,
        );
        let own = self.side(o.side);
        let own2 = if o2.filled < o2.quantity && !self_match_blocked(opp2, o2) {
            rest_order(own, o2)
        } else {
            own
        };
        let book = match o.side {
            OrderSide::Buy => BookView {
                bids: own2,
                asks: opp2,
                last_price: last2,
                trades: ledger2,
                ..self
            },
            OrderSide::Sell => BookView {
                bids: opp2,
                asks: own2,
                last_price: last2,
                trades: ledger2,
                ..self
            },
        };
        (book, ledger2.subrange(self.trades.len() as int, ledger2.len() as int))
    }
}

// ----------------------------------------------------------------------------
// Lemmas
// ----------------------------------------------------------------------------

/// The level after its head order is filled by `q`.
pub open spec fn level_after_fill(lvl: LevelView, q: u64) -> LevelView {
    let r = lvl.orders[0];
    let r2 = r.with_filled((r.filled + q) as u64);
    let orders2 = if r2.filled < r2.quantity {
        lvl.orders.update(0, r2)
    } else {
        lvl.orders.drop_first()
    };
    LevelView { orders: orders2, total_quantity: (lvl.total_quantity - q) as u64, ..lvl }
}

pub proof fn lemma_fill_level(lvl: LevelView, side: OrderSide, q: u64)
    requires
        level_wf(lvl, side),
        0 < q <= lvl.orders[0].remaining(),
    ensures
        level_after_fill(lvl, q).price == lvl.price,
        lvl.total_quantity >= q,
        level_after_fill(lvl, q).total_quantity == sum_remaining(level_after_fill(lvl, q).orders),
        level_after_fill(lvl, q).orders.len() > 0 ==> level_wf(level_after_fill(lvl, q), side),
{
    let r = lvl.orders[0];
    let r2 = r.with_filled((r.filled + q) as u64);
    let l2 = level_after_fill(lvl, q);
    assert(resting_wf(r, side, lvl.price));
    lemma_sum_first(lvl.orders);
    let tail = lvl.orders.drop_first();
    assert forall|k: int| 0 <= k < tail.len() implies (#[trigger] tail[k]).filled
        <= tail[k].quantity by {
        assert(resting_wf(lvl.orders[k + 1], side, lvl.price));
    }
    lemma_sum_nonneg(tail);
    if r2.filled < r2.quantity {
        let orders2 = lvl.orders.update(0, r2);
        lemma_sum_first(orders2);
        assert(orders2.drop_first() =~= tail);
        assert(l2.total_quantity == sum_remaining(l2.orders));
        assert forall|k: int| 0 <= k < orders2.len() implies resting_wf(
            #[trigger] orders2[k],
            side,
            lvl.price,
        ) by {
            if k > 0 {
                assert(resting_wf(lvl.orders[k], side, lvl.price));
            }
        }
    } else {
        assert(l2.total_quantity == sum_remaining(l2.orders));
        assert forall|k: int| 0 <= k < tail.len() implies resting_wf(
            #[trigger] tail[k],
            side,
            lvl.price,
        ) by {
            assert(resting_wf(lvl.orders[k + 1], side, lvl.price));
        }
    }
}

pub proof fn lemma_fill(levels: Seq<LevelView>, o: OrderView)
    requires
        side_wf(levels, opposite(o.side)),
        can_match(levels, o),
        o.wf(),
    ensures
        ({
            let q = fill_quantity(levels, o);
            let l2 = after_fill(levels, q);
            &&& 0 < q <= o.remaining()
            &&& side_wf(l2, opposite(o.side))
            &&& l2.len() > 0 ==> !better(opposite(o.side), l2[0].price, levels[0].price)
            &&& o.with_filled((o.filled + q) as u64).wf()
        }),
{
    let side = opposite(o.side);
    let q = fill_quantity(levels, o);
    let lvl = levels[0];
    assert(level_wf(lvl, side));
    lemma_fill_level(lvl, side, q);
    let lvl2 = level_after_fill(lvl, q);
    let l2 = after_fill(levels, q);
    if lvl2.orders.len() > 0 {
        assert(l2 == levels.update(0, lvl2));
        assert forall|i: int| 0 <= i < l2.len() implies level_wf(#[trigger] l2[i], side) by {
            if i > 0 {
                assert(level_wf(levels[i], side));
            }
        }
        assert forall|i: int, j: int| 0 <= i < j < l2.len() implies better(
            side,
            #[trigger] l2[i].price,
            #[trigger] l2[j].price,
        ) by {
            assert(better(side, levels[i].price, levels[j].price));
        }
    } else {
        assert(l2 == levels.drop_first());
        assert forall|i: int| 0 <= i < l2.len() implies level_wf(#[trigger] l2[i], side) by {
            assert(level_wf(levels[i + 1], side));
        }
        assert forall|i: int, j: int| 0 <= i < j < l2.len() implies better(
            side,
            #[trigger] l2[i].price,
            #[trigger] l2[j].price,
        ) by {
            assert(better(side, levels[i + 1].price, levels[j + 1].price));
        }
        if l2.len() > 0 {
            assert(better(side, levels[0].price, levels[1].price));
        }
    }
}

/// What matching keeps: the opposite side stays well formed and its best
/// price does not improve, the incoming order only gains fills, the ledger
/// only grows, and nothing more can match at the end.
#[verifier::spinoff_prover]
#[verifier::rlimit(60)]
pub proof fn lemma_match_all(
    symbol: Seq<char>,
    levels: Seq<LevelView>,
    o: OrderView,
    ledger: Seq<TradeView>,
    last: Option<u64>,
)
    requires
        side_wf(levels, opposite(o.side)),
        o.wf(),
        forall|k: int| 0 <= k < ledger.len() ==> (#[trigger] ledger[k]).wf(),
    ensures
        ({
            let (l2, o2, ledger2, last2) = match_all(symbol, levels, o, ledger, last);
            &&& side_wf(l2, opposite(o.side))
            &&& l2.len() > 0 ==> levels.len() > 0 && !better(
                opposite(o.side),
                l2[0].price,
                levels[0].price,
            )
            &&& o2 == o.with_filled(o2.filled)
            &&& o2.wf()
            &&& o.filled <= o2.filled
            &&& ledger2.len() >= ledger.len()
            &&& ledger2.subrange(0, ledger.len() as int) == ledger
            &&& forall|k: int| 0 <= k < ledger2.len() ==> (#[trigger] ledger2[k]).wf()
            &&& !can_match(l2, o2)
        }),
    decreases o.quantity - o.filled,
{
    if can_match(levels, o) {
        let q = fill_quantity(levels, o);
        let t = fill_trade(symbol, ledger.len() as u64, o, levels[0].orders[0], levels[0].price, q);
        let o1 = o.with_filled((o.filled + q) as u64);
        let l1 = after_fill(levels, q);
        let ledger1 = ledger.push(t);
        lemma_fill(levels, o);
        assert(t.wf());
        assert forall|k: int| 0 <= k < ledger1.len() implies (#[trigger] ledger1[k]).wf() by {
            if k < ledger.len() {
                assert(ledger1[k] == ledger[k]);
            }
        }
        lemma_match_all(symbol, l1, o1, ledger1, Some(levels[0].price));
        let (l2, o2, ledger2, last2) = match_all(symbol, l1, o1, ledger1, Some(levels[0].price));
        assert(ledger2.subrange(0, ledger1.len() as int).subrange(0, ledger.len() as int)
            =~= ledger2.subrange(0, ledger.len() as int));
        assert(ledger1.subrange(0, ledger.len() as int) =~= ledger);
        if l2.len() > 0 {
            assert(l1.len() > 0);
            assert(!better(opposite(o.side), l1[0].price, levels[0].price));
        }
    } else {
        assert(ledger.subrange(0, ledger.len() as int) =~= ledger);
    }
}

/// Resting an order keeps its side well formed, and the side's best price is
/// the better of the old best price and the order's price.
pub proof fn lemma_rest_order(levels: Seq<LevelView>, o: OrderView)
    requires
        side_wf(levels, o.side),
        resting_wf(o, o.side, o.price),
        o.price > 0,
        forall|i: int|
            0 <= i < levels.len() && (#[trigger] levels[i]).price == o.price
                ==> levels[i].total_quantity + o.remaining() <= u64::MAX,
    ensures
        side_wf(rest_order(levels, o), o.side),
        rest_order(levels, o).len() > 0,
        rest_order(levels, o)[0].price == (if levels.len() == 0 || better(
            o.side,
            o.price,
            levels[0].price,
        ) {
            o.price
        } else {
            levels[0].price
        }),
        forall|i: int|
            0 <= i < rest_order(levels, o).len() ==> ((#[trigger] rest_order(levels, o)[i]).price
                == o.price || exists|j: int|
                0 <= j < levels.len() && levels[j].price == rest_order(levels, o)[i].price),
    decreases levels.len(),
{
    let side = o.side;
    let r = rest_order(levels, o);
    let nl = new_level(o);
    assert(level_wf(nl, side)) by {
        assert(seq![o].drop_last() =~= Seq::<OrderView>::empty());
        assert(sum_remaining(seq![o].drop_last()) == 0);
    }
    if levels.len() == 0 {
    } else if levels[0].price == o.price {
        let lvl = levels[0];
        assert(level_wf(lvl, side));
        let orders2 = lvl.orders.push(o);
        assert(orders2.drop_last() =~= lvl.orders);
        assert forall|i: int| 0 <= i < r.len() implies level_wf(#[trigger] r[i], side) by {
            if i > 0 {
                assert(level_wf(levels[i], side));
            } else {
                assert forall|k: int| 0 <= k < orders2.len() implies resting_wf(
                    #[trigger] orders2[k],
                    side,
                    lvl.price,
                ) by {
                    if k < lvl.orders.len() {
                        assert(resting_wf(lvl.orders[k], side, lvl.price));
                    }
                }
            }
        }
        assert forall|i: int, j: int| 0 <= i < j < r.len() implies better(
            side,
            #[trigger] r[i].price,
            #[trigger] r[j].price,
        ) by {
            assert(better(side, levels[i].price, levels[j].price));
        }
        assert forall|i: int| 0 <= i < r.len() implies ((#[trigger] r[i]).price == o.price
            || exists|j: int| 0 <= j < levels.len() && levels[j].price == r[i].price) by {
            assert(levels[i].price == r[i].price);
        }
    } else if better(side, o.price, levels[0].price) {
        assert forall|i: int| 0 <= i < r.len() implies level_wf(#[trigger] r[i], side) by {
            if i > 0 {
                assert(r[i] == levels[i - 1]);
                assert(level_wf(levels[i - 1], side));
            }
        }
        assert forall|i: int, j: int| 0 <= i < j < r.len() implies better(
            side,
            #[trigger] r[i].price,
            #[trigger] r[j].price,
        ) by {
            if i > 0 {
                assert(better(side, levels[i - 1].price, levels[j - 1].price));
            } else if j > 1 {
                assert(better(side, levels[0].price, levels[j - 1].price));
            }
        }
        assert forall|i: int| 0 <= i < r.len() implies ((#[trigger] r[i]).price == o.price
            || exists|j: int| 0 <= j < levels.len() && levels[j].price == r[i].price) by {
            if i > 0 {
                assert(levels[i - 1].price == r[i].price);
            }
        }
    } else {
        let tail = levels.drop_first();
        assert(side_wf(tail, side)) by {
            assert forall|i: int| 0 <= i < tail.len() implies level_wf(#[trigger] tail[i], side) by {
                assert(level_wf(levels[i + 1], side));
            }
            assert forall|i: int, j: int| 0 <= i < j < tail.len() implies better(
                side,
                #[trigger] tail[i].price,
                #[trigger] tail[j].price,
            ) by {
                assert(better(side, levels[i + 1].price, levels[j + 1].price));
            }
        }
        assert forall|i: int|
            0 <= i < tail.len() && (#[trigger] tail[i]).price == o.price implies tail[i].total_quantity
            + o.remaining() <= u64::MAX by {
            assert(levels[i + 1] == tail[i]);
        }
        lemma_rest_order(tail, o);
        let rt = rest_order(tail, o);
        assert(r == seq![levels[0]] + rt);
        assert(level_wf(levels[0], side));
        assert forall|i: int| 0 <= i < r.len() implies level_wf(#[trigger] r[i], side) by {
            if i > 0 {
                assert(r[i] == rt[i - 1]);
            }
        }
        assert forall|i: int| 0 <= i < r.len() implies ((#[trigger] r[i]).price == o.price
            || exists|j: int| 0 <= j < levels.len() && levels[j].price == r[i].price) by {
            if i > 0 {
                assert(r[i] == rt[i - 1]);
                if rt[i - 1].price != o.price {
                    let j = choose|j: int| 0 <= j < tail.len() && tail[j].price == rt[i - 1].price;
                    assert(levels[j + 1].price == r[i].price);
                }
            } else {
                assert(levels[0].price == r[i].price);
            }
        }
        assert forall|i: int, j: int| 0 <= i < j < r.len() implies better(
            side,
            #[trigger] r[i].price,
            #[trigger] r[j].price,
        ) by {
            if i > 0 {
                assert(r[i] == rt[i - 1]);
                assert(r[j] == rt[j - 1]);
            } else {
                assert(r[j] == rt[j - 1]);
                if rt[j - 1].price == o.price {
                } else {
                    let k = choose|k: int| 0 <= k < tail.len() && tail[k].price == rt[j - 1].price;
                    assert(better(side, levels[0].price, levels[k + 1].price));
                }
            }
        }
    }
}

proof fn lemma_rest_split(levels: Seq<LevelView>, o: OrderView, i: int)
    requires
        0 <= i <= levels.len(),
        forall|j: int|
            0 <= j < i ==> (#[trigger] levels[j]).price != o.price && !better(
                o.side,
                o.price,
                levels[j].price,
            ),
    ensures
        rest_order(levels, o) == levels.subrange(0, i) + rest_order(
            levels.subrange(i, levels.len() as int),
            o,
        ),
    decreases i,
{
    if i == 0 {
        assert(levels.subrange(0, 0) + rest_order(levels.subrange(0, levels.len() as int), o)
            =~= rest_order(levels, o)) by {
            assert(levels.subrange(0, levels.len() as int) =~= levels);
        }
    } else {
        let tail = levels.drop_first();
        assert(levels[0].price != o.price);
        lemma_rest_split(tail, o, i - 1);
        assert(tail.subrange(i - 1, tail.len() as int) =~= levels.subrange(i, levels.len() as int));
        assert(seq![levels[0]] + tail.subrange(0, i - 1) =~= levels.subrange(0, i));
        assert(seq![levels[0]] + (tail.subrange(0, i - 1) + rest_order(
            levels.subrange(i, levels.len() as int),
            o,
        )) =~= levels.subrange(0, i) + rest_order(levels.subrange(i, levels.len() as int), o));
    }
}

/// Adding an order keeps the book well formed; in particular it never
/// leaves the book crossed.
#[verifier::spinoff_prover]
#[verifier::rlimit(60)]
pub proof fn lemma_add_order_wf(book: BookView, o: OrderView)
    requires
        book.wf(),
        book.admits(o),
    ensures
        book.add_order(o).0.wf(),
{
    let opp = book.side(opposite(o.side));
    let own = book.side(o.side);
    lemma_match_all(book.symbol, opp, o, book.trades, book.last_price);
    let (opp2, o2, ledger2, last2) = match_all(
        book.symbol,
        opp,
        o,
        book.trades,
        book.last_price,
    );
    if opp2.len() > 0 {
        assert(level_wf(opp2[0], opposite(o.side)));
        assert(resting_wf(opp2[0].orders[0], opposite(o.side), opp2[0].price));
    }
    if o2.filled < o2.quantity && !self_match_blocked(opp2, o2) {
        assert forall|i: int|
            0 <= i < own.len() && (#[trigger] own[i]).price == o2.price implies own[i].total_quantity
            + o2.remaining() <= u64::MAX by {
            assert(book.side(o.side)[i] == own[i]);
        }
        lemma_rest_order(own, o2);
    }
}

// ----------------------------------------------------------------------------
// The order book
// ----------------------------------------------------------------------------

/// An order book for one symbol: bid levels best (highest) first, ask levels
/// best (lowest) first, the last traded price and the ledger of trades.
pub struct OrderBook {
    pub symbol: String,
    pub bids: Vec<PriceLevel>,
    pub asks: Vec<PriceLevel>,
    pub last_price: Option<u64>,
    pub trades: Vec<Trade>,
}

impl View for OrderBook {
    type V = BookView;

    open spec fn view(&self) -> BookView {
        BookView {
            symbol: self.symbol@,
            bids: levels_view(self.bids@),
            asks: levels_view(self.asks@),
            last_price: self.last_price,
            trades: trades_view(self.trades@),
        }
    }
}

fn ranks_ahead(side: OrderSide, a: u64, b: u64) -> (r: bool)
    ensures
        r == better(side, a, b),
{
    match side {
        OrderSide::Buy => a > b,
        OrderSide::Sell => a < b,
    }
}

fn next_fill_possible(levels: &Vec<PriceLevel>, order: &Order) -> (r: bool)
    requires
        side_wf(levels_view(levels@), opposite(order@.side)),
    ensures
        r == can_match(levels_view(levels@), order@),
{
    if order.filled >= order.quantity || levels.len() == 0 {
        return false;
    }
    proof {
        assert(levels_view(levels@)[0] == levels@[0]@);
        assert(level_wf(levels_view(levels@)[0], opposite(order@.side)));
        assert(resting_wf(levels_view(levels@)[0].orders[0], opposite(order@.side), levels@[0].price));
    }
    let best = levels[0].price;
    let crossing = match order.side {
        OrderSide::Buy => best <= order.price,
        OrderSide::Sell => best >= order.price,
    };
    crossing && !self_blocked(levels, order)
}

fn self_blocked(levels: &Vec<PriceLevel>, order: &Order) -> (r: bool)
    ensures
        r == self_match_blocked(levels_view(levels@), order@),
{
    if !order.reject_self_match || levels.len() == 0 || levels[0].orders.len() == 0 {
        return false;
    }
    proof {
        assert(levels_view(levels@)[0] == levels@[0]@);
        assert(levels_view(levels@)[0].orders[0] == levels@[0].orders@[0]@);
    }
    let best = levels[0].price;
    let crossing = match order.side {
        OrderSide::Buy => best <= order.price,
        OrderSide::Sell => best >= order.price,
    };
    crossing && levels[0].orders[0].trader == order.trader
}

/// Fills the incoming order against the head of the best opposite level.
#[verifier::spinoff_prover]
#[verifier::rlimit(60)]
fn fill_best(
    levels: &mut Vec<PriceLevel>,
    order: &mut Order,
    symbol: &String,
    trades: &mut Vec<Trade>,
    new_trades: &mut Vec<Trade>,
    last_price: &mut Option<u64>,
)
    requires
        side_wf(levels_view(old(levels)@), opposite(old(order)@.side)),
        can_match(levels_view(old(levels)@), old(order)@),
        old(order)@.wf(),
    ensures
        ({
            let lv = levels_view(old(levels)@);
            let o = old(order)@;
            let q = fill_quantity(lv, o);
            let t = fill_trade(
                symbol@,
                old(trades)@.len() as u64,
                o,
                lv[0].orders[0],
                lv[0].price,
                q,
            );
            &&& levels_view(final(levels)@) == after_fill(lv, q)
            &&& final(order)@ == o.with_filled((o.filled + q) as u64)
            &&& trades_view(final(trades)@) == trades_view(old(trades)@).push(t)
            &&& trades_view(final(new_trades)@) == trades_view(old(new_trades)@).push(t)
            &&& *final(last_price) == Some(lv[0].price)
        }),
{
    let ghost lv = levels_view(levels@);
    let ghost side = opposite(order@.side);
    let ghost o = order@;
    proof {
        assert(lv[0] == levels@[0]@);
        assert(level_wf(lv[0], side));
        assert(resting_wf(lv[0].orders[0], side, lv[0].price));
    }
    let ghost levels_before = levels@;
    let mut level = levels.remove(0);
    let ghost orders_before = level.orders@;
    let mut resting = level.orders.remove(0);
    proof {
        assert(resting@ == lv[0].orders[0]);
    }
    let in_rem = order.quantity - order.filled;
    let rest_rem = resting.quantity - resting.filled;
    let q = if in_rem < rest_rem {
        in_rem
    } else {
        rest_rem
    };
    proof {
        lemma_fill_level(lv[0], side, q);
    }
    let id = trades.len() as u64;
    let trade = match order.side {
        OrderSide::Buy => Trade::new(
            id,
            order.timestamp,
            symbol.clone(),
            level.price,
            q,
            order.trader.clone(),
            resting.trader.clone(),
            order.id,
            resting.id,
        ),
        OrderSide::Sell => Trade::new(
            id,
            order.timestamp,
            symbol.clone(),
            level.price,
            q,
            resting.trader.clone(),
            order.trader.clone(),
            resting.id,
            order.id,
        ),
    };
    order.filled = order.filled + q;
    resting.filled = resting.filled + q;
    *last_price = Some(level.price);
    let ghost trades_before = trades@;
    let ghost new_before = new_trades@;
    new_trades.push(trade.copy());
    trades.push(trade);
    proof {
        assert(trades_view(trades@) =~= trades_view(trades_before).push(trade@));
        assert(trades_view(new_trades@) =~= trades_view(new_before).push(trade@));
    }
    level.total_quantity = level.total_quantity - q;
    let ghost orders_mid = level.orders@;
    if resting.filled < resting.quantity {
        level.orders.insert(0, resting);
        proof {
            assert(orders_view(level.orders@) =~= lv[0].orders.update(0, resting@));
        }
    } else {
        proof {
            assert(orders_view(level.orders@) =~= lv[0].orders.drop_first());
        }
    }
    proof {
        assert(level@ == level_after_fill(lv[0], q));
    }
    if level.orders.len() > 0 {
        levels.insert(0, level);
        proof {
            assert(levels_view(levels@) =~= lv.update(0, level_after_fill(lv[0], q)));
        }
    } else {
        proof {
            assert(levels_view(levels@) =~= lv.drop_first());
        }
    }
}

/// Matches the incoming order against the opposite side for as long as it can.
#[verifier::spinoff_prover]
#[verifier::rlimit(60)]
fn match_incoming(
    levels: &mut Vec<PriceLevel>,
    order: &mut Order,
    symbol: &String,
    trades: &mut Vec<Trade>,
    new_trades: &mut Vec<Trade>,
    last_price: &mut Option<u64>,
)
    requires
        side_wf(levels_view(old(levels)@), opposite(old(order)@.side)),
        old(order)@.wf(),
        old(new_trades)@.len() == 0,
        forall|k: int|
            0 <= k < trades_view(old(trades)@).len() ==> (#[trigger] trades_view(
                old(trades)@,
            )[k]).wf(),
    ensures
        (levels_view(final(levels)@), final(order)@, trades_view(final(trades)@), *final(last_price))
            == match_all(
            symbol@,
            levels_view(old(levels)@),
            old(order)@,
            trades_view(old(trades)@),
            *old(last_price),
        ),
        trades_view(final(new_trades)@) == trades_view(final(trades)@).subrange(
            old(trades)@.len() as int,
            final(trades)@.len() as int,
        ),
{
    let ghost start = match_all(
        symbol@,
        levels_view(levels@),
        order@,
        trades_view(trades@),
        *last_price,
    );
    let ghost n0 = trades@.len();
    proof {
        lemma_match_all(symbol@, levels_view(levels@), order@, trades_view(trades@), *last_price);
        assert(trades_view(new_trades@) =~= trades_view(trades@).subrange(n0 as int, n0 as int));
    }
    while next_fill_possible(levels, order)
        invariant
            side_wf(levels_view(levels@), opposite(order@.side)),
            order@.wf(),
            order@.side == old(order)@.side,
            match_all(symbol@, levels_view(levels@), order@, trades_view(trades@), *last_price)
                == start,
            trades@.len() >= n0,
            trades_view(new_trades@) == trades_view(trades@).subrange(
                n0 as int,
                trades@.len() as int,
            ),
        decreases order.quantity - order.filled,
    {
        proof {
            lemma_fill(levels_view(levels@), order@);
        }
        let ghost tv = trades_view(trades@);
        fill_best(levels, order, symbol, trades, new_trades, last_price);
        proof {
            assert(trades_view(trades@).subrange(n0 as int, trades@.len() as int) =~= tv.subrange(
                n0 as int,
                tv.len() as int,
            ).push(trades_view(trades@).last()));
        }
    }
}

/// Places a resting order on its side.
fn rest_incoming(levels: &mut Vec<PriceLevel>, order: Order)
    requires
        side_wf(levels_view(old(levels)@), order@.side),
        resting_wf(order@, order@.side, order@.price),
        forall|i: int|
            0 <= i < levels_view(old(levels)@).len() && (#[trigger] levels_view(
                old(levels)@,
            )[i]).price == order@.price ==> levels_view(old(levels)@)[i].total_quantity
                + order@.remaining() <= u64::MAX,
    ensures
        levels_view(final(levels)@) == rest_order(levels_view(old(levels)@), order@),
{
    let ghost lv = levels_view(levels@);
    let mut i: usize = 0;
    while i < levels.len() && levels[i].price != order.price && !ranks_ahead(
        order.side,
        order.price,
        levels[i].price,
    )
        invariant
            i <= levels@.len(),
            levels_view(levels@) == lv,
            forall|j: int|
                0 <= j < i ==> (#[trigger] lv[j]).price != order@.price && !better(
                    order@.side,
                    order@.price,
                    lv[j].price,
                ),
        decreases levels@.len() - i,
    {
        proof {
            assert(lv[i as int] == levels@[i as int]@);
        }
        i = i + 1;
    }
    proof {
        lemma_rest_split(lv, order@, i as int);
    }
    let ghost tail = lv.subrange(i as int, lv.len() as int);
    if i < levels.len() && levels[i].price == order.price {
        proof {
            assert(lv[i as int] == levels@[i as int]@);
            assert(tail[0] == lv[i as int]);
        }
        let mut level = levels.remove(i);
        level.add_order(order);
        levels.insert(i, level);
        proof {
            assert(levels_view(levels@) =~= lv.subrange(0, i as int) + rest_order(tail, order@));
        }
    } else {
        proof {
            if i < lv.len() {
                assert(lv[i as int] == levels@[i as int]@);
                assert(tail[0] == lv[i as int]);
            }
            assert(seq![order@].drop_last() =~= Seq::<OrderView>::empty());
        }
        let mut level = PriceLevel::new(order.price);
        level.add_order(order);
        proof {
            assert(level@.orders =~= seq![order@]);
        }
        levels.insert(i, level);
        proof {
            assert(levels_view(levels@) =~= lv.subrange(0, i as int) + rest_order(tail, order@));
        }
    }
}

impl OrderBook {
    pub fn new(symbol: String) -> (r: OrderBook)
        ensures
            r@.symbol == symbol@,
            r@.bids.len() == 0,
            r@.asks.len() == 0,
            r@.last_price is None,
            r@.trades.len() == 0,
            r@.wf(),
    {
        let r = OrderBook {
            symbol,
            bids: Vec::new(),
            asks: Vec::new(),
            last_price: None,
            trades: Vec::new(),
        };
        proof {
            assert(levels_view(r.bids@) =~= Seq::<LevelView>::empty());
            assert(levels_view(r.asks@) =~= Seq::<LevelView>::empty());
            assert(trades_view(r.trades@) =~= Seq::<TradeView>::empty());
        }
        r
    }

    /// Matches `order` against the opposite side by price-time priority, each
    /// trade at the resting order's price; any remainder rests on the order's
    /// own side. Returns the trades made, in the order they were made.
    pub fn add_order(&mut self, order: Order) -> (r: Vec<Trade>)
        requires
            old(self)@.wf(),
            old(self)@.admits(order@),
        ensures
            final(self)@ == old(self)@.add_order(order@).0,
            trades_view(r@) == old(self)@.add_order(order@).1,
            final(self)@.wf(),
    {
        let ghost b0 = self@;
        let ghost o0 = order@;
        proof {
            lemma_add_order_wf(b0, o0);
        }
        let mut order = order;
        let mut new_trades: Vec<Trade> = Vec::new();
        match order.side {
            OrderSide::Buy => {
                match_incoming(
                    &mut self.asks,
                    &mut order,
                    &self.symbol,
                    &mut self.trades,
                    &mut new_trades,
                    &mut self.last_price,
                );
                proof {
                    lemma_match_all(b0.symbol, b0.asks, o0, b0.trades, b0.last_price);
                }
                if order.filled < order.quantity && !self_blocked(&self.asks, &order) {
                    rest_incoming(&mut self.bids, order);
                }
            },
            OrderSide::Sell => {
                match_incoming(
                    &mut self.bids,
                    &mut order,
                    &self.symbol,
                    &mut self.trades,
                    &mut new_trades,
                    &mut self.last_price,
                );
                proof {
                    lemma_match_all(b0.symbol, b0.bids, o0, b0.trades, b0.last_price);
                }
                if order.filled < order.quantity && !self_blocked(&self.bids, &order) {
                    rest_incoming(&mut self.asks, order);
                }
            },
        }
        new_trades
    }

    /// Whether the level at the order's price has room for its quantity.
    pub fn can_accept(&self, order: &Order) -> (r: bool)
        ensures
            r == self@.accepts(order@),
    {
        let levels = match order.side {
            OrderSide::Buy => &self.bids,
            OrderSide::Sell => &self.asks,
        };
        let ghost lv = self@.side(order@.side);
        proof {
            assert(lv == levels_view(levels@));
        }
        let mut i: usize = 0;
        while i < levels.len()
            invariant
                i <= levels@.len(),
                lv == levels_view(levels@),
                lv == self@.side(order@.side),
                forall|j: int|
                    0 <= j < i && (#[trigger] lv[j]).price == order@.price ==> lv[j].total_quantity
                        + order@.quantity <= u64::MAX,
            decreases levels@.len() - i,
        {
            proof {
                assert(lv[i as int] == levels@[i as int]@);
            }
            if levels[i].price == order.price && levels[i].total_quantity > u64::MAX - order.quantity {
                proof {
                    assert(self@.side(order@.side)[i as int].price == order@.price);
                }
                return false;
            }
            i = i + 1;
        }
        true
    }

    /// The best (highest) bid: its price and aggregate quantity.
    pub fn get_best_bid(&self) -> (r: Option<(u64, u64)>)
        ensures
            r == best_of(self@.bids),
    {
        if self.bids.len() == 0 {
            None
        } else {
            proof {
                assert(self@.bids[0] == self.bids@[0]@);
            }
            Some((self.bids[0].price, self.bids[0].total_quantity))
        }
    }

    /// The best (lowest) ask: its price and aggregate quantity.
    pub fn get_best_ask(&self) -> (r: Option<(u64, u64)>)
        ensures
            r == best_of(self@.asks),
    {
        if self.asks.len() == 0 {
            None
        } else {
            proof {
                assert(self@.asks[0] == self.asks@[0]@);
            }
            Some((self.asks[0].price, self.asks[0].total_quantity))
        }
    }

    /// The average of the best bid and ask, rounded down; the last traded
    /// price when a side is empty.
    pub fn get_mid_price(&self) -> (r: Option<u64>)
        ensures
            r == self@.mid_price(),
    {
        match (self.get_best_bid(), self.get_best_ask()) {
            (Some((bid, _)), Some((ask, _))) => Some(bid / 2 + ask / 2 + (bid % 2 + ask % 2) / 2),
            _ => self.last_price,
        }
    }

    /// The best ask less the best bid, when both sides are non-empty.
    pub fn get_spread(&self) -> (r: Option<u64>)
        requires
            self@.wf(),
        ensures
            r == self@.spread(),
    {
        match (self.get_best_bid(), self.get_best_ask()) {
            (Some((bid, _)), Some((ask, _))) => Some(ask - bid),
            _ => None,
        }
    }

    /// The first `levels` bid levels, best first, as (price, aggregate quantity).
    pub fn get_bid_depth(&self, levels: usize) -> (r: Vec<(u64, u64)>)
        ensures
            r@ == depth_of(self@.bids, levels as nat),
    {
        depth(&self.bids, levels)
    }

    /// The first `levels` ask levels, best first, as (price, aggregate quantity).
    pub fn get_ask_depth(&self, levels: usize) -> (r: Vec<(u64, u64)>)
        ensures
            r@ == depth_of(self@.asks, levels as nat),
    {
        depth(&self.asks, levels)
    }
}

/// The best level of a side, as (price, aggregate quantity).
pub open spec fn best_of(levels: Seq<LevelView>) -> Option<(u64, u64)> {
    if levels.len() == 0 {
        None
    } else {
        Some((levels[0].price, levels[0].total_quantity))
    }
}

/// The first `n` levels of a side, as (price, aggregate quantity).
pub open spec fn depth_of(levels: Seq<LevelView>, n: nat) -> Seq<(u64, u64)> {
    let k = if n < levels.len() {
        n as int
    } else {
        levels.len() as int
    };
    Seq::new(k as nat, |i: int| (levels[i].price, levels[i].total_quantity))
}

impl BookView {
    pub open spec fn mid_price(self) -> Option<u64> {
        if self.bids.len() > 0 && self.asks.len() > 0 {
            Some(((self.bids[0].price + self.asks[0].price) / 2) as u64)
        } else {
            self.last_price
        }
    }

    pub open spec fn spread(self) -> Option<u64> {
        if self.bids.len() > 0 && self.asks.len() > 0 {
            Some((self.asks[0].price - self.bids[0].price) as u64)
        } else {
            None
        }
    }
}

fn depth(levels: &Vec<PriceLevel>, n: usize) -> (r: Vec<(u64, u64)>)
    ensures
        r@ == depth_of(levels_view(levels@), n as nat),
{
    let ghost lv = levels_view(levels@);
    let mut out: Vec<(u64, u64)> = Vec::new();
    let mut i: usize = 0;
    while i < n && i < levels.len()
        invariant
            i <= n,
            i <= levels@.len(),
            lv == levels_view(levels@),
            out@.len() == i,
            forall|j: int|
                0 <= j < i ==> #[trigger] out@[j] == (lv[j].price, lv[j].total_quantity),
        decreases levels@.len() - i,
    {
        proof {
            assert(lv[i as int] == levels@[i as int]@);
        }
        out.push((levels[i].price, levels[i].total_quantity));
        i = i + 1;
    }
    proof {
        assert(out@ =~= depth_of(lv, n as nat));
    }
    out
}

// ----------------------------------------------------------------------------
// Laws
// ----------------------------------------------------------------------------

/// Sum of the aggregate quantities of a side's levels.
pub open spec fn side_total(levels: Seq<LevelView>) -> int
    decreases levels.len(),
{
    if levels.len() == 0 {
        0
    } else {
        levels[0].total_quantity + side_total(levels.drop_first())
    }
}

proof fn lemma_traded_concat(a: Seq<TradeView>, b: Seq<TradeView>)
    ensures
        volume_of(a + b) == volume_of(a) + volume_of(b),
    decreases b.len(),
{
    if b.len() == 0 {
        assert(a + b =~= a);
    } else {
        lemma_traded_concat(a, b.drop_last());
        assert((a + b).drop_last() =~= a + b.drop_last());
    }
}

proof fn lemma_fill_total(levels: Seq<LevelView>, o: OrderView)
    requires
        side_wf(levels, opposite(o.side)),
        can_match(levels, o),
        o.wf(),
    ensures
        side_total(after_fill(levels, fill_quantity(levels, o))) == side_total(levels)
            - fill_quantity(levels, o),
{
    let q = fill_quantity(levels, o);
    let side = opposite(o.side);
    assert(level_wf(levels[0], side));
    assert(resting_wf(levels[0].orders[0], side, levels[0].price));
    lemma_fill_level(levels[0], side, q);
    let lvl2 = level_after_fill(levels[0], q);
    let l2 = after_fill(levels, q);
    if lvl2.orders.len() == 0 {
        assert(sum_remaining(lvl2.orders) == 0);
    } else {
        assert(l2.drop_first() =~= levels.drop_first());
    }
}

#[verifier::spinoff_prover]
#[verifier::rlimit(60)]
proof fn lemma_match_conserves(
    symbol: Seq<char>,
    levels: Seq<LevelView>,
    o: OrderView,
    ledger: Seq<TradeView>,
    last: Option<u64>,
)
    requires
        side_wf(levels, opposite(o.side)),
        o.wf(),
        forall|k: int| 0 <= k < ledger.len() ==> (#[trigger] ledger[k]).wf(),
    ensures
        ({
            let (l2, o2, ledger2, last2) = match_all(symbol, levels, o, ledger, last);
            &&& side_total(l2) == side_total(levels) - (o2.filled - o.filled)
            &&& volume_of(ledger2) == volume_of(ledger) + (o2.filled - o.filled)
        }),
    decreases o.quantity - o.filled,
{
    if can_match(levels, o) {
        let q = fill_quantity(levels, o);
        let t = fill_trade(symbol, ledger.len() as u64, o, levels[0].orders[0], levels[0].price, q);
        let ledger1 = ledger.push(t);
        lemma_fill(levels, o);
        lemma_fill_total(levels, o);
        assert(ledger1.drop_last() =~= ledger);
        assert forall|k: int| 0 <= k < ledger1.len() implies (#[trigger] ledger1[k]).wf() by {
            if k < ledger.len() {
                assert(ledger1[k] == ledger[k]);
            }
        }
        lemma_match_conserves(
            symbol,
            after_fill(levels, q),
            o.with_filled((o.filled + q) as u64),
            ledger1,
            Some(levels[0].price),
        );
    }
}

proof fn lemma_rest_total(levels: Seq<LevelView>, o: OrderView)
    requires
        o.filled <= o.quantity,
        forall|i: int|
            0 <= i < levels.len() && (#[trigger] levels[i]).price == o.price
                ==> levels[i].total_quantity + o.remaining() <= u64::MAX,
    ensures
        side_total(rest_order(levels, o)) == side_total(levels) + o.remaining(),
    decreases levels.len(),
{
    let r = rest_order(levels, o);
    assert(side_total(r) == r[0].total_quantity + side_total(r.drop_first()));
    if levels.len() == 0 {
        assert(r.drop_first().len() == 0);
        assert(side_total(r.drop_first()) == 0);
    } else if levels[0].price == o.price {
        assert(r.drop_first() =~= levels.drop_first());
    } else if better(o.side, o.price, levels[0].price) {
        assert(r.drop_first() =~= levels);
    } else {
        let tail = levels.drop_first();
        assert forall|i: int|
            0 <= i < tail.len() && (#[trigger] tail[i]).price == o.price implies tail[i].total_quantity
            + o.remaining() <= u64::MAX by {
            assert(levels[i + 1] == tail[i]);
        }
        lemma_rest_total(tail, o);
        assert(r.drop_first() =~= rest_order(tail, o));
    }
}

proof fn lemma_add_order_parts(book: BookView, o: OrderView)
    ensures
        ({
            let m = match_all(book.symbol, book.side(opposite(o.side)), o, book.trades, book.last_price);
            let (nb, ts) = book.add_order(o);
            &&& nb.side(opposite(o.side)) == m.0
            &&& nb.side(o.side) == (if m.1.filled < m.1.quantity && !self_match_blocked(m.0, m.1) {
                rest_order(book.side(o.side), m.1)
            } else {
                book.side(o.side)
            })
            &&& ts == m.2.subrange(book.trades.len() as int, m.2.len() as int)
        }),
{
}

/// Conservation: each unit traded leaves a resting order of the opposite side,
/// and whatever of the incoming order does not trade rests on its own side.
/// No quantity is created or destroyed by matching.
#[verifier::spinoff_prover]
#[verifier::rlimit(60)]
pub proof fn law_conservation(book: BookView, o: OrderView)
    requires
        book.wf(),
        book.admits(o),
    ensures
        ({
            let (nb, ts) = book.add_order(o);
            &&& 0 <= volume_of(ts) <= o.quantity
            &&& side_total(nb.side(opposite(o.side))) == side_total(book.side(opposite(o.side)))
                - volume_of(ts)
            &&& side_total(nb.side(o.side)) <= side_total(book.side(o.side)) + o.quantity - volume_of(
                ts,
            )
            &&& !o.reject_self_match ==> side_total(nb.side(o.side)) == side_total(book.side(o.side))
                + o.quantity - volume_of(ts)
        }),
{
    let m = match_all(book.symbol, book.side(opposite(o.side)), o, book.trades, book.last_price);
    lemma_add_order_parts(book, o);
    lemma_match_volume(book.symbol, book.side(opposite(o.side)), o, book.trades, book.last_price);
    if m.1.filled < m.1.quantity && !self_match_blocked(m.0, m.1) {
        lemma_rest_total_admitted(book, o, m.1);
    }
}

#[verifier::spinoff_prover]
#[verifier::rlimit(60)]
proof fn lemma_match_volume(
    symbol: Seq<char>,
    opp: Seq<LevelView>,
    o: OrderView,
    ledger: Seq<TradeView>,
    last: Option<u64>,
)
    requires
        side_wf(opp, opposite(o.side)),
        o.wf(),
        o.filled == 0,
        forall|k: int| 0 <= k < ledger.len() ==> (#[trigger] ledger[k]).wf(),
    ensures
        ({
            let m = match_all(symbol, opp, o, ledger, last);
            let ts = m.2.subrange(ledger.len() as int, m.2.len() as int);
            &&& side_total(m.0) == side_total(opp) - volume_of(ts)
            &&& volume_of(ts) == m.1.filled
            &&& m.1 == o.with_filled(m.1.filled)
            &&& m.1.filled <= m.1.quantity
        }),
{
    let m = match_all(symbol, opp, o, ledger, last);
    lemma_match_all(symbol, opp, o, ledger, last);
    lemma_match_conserves(symbol, opp, o, ledger, last);
    let ts = m.2.subrange(ledger.len() as int, m.2.len() as int);
    assert(m.2 =~= ledger + ts);
    lemma_traded_concat(ledger, ts);
}

proof fn lemma_rest_total_admitted(book: BookView, o: OrderView, o2: OrderView)
    requires
        book.admits(o),
        o2 == o.with_filled(o2.filled),
        o.filled <= o2.filled < o2.quantity,
    ensures
        side_total(rest_order(book.side(o.side), o2)) == side_total(book.side(o.side))
            + o2.remaining(),
{
    let own = book.side(o.side);
    assert forall|i: int|
        0 <= i < own.len() && (#[trigger] own[i]).price == o2.price implies own[i].total_quantity
        + o2.remaining() <= u64::MAX by {
        assert(book.side(o.side)[i] == own[i]);
    }
    lemma_rest_total(own, o2);
}

/// One fill: the trade's quantity is added to the incoming order's fill and
/// to the resting order's fill; the resting order stays at the head of its
/// level unless that fills it completely.
pub proof fn law_fill_moves_equal_quantities(symbol: Seq<char>, levels: Seq<LevelView>, o: OrderView, ledger: Seq<TradeView>)
    requires
        side_wf(levels, opposite(o.side)),
        can_match(levels, o),
        o.wf(),
    ensures
        ({
            let q = fill_quantity(levels, o);
            let r = levels[0].orders[0];
            let t = fill_trade(symbol, ledger.len() as u64, o, r, levels[0].price, q);
            let l2 = after_fill(levels, q);
            &&& t.quantity == q
            &&& t.price == levels[0].price
            &&& o.with_filled((o.filled + q) as u64).filled == o.filled + q
            &&& if r.filled + q < r.quantity {
                l2[0].orders[0] == r.with_filled((r.filled + q) as u64)
            } else {
                r.filled + q == r.quantity
            }
        }),
{
    let side = opposite(o.side);
    assert(level_wf(levels[0], side));
    assert(resting_wf(levels[0].orders[0], side, levels[0].price));
}

/// No crossed book: after any order is added, if both sides are non-empty the
/// best bid is below the best ask.
pub proof fn law_no_crossed_book(book: BookView, o: OrderView)
    requires
        book.wf(),
        book.admits(o),
    ensures
        ({
            let nb = book.add_order(o).0;
            nb.bids.len() > 0 && nb.asks.len() > 0 ==> nb.bids[0].price < nb.asks[0].price
        }),
{
    lemma_add_order_wf(book, o);
}

#[verifier::spinoff_prover]
#[verifier::rlimit(100)]
proof fn lemma_fifo_match(symbol: Seq<char>, l0: Seq<LevelView>, o: OrderView, ledger: Seq<TradeView>, last: Option<u64>)
    requires
        side_wf(l0, OrderSide::Sell),
        o.wf(),
        o.filled == 0,
        forall|k: int| 0 <= k < ledger.len() ==> (#[trigger] ledger[k]).wf(),
        o.side == OrderSide::Buy,
        !o.reject_self_match,
        l0.len() > 0,
        l0[0].orders.len() >= 2,
        l0[0].price <= o.price,
        o.quantity >= l0[0].orders[0].remaining() + l0[0].orders[1].remaining(),
    ensures
        ({
            let fin = match_all(symbol, l0, o, ledger, last).2;
            let n = ledger.len() as int;
            let a = l0[0].orders[0];
            let b = l0[0].orders[1];
            &&& fin.len() >= n + 2
            &&& fin[n] == fill_trade(symbol, n as u64, o, a, l0[0].price, a.remaining() as u64)
            &&& fin[n + 1] == fill_trade(
                symbol,
                (n + 1) as u64,
                o.with_filled(a.remaining() as u64),
                b,
                l0[0].price,
                b.remaining() as u64,
            )
        }),
{
    let side = OrderSide::Sell;
    let a = l0[0].orders[0];
    let b = l0[0].orders[1];
    assert(level_wf(l0[0], side));
    assert(resting_wf(a, side, l0[0].price));
    assert(resting_wf(b, side, l0[0].price));
    assert(can_match(l0, o));
    let q1 = fill_quantity(l0, o);
    assert(q1 == a.remaining());
    let t1 = fill_trade(symbol, ledger.len() as u64, o, a, l0[0].price, q1);
    let l1 = after_fill(l0, q1);
    let o1 = o.with_filled((o.filled + q1) as u64);
    let ledger1 = ledger.push(t1);
    lemma_fill(l0, o);
    assert(l1[0].orders == l0[0].orders.drop_first());
    assert(l1[0].orders[0] == b);
    assert(can_match(l1, o1));
    let q2 = fill_quantity(l1, o1);
    assert(q2 == b.remaining());
    let t2 = fill_trade(symbol, ledger1.len() as u64, o1, b, l1[0].price, q2);
    let l2 = after_fill(l1, q2);
    let o2 = o1.with_filled((o1.filled + q2) as u64);
    let ledger2 = ledger1.push(t2);
    lemma_fill(l1, o1);
    assert forall|k: int| 0 <= k < ledger1.len() implies (#[trigger] ledger1[k]).wf() by {
        if k < ledger.len() {
            assert(ledger1[k] == ledger[k]);
        }
    }
    assert forall|k: int| 0 <= k < ledger2.len() implies (#[trigger] ledger2[k]).wf() by {
        if k < ledger1.len() {
            assert(ledger2[k] == ledger1[k]);
        }
    }
    assert(match_all(symbol, l0, o, ledger, last) == match_all(symbol, l1, o1, ledger1, Some(l0[0].price)));
    assert(match_all(symbol, l1, o1, ledger1, Some(l0[0].price)) == match_all(symbol, l2, o2, ledger2, Some(l1[0].price)));
    lemma_match_all(symbol, l2, o2, ledger2, Some(l1[0].price));
    let fin = match_all(symbol, l2, o2, ledger2, Some(l1[0].price)).2;
    let n = ledger.len() as int;
    assert(fin.subrange(0, ledger2.len() as int) == ledger2);
    assert(fin[n] == ledger2[n]);
    assert(fin[n + 1] == ledger2[n + 1]);
}

/// Price-time priority: with two sell orders A then B at the head of the best
/// ask level and a buy that crosses it and covers both, the first trade fills
/// A completely and the second then fills B.
#[verifier::spinoff_prover]
#[verifier::rlimit(60)]
pub proof fn law_fifo(book: BookView, o: OrderView)
    requires
        book.wf(),
        book.admits(o),
        o.side == OrderSide::Buy,
        !o.reject_self_match,
        book.asks.len() > 0,
        book.asks[0].orders.len() >= 2,
        book.asks[0].price <= o.price,
        o.quantity >= book.asks[0].orders[0].remaining() + book.asks[0].orders[1].remaining(),
    ensures
        ({
            let ts = book.add_order(o).1;
            let a = book.asks[0].orders[0];
            let b = book.asks[0].orders[1];
            &&& ts.len() >= 2
            &&& ts[0].sell_order_id == a.id
            &&& ts[0].seller == a.trader
            &&& ts[0].quantity == a.remaining()
            &&& ts[0].price == book.asks[0].price
            &&& ts[1].sell_order_id == b.id
            &&& ts[1].seller == b.trader
            &&& ts[1].quantity == b.remaining()
            &&& ts[1].price == book.asks[0].price
        }),
{
    lemma_add_order_parts(book, o);
    lemma_fifo_match(book.symbol, book.asks, o, book.trades, book.last_price);
    let fin = match_all(book.symbol, book.asks, o, book.trades, book.last_price).2;
    let n = book.trades.len() as int;
    let ts = fin.subrange(n, fin.len() as int);
    assert(ts[0] == fin[n]);
    assert(ts[1] == fin[n + 1]);
}

/// Hash stability: a fill changes only `filled`, which the hash does not
/// cover, so recomputing an order's hash from its fields after any fill gives
/// the stored hash.
pub proof fn law_order_hash_stable(o: OrderView, filled: u64)
    requires
        o.wf(),
    ensures
        sha256_of(order_preimage(o.with_filled(filled))) == o.hash,
{
}

/// Every order resting in a well-formed book, and every trade in its ledger,
/// carries the hash of its own fields; each resting order has
/// `0 <= filled < quantity` and `filled + remaining == quantity`.
pub proof fn law_book_records(book: BookView)
    requires
        book.wf(),
    ensures
        forall|s: OrderSide, i: int, k: int|
            0 <= i < book.side(s).len() && 0 <= k < book.side(s)[i].orders.len() ==> {
                let r = #[trigger] book.side(s)[i].orders[k];
                &&& r.hash == sha256_of(order_preimage(r))
                &&& r.filled < r.quantity
                &&& r.filled + r.remaining() == r.quantity
            },
        forall|k: int|
            0 <= k < book.trades.len() ==> (#[trigger] book.trades[k]).hash == sha256_of(
                trade_preimage(book.trades[k]),
            ),
{
    assert forall|s: OrderSide, i: int, k: int|
        0 <= i < book.side(s).len() && 0 <= k < book.side(s)[i].orders.len() implies {
        let r = #[trigger] book.side(s)[i].orders[k];
        &&& r.hash == sha256_of(order_preimage(r))
        &&& r.filled < r.quantity
        &&& r.filled + r.remaining() == r.quantity
    } by {
        assert(level_wf(book.side(s)[i], s));
        assert(resting_wf(book.side(s)[i].orders[k], s, book.side(s)[i].price));
    }
    assert forall|k: int| 0 <= k < book.trades.len() implies (#[trigger] book.trades[k]).hash
        == sha256_of(trade_preimage(book.trades[k])) by {
        assert(book.trades[k].wf());
    }
}

} // verus!
