//! Orders, trades and bars: immutable records with integrity hashes.
//!
//! Prices are fixed-point integers in units of `1 / PRICE_SCALE`; quantities
//! are fixed-point integers in units of `1 / QTY_SCALE`.
use crate::digest::{be_bytes, push_str, push_u64, sha256_of, str_field, HashValue};
use vstd::prelude::*;

verus! {

/// Price units per currency unit.
pub const PRICE_SCALE: u64 = 10_000;

/// Quantity units per whole lot.
pub const QTY_SCALE: u64 = 100_000_000;

#[derive(Debug, Clone, Copy, PartialEq, Eq, Structural)]
pub enum OrderSide {
    Buy,
    Sell,
}

/// The byte that stands for a side in a hash preimage.
pub open spec fn side_byte(s: OrderSide) -> u8 {
    match s {
        OrderSide::Buy => 0u8,
        OrderSide::Sell => 1u8,
    }
}

/// The abstract content of an order.
pub struct OrderView {
    pub id: u64,
    pub timestamp: u64,
    pub trader: Seq<char>,
    pub symbol: Seq<char>,
    pub side: OrderSide,
    pub price: u64,
    pub quantity: u64,
    pub filled: u64,
    pub hash: Seq<u8>,
    /// Whether the order refuses to trade with orders of its own trader.
    pub reject_self_match: bool,
}

impl OrderView {
    pub open spec fn remaining(self) -> int {
        self.quantity - self.filled
    }

    /// The same order with `filled` replaced.
    pub open spec fn with_filled(self, filled: u64) -> OrderView {
        OrderView { filled, ..self }
    }

    /// Fill within the quantity, and a hash that matches the immutable fields.
    pub open spec fn wf(self) -> bool {
        &&& self.filled <= self.quantity
        &&& self.hash == sha256_of(order_preimage(self))
    }
}

/// The bytes an order's hash is computed over: every field but `filled` and `hash`.
pub open spec fn order_preimage(o: OrderView) -> Seq<u8> {
    be_bytes(o.id) + be_bytes(o.timestamp) + str_field(o.trader) + str_field(o.symbol) + seq![
        side_byte(o.side),
    ] + be_bytes(o.price) + be_bytes(o.quantity)
}

/// The order that `Order::new` makes from these fields.
pub open spec fn fresh_order(
    id: u64,
    timestamp: u64,
    trader: Seq<char>,
    symbol: Seq<char>,
    side: OrderSide,
    price: u64,
    quantity: u64,
) -> OrderView {
    let o = OrderView {
        id,
        timestamp,
        trader,
        symbol,
        side,
        price,
        quantity,
        filled: 0,
        hash: Seq::empty(),
        reject_self_match: false,
    };
    OrderView { hash: sha256_of(order_preimage(o)), ..o }
}

pub struct Order {
    pub id: u64,
    pub timestamp: u64,
    pub trader: String,
    pub symbol: String,
    pub side: OrderSide,
    pub price: u64,
    pub quantity: u64,
    pub filled: u64,
    pub hash: HashValue,
    /// Self-match policy: when set, the order does not trade with a resting
    /// order of the same trader; matching stops there and the rest of the
    /// order is dropped instead of resting. Off by default.
    pub reject_self_match: bool,
}

impl View for Order {
    type V = OrderView;

    open spec fn view(&self) -> OrderView {
        OrderView {
            id: self.id,
            timestamp: self.timestamp,
            trader: self.trader@,
            symbol: self.symbol@,
            side: self.side,
            price: self.price,
            quantity: self.quantity,
            filled: self.filled,
            hash: self.hash@,
            reject_self_match: self.reject_self_match,
        }
    }
}

fn push_side(out: &mut Vec<u8>, side: OrderSide)
    ensures
        final(out)@ == old(out)@.push(side_byte(side)),
{
    match side {
        OrderSide::Buy => out.push(0u8),
        OrderSide::Sell => out.push(1u8),
    }
}

impl Order {
    /// A new, unfilled order stamped with `timestamp`.
    pub fn new(
        id: u64,
        timestamp: u64,
        trader: String,
        symbol: String,
        side: OrderSide,
        price: u64,
        quantity: u64,
    ) -> (r: Order)
        ensures
            r@ == fresh_order(id, timestamp, trader@, symbol@, side, price, quantity),
            r@.id == id,
            r@.timestamp == timestamp,
            r@.trader == trader@,
            r@.symbol == symbol@,
            r@.side == side,
            r@.price == price,
            r@.quantity == quantity,
            r@.filled == 0,
            r@.wf(),
    {
        let mut order = Order {
            id,
            timestamp,
            trader,
            symbol,
            side,
            price,
            quantity,
            filled: 0,
            hash: HashValue { bytes: Vec::new() },
            reject_self_match: false,
        };
        order.hash = order.calculate_hash();
        order
    }

    /// The same order with the self-match policy set.
    pub fn with_self_match_rejected(self, reject: bool) -> (r: Order)
        ensures
            r@ == (OrderView { reject_self_match: reject, ..self@ }),
    {
        let mut o = self;
        o.reject_self_match = reject;
        o
    }

    /// Recomputes the hash from the immutable fields.
    pub fn calculate_hash(&self) -> (r: HashValue)
        ensures
            r@ == sha256_of(order_preimage(self@)),
    {
        let mut b: Vec<u8> = Vec::new();
        push_u64(&mut b, self.id);
        push_u64(&mut b, self.timestamp);
        push_str(&mut b, self.trader.as_str());
        push_str(&mut b, self.symbol.as_str());
        push_side(&mut b, self.side);
        push_u64(&mut b, self.price);
        push_u64(&mut b, self.quantity);
        assert(b@ =~= order_preimage(self@));
        HashValue::of_bytes(&b)
    }

    pub fn remaining(&self) -> (r: u64)
        requires
            self@.filled <= self@.quantity,
        ensures
            r == self@.remaining(),
    {
        self.quantity - self.filled
    }

    pub fn is_filled(&self) -> (r: bool)
        ensures
            r == (self@.filled >= self@.quantity),
    {
        self.filled >= self.quantity
    }
}

/// The abstract content of a trade.
pub struct TradeView {
    pub id: u64,
    pub timestamp: u64,
    pub symbol: Seq<char>,
    pub price: u64,
    pub quantity: u64,
    pub buyer: Seq<char>,
    pub seller: Seq<char>,
    pub buy_order_id: u64,
    pub sell_order_id: u64,
    pub hash: Seq<u8>,
}

/// The bytes a trade's hash is computed over: every field but `hash`.
pub open spec fn trade_preimage(t: TradeView) -> Seq<u8> {
    be_bytes(t.id) + be_bytes(t.timestamp) + str_field(t.symbol) + be_bytes(t.price) + be_bytes(
        t.quantity,
    ) + str_field(t.buyer) + str_field(t.seller) + be_bytes(t.buy_order_id) + be_bytes(
        t.sell_order_id,
    )
}

impl TradeView {
    pub open spec fn wf(self) -> bool {
        self.hash == sha256_of(trade_preimage(self))
    }
}

pub struct Trade {
    pub id: u64,
    pub timestamp: u64,
    pub symbol: String,
    pub price: u64,
    pub quantity: u64,
    pub buyer: String,
    pub seller: String,
    pub buy_order_id: u64,
    pub sell_order_id: u64,
    pub hash: HashValue,
}

impl View for Trade {
    type V = TradeView;

    open spec fn view(&self) -> TradeView {
        TradeView {
            id: self.id,
            timestamp: self.timestamp,
            symbol: self.symbol@,
            price: self.price,
            quantity: self.quantity,
            buyer: self.buyer@,
            seller: self.seller@,
            buy_order_id: self.buy_order_id,
            sell_order_id: self.sell_order_id,
            hash: self.hash@,
        }
    }
}

/// The trade with the given fields and its hash.
pub open spec fn make_trade(
    id: u64,
    timestamp: u64,
    symbol: Seq<char>,
    price: u64,
    quantity: u64,
    buyer: Seq<char>,
    seller: Seq<char>,
    buy_order_id: u64,
    sell_order_id: u64,
) -> TradeView {
    let t = TradeView {
        id,
        timestamp,
        symbol,
        price,
        quantity,
        buyer,
        seller,
        buy_order_id,
        sell_order_id,
        hash: Seq::empty(),
    };
    TradeView { hash: sha256_of(trade_preimage(t)), ..t }
}

impl Trade {
    pub fn new(
        id: u64,
        timestamp: u64,
        symbol: String,
        price: u64,
        quantity: u64,
        buyer: String,
        seller: String,
        buy_order_id: u64,
        sell_order_id: u64,
    ) -> (r: Trade)
        ensures
            r@ == make_trade(
                id,
                timestamp,
                symbol@,
                price,
                quantity,
                buyer@,
                seller@,
                buy_order_id,
                sell_order_id,
            ),
    {
        let mut trade = Trade {
            id,
            timestamp,
            symbol,
            price,
            quantity,
            buyer,
            seller,
            buy_order_id,
            sell_order_id,
            hash: HashValue { bytes: Vec::new() },
        };
        trade.hash = trade.calculate_hash();
        trade
    }

    /// Recomputes the hash from the fields.
    pub fn calculate_hash(&self) -> (r: HashValue)
        ensures
            r@ == sha256_of(trade_preimage(self@)),
    {
        let mut b: Vec<u8> = Vec::new();
        push_u64(&mut b, self.id);
        push_u64(&mut b, self.timestamp);
        push_str(&mut b, self.symbol.as_str());
        push_u64(&mut b, self.price);
        push_u64(&mut b, self.quantity);
        push_str(&mut b, self.buyer.as_str());
        push_str(&mut b, self.seller.as_str());
        push_u64(&mut b, self.buy_order_id);
        push_u64(&mut b, self.sell_order_id);
        assert(b@ =~= trade_preimage(self@));
        HashValue::of_bytes(&b)
    }

    /// A copy of this trade.
    pub fn copy(&self) -> (r: Trade)
        ensures
            r@ == self@,
    {
        Trade {
            id: self.id,
            timestamp: self.timestamp,
            symbol: self.symbol.clone(),
            price: self.price,
            quantity: self.quantity,
            buyer: self.buyer.clone(),
            seller: self.seller.clone(),
            buy_order_id: self.buy_order_id,
            sell_order_id: self.sell_order_id,
            hash: self.hash.copy(),
        }
    }
}

/// The abstract content of a bar.
pub struct BarView {
    pub timestamp: u64,
    pub symbol: Seq<char>,
    pub open: u64,
    pub high: u64,
    pub low: u64,
    pub close: u64,
    pub volume: u128,
    pub hash: Seq<u8>,
}

/// The bytes a bar's hash is computed over: every field but `hash`.
pub open spec fn bar_preimage(b: BarView) -> Seq<u8> {
    be_bytes(b.timestamp) + str_field(b.symbol) + be_bytes(b.open) + be_bytes(b.high) + be_bytes(
        b.low,
    ) + be_bytes(b.close) + be_bytes((b.volume >> 64u128) as u64) + be_bytes(b.volume as u64)
}

impl BarView {
    pub open spec fn wf(self) -> bool {
        self.hash == sha256_of(bar_preimage(self))
    }
}

/// The bar with the given fields and its hash.
pub open spec fn make_bar(
    timestamp: u64,
    symbol: Seq<char>,
    open: u64,
    high: u64,
    low: u64,
    close: u64,
    volume: u128,
) -> BarView {
    let b = BarView { timestamp, symbol, open, high, low, close, volume, hash: Seq::empty() };
    BarView { hash: sha256_of(bar_preimage(b)), ..b }
}

/// Highest trade price; zero for no trades.
pub open spec fn max_price(ts: Seq<TradeView>) -> u64
    decreases ts.len(),
{
    if ts.len() == 0 {
        0
    } else if ts.len() == 1 || ts.last().price >= max_price(ts.drop_last()) {
        ts.last().price
    } else {
        max_price(ts.drop_last())
    }
}

/// Lowest trade price; `u64::MAX` for no trades.
pub open spec fn min_price(ts: Seq<TradeView>) -> u64
    decreases ts.len(),
{
    if ts.len() == 0 {
        u64::MAX
    } else if ts.last().price <= min_price(ts.drop_last()) {
        ts.last().price
    } else {
        min_price(ts.drop_last())
    }
}

/// Sum of the quantities of a sequence of trades.
pub open spec fn volume_of(ts: Seq<TradeView>) -> int
    decreases ts.len(),
{
    if ts.len() == 0 {
        0
    } else {
        volume_of(ts.drop_last()) + ts.last().quantity
    }
}

/// The bar of a non-empty window of trades: first and last price, extremes,
/// and total quantity.
pub open spec fn bar_of_trades(timestamp: u64, symbol: Seq<char>, ts: Seq<TradeView>) -> BarView {
    make_bar(
        timestamp,
        symbol,
        ts[0].price,
        max_price(ts),
        min_price(ts),
        ts.last().price,
        volume_of(ts) as u128,
    )
}

proof fn lemma_extremes(ts: Seq<TradeView>)
    requires
        ts.len() > 0,
    ensures
        forall|k: int|
            0 <= k < ts.len() ==> min_price(ts) <= (#[trigger] ts[k]).price <= max_price(ts),
    decreases ts.len(),
{
    if ts.len() > 1 {
        lemma_extremes(ts.drop_last());
        assert forall|k: int| 0 <= k < ts.len() implies min_price(ts) <= (#[trigger] ts[k]).price
            <= max_price(ts) by {
            if k < ts.len() - 1 {
                assert(ts[k] == ts.drop_last()[k]);
            }
        }
    } else {
        assert(ts.drop_last().len() == 0);
    }
}

pub struct MarketBar {
    pub timestamp: u64,
    pub symbol: String,
    pub open: u64,
    pub high: u64,
    pub low: u64,
    pub close: u64,
    pub volume: u128,
    pub hash: HashValue,
}

impl View for MarketBar {
    type V = BarView;

    open spec fn view(&self) -> BarView {
        BarView {
            timestamp: self.timestamp,
            symbol: self.symbol@,
            open: self.open,
            high: self.high,
            low: self.low,
            close: self.close,
            volume: self.volume,
            hash: self.hash@,
        }
    }
}

impl MarketBar {
    pub fn new(
        timestamp: u64,
        symbol: String,
        open: u64,
        high: u64,
        low: u64,
        close: u64,
        volume: u128,
    ) -> (r: MarketBar)
        ensures
            r@ == make_bar(timestamp, symbol@, open, high, low, close, volume),
    {
        let mut bar = MarketBar {
            timestamp,
            symbol,
            open,
            high,
            low,
            close,
            volume,
            hash: HashValue { bytes: Vec::new() },
        };
        bar.hash = bar.calculate_hash();
        bar
    }

    /// Recomputes the hash from the fields.
    pub fn calculate_hash(&self) -> (r: HashValue)
        ensures
            r@ == sha256_of(bar_preimage(self@)),
    {
        let mut b: Vec<u8> = Vec::new();
        push_u64(&mut b, self.timestamp);
        push_str(&mut b, self.symbol.as_str());
        push_u64(&mut b, self.open);
        push_u64(&mut b, self.high);
        push_u64(&mut b, self.low);
        push_u64(&mut b, self.close);
        push_u64(&mut b, (self.volume >> 64u128) as u64);
        push_u64(&mut b, self.volume as u64);
        assert(b@ =~= bar_preimage(self@));
        HashValue::of_bytes(&b)
    }

    /// The OHLCV bar of a window of trades; `None` when there are none.
    pub fn from_trades(timestamp: u64, symbol: String, trades: &[Trade]) -> (r: Option<MarketBar>)
        ensures
            trades@.len() == 0 <==> r is None,
            r matches Some(b) ==> b@ == bar_of_trades(
                timestamp,
                symbol@,
                trades@.map_values(|t: Trade| t@),
            ),
            r matches Some(b) ==> b@.low <= b@.open <= b@.high && b@.low <= b@.close <= b@.high,
    {
        if trades.len() == 0 {
            return None;
        }
        let ghost tv = trades@.map_values(|t: Trade| t@);
        let mut high: u64 = 0;
        let mut low: u64 = u64::MAX;
        let mut volume: u128 = 0;
        let mut i: usize = 0;
        while i < trades.len()
            invariant
                i <= trades@.len(),
                tv == trades@.map_values(|t: Trade| t@),
                high == max_price(tv.subrange(0, i as int)),
                low == min_price(tv.subrange(0, i as int)),
                volume == volume_of(tv.subrange(0, i as int)),
                volume <= i * (u64::MAX as int),
            decreases trades@.len() - i,
        {
            let t = &trades[i];
            proof {
                let pre = tv.subrange(0, i as int + 1);
                assert(pre.drop_last() =~= tv.subrange(0, i as int));
                assert(pre.last() == t@);
                assert(i + 1 <= usize::MAX);
                assert((i + 1) * (u64::MAX as int) <= (usize::MAX as int) * (u64::MAX as int))
                    by (nonlinear_arith)
                    requires
                        i + 1 <= usize::MAX,
                ;
                assert((i as int) * (u64::MAX as int) + (u64::MAX as int) == (i + 1) * (
                u64::MAX as int)) by (nonlinear_arith);
            }
            if i == 0 || t.price >= high {
                high = t.price;
            }
            if t.price <= low {
                low = t.price;
            }
            volume = volume + t.quantity as u128;
            i = i + 1;
        }
        proof {
            assert(tv.subrange(0, i as int) =~= tv);
            lemma_extremes(tv);
            assert(tv[0] == trades@[0]@);
            assert(tv.last() == trades@[trades@.len() - 1]@);
        }
        Some(
            MarketBar::new(
                timestamp,
                symbol,
                trades[0].price,
                high,
                low,
                trades[trades.len() - 1].price,
                volume,
            ),
        )
    }
}

/// Hash stability for the three records: recomputing the hash of a record
/// made by its constructor, from its stored fields, gives the stored hash.
pub proof fn law_records_hash_idempotent(o: OrderView, t: TradeView, b: BarView)
    requires
        o.wf(),
        t == make_trade(
            t.id,
            t.timestamp,
            t.symbol,
            t.price,
            t.quantity,
            t.buyer,
            t.seller,
            t.buy_order_id,
            t.sell_order_id,
        ),
        b == make_bar(b.timestamp, b.symbol, b.open, b.high, b.low, b.close, b.volume),
    ensures
        sha256_of(order_preimage(o)) == o.hash,
        sha256_of(trade_preimage(t)) == t.hash,
        sha256_of(bar_preimage(b)) == b.hash,
{
}

} // verus!
