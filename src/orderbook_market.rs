//! The fair-value policy of the simulation driver: a fair value follows a
//! multiplicative random walk, market makers keep the book stocked around the
//! mid price, and a small random sample of traders sends orders driven by
//! the gap between the traded price and the fair value.
//!
//! Draws are fractions in millionths: a value `u` with `0 <= u < UNIT`
//! stands for `u / UNIT`.
use crate::book::{trades_view, BookView, OrderBook};
use crate::draws::{wrapping_inc, DrawSource};
use crate::market::{
    bar_of_trades, fresh_order, make_bar, BarView, MarketBar, Order, OrderSide, Trade, TradeView,
    QTY_SCALE,
};
use crate::market_simulation::{
    after_draws, bars_view, bound_price, draw_at, empty_book, is_initial_population,
    lemma_initial_population, lemma_initial_population_unique, lemma_one_draw, submit,
    submit_spec, traders_view,
};
use crate::price_process::{div_t, MAX_PRICE};
use crate::traders::{TraderPopulation, TraderType, TraderView};
use vstd::prelude::*;
use vstd::string::StringExecFns;

verus! {

/// Denominator of a fractional draw.
pub const UNIT: u64 = 1_000_000;

/// The abstract content of an order-book market.
pub struct ObmView {
    pub book: BookView,
    pub rng: DrawSource,
    pub traders: Seq<TraderView>,
    pub total_capital: u64,
    pub last_trade_price: u64,
    pub fair_value: u64,
}

pub struct OrderBookMarket {
    pub orderbook: OrderBook,
    pub rng: DrawSource,
    pub traders: TraderPopulation,
    pub last_trade_price: u64,
    pub fair_value: u64,
}

impl View for OrderBookMarket {
    type V = ObmView;

    open spec fn view(&self) -> ObmView {
        ObmView {
            book: self.orderbook@,
            rng: self.rng,
            traders: traders_view(self.traders.traders@),
            total_capital: self.traders.total_capital,
            last_trade_price: self.last_trade_price,
            fair_value: self.fair_value,
        }
    }
}

impl ObmView {
    /// The state `OrderBookMarket::new` builds: an empty book for `symbol`,
    /// seed 42, the fixed roster, and both prices at `price`.
    pub open spec fn is_initial(self, symbol: Seq<char>, price: u64) -> bool {
        &&& self.book == empty_book(symbol)
        &&& self.rng == (DrawSource { seed: 42, current_time: 0, order_id_counter: 0 })
        &&& self.last_trade_price == price
        &&& self.fair_value == price
        &&& is_initial_population(self.traders, self.total_capital)
    }

    pub open spec fn wf(self) -> bool {
        &&& self.book.wf()
        &&& 1 <= self.last_trade_price <= MAX_PRICE
        &&& 1 <= self.fair_value <= MAX_PRICE
    }

    /// The mid of the best bid and ask, rounded down; the last traded price
    /// when a side is empty.
    pub open spec fn mid(self) -> u64 {
        if self.book.bids.len() > 0 && self.book.asks.len() > 0 {
            ((self.book.bids[0].price + self.book.asks[0].price) / 2) as u64
        } else {
            self.last_trade_price
        }
    }
}

/// The `k`-th fractional draw from `r`.
pub open spec fn frac_at(r: DrawSource, k: nat) -> u64 {
    draw_at(r, k) % UNIT
}

/// `mid` moved by `(u - 1/2) / scale` of itself, kept within `1..=MAX_PRICE`.
pub open spec fn offset_price(mid: u64, u: u64, scale: int) -> u64 {
    bound_price(mid + div_t(mid * (u - UNIT / 2), scale))
}

/// The name an archetype's orders carry.
pub open spec fn archetype_name(t: TraderType) -> Seq<char> {
    match t {
        TraderType::Retail => "Retail"@,
        TraderType::Institutional => "Institutional"@,
        TraderType::HFT => "HFT"@,
        TraderType::MarketMaker => "MarketMaker"@,
        TraderType::Whale => "Whale"@,
        TraderType::Momentum => "Momentum"@,
        TraderType::Arbitrageur => "Arbitrageur"@,
    }
}

/// Whether the archetype sends an order at all.
pub open spec fn sends_order(t: TraderType, mid: u64, fair: u64) -> bool {
    match t {
        TraderType::MarketMaker => false,
        TraderType::Arbitrageur => {
            let gap = if mid >= fair {
                mid - fair
            } else {
                fair - mid
            };
            gap * 1000 >= fair
        },
        _ => true,
    }
}

/// How many draws the archetype's order takes.
pub open spec fn draws_needed(t: TraderType) -> nat {
    match t {
        TraderType::Retail | TraderType::HFT => 3,
        TraderType::Institutional | TraderType::Whale => 2,
        _ => 1,
    }
}

/// Side, price and quantity of an archetype's order, from the mid, the fair
/// value, the last traded price and the draws taken from `r`:
/// retail and HFT toss for the side and quote within 0.5% and 0.025% of the
/// mid; institutions and whales buy below fair value and sell above it,
/// within 0.1% and 0.25% of the mid; momentum traders follow the last trade
/// against fair value, 0.3% through the mid; arbitrageurs trade back toward
/// fair value, 0.05% from it.
pub open spec fn order_terms(
    t: TraderType,
    mid: u64,
    fair: u64,
    last: u64,
    r: DrawSource,
) -> (OrderSide, u64, u64) {
    let d0 = frac_at(r, 0);
    let d1 = frac_at(r, 1);
    let d2 = frac_at(r, 2);
    let toward_fair = if fair > mid {
        OrderSide::Buy
    } else {
        OrderSide::Sell
    };
    match t {
        TraderType::Retail => (
            if d0 > UNIT / 2 {
                OrderSide::Buy
            } else {
                OrderSide::Sell
            },
            offset_price(mid, d1, 100_000_000),
            (10_000_000 + d2 * 30) as u64,
        ),
        TraderType::Institutional => (
            toward_fair,
            offset_price(mid, d0, 500_000_000),
            (200_000_000 + d1 * 500) as u64,
        ),
        TraderType::HFT => (
            if d0 > UNIT / 2 {
                OrderSide::Buy
            } else {
                OrderSide::Sell
            },
            offset_price(mid, d1, 2_000_000_000),
            (5_000_000 + d2 * 10) as u64,
        ),
        TraderType::Whale => (
            toward_fair,
            offset_price(mid, d0, 200_000_000),
            (1_000_000_000 + d1 * 2000) as u64,
        ),
        TraderType::Momentum => {
            let side = if last > fair {
                OrderSide::Buy
            } else {
                OrderSide::Sell
            };
            (
                side,
                match side {
                    OrderSide::Buy => bound_price(mid * 1003 / 1000),
                    OrderSide::Sell => bound_price(mid * 997 / 1000),
                },
                (50_000_000 + d0 * 150) as u64,
            )
        },
        _ => {
            let side = if mid > fair {
                OrderSide::Sell
            } else {
                OrderSide::Buy
            };
            (
                side,
                match side {
                    OrderSide::Buy => bound_price(fair * 10005 / 10000),
                    OrderSide::Sell => bound_price(fair * 9995 / 10000),
                },
                (100_000_000 + d0 * 300) as u64,
            )
        },
    }
}

/// The order an archetype sends, and the draw source after it: none (and
/// no draw) for market makers and for arbitrageurs without a gap of 0.1%
/// between mid and fair value; otherwise the draws, then a fresh id.
pub open spec fn trader_order(v: ObmView, t: TraderType) -> (Option<crate::market::OrderView>, DrawSource) {
    let mid = v.mid();
    if !sends_order(t, mid, v.fair_value) {
        (None, v.rng)
    } else {
        let (side, price, qty) = order_terms(t, mid, v.fair_value, v.last_trade_price, v.rng);
        let r1 = after_draws(v.rng, draws_needed(t));
        let id = wrapping_inc(r1.order_id_counter);
        (
            Some(fresh_order(id, v.rng.current_time, archetype_name(t), v.book.symbol, side, price, qty)),
            DrawSource { order_id_counter: id, ..r1 },
        )
    }
}

fn name_of(t: TraderType) -> (r: String)
    ensures
        r@ == archetype_name(t),
{
    match t {
        TraderType::Retail => String::from_str("Retail"),
        TraderType::Institutional => String::from_str("Institutional"),
        TraderType::HFT => String::from_str("HFT"),
        TraderType::MarketMaker => String::from_str("MarketMaker"),
        TraderType::Whale => String::from_str("Whale"),
        TraderType::Momentum => String::from_str("Momentum"),
        TraderType::Arbitrageur => String::from_str("Arbitrageur"),
    }
}

fn bounded(x: i128) -> (r: u64)
    ensures
        r == bound_price(x as int),
{
    if x < 1 {
        1
    } else if x > MAX_PRICE as i128 {
        MAX_PRICE
    } else {
        x as u64
    }
}

fn offset(mid: u64, u: u64, scale: i128) -> (r: u64)
    requires
        u < UNIT,
        scale > 0,
    ensures
        r == offset_price(mid, u, scale as int),
{
    let m = mid as i128;
    let du = u as i128 - 500_000;
    proof {
        assert(-0xffff_ffff_ffff_ffff * 500_000 <= m * du <= 0xffff_ffff_ffff_ffff * 500_000)
            by (nonlinear_arith)
            requires
                0 <= m <= 0xffff_ffff_ffff_ffff,
                -500_000 <= du <= 500_000,
        ;
    }
    let p = m * du;
    let q = if p >= 0 {
        p / scale
    } else {
        -((-p) / scale)
    };
    proof {
        assert(-0xffff_ffff_ffff_ffff * 500_000 <= q <= 0xffff_ffff_ffff_ffff * 500_000) by (
        nonlinear_arith)
            requires
                -0xffff_ffff_ffff_ffff * 500_000 <= p <= 0xffff_ffff_ffff_ffff * 500_000,
                scale >= 1,
                p >= 0 ==> q == p as int / scale as int,
                p < 0 ==> q == -((-p) as int / scale as int),
        ;
    }
    bounded(m + q)
}

impl OrderBookMarket {
    /// A market for `symbol` with an empty book, seed 42, the fixed
    /// population, and both last traded price and fair value at `initial_price`.
    pub fn new(symbol: String, initial_price: u64) -> (r: OrderBookMarket)
        requires
            1 <= initial_price <= MAX_PRICE,
        ensures
            r@.wf(),
            r@.book.symbol == symbol@,
            r@.book.bids.len() == 0,
            r@.book.asks.len() == 0,
            r@.book.trades.len() == 0,
            r@.rng == (DrawSource { seed: 42, current_time: 0, order_id_counter: 0 }),
            r@.last_trade_price == initial_price,
            r@.fair_value == initial_price,
            r@.is_initial(symbol@, initial_price),
            r.traders.traders@.len() == crate::traders::POPULATION_SIZE,
    {
        let r = OrderBookMarket {
            orderbook: OrderBook::new(symbol),
            rng: DrawSource::new(42),
            traders: TraderPopulation::new(),
            last_trade_price: initial_price,
            fair_value: initial_price,
        };
        proof {
            lemma_initial_population(&r.traders);
            assert(r@.book.bids =~= Seq::<crate::book::LevelView>::empty());
            assert(r@.book.asks =~= Seq::<crate::book::LevelView>::empty());
            assert(r@.book.trades =~= Seq::<TradeView>::empty());
        }
        r
    }

    pub fn get_mid_price(&self) -> (r: u64)
        ensures
            r == self@.mid(),
    {
        match (self.orderbook.get_best_bid(), self.orderbook.get_best_ask()) {
            (Some((bid, _)), Some((ask, _))) => bid / 2 + ask / 2 + (bid % 2 + ask % 2) / 2,
            _ => self.last_trade_price,
        }
    }

    /// The spread relative to the mid, in basis points rounded down; zero
    /// when a side is empty.
    pub fn get_spread_bps(&self) -> (r: u64)
        requires
            self@.wf(),
        ensures
            r == (if self@.book.bids.len() > 0 && self@.book.asks.len() > 0 {
                ((self@.book.asks[0].price - self@.book.bids[0].price) * 10_000
                    / self@.mid() as int) as u64
            } else {
                0
            }),
    {
        match (self.orderbook.get_best_bid(), self.orderbook.get_best_ask()) {
            (Some((bid, _)), Some((ask, _))) => {
                let mid = self.get_mid_price();
                proof {
                    assert(mid >= 1);
                    assert((ask - bid) * 10_000 <= 2 * (mid as int) * 10_000 + 10_000);
                    assert((ask - bid) * 10_000 / (mid as int) <= 30_000) by (nonlinear_arith)
                        requires
                            (ask - bid) * 10_000 <= 2 * (mid as int) * 10_000 + 10_000,
                            mid >= 1,
                            ask > bid,
                    ;
                }
                (((ask - bid) as u128 * 10_000) / mid as u128) as u64
            },
            _ => 0,
        }
    }

    /// Moves the fair value by `(u - 1/2) * 0.1%` of itself.
    pub fn update_fair_value(&mut self)
        requires
            old(self)@.wf(),
        ensures
            final(self)@ == (ObmView {
                rng: old(self)@.rng.after_draw(),
                fair_value: bound_price(old(self)@.fair_value + div_t(
                    old(self)@.fair_value * (frac_at(old(self)@.rng, 0) - UNIT / 2),
                    1_000_000_000,
                )),
                ..old(self)@
            }),
            final(self)@.wf(),
    {
        proof {
            lemma_one_draw(self.rng);
        }
        let u = self.rng.generate_random(UNIT);
        self.fair_value = offset(self.fair_value, u, 1_000_000_000);
    }

    /// The order trader archetype `t` sends, if any (see `trader_order`).
    pub fn generate_order_for_trader_type(&mut self, t: TraderType) -> (r: Option<Order>)
        requires
            old(self)@.wf(),
        ensures
            final(self)@ == (ObmView { rng: trader_order(old(self)@, t).1, ..old(self)@ }),
            match r {
                Some(o) => trader_order(old(self)@, t).0 == Some(o@),
                None => trader_order(old(self)@, t).0 is None,
            },
    {
        let ghost r0 = self.rng;
        let mid = self.get_mid_price();
        let fair = self.fair_value;
        let last = self.last_trade_price;
        match t {
            TraderType::MarketMaker => {
                return None;
            },
            TraderType::Arbitrageur => {
                let gap = if mid >= fair {
                    mid - fair
                } else {
                    fair - mid
                };
                if (gap as u128) * 1000 < fair as u128 {
                    return None;
                }
            },
            _ => {},
        }
        proof {
            assert(after_draws(r0, 0) == r0);
            assert(after_draws(r0, 1) == r0.after_draw());
            assert(after_draws(r0, 2) == after_draws(r0, 1).after_draw());
            assert(after_draws(r0, 3) == after_draws(r0, 2).after_draw());
        }
        let d0 = self.rng.generate_random(UNIT);
        let toward_fair = if fair > mid {
            OrderSide::Buy
        } else {
            OrderSide::Sell
        };
        let (side, price, qty): (OrderSide, u64, u64) = match t {
            TraderType::Retail => {
                let d1 = self.rng.generate_random(UNIT);
                let d2 = self.rng.generate_random(UNIT);
                (
                    if d0 > UNIT / 2 {
                        OrderSide::Buy
                    } else {
                        OrderSide::Sell
                    },
                    offset(mid, d1, 100_000_000),
                    10_000_000 + d2 * 30,
                )
            },
            TraderType::Institutional => {
                let d1 = self.rng.generate_random(UNIT);
                (toward_fair, offset(mid, d0, 500_000_000), 200_000_000 + d1 * 500)
            },
            TraderType::HFT => {
                let d1 = self.rng.generate_random(UNIT);
                let d2 = self.rng.generate_random(UNIT);
                (
                    if d0 > UNIT / 2 {
                        OrderSide::Buy
                    } else {
                        OrderSide::Sell
                    },
                    offset(mid, d1, 2_000_000_000),
                    5_000_000 + d2 * 10,
                )
            },
            TraderType::Whale => {
                let d1 = self.rng.generate_random(UNIT);
                (toward_fair, offset(mid, d0, 200_000_000), 1_000_000_000 + d1 * 2000)
            },
            TraderType::Momentum => {
                let side = if last > fair {
                    OrderSide::Buy
                } else {
                    OrderSide::Sell
                };
                let p = match side {
                    OrderSide::Buy => bounded((mid as i128) * 1003 / 1000),
                    OrderSide::Sell => bounded((mid as i128) * 997 / 1000),
                };
                (side, p, 50_000_000 + d0 * 150)
            },
            _ => {
                let side = if mid > fair {
                    OrderSide::Sell
                } else {
                    OrderSide::Buy
                };
                let p = match side {
                    OrderSide::Buy => bounded((fair as i128) * 10005 / 10000),
                    OrderSide::Sell => bounded((fair as i128) * 9995 / 10000),
                };
                (side, p, 100_000_000 + d0 * 300)
            },
        };
        let id = self.rng.next_order_id();
        Some(
            Order::new(
                id,
                self.rng.current_time,
                name_of(t),
                self.orderbook.symbol.clone(),
                side,
                price,
                qty,
            ),
        )
    }
}

// ----------------------------------------------------------------------------
// Liquidity
// ----------------------------------------------------------------------------

/// The market with `o` submitted to its book.
pub open spec fn with_submitted(v: ObmView, o: crate::market::OrderView) -> ObmView {
    ObmView { book: submit_spec(v.book, o).0, ..v }
}

/// Level `k` of a depth ladder around `mid`: a bid and an ask named
/// "MarketMaker" at `spread * (2 + k) / 2` either side, each of quantity `q`.
pub open spec fn depth_step(v: ObmView, spread: int, mid: u64, k: int, q: u64) -> ObmView {
    let off = spread * (2 + k) / 2;
    let bid = if off < mid {
        (mid - off) as u64
    } else {
        0
    };
    let ask = bound_price(mid + off);
    let id1 = wrapping_inc(v.rng.order_id_counter);
    let id2 = wrapping_inc(id1);
    let o1 = fresh_order(id1, v.rng.current_time, "MarketMaker"@, v.book.symbol, OrderSide::Buy, bid, q);
    let o2 = fresh_order(id2, v.rng.current_time, "MarketMaker"@, v.book.symbol, OrderSide::Sell, ask, q);
    let v2 = with_submitted(with_submitted(v, o1), o2);
    ObmView { rng: DrawSource { order_id_counter: id2, ..v.rng }, ..v2 }
}

/// Levels `k` to `n - 1` of a depth ladder, the quantity falling by a fifth
/// per level.
pub open spec fn depth_levels(v: ObmView, spread: int, mid: u64, k: int, n: int, q: u64) -> ObmView
    decreases n - k,
{
    if k >= n {
        v
    } else {
        depth_levels(depth_step(v, spread, mid, k, q), spread, mid, k + 1, n, (q * 8 / 10) as u64)
    }
}

/// One market-maker quote: a fresh id, then a draw for its size of one to three lots.
pub open spec fn quote(v: ObmView, side: OrderSide, price: u64) -> ObmView {
    let id = wrapping_inc(v.rng.order_id_counter);
    let r1 = DrawSource { order_id_counter: id, ..v.rng };
    let q = (QTY_SCALE + frac_at(r1, 0) * 200) as u64;
    let o = fresh_order(id, v.rng.current_time, "MarketMaker"@, v.book.symbol, side, price, q);
    ObmView { rng: after_draws(r1, 1), ..with_submitted(v, o) }
}

/// Market makers top the book up: with both sides present, a tighter quote
/// each side when the spread exceeds twice `bps` or either best level holds
/// under half a lot; with a side empty, a fresh five-level ladder.
pub open spec fn replenish(v: ObmView, bps: u64) -> ObmView {
    let mid = v.mid();
    let spread = mid * bps / 10_000;
    if v.book.bids.len() > 0 && v.book.asks.len() > 0 {
        let bid = v.book.bids[0];
        let ask = v.book.asks[0];
        if (ask.price - bid.price) * 10_000 > 2 * bps * mid || bid.total_quantity < QTY_SCALE / 2
            || ask.total_quantity < QTY_SCALE / 2 {
            let v1 = quote(
                v,
                OrderSide::Buy,
                if spread < mid {
                    (mid - spread) as u64
                } else {
                    0
                },
            );
            quote(v1, OrderSide::Sell, bound_price(mid + spread))
        } else {
            v
        }
    } else {
        depth_levels(v, v.fair_value * bps / 10_000, v.fair_value, 0, 5, (2 * QTY_SCALE) as u64)
    }
}

impl OrderBookMarket {
    fn submit_here(&mut self, order: Order) -> (r: Vec<Trade>)
        requires
            old(self)@.wf(),
            order@.wf(),
            order@.filled == 0,
        ensures
            final(self)@ == with_submitted(old(self)@, order@),
            trades_view(r@) == submit_spec(old(self)@.book, order@).1,
            final(self)@.wf(),
    {
        submit(&mut self.orderbook, order)
    }

    fn post_quote(&mut self, side: OrderSide, price: u64)
        requires
            old(self)@.wf(),
        ensures
            final(self)@ == quote(old(self)@, side, price),
            final(self)@.wf(),
    {
        let id = self.rng.next_order_id();
        proof {
            lemma_one_draw(self.rng);
        }
        let u = self.rng.generate_random(UNIT);
        let order = Order::new(
            id,
            self.rng.current_time,
            String::from_str("MarketMaker"),
            self.orderbook.symbol.clone(),
            side,
            price,
            QTY_SCALE + u * 200,
        );
        proof {
            reveal_strlit("MarketMaker");
        }
        self.submit_here(order);
    }

    fn post_depth_level(&mut self, spread: u64, mid: u64, k: usize, q: u64)
        requires
            old(self)@.wf(),
            spread <= MAX_PRICE,
            1 <= mid <= MAX_PRICE,
        ensures
            final(self)@ == depth_step(old(self)@, spread as int, mid, k as int, q),
            final(self)@.wf(),
    {
        proof {
            assert(k as int <= 0xffff_ffff_ffff_ffff);
            assert(spread * (2 + k) <= 1_000_000_000_000_000 * (2 + 0xffff_ffff_ffff_ffff)) by (nonlinear_arith)
                requires
                    k <= 0xffff_ffff_ffff_ffff,
                    spread <= 1_000_000_000_000_000,
            ;
            assert(1_000_000_000_000_000 * (2 + 0xffff_ffff_ffff_ffff) <= 0xffff_ffff_ffff_ffff_ffff_ffff_ffff_ffff);
        }
        let off: u128 = (spread as u128) * (2 + k as u128) / 2;
        let bid: u64 = if off < mid as u128 {
            mid - off as u64
        } else {
            0
        };
        let ask: u64 = if (mid as u128) + off > MAX_PRICE as u128 {
            MAX_PRICE
        } else {
            (mid as u128 + off) as u64
        };
        let id1 = self.rng.next_order_id();
        let o1 = Order::new(
            id1,
            self.rng.current_time,
            String::from_str("MarketMaker"),
            self.orderbook.symbol.clone(),
            OrderSide::Buy,
            bid,
            q,
        );
        self.submit_here(o1);
        let id2 = self.rng.next_order_id();
        let o2 = Order::new(
            id2,
            self.rng.current_time,
            String::from_str("MarketMaker"),
            self.orderbook.symbol.clone(),
            OrderSide::Sell,
            ask,
            q,
        );
        self.submit_here(o2);
        proof {
            reveal_strlit("MarketMaker");
            assert(ask == bound_price(mid + off));
        }
    }

    /// Builds a depth ladder of `levels` bid and ask levels around the fair
    /// value, `base_spread_bps` apart per half level.
    #[verifier::spinoff_prover]
    pub fn initialize_depth(&mut self, levels: usize, base_spread_bps: u64, quantity_per_level: u64)
        requires
            old(self)@.wf(),
            base_spread_bps <= 10_000,
        ensures
            final(self)@ == depth_levels(
                old(self)@,
                old(self)@.fair_value * base_spread_bps / 10_000,
                old(self)@.fair_value,
                0,
                levels as int,
                quantity_per_level,
            ),
            final(self)@.wf(),
    {
        let ghost v0 = self@;
        let mid = self.fair_value;
        proof {
            assert(mid * base_spread_bps <= 1_000_000_000_000_000 * 10_000) by (nonlinear_arith)
                requires
                    mid <= 1_000_000_000_000_000,
                    base_spread_bps <= 10_000,
            ;
            assert(mid * base_spread_bps / 10_000 <= mid) by (nonlinear_arith)
                requires
                    base_spread_bps <= 10_000,
            ;
        }
        let spread: u64 = mid * base_spread_bps / 10_000;
        let ghost target = depth_levels(v0, spread as int, mid, 0, levels as int, quantity_per_level);
        let mut q = quantity_per_level;
        let mut k: usize = 0;
        while k < levels
            invariant
                k <= levels,
                self@.wf(),
                spread <= MAX_PRICE,
                1 <= mid <= MAX_PRICE,
                depth_levels(self@, spread as int, mid, k as int, levels as int, q) == target,
            decreases levels - k,
        {
            let ghost prev = self@;
            let ghost q0 = q;
            self.post_depth_level(spread, mid, k, q);
            q = q / 10 * 8 + q % 10 * 8 / 10;
            proof {
                assert(q == (q0 * 8 / 10) as u64);
                assert(depth_levels(prev, spread as int, mid, k as int, levels as int, q0) == depth_levels(
                    self@,
                    spread as int,
                    mid,
                    k + 1,
                    levels as int,
                    q,
                ));
            }
            k = k + 1;
        }
    }

    fn replenish_depth(&mut self, base_spread_bps: u64)
        requires
            old(self)@.wf(),
            base_spread_bps <= 10_000,
        ensures
            final(self)@ == replenish(old(self)@, base_spread_bps),
            final(self)@.wf(),
    {
        let mid = self.get_mid_price();
        proof {
            assert(mid * base_spread_bps <= 0xffff_ffff_ffff_ffff * 10_000) by (nonlinear_arith)
                requires
                    mid <= 0xffff_ffff_ffff_ffff,
                    base_spread_bps <= 10_000,
            ;
            assert(mid * base_spread_bps / 10_000 <= mid) by (nonlinear_arith)
                requires
                    base_spread_bps <= 10_000,
            ;
        }
        let spread: u64 = ((mid as u128) * (base_spread_bps as u128) / 10_000) as u64;
        match (self.orderbook.get_best_bid(), self.orderbook.get_best_ask()) {
            (Some((bid, bq)), Some((ask, aq))) => {
                proof {
                    assert(2 * base_spread_bps * mid <= 2 * 10_000 * 0xffff_ffff_ffff_ffff) by (nonlinear_arith)
                        requires
                            mid <= 0xffff_ffff_ffff_ffff,
                            base_spread_bps <= 10_000,
                    ;
                }
                if ((ask - bid) as u128) * 10_000 > 2 * (base_spread_bps as u128) * (mid as u128)
                    || bq < QTY_SCALE / 2 || aq < QTY_SCALE / 2 {
                    let buy_price = if spread < mid {
                        mid - spread
                    } else {
                        0
                    };
                    self.post_quote(OrderSide::Buy, buy_price);
                    let sell_price = if (mid as u128) + (spread as u128) > MAX_PRICE as u128 {
                        MAX_PRICE
                    } else {
                        mid + spread
                    };
                    self.post_quote(OrderSide::Sell, sell_price);
                }
            },
            _ => {
                self.initialize_depth(5, base_spread_bps, 2 * QTY_SCALE);
            },
        }
    }
}

// ----------------------------------------------------------------------------
// Traders, ticks and sessions
// ----------------------------------------------------------------------------

#[verifier::opaque]
/// One sampled trader: a draw picks the trader, whose archetype's order (if
/// any) goes to the book; the last traded price follows the last trade.
pub open spec fn sampled_turn(v: ObmView) -> (ObmView, Seq<TradeView>) {
    let nt = v.traders.len();
    let idx = frac_at(v.rng, 0) * nt / UNIT as int;
    let v1 = ObmView { rng: after_draws(v.rng, 1), ..v };
    if idx < nt {
        let (o, r2) = trader_order(v1, v.traders[idx].trader_type);
        match o {
            Some(ov) => {
                let (b, ts) = submit_spec(v1.book, ov);
                (
                    ObmView {
                        book: b,
                        rng: r2,
                        last_trade_price: if ts.len() > 0 {
                            bound_price(ts.last().price as int)
                        } else {
                            v1.last_trade_price
                        },
                        ..v1
                    },
                    ts,
                )
            },
            None => (ObmView { rng: r2, ..v1 }, Seq::empty()),
        }
    } else {
        (v1, Seq::empty())
    }
}

/// Sampled turns `k` to `n - 1`, with all their trades.
pub open spec fn sampled_round(v: ObmView, k: int, n: int) -> (ObmView, Seq<TradeView>)
    decreases n - k,
{
    if k >= n {
        (v, Seq::empty())
    } else {
        let (v1, ts1) = sampled_turn(v);
        let (v2, ts2) = sampled_round(v1, k + 1, n);
        (v2, ts1 + ts2)
    }
}

/// Two percent of the population, and at least one, trade per tick.
pub open spec fn active_count(nt: int) -> int {
    if nt * 2 / 100 >= 1 {
        nt * 2 / 100
    } else {
        1
    }
}

#[verifier::opaque]
/// One tick: the clock advances, the fair value moves, the market makers
/// replenish at a 10 bps base spread, and the sampled traders trade.
pub open spec fn obm_step(v: ObmView) -> (ObmView, Seq<TradeView>) {
    let v1 = ObmView {
        rng: DrawSource { current_time: wrapping_inc(v.rng.current_time), ..v.rng },
        ..v
    };
    let v2 = ObmView {
        rng: v1.rng.after_draw(),
        fair_value: bound_price(v1.fair_value + div_t(
            v1.fair_value * (frac_at(v1.rng, 0) - UNIT / 2),
            1_000_000_000,
        )),
        ..v1
    };
    let v3 = replenish(v2, 10);
    sampled_round(v3, 0, active_count(v3.traders.len() as int))
}

#[verifier::opaque]
/// One bar: three ticks, their trades folded into a bar, or a zero-volume
/// bar at the mid price when there were none.
pub open spec fn obm_bar(v: ObmView) -> (ObmView, BarView) {
    let t0 = v.rng.current_time;
    let (v1, ts1) = obm_step(v);
    let (v2, ts2) = obm_step(v1);
    let (v3, ts3) = obm_step(v2);
    let ts = ts1 + ts2 + ts3;
    let mid = v3.mid();
    (
        v3,
        if ts.len() > 0 {
            bar_of_trades(t0, v.book.symbol, ts)
        } else {
            make_bar(t0, v.book.symbol, mid, mid, mid, mid, 0)
        },
    )
}

/// Bars `k` to `n - 1` of a session.
pub open spec fn obm_bars(v: ObmView, k: nat, n: nat) -> (ObmView, Seq<BarView>)
    decreases n - k,
{
    if k >= n {
        (v, Seq::empty())
    } else {
        let (v1, bar) = obm_bar(v);
        let (v2, bars) = obm_bars(v1, k + 1, n);
        (v2, seq![bar] + bars)
    }
}

impl OrderBookMarket {
    fn sampled_turn_exec(&mut self) -> (r: Vec<Trade>)
        requires
            old(self)@.wf(),
        ensures
            (final(self)@, trades_view(r@)) == sampled_turn(old(self)@),
            final(self)@.wf(),
            final(self)@.traders == old(self)@.traders,
            final(self)@.book.symbol == old(self)@.book.symbol,
    {
        proof {
            reveal(sampled_turn);
            lemma_one_draw(self.rng);
        }
        let ghost v0 = self@;
        let u = self.rng.generate_random(UNIT);
        let nt = self.traders.traders.len();
        proof {
            assert(u * nt <= UNIT * 0xffff_ffff_ffff_ffff) by (nonlinear_arith)
                requires
                    u < UNIT,
                    nt <= 0xffff_ffff_ffff_ffff,
            ;
        }
        let idx = ((u as u128) * (nt as u128) / (UNIT as u128)) as usize;
        let empty: Vec<Trade> = Vec::new();
        proof {
            assert(trades_view(empty@) =~= Seq::<TradeView>::empty());
            assert(u * nt / UNIT as int <= nt) by (nonlinear_arith)
                requires
                    u < UNIT,
            ;
        }
        if idx >= nt {
            return empty;
        }
        let t = self.traders.traders[idx].trader_type;
        proof {
            assert(v0.traders[idx as int] == self.traders.traders@[idx as int]@);
        }
        match self.generate_order_for_trader_type(t) {
            Some(order) => {
                let trades = self.submit_here(order);
                if trades.len() > 0 {
                    let p = trades[trades.len() - 1].price;
                    self.last_trade_price = if p < 1 {
                        1
                    } else if p > MAX_PRICE {
                        MAX_PRICE
                    } else {
                        p
                    };
                    proof {
                        assert(trades_view(trades@).last() == trades@[trades@.len() - 1]@);
                    }
                }
                trades
            },
            None => empty,
        }
    }

    /// Lets two percent of the population (at least one trader), each drawn
    /// at random, send its archetype's order; returns all the trades made.
    pub fn generate_trader_orders(&mut self) -> (r: Vec<Trade>)
        requires
            old(self)@.wf(),
        ensures
            (final(self)@, trades_view(r@)) == sampled_round(
                old(self)@,
                0,
                active_count(old(self)@.traders.len() as int),
            ),
            final(self)@.wf(),
            final(self)@.traders == old(self)@.traders,
            final(self)@.book.symbol == old(self)@.book.symbol,
    {
        let ghost v0 = self@;
        let nt = self.traders.traders.len();
        let n: usize = if nt / 50 >= 1 {
            nt / 50
        } else {
            1
        };
        proof {
            assert(nt * 2 / 100 == nt / 50);
        }
        let ghost target = sampled_round(v0, 0, n as int);
        let mut all: Vec<Trade> = Vec::new();
        let mut k: usize = 0;
        proof {
            assert(trades_view(all@) + target.1 =~= target.1);
        }
        while k < n
            invariant
                k <= n,
                self@.wf(),
                self@.traders == v0.traders,
                self@.book.symbol == v0.book.symbol,
                sampled_round(self@, k as int, n as int).0 == target.0,
                trades_view(all@) + sampled_round(self@, k as int, n as int).1 == target.1,
            decreases n - k,
        {
            let ghost prev = self@;
            let ghost before = trades_view(all@);
            let mut ts = self.sampled_turn_exec();
            let ghost tsv = trades_view(ts@);
            all.append(&mut ts);
            proof {
                assert(trades_view(all@) =~= before + tsv);
                let rest = sampled_round(self@, k as int + 1, n as int);
                assert(sampled_round(prev, k as int, n as int) == (rest.0, tsv + rest.1));
                assert(before + (tsv + rest.1) =~= (before + tsv) + rest.1);
            }
            k = k + 1;
        }
        proof {
            assert(trades_view(all@) + Seq::<TradeView>::empty() =~= trades_view(all@));
        }
        all
    }

    /// One tick; returns the trades of the sampled traders.
    pub fn step(&mut self) -> (r: Vec<Trade>)
        requires
            old(self)@.wf(),
        ensures
            (final(self)@, trades_view(r@)) == obm_step(old(self)@),
            final(self)@.wf(),
            final(self)@.traders == old(self)@.traders,
            final(self)@.book.symbol == old(self)@.book.symbol,
    {
        proof {
            reveal(obm_step);
        }
        let ghost v0 = self@;
        self.rng.tick();
        proof {
            assert(self@ == ObmView { rng: self.rng, ..v0 });
        }
        self.update_fair_value();
        let ghost v2 = self@;
        self.replenish_depth(10);
        proof {
            lemma_replenish_frame(v2, 10);
        }
        self.generate_trader_orders()
    }

    fn bar_exec(&mut self) -> (r: MarketBar)
        requires
            old(self)@.wf(),
        ensures
            (final(self)@, r@) == obm_bar(old(self)@),
            final(self)@.wf(),
            final(self)@.book.symbol == old(self)@.book.symbol,
    {
        proof {
            reveal(obm_bar);
        }
        let t0 = self.rng.current_time;
        let mut trades = self.step();
        let mut t2 = self.step();
        let mut t3 = self.step();
        let ghost a = trades_view(trades@);
        let ghost b = trades_view(t2@);
        let ghost c = trades_view(t3@);
        trades.append(&mut t2);
        trades.append(&mut t3);
        proof {
            assert(trades_view(trades@) =~= a + b + c);
            assert(trades@.map_values(|t: Trade| t@) =~= trades_view(trades@));
        }
        match MarketBar::from_trades(t0, self.orderbook.symbol.clone(), trades.as_slice()) {
            Some(bar) => bar,
            None => {
                let mid = self.get_mid_price();
                MarketBar::new(t0, self.orderbook.symbol.clone(), mid, mid, mid, mid, 0)
            },
        }
    }

    /// Seeds the book with a ten-level ladder, then runs `num_bars` bars of
    /// three ticks each.
    pub fn simulate_session(&mut self, num_bars: usize) -> (r: Vec<MarketBar>)
        requires
            old(self)@.wf(),
        ensures
            final(self)@.wf(),
            (final(self)@, bars_view(r@)) == obm_session(old(self)@, num_bars as nat),
            r@.len() == num_bars,
    {
        self.initialize_depth(10, 10, 3 * QTY_SCALE);
        let ghost v1 = self@;
        let ghost target = obm_bars(v1, 0, num_bars as nat);
        let mut bars: Vec<MarketBar> = Vec::new();
        let mut k: usize = 0;
        proof {
            assert(bars_view(bars@) + target.1 =~= target.1);
        }
        while k < num_bars
            invariant
                k <= num_bars,
                self@.wf(),
                bars@.len() == k,
                obm_bars(self@, k as nat, num_bars as nat).0 == target.0,
                bars_view(bars@) + obm_bars(self@, k as nat, num_bars as nat).1 == target.1,
            decreases num_bars - k,
        {
            let ghost prev = self@;
            let ghost before = bars_view(bars@);
            let bar = self.bar_exec();
            let ghost bv = bar@;
            bars.push(bar);
            proof {
                let rest = obm_bars(self@, (k + 1) as nat, num_bars as nat);
                assert(obm_bars(prev, k as nat, num_bars as nat) == (rest.0, seq![bv] + rest.1));
                assert(bars_view(bars@) =~= before.push(bv));
                assert(before + (seq![bv] + rest.1) =~= before.push(bv) + rest.1);
            }
            k = k + 1;
        }
        proof {
            assert(bars_view(bars@) + Seq::<BarView>::empty() =~= bars_view(bars@));
        }
        bars
    }
}

proof fn lemma_depth_frame(v: ObmView, spread: int, mid: u64, k: int, n: int, q: u64)
    ensures
        depth_levels(v, spread, mid, k, n, q).traders == v.traders,
        depth_levels(v, spread, mid, k, n, q).book.symbol == v.book.symbol,
    decreases n - k,
{
    if k < n {
        let off = spread * (2 + k) / 2;
        let bid = if off < mid {
            (mid - off) as u64
        } else {
            0
        };
        let id1 = wrapping_inc(v.rng.order_id_counter);
        let o1 = fresh_order(id1, v.rng.current_time, "MarketMaker"@, v.book.symbol, OrderSide::Buy, bid, q);
        lemma_submit_symbol(v.book, o1);
        let id2 = wrapping_inc(id1);
        let o2 = fresh_order(id2, v.rng.current_time, "MarketMaker"@, v.book.symbol, OrderSide::Sell, bound_price(mid + off), q);
        lemma_submit_symbol(with_submitted(v, o1).book, o2);
        lemma_depth_frame(depth_step(v, spread, mid, k, q), spread, mid, k + 1, n, (q * 8 / 10) as u64);
    }
}

proof fn lemma_submit_symbol(b: BookView, o: crate::market::OrderView)
    ensures
        submit_spec(b, o).0.symbol == b.symbol,
{
}

proof fn lemma_replenish_frame(v: ObmView, bps: u64)
    ensures
        replenish(v, bps).traders == v.traders,
        replenish(v, bps).book.symbol == v.book.symbol,
{
    lemma_depth_frame(v, v.fair_value * bps / 10_000, v.fair_value, 0, 5, (2 * QTY_SCALE) as u64);
}

/// The session a fair-value market runs: the ten-level opening ladder, then
/// `num_bars` bars.
pub open spec fn obm_session(v: ObmView, num_bars: nat) -> (ObmView, Seq<BarView>) {
    obm_bars(
        depth_levels(v, v.fair_value * 10 / 10_000, v.fair_value, 0, 10, (3 * QTY_SCALE) as u64),
        0,
        num_bars,
    )
}

/// Reproducibility: two fair-value markets built for the same symbol and
/// initial price run sessions of the same length to the same state (book and
/// trade ledger included) and the same bars.
pub proof fn law_reproducible_fair_value(
    a: ObmView,
    b: ObmView,
    symbol: Seq<char>,
    price: u64,
    num_bars: nat,
)
    requires
        a.is_initial(symbol, price),
        b.is_initial(symbol, price),
    ensures
        obm_session(a, num_bars) == obm_session(b, num_bars),
{
    lemma_initial_population_unique(a.traders, a.total_capital, b.traders, b.total_capital);
    assert(a == b);
}

} // verus!
