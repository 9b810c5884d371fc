//! The simulation driver: per tick it moves the price, posts a market-maker
//! ladder around it, lets every active trader submit a limit order, and
//! folds the resulting trades into bars.
use crate::book::{trades_view, BookView, OrderBook};
use crate::draws::{draw_value, DrawSource};
use crate::market::{bar_of_trades, make_bar, BarView, MarketBar, Order, OrderSide, OrderView, Trade, TradeView};
use crate::price_process::{
    classify_regime, clamp, div_t, next_cluster, next_price, avg_vol, classify, price_step,
    prices_in_range, trend_strength, MarketRegime, ProcessState, HISTORY_LEN, MAX_PRICE, PPM,
    REGIME_WINDOW,
};
use crate::traders::{
    decimal, numbered, side_decision, trade_size, Trader, TraderPopulation, TraderView, ONE,
};
use vstd::prelude::*;
use vstd::prelude::VecAdditionalExecFns;
use vstd::string::StringExecFns;

verus! {

/// Book-shaping parameters of the market makers. Prices in price units,
/// quantities in quantity units, `depth_falloff` in units of `1 / ONE`.
#[derive(Debug, Clone, Copy, PartialEq, Eq, Structural)]
pub struct MarketMicrostructure {
    /// Base spread, in basis points.
    pub base_spread_bps: u64,
    pub depth_at_touch: u64,
    pub depth_falloff: u64,
    pub tick_size: u64,
    pub lot_size: u64,
}

impl MarketMicrostructure {
    pub open spec fn wf(self) -> bool {
        &&& self.base_spread_bps <= 10_000
        &&& self.depth_at_touch <= 1_000_000_000_000
        &&& self.depth_falloff <= ONE
        &&& 1 <= self.tick_size <= 1_000_000_000
    }
}

impl Default for MarketMicrostructure {
    fn default() -> (r: MarketMicrostructure)
        ensures
            r == (MarketMicrostructure {
                base_spread_bps: 5,
                depth_at_touch: 1_000_000_000,
                depth_falloff: 8000,
                tick_size: 100,
                lot_size: 1_000_000,
            }),
    {
        MarketMicrostructure {
            base_spread_bps: 5,
            depth_at_touch: 1_000_000_000,
            depth_falloff: 8000,
            tick_size: 100,
            lot_size: 1_000_000,
        }
    }
}

/// The abstract content of a simulator.
pub struct SimView {
    pub symbols: Seq<Seq<char>>,
    pub books: Seq<BookView>,
    pub last_prices: Seq<Option<u64>>,
    pub histories: Seq<Seq<u64>>,
    pub rng: DrawSource,
    pub process: ProcessState,
    pub volatility: i64,
    pub micro: MarketMicrostructure,
    pub traders: Seq<TraderView>,
    pub total_capital: u64,
}

/// A multi-symbol market; the books, last prices and price histories are
/// indexed like `symbols`.
pub struct MarketSimulator {
    pub orderbooks: Vec<OrderBook>,
    pub symbols: Vec<String>,
    pub rng: DrawSource,
    pub process: ProcessState,
    /// Nominal volatility, in ppm.
    pub volatility: i64,
    pub microstructure: MarketMicrostructure,
    pub last_prices: Vec<Option<u64>>,
    pub price_history: Vec<Vec<u64>>,
    pub traders: TraderPopulation,
}

pub open spec fn books_view(v: Seq<OrderBook>) -> Seq<BookView> {
    v.map_values(|b: OrderBook| b@)
}

pub open spec fn strings_view(v: Seq<String>) -> Seq<Seq<char>> {
    v.map_values(|s: String| s@)
}

pub open spec fn histories_view(v: Seq<Vec<u64>>) -> Seq<Seq<u64>> {
    v.map_values(|h: Vec<u64>| h@)
}

pub open spec fn traders_view(v: Seq<Trader>) -> Seq<TraderView> {
    v.map_values(|t: Trader| t@)
}

impl View for MarketSimulator {
    type V = SimView;

    open spec fn view(&self) -> SimView {
        SimView {
            symbols: strings_view(self.symbols@),
            books: books_view(self.orderbooks@),
            last_prices: self.last_prices@,
            histories: histories_view(self.price_history@),
            rng: self.rng,
            process: self.process,
            volatility: self.volatility,
            micro: self.microstructure,
            traders: traders_view(self.traders.traders@),
            total_capital: self.traders.total_capital,
        }
    }
}

impl SimView {
    pub open spec fn wf(self) -> bool {
        &&& self.books.len() == self.symbols.len()
        &&& self.last_prices.len() == self.symbols.len()
        &&& self.histories.len() == self.symbols.len()
        &&& forall|i: int|
            0 <= i < self.symbols.len() ==> {
                &&& (#[trigger] self.books[i]).wf()
                &&& self.books[i].symbol == self.symbols[i]
            }
        &&& forall|i: int|
            0 <= i < self.symbols.len() ==> {
                &&& prices_in_range(#[trigger] self.histories[i])
                &&& self.histories[i].len() <= HISTORY_LEN
            }
        &&& forall|i: int|
            0 <= i < self.symbols.len() ==> (#[trigger] self.last_prices[i] matches Some(p) ==> 1
                <= p <= MAX_PRICE)
        &&& self.process.wf()
        &&& self.micro.wf()
        &&& forall|t: int| 0 <= t < self.traders.len() ==> (#[trigger] self.traders[t]).wf()
    }
}

/// Index of the first symbol equal to `s` at or after `k`.
pub open spec fn find_from(syms: Seq<Seq<char>>, s: Seq<char>, k: int) -> Option<int>
    decreases syms.len() - k,
{
    if k < 0 || k >= syms.len() {
        None
    } else if syms[k] == s {
        Some(k)
    } else {
        find_from(syms, s, k + 1)
    }
}

pub open spec fn symbol_index(syms: Seq<Seq<char>>, s: Seq<char>) -> Option<int> {
    find_from(syms, s, 0)
}

proof fn lemma_find_from(syms: Seq<Seq<char>>, s: Seq<char>, k: int)
    ensures
        find_from(syms, s, k) matches Some(i) ==> 0 <= k <= i < syms.len() && syms[i] == s,
    decreases syms.len() - k,
{
    if 0 <= k < syms.len() && syms[k] != s {
        lemma_find_from(syms, s, k + 1);
    }
}

fn find_symbol(symbols: &Vec<String>, key: &String, k: usize) -> (r: Option<usize>)
    requires
        k <= symbols@.len(),
    ensures
        r matches Some(i) ==> i < symbols@.len(),
        match r {
            Some(i) => find_from(strings_view(symbols@), key@, k as int) == Some(i as int),
            None => find_from(strings_view(symbols@), key@, k as int) is None,
        },
    decreases symbols@.len() - k,
{
    if k >= symbols.len() {
        return None;
    }
    proof {
        assert(strings_view(symbols@)[k as int] == symbols@[k as int]@);
    }
    if symbols[k] == *key {
        Some(k)
    } else {
        find_symbol(symbols, key, k + 1)
    }
}

/// The source after `k` draws.
pub open spec fn after_draws(src: DrawSource, k: nat) -> DrawSource
    decreases k,
{
    if k == 0 {
        src
    } else {
        after_draws(src, (k - 1) as nat).after_draw()
    }
}

/// The value of the `k`-th draw (from 0) taken from `src`, before reduction.
pub open spec fn draw_at(src: DrawSource, k: nat) -> u64 {
    let s = after_draws(src, k);
    draw_value(s.seed, s.current_time, s.order_id_counter)
}

/// The history after `p` is appended, keeping the last `HISTORY_LEN` prices.
pub open spec fn push_history(h: Seq<u64>, p: u64) -> Seq<u64> {
    if h.len() + 1 > HISTORY_LEN {
        h.push(p).drop_first()
    } else {
        h.push(p)
    }
}

/// The regime and volatility cluster after the history has grown to `h`.
pub open spec fn regime_update(st: ProcessState, h: Seq<u64>) -> ProcessState {
    if h.len() < REGIME_WINDOW {
        st
    } else {
        ProcessState {
            regime: classify(avg_vol(h), trend_strength(h)),
            volatility_cluster: next_cluster(st.volatility_cluster as int, avg_vol(h)) as i64,
            ..st
        }
    }
}

/// The price the process starts a tick from: the symbol's last price, or `base`.
pub open spec fn current_price(s: SimView, idx: Option<int>, base: u64) -> u64 {
    match idx {
        Some(i) => match s.last_prices[i] {
            Some(p) => p,
            None => base,
        },
        None => base,
    }
}

/// One move of the price process for the symbol at `idx`: five draws (four
/// game moves and a noise term), the price step, and, for a known symbol, the
/// history, last price and regime updated. Returns the state and the new price.
pub open spec fn price_movement(s: SimView, idx: Option<int>, base: u64) -> (SimView, u64) {
    let current = current_price(s, idx, base);
    let hist = match idx {
        Some(i) => s.histories[i],
        None => Seq::empty(),
    };
    let r = s.rng;
    let moves = (draw_at(r, 0) % 3, draw_at(r, 1) % 3, draw_at(r, 2) % 3, draw_at(r, 3) % 3);
    let noise = draw_at(r, 4) % 100;
    let (trend, momentum, price) = price_step(s.process, hist, current, moves, noise);
    let st = ProcessState { trend: trend as i64, momentum: momentum as i64, ..s.process };
    match idx {
        Some(i) => {
            let h2 = push_history(hist, price);
            (
                SimView {
                    rng: after_draws(r, 5),
                    process: regime_update(st, h2),
                    last_prices: s.last_prices.update(i, Some(price)),
                    histories: s.histories.update(i, h2),
                    ..s
                },
                price,
            )
        },
        None => (SimView { rng: after_draws(r, 5), process: st, ..s }, price),
    }
}

/// A book with no orders and no trades.
pub open spec fn empty_book(symbol: Seq<char>) -> BookView {
    BookView {
        symbol,
        bids: Seq::empty(),
        asks: Seq::empty(),
        last_price: None,
        trades: Seq::empty(),
    }
}

/// Trader `j` of cohort `k` as the roster builds it.
pub open spec fn initial_trader(k: int, j: int) -> TraderView {
    let ty = crate::traders::cohort_type(k);
    let capital = (crate::traders::cohort_capital(k).0 + j * crate::traders::cohort_capital(k).1) as u64;
    let p = crate::traders::params_of(ty);
    TraderView {
        id: crate::traders::cohort_prefix(k) + decimal(j as nat),
        trader_type: ty,
        capital,
        activity_level: p.activity_level,
        avg_trade_size: (capital * (crate::market::PRICE_SCALE / 100) * p.size_pct) as u64,
        trade_size_variance: p.trade_size_variance,
        win_rate: p.win_rate,
        patience: p.patience,
        aggression: p.aggression,
        risk_tolerance: p.risk_tolerance,
        trades_today: 0,
        pnl: 0,
        position: 0,
        last_trade_time: 0,
    }
}

pub open spec fn view_capital_sum(ts: Seq<TraderView>) -> int
    decreases ts.len(),
{
    if ts.len() == 0 {
        0
    } else {
        view_capital_sum(ts.drop_last()) + ts.last().capital
    }
}

proof fn lemma_capital_sum_view(ts: Seq<Trader>)
    ensures
        crate::traders::capital_sum(ts) == view_capital_sum(traders_view(ts)),
    decreases ts.len(),
{
    if ts.len() > 0 {
        lemma_capital_sum_view(ts.drop_last());
        assert(traders_view(ts).drop_last() =~= traders_view(ts.drop_last()));
    }
}

impl SimView {
    /// The state `MarketSimulator::new` builds for `syms`: empty books, no
    /// prices, seed 42, the initial process state and parameters, and the
    /// fixed roster.
    pub open spec fn is_initial(self, syms: Seq<Seq<char>>) -> bool {
        &&& self.symbols == syms
        &&& self.books.len() == syms.len()
        &&& self.last_prices.len() == syms.len()
        &&& self.histories.len() == syms.len()
        &&& forall|i: int|
            0 <= i < syms.len() ==> {
                &&& #[trigger] self.books[i] == empty_book(syms[i])
                &&& self.last_prices[i] is None
                &&& self.histories[i] == Seq::<u64>::empty()
            }
        &&& self.rng == (DrawSource { seed: 42, current_time: 0, order_id_counter: 0 })
        &&& self.process == (ProcessState {
            regime: MarketRegime::Trending,
            trend: 0,
            volatility_cluster: PPM,
            momentum: 0,
        })
        &&& self.volatility == 20_000
        &&& self.micro == (MarketMicrostructure {
            base_spread_bps: 5,
            depth_at_touch: 1_000_000_000,
            depth_falloff: 8000,
            tick_size: 100,
            lot_size: 1_000_000,
        })
        &&& is_initial_population(self.traders, self.total_capital)
    }
}

/// The roster as `TraderPopulation::new` builds it, with its total capital.
pub open spec fn is_initial_population(traders: Seq<TraderView>, total: u64) -> bool {
    &&& traders.len() == crate::traders::POPULATION_SIZE
    &&& forall|k: int, i: int|
        #![trigger traders[i], crate::traders::cohort_start(k)]
        0 <= k < 7 && crate::traders::cohort_start(k) <= i < crate::traders::cohort_start(k + 1)
            ==> traders[i] == initial_trader(k, i - crate::traders::cohort_start(k))
    &&& total == view_capital_sum(traders)
}

/// The population `TraderPopulation::new` returns is the initial roster.
pub proof fn lemma_initial_population(p: &TraderPopulation)
    requires
        p.traders@.len() == crate::traders::POPULATION_SIZE,
        forall|k: int, i: int|
            #![trigger p.traders@[i], crate::traders::cohort_start(k)]
            0 <= k < 7 && crate::traders::cohort_start(k) <= i < crate::traders::cohort_start(k + 1)
                ==> crate::traders::is_census_member(p.traders@[i], k, i - crate::traders::cohort_start(k)),
        p.total_capital == crate::traders::capital_sum(p.traders@),
    ensures
        is_initial_population(traders_view(p.traders@), p.total_capital),
{
    let v = traders_view(p.traders@);
    assert forall|k: int, i: int|
        #![trigger v[i], crate::traders::cohort_start(k)]
        0 <= k < 7 && crate::traders::cohort_start(k) <= i < crate::traders::cohort_start(k + 1)
        implies v[i] == initial_trader(k, i - crate::traders::cohort_start(k)) by {
        assert(v[i] == p.traders@[i]@);
        assert(crate::traders::is_census_member(p.traders@[i], k, i - crate::traders::cohort_start(k)));
    }
    lemma_capital_sum_view(p.traders@);
}

/// Two initial rosters are the same roster.
pub proof fn lemma_initial_population_unique(a: Seq<TraderView>, ta: u64, b: Seq<TraderView>, tb: u64)
    requires
        is_initial_population(a, ta),
        is_initial_population(b, tb),
    ensures
        a == b,
        ta == tb,
{
    assert forall|i: int| 0 <= i < a.len() implies #[trigger] a[i] == b[i] by {
        let k = if i < 1000 { 0int } else if i < 1100 { 1 } else if i < 1300 { 2 } else if i < 1350 { 3 } else if i < 1360 { 4 } else if i < 1410 { 5 } else { 6 };
        assert(crate::traders::cohort_start(k) <= i < crate::traders::cohort_start(k + 1));
    }
    assert(a =~= b);
}

/// Reproducibility: two simulators built for the same symbols start in the
/// same state, so a session run on each from the same initial price for the
/// same number of bars ends in the same state (books and trade ledgers
/// included) with the same bars.
pub proof fn law_reproducible(
    a: SimView,
    b: SimView,
    syms: Seq<Seq<char>>,
    symbol: Seq<char>,
    initial_price: u64,
    num_bars: nat,
)
    requires
        a.is_initial(syms),
        b.is_initial(syms),
    ensures
        session_spec(a, symbol, initial_price, 0, num_bars) == session_spec(
            b,
            symbol,
            initial_price,
            0,
            num_bars,
        ),
{
    lemma_initial_population_unique(a.traders, a.total_capital, b.traders, b.total_capital);
    assert forall|i: int| 0 <= i < a.books.len() implies #[trigger] a.books[i] == b.books[i] by {
        assert(a.books[i] == empty_book(syms[i]));
        assert(b.books[i] == empty_book(syms[i]));
    }
    assert(a.books =~= b.books);
    assert forall|i: int| 0 <= i < a.histories.len() implies #[trigger] a.histories[i] == b.histories[i] by {
        assert(a.books[i] == empty_book(syms[i]));
        assert(b.books[i] == empty_book(syms[i]));
        assert(a.histories[i] == Seq::<u64>::empty());
    }
    assert(a.histories =~= b.histories);
    assert forall|i: int| 0 <= i < a.last_prices.len() implies #[trigger] a.last_prices[i] == b.last_prices[i] by {
        assert(a.books[i] == empty_book(syms[i]));
        assert(b.books[i] == empty_book(syms[i]));
        assert(a.last_prices[i] is None);
    }
    assert(a.last_prices =~= b.last_prices);
    assert(a == b);
}

fn draw_price_inputs(rng: &mut DrawSource) -> (r: (u64, u64, u64, u64, u64))
    ensures
        r == (draw_at(*old(rng), 0) % 3, draw_at(*old(rng), 1) % 3, draw_at(*old(rng), 2) % 3,
            draw_at(*old(rng), 3) % 3, draw_at(*old(rng), 4) % 100),
        *final(rng) == after_draws(*old(rng), 5),
{
    let ghost r0 = *rng;
    proof {
        assert(after_draws(r0, 0) == r0);
        assert(after_draws(r0, 1) == r0.after_draw());
        assert(after_draws(r0, 2) == after_draws(r0, 1).after_draw());
        assert(after_draws(r0, 3) == after_draws(r0, 2).after_draw());
        assert(after_draws(r0, 4) == after_draws(r0, 3).after_draw());
        assert(after_draws(r0, 5) == after_draws(r0, 4).after_draw());
    }
    let m1 = rng.generate_random(3);
    let m2 = rng.generate_random(3);
    let m3 = rng.generate_random(3);
    let m4 = rng.generate_random(3);
    let noise = rng.generate_random(100);
    (m1, m2, m3, m4, noise)
}

/// Appends `price` to history `i` and updates the regime from it.
fn record_price(
    histories: &mut Vec<Vec<u64>>,
    process: &mut ProcessState,
    i: usize,
    price: u64,
)
    requires
        i < old(histories)@.len(),
        prices_in_range(old(histories)@[i as int]@),
        old(histories)@[i as int]@.len() <= HISTORY_LEN,
        1 <= price <= MAX_PRICE,
        old(process).wf(),
    ensures
        histories_view(final(histories)@) == histories_view(old(histories)@).update(
            i as int,
            push_history(old(histories)@[i as int]@, price),
        ),
        *final(process) == regime_update(*old(process), push_history(old(histories)@[i as int]@, price)),
        final(process).wf(),
        prices_in_range(push_history(old(histories)@[i as int]@, price)),
        push_history(old(histories)@[i as int]@, price).len() <= HISTORY_LEN,
{
    let ghost h0 = histories@[i as int]@;
    histories[i].push(price);
    if histories[i].len() > HISTORY_LEN {
        histories[i].remove(0);
    }
    proof {
        let h2 = push_history(h0, price);
        assert(histories@[i as int]@ =~= h2);
        assert(histories_view(histories@) =~= histories_view(old(histories)@).update(i as int, h2));
    }
    if histories[i].len() >= REGIME_WINDOW {
        let (regime, avg) = classify_regime(&histories[i]);
        process.regime = regime;
        process.volatility_cluster = (9 * process.volatility_cluster + 50 * avg) / 10;
        proof {
            assert(process.volatility_cluster == next_cluster(old(process).volatility_cluster as int, avg as int));
        }
    }
}

impl MarketSimulator {
    /// A simulator for the given symbols: empty books, no prices yet, seed
    /// 42, a trending regime, and the fixed trader population.
    pub fn new(symbols: Vec<String>) -> (r: MarketSimulator)
        ensures
            r@.wf(),
            r@.is_initial(strings_view(symbols@)),
            r.traders.traders@.len() == crate::traders::POPULATION_SIZE,
    {
        let mut orderbooks: Vec<OrderBook> = Vec::new();
        let mut last_prices: Vec<Option<u64>> = Vec::new();
        let mut price_history: Vec<Vec<u64>> = Vec::new();
        let mut i: usize = 0;
        while i < symbols.len()
            invariant
                i <= symbols@.len(),
                orderbooks@.len() == i,
                last_prices@.len() == i,
                price_history@.len() == i,
                forall|j: int|
                    0 <= j < i ==> {
                        &&& (#[trigger] orderbooks@[j])@.wf()
                        &&& orderbooks@[j]@.symbol == symbols@[j]@
                        &&& orderbooks@[j]@.bids.len() == 0
                        &&& orderbooks@[j]@.asks.len() == 0
                        &&& orderbooks@[j]@.trades.len() == 0
                        &&& orderbooks@[j]@.last_price is None
                        &&& last_prices@[j] is None
                        &&& price_history@[j]@.len() == 0
                    },
            decreases symbols@.len() - i,
        {
            orderbooks.push(OrderBook::new(symbols[i].clone()));
            last_prices.push(None);
            price_history.push(Vec::new());
            i = i + 1;
        }
        let traders = TraderPopulation::new();
        let r = MarketSimulator {
            orderbooks,
            symbols,
            rng: DrawSource::new(42),
            process: ProcessState {
                regime: MarketRegime::Trending,
                trend: 0,
                volatility_cluster: PPM,
                momentum: 0,
            },
            volatility: 20_000,
            microstructure: MarketMicrostructure::default(),
            last_prices,
            price_history,
            traders,
        };
        proof {
            let v = r@;
            assert forall|i: int| 0 <= i < v.symbols.len() implies {
                &&& (#[trigger] v.books[i]).wf()
                &&& v.books[i].symbol == v.symbols[i]
            } by {
                assert(v.books[i] == r.orderbooks@[i]@);
            }
            assert forall|i: int| 0 <= i < v.symbols.len() implies {
                &&& prices_in_range(#[trigger] v.histories[i])
                &&& v.histories[i].len() <= HISTORY_LEN
            } by {
                assert(r.orderbooks@[i]@.wf());
                assert(v.histories[i] == r.price_history@[i]@);
            }
            assert forall|t: int| 0 <= t < v.traders.len() implies (#[trigger] v.traders[t]).wf() by {
                assert(v.traders[t] == r.traders.traders@[t]@);
                let k = if t < 1000 { 0int } else if t < 1100 { 1 } else if t < 1300 { 2 } else if t < 1350 { 3 } else if t < 1360 { 4 } else if t < 1410 { 5 } else { 6 };
                assert(crate::traders::cohort_start(k) <= t < crate::traders::cohort_start(k + 1));
                assert(crate::traders::is_census_member(r.traders.traders@[t], k, t - crate::traders::cohort_start(k)));
                assert(r.traders.traders@[t].wf());
            }
            assert forall|i: int| 0 <= i < v.symbols.len() implies (#[trigger] v.last_prices[i] matches Some(p) ==> 1
                <= p <= MAX_PRICE) by {
                assert(r.orderbooks@[i]@.wf());
            }
            assert(v.process.wf());
            assert(v.micro.wf());
            assert forall|i: int| 0 <= i < v.symbols.len() implies {
                &&& #[trigger] v.books[i] == empty_book(v.symbols[i])
                &&& v.last_prices[i] is None
                &&& v.histories[i] == Seq::<u64>::empty()
            } by {
                assert(r.orderbooks@[i]@.wf());
                assert(v.books[i] == r.orderbooks@[i]@);
                assert(v.books[i].bids =~= Seq::<crate::book::LevelView>::empty());
                assert(v.books[i].asks =~= Seq::<crate::book::LevelView>::empty());
                assert(v.books[i].trades =~= Seq::<TradeView>::empty());
                assert(v.histories[i] =~= Seq::<u64>::empty());
            }
            lemma_initial_population(&r.traders);
        }
        r
    }

    fn index_of(&self, symbol: &str) -> (r: Option<usize>)
        ensures
            r matches Some(i) ==> i < self.symbols@.len(),
            r matches Some(i) ==> symbol_index(self@.symbols, symbol@) == Some(i as int),
            r is None ==> symbol_index(self@.symbols, symbol@) is None,
    {
        let key = String::from_str(symbol);
        find_symbol(&self.symbols, &key, 0)
    }

    /// Sets the price the process starts from; a symbol the simulator does
    /// not know is ignored.
    pub fn set_initial_price(&mut self, symbol: &str, price: u64)
        requires
            old(self)@.wf(),
            1 <= price <= MAX_PRICE,
        ensures
            final(self)@.wf(),
            final(self)@ == (match symbol_index(old(self)@.symbols, symbol@) {
                Some(i) => SimView {
                    last_prices: old(self)@.last_prices.update(i, Some(price)),
                    ..old(self)@
                },
                None => old(self)@,
            }),
    {
        match self.index_of(symbol) {
            Some(i) => {
                self.last_prices.set(i, Some(price));
            },
            None => {},
        }
    }

    pub fn next_order_id(&mut self) -> (r: u64)
        ensures
            r == crate::draws::wrapping_inc(old(self)@.rng.order_id_counter),
            final(self)@ == (SimView {
                rng: DrawSource { order_id_counter: r, ..old(self)@.rng },
                ..old(self)@
            }),
    {
        self.rng.next_order_id()
    }

    /// A draw uniform over `0..range` from the deterministic source.
    pub fn generate_random(&mut self, range: u64) -> (r: u64)
        requires
            range > 0,
        ensures
            r == draw_at(old(self)@.rng, 0) % range,
            final(self)@ == (SimView { rng: after_draws(old(self)@.rng, 1), ..old(self)@ }),
    {
        proof {
            assert(after_draws(self.rng, 1) == after_draws(self.rng, 0).after_draw());
        }
        self.rng.generate_random(range)
    }

    /// Advances the price process of `symbol` by one move and returns the new
    /// price; `base_price` stands in for a symbol without a price yet.
    pub fn generate_price_movement(&mut self, symbol: &str, base_price: u64) -> (r: u64)
        requires
            old(self)@.wf(),
            1 <= base_price <= MAX_PRICE,
        ensures
            final(self)@.wf(),
            (final(self)@, r) == price_movement(
                old(self)@,
                symbol_index(old(self)@.symbols, symbol@),
                base_price,
            ),
            1 <= r <= MAX_PRICE,
    {
        let ghost s0 = self@;
        let idx = self.index_of(symbol);
        let current = match idx {
            Some(i) => match self.last_prices[i] {
                Some(p) => p,
                None => base_price,
            },
            None => base_price,
        };
        let ghost r0 = self.rng;
        let (m1, m2, m3, m4, noise) = draw_price_inputs(&mut self.rng);
        let empty: Vec<u64> = Vec::new();
        let (trend, momentum, price) = match idx {
            Some(i) => {
                proof {
                    assert(s0.histories[i as int] == self.price_history@[i as int]@);
                }
                next_price(self.process, &self.price_history[i], current, (m1, m2, m3, m4), noise)
            },
            None => {
                proof {
                    assert(prices_in_range(empty@));
                    assert(empty@ =~= Seq::<u64>::empty());
                }
                next_price(self.process, &empty, current, (m1, m2, m3, m4), noise)
            },
        };
        self.process.trend = trend;
        self.process.momentum = momentum;
        match idx {
            Some(i) => {
                self.last_prices.set(i, Some(price));
                record_price(&mut self.price_history, &mut self.process, i, price);
            },
            None => {},
        }
        proof {
            let v = self@;
            assert(v.symbols == s0.symbols);
            assert(v.books == s0.books);
            assert(v.traders == s0.traders);
            match idx {
                Some(i) => {
                    assert(v.histories =~= s0.histories.update(
                        i as int,
                        push_history(s0.histories[i as int], price),
                    ));
                },
                None => {},
            }
        }
        price
    }
}

// ----------------------------------------------------------------------------
// Market-maker ladder
// ----------------------------------------------------------------------------

/// The book after an order is submitted: matched and rested when the book
/// admits it, unchanged otherwise.
pub open spec fn submit_spec(book: BookView, o: OrderView) -> (BookView, Seq<TradeView>) {
    if book.admits(o) {
        book.add_order(o)
    } else {
        (book, Seq::empty())
    }
}

pub(crate) fn submit(book: &mut OrderBook, order: Order) -> (r: Vec<Trade>)
    requires
        old(book)@.wf(),
        order@.wf(),
        order@.filled == 0,
    ensures
        (final(book)@, trades_view(r@)) == submit_spec(old(book)@, order@),
        final(book)@.wf(),
{
    if order.price > 0 && order.quantity > 0 && book.can_accept(&order) {
        book.add_order(order)
    } else {
        let r: Vec<Trade> = Vec::new();
        proof {
            assert(trades_view(r@) =~= Seq::<TradeView>::empty());
        }
        r
    }
}

/// The spread of the ladder in tenths of a basis point: doubled in high
/// volatility or crisis, halved in low volatility.
pub open spec fn spread_tenths(micro: MarketMicrostructure, regime: MarketRegime) -> int {
    micro.base_spread_bps * match regime {
        MarketRegime::HighVolatility | MarketRegime::Crisis => 20int,
        MarketRegime::LowVolatility => 5int,
        _ => 10int,
    }
}

pub open spec fn half_spread(center: u64, micro: MarketMicrostructure, regime: MarketRegime) -> int {
    center * spread_tenths(micro, regime) / 200_000
}

/// Bid of ladder level `k`: below the centre by the half spread and
/// `5 * (k + 1)` ticks, rounded down to a tick; zero if that is not positive.
pub open spec fn ladder_bid(center: u64, half: int, tick: u64, k: int) -> u64 {
    let raw = center - half - (k + 1) * tick * 5;
    if raw <= 0 {
        0
    } else {
        ((raw / tick as int) * tick) as u64
    }
}

/// Ask of ladder level `k`: above the centre by the half spread and
/// `5 * (k + 1)` ticks, rounded up to a tick.
pub open spec fn ladder_ask(center: u64, half: int, tick: u64, k: int) -> u64 {
    let raw = center + half + (k + 1) * tick * 5;
    (((raw + tick - 1) / tick as int) * tick) as u64
}

#[verifier::opaque]
/// One ladder level: a draw for the size noise, then a bid and an ask, each
/// with a fresh id and a drawn market-maker name, submitted in that order.
pub open spec fn mm_level(
    s: SimView,
    idx: Option<int>,
    symbol: Seq<char>,
    center: u64,
    half: int,
    k: int,
    depth: u64,
) -> SimView {
    let r0 = s.rng;
    let d = draw_at(r0, 0) % 40;
    let r1 = after_draws(r0, 1);
    let qty = (depth * (80 + d) / 100) as u64;
    let buy_id = crate::draws::wrapping_inc(r1.order_id_counter);
    let r2 = DrawSource { order_id_counter: buy_id, ..r1 };
    let bn = draw_at(r2, 0) % 100;
    let r3 = after_draws(r2, 1);
    let sell_id = crate::draws::wrapping_inc(r3.order_id_counter);
    let r4 = DrawSource { order_id_counter: sell_id, ..r3 };
    let sn = draw_at(r4, 0) % 100;
    let buy = crate::market::fresh_order(
        buy_id,
        r0.current_time,
        "mm_"@ + decimal(bn as nat),
        symbol,
        OrderSide::Buy,
        ladder_bid(center, half, s.micro.tick_size, k),
        qty,
    );
    let sell = crate::market::fresh_order(
        sell_id,
        r0.current_time,
        "mm_"@ + decimal(sn as nat),
        symbol,
        OrderSide::Sell,
        ladder_ask(center, half, s.micro.tick_size, k),
        qty,
    );
    let books = match idx {
        Some(i) => s.books.update(i, submit_spec(submit_spec(s.books[i], buy).0, sell).0),
        None => s.books,
    };
    SimView { rng: after_draws(r4, 1), books, ..s }
}

/// Ladder levels `k` to 9, the depth shrinking by the falloff per level.
pub open spec fn mm_ladder(
    s: SimView,
    idx: Option<int>,
    symbol: Seq<char>,
    center: u64,
    half: int,
    k: int,
    depth: u64,
) -> SimView
    decreases 10 - k,
{
    if k >= 10 {
        s
    } else {
        mm_ladder(
            mm_level(s, idx, symbol, center, half, k, depth),
            idx,
            symbol,
            center,
            half,
            k + 1,
            (depth * s.micro.depth_falloff / ONE as int) as u64,
        )
    }
}

pub proof fn lemma_one_draw(r: DrawSource)
    ensures
        after_draws(r, 1) == r.after_draw(),
        draw_at(r, 0) == draw_value(r.seed, r.current_time, r.order_id_counter),
{
    assert(after_draws(r, 0) == r);
}

impl MarketSimulator {
    fn post_level(
        &mut self,
        idx: Option<usize>,
        symbol: &String,
        center: u64,
        half: u64,
        k: u64,
        depth: u64,
    )
        requires
            old(self)@.wf(),
            idx matches Some(i) ==> i < old(self)@.symbols.len() && old(self)@.symbols[i as int]
                == symbol@,
            1 <= center <= MAX_PRICE,
            half <= MAX_PRICE,
            k < 10,
            depth <= 1_000_000_000_000,
        ensures
            final(self)@ == mm_level(
                old(self)@,
                match idx {
                    Some(i) => Some(i as int),
                    None => None,
                },
                symbol@,
                center,
                half as int,
                k as int,
                depth,
            ),
            final(self)@.wf(),
            final(self)@.micro == old(self)@.micro,
            final(self)@.symbols == old(self)@.symbols,
            final(self)@.traders == old(self)@.traders,
            final(self)@.process == old(self)@.process,
            final(self)@.last_prices == old(self)@.last_prices,
            final(self)@.histories == old(self)@.histories,
    {
        let ghost s0 = self@;
        proof {
            reveal(mm_level);
        }
        let tick = self.microstructure.tick_size;
        proof {
            lemma_one_draw(self.rng);
        }
        let d = self.rng.generate_random(40);
        proof {
            assert(depth * (80 + d) <= 1_000_000_000_000 * 120) by (nonlinear_arith)
                requires
                    depth <= 1_000_000_000_000,
                    d < 40,
            ;
            assert((k + 1) * tick <= 10 * 1_000_000_000) by (nonlinear_arith)
                requires
                    k < 10,
                    tick <= 1_000_000_000,
            ;
        }
        let qty = depth * (80 + d) / 100;
        let step = (k + 1) * tick * 5;
        proof {
            let x = center - half - step;
            if x >= 0 {
                assert((x / tick as int) * tick <= x) by (nonlinear_arith)
                    requires
                        tick >= 1,
                        x >= 0,
                ;
            }
            let y = center + half + step + tick - 1;
            assert((y / tick as int) * tick <= y) by (nonlinear_arith)
                requires
                    tick >= 1,
                    y >= 0,
            ;
        }
        let buy_price: u64 = if center as u128 <= half as u128 + step as u128 {
            0
        } else {
            ((center - half - step) / tick) * tick
        };
        let sell_price: u64 = ((center + half + step + tick - 1) / tick) * tick;
        let buy_id = self.rng.next_order_id();
        proof {
            lemma_one_draw(self.rng);
        }
        let bn = self.rng.generate_random(100);
        let buy = Order::new(
            buy_id,
            self.rng.current_time,
            numbered("mm_", bn),
            symbol.clone(),
            OrderSide::Buy,
            buy_price,
            qty,
        );
        let sell_id = self.rng.next_order_id();
        proof {
            lemma_one_draw(self.rng);
        }
        let sn = self.rng.generate_random(100);
        let sell = Order::new(
            sell_id,
            self.rng.current_time,
            numbered("mm_", sn),
            symbol.clone(),
            OrderSide::Sell,
            sell_price,
            qty,
        );
        proof {
            assert(buy@ == crate::market::fresh_order(
                buy_id,
                s0.rng.current_time,
                "mm_"@ + decimal(bn as nat),
                symbol@,
                OrderSide::Buy,
                ladder_bid(center, half as int, tick, k as int),
                qty,
            ));
            assert(sell@.price == ladder_ask(center, half as int, tick, k as int));
        }
        match idx {
            Some(i) => {
                proof {
                    assert(s0.books[i as int] == self.orderbooks@[i as int]@);
                    assert(s0.books[i as int].wf());
                }
                submit(&mut self.orderbooks[i], buy);
                submit(&mut self.orderbooks[i], sell);
                proof {
                    let v = self@;
                    assert(v.books =~= s0.books.update(
                        i as int,
                        submit_spec(submit_spec(s0.books[i as int], buy@).0, sell@).0,
                    ));
                    assert forall|j: int| 0 <= j < v.symbols.len() implies {
                        &&& (#[trigger] v.books[j]).wf()
                        &&& v.books[j].symbol == v.symbols[j]
                    } by {
                        if j != i {
                            assert(v.books[j] == s0.books[j]);
                        }
                    }
                }
            },
            None => {},
        }
    }

    /// Posts ten bid and ask levels around `center_price` for `symbol`, the
    /// spread set by the regime, the size shrinking geometrically per level.
    pub fn add_market_maker_orders(&mut self, symbol: &str, center_price: u64)
        requires
            old(self)@.wf(),
            1 <= center_price <= MAX_PRICE,
        ensures
            final(self)@.wf(),
            final(self)@ == mm_ladder(
                old(self)@,
                symbol_index(old(self)@.symbols, symbol@),
                symbol@,
                center_price,
                half_spread(center_price, old(self)@.micro, old(self)@.process.regime),
                0,
                old(self)@.micro.depth_at_touch,
            ),
            final(self)@.symbols == old(self)@.symbols,
            final(self)@.micro == old(self)@.micro,
            final(self)@.traders == old(self)@.traders,
            final(self)@.process == old(self)@.process,
            final(self)@.last_prices == old(self)@.last_prices,
            final(self)@.histories == old(self)@.histories,
    {
        let ghost s0 = self@;
        let idx = self.index_of(symbol);
        proof {
            lemma_find_from(s0.symbols, symbol@, 0);
        }
        let key = String::from_str(symbol);
        let factor: u64 = match self.process.regime {
            MarketRegime::HighVolatility | MarketRegime::Crisis => 20,
            MarketRegime::LowVolatility => 5,
            _ => 10,
        };
        proof {
            assert(center_price * (self.microstructure.base_spread_bps * factor) <= 1_000_000_000_000_000 * 200_000) by (nonlinear_arith)
                requires
                    center_price <= 1_000_000_000_000_000,
                    self.microstructure.base_spread_bps * factor <= 200_000,
            ;
        }
        let half: u64 = ((center_price as u128) * ((self.microstructure.base_spread_bps * factor) as u128) / 200_000) as u64;
        let ghost gidx = match idx {
            Some(i) => Some(i as int),
            None => None::<int>,
        };
        let ghost target = mm_ladder(s0, gidx, symbol@, center_price, half as int, 0, s0.micro.depth_at_touch);
        let mut depth = self.microstructure.depth_at_touch;
        let mut k: u64 = 0;
        while k < 10
            invariant
                k <= 10,
                self@.wf(),
                self@.micro == s0.micro,
                self@.symbols == s0.symbols,
                self@.traders == s0.traders,
                self@.process == s0.process,
                self@.last_prices == s0.last_prices,
                self@.histories == s0.histories,
                key@ == symbol@,
                gidx == match idx {
                    Some(i) => Some(i as int),
                    None => None::<int>,
                },
                idx matches Some(i) ==> i < s0.symbols.len() && s0.symbols[i as int] == symbol@,
                depth <= 1_000_000_000_000,
                half <= MAX_PRICE,
                1 <= center_price <= MAX_PRICE,
                mm_ladder(self@, gidx, symbol@, center_price, half as int, k as int, depth) == target,
            decreases 10 - k,
        {
            let ghost prev = self@;
            self.post_level(idx, &key, center_price, half, k, depth);
            proof {
                assert(gidx == match idx {
                    Some(i) => Some(i as int),
                    None => None::<int>,
                });
                assert(self@ == mm_level(prev, gidx, symbol@, center_price, half as int, k as int, depth));
                assert(depth * self.microstructure.depth_falloff <= 1_000_000_000_000 * 10_000) by (nonlinear_arith)
                    requires
                        depth <= 1_000_000_000_000,
                        self.microstructure.depth_falloff <= 10_000,
                ;
                assert(depth * self.microstructure.depth_falloff / 10_000 <= depth) by (nonlinear_arith)
                    requires
                        self.microstructure.depth_falloff <= 10_000,
                ;
            }
            let ghost old_depth = depth;
            depth = depth * self.microstructure.depth_falloff / ONE;
            proof {
                assert(depth == (old_depth * prev.micro.depth_falloff / ONE as int) as u64);
                assert(mm_ladder(prev, gidx, symbol@, center_price, half as int, k as int, old_depth)
                    == mm_ladder(self@, gidx, symbol@, center_price, half as int, k + 1, depth));
            }
            k = k + 1;
        }
    }
}

// ----------------------------------------------------------------------------
// Trader orders
// ----------------------------------------------------------------------------

/// Smallest order a trader sends, in quantity units (a ten-thousandth of a lot).
pub const MIN_ORDER_QTY: u64 = 10_000;

/// Largest price change a trader reacts to, in ppm either way.
pub const MAX_PRICE_CHANGE: i64 = 1_000_000_000;

/// The last relative price change of a history, in ppm; zero with fewer
/// than two prices.
pub open spec fn price_change_of(h: Seq<u64>) -> int {
    if h.len() >= 2 {
        let a = h[h.len() - 2];
        let b = h[h.len() - 1];
        clamp(div_t((b - a) * PPM, a as int), -MAX_PRICE_CHANGE as int, MAX_PRICE_CHANGE as int)
    } else {
        0
    }
}

/// A trader's limit price: across the spread by 0.1% when aggressive,
/// otherwise inside it by half the base spread plus up to a quarter more.
pub open spec fn limit_price(side: OrderSide, aggressive: bool, current: u64, spread_bps: u64, u: u64) -> u64 {
    let half = current * spread_bps / 20_000;
    if aggressive {
        match side {
            OrderSide::Buy => (current * 1001 / 1000) as u64,
            OrderSide::Sell => (current * 999 / 1000) as u64,
        }
    } else {
        match side {
            OrderSide::Buy => (current - half - u * half / 20_000) as u64,
            OrderSide::Sell => (current + half + u * half / 20_000) as u64,
        }
    }
}

/// The trader after booking each trade it took part in, as buyer first.
pub open spec fn apply_fills(tv: TraderView, ts: Seq<TradeView>) -> TraderView
    decreases ts.len(),
{
    if ts.len() == 0 {
        tv
    } else {
        let t0 = apply_fills(tv, ts.drop_last());
        let t = ts.last();
        if t.buyer == tv.id {
            if t0.can_book(OrderSide::Buy, t.quantity, t.price) {
                t0.booked(OrderSide::Buy, t.quantity, t.price)
            } else {
                t0
            }
        } else if t.seller == tv.id {
            if t0.can_book(OrderSide::Sell, t.quantity, t.price) {
                t0.booked(OrderSide::Sell, t.quantity, t.price)
            } else {
                t0
            }
        } else {
            t0
        }
    }
}

#[verifier::opaque]
/// Trader `t`'s turn: three draws; if active, a side, a size and a price; an
/// order with a fresh id, submitted to the book, its fills booked on the
/// trader. Orders below the minimum size, or too large to represent, are
/// not sent.
pub open spec fn trader_turn(
    s: SimView,
    idx: Option<int>,
    symbol: Seq<char>,
    current: u64,
    pc: int,
    t: int,
) -> (SimView, Seq<TradeView>) {
    let r0 = s.rng;
    let u1 = draw_at(r0, 0) % 10_000;
    let u2 = draw_at(r0, 1) % 10_000;
    let u3 = draw_at(r0, 2) % 10_000;
    let r3 = after_draws(r0, 3);
    let tv = s.traders[t];
    let s1 = SimView { rng: r3, ..s };
    if !(u1 < tv.activity_level) {
        (s1, Seq::empty())
    } else {
        let side = side_decision(tv.trader_type, tv.win_rate, tv.position, pc as i64, u2);
        let q = trade_size(tv.avg_trade_size, tv.trade_size_variance, tv.capital, tv.position, u3, current);
        if q < MIN_ORDER_QTY || q > u64::MAX {
            (s1, Seq::empty())
        } else {
            let price = limit_price(side, u1 < tv.aggression, current, s.micro.base_spread_bps, u2);
            let id = crate::draws::wrapping_inc(r3.order_id_counter);
            let r4 = DrawSource { order_id_counter: id, ..r3 };
            let o = crate::market::fresh_order(id, r0.current_time, tv.id, symbol, side, price, q as u64);
            match idx {
                Some(i) => {
                    let (b2, ts) = submit_spec(s.books[i], o);
                    (
                        SimView {
                            rng: r4,
                            books: s.books.update(i, b2),
                            traders: s.traders.update(t, apply_fills(tv, ts)),
                            ..s
                        },
                        ts,
                    )
                },
                None => (SimView { rng: r4, ..s }, Seq::empty()),
            }
        }
    }
}

/// The turns of traders `t` to `n - 1`, in order, with all their trades.
pub open spec fn trader_round(
    s: SimView,
    idx: Option<int>,
    symbol: Seq<char>,
    current: u64,
    pc: int,
    t: int,
    n: int,
) -> (SimView, Seq<TradeView>)
    decreases n - t,
{
    if t >= n {
        (s, Seq::empty())
    } else {
        let (s1, ts1) = trader_turn(s, idx, symbol, current, pc, t);
        let (s2, ts2) = trader_round(s1, idx, symbol, current, pc, t + 1, n);
        (s2, ts1 + ts2)
    }
}

fn last_change(h: &Vec<u64>) -> (r: i64)
    requires
        prices_in_range(h@),
    ensures
        r == price_change_of(h@),
{
    let n = h.len();
    if n < 2 {
        return 0;
    }
    let a = h[n - 2];
    let b = h[n - 1];
    let raw: i128 = if b >= a {
        (((b - a) as i128) * 1_000_000) / (a as i128)
    } else {
        -((((a - b) as i128) * 1_000_000) / (a as i128))
    };
    if raw < -(MAX_PRICE_CHANGE as i128) {
        -MAX_PRICE_CHANGE
    } else if raw > MAX_PRICE_CHANGE as i128 {
        MAX_PRICE_CHANGE
    } else {
        raw as i64
    }
}

fn order_price(side: OrderSide, aggressive: bool, current: u64, spread_bps: u64, u: u64) -> (r: u64)
    requires
        1 <= current <= MAX_PRICE,
        spread_bps <= 10_000,
        u < 10_000,
    ensures
        r == limit_price(side, aggressive, current, spread_bps, u),
{
    proof {
        assert(current * spread_bps <= 1_000_000_000_000_000 * 10_000) by (nonlinear_arith)
            requires
                current <= 1_000_000_000_000_000,
                spread_bps <= 10_000,
        ;
        assert(current * spread_bps / 20_000 <= current) by (nonlinear_arith)
            requires
                spread_bps <= 10_000,
        ;
    }
    let half = current * spread_bps / 20_000;
    proof {
        assert(u * half <= 10_000 * half) by (nonlinear_arith)
            requires
                u < 10_000,
        ;
        assert(10_000 * half <= 10_000 * 1_000_000_000_000_000) by (nonlinear_arith)
            requires
                half <= 1_000_000_000_000_000,
        ;
        assert(u * half / 20_000 <= half) by (nonlinear_arith)
            requires
                u < 10_000,
        ;
        assert(current * spread_bps / 20_000 * 2 <= current) by (nonlinear_arith)
            requires
                spread_bps <= 10_000,
        ;
    }
    if aggressive {
        match side {
            OrderSide::Buy => current / 1000 * 1001 + current % 1000 * 1001 / 1000,
            OrderSide::Sell => current / 1000 * 999 + current % 1000 * 999 / 1000,
        }
    } else {
        match side {
            OrderSide::Buy => current - half - u * half / 20_000,
            OrderSide::Sell => current + half + u * half / 20_000,
        }
    }
}

pub open spec fn opt_int(idx: Option<usize>) -> Option<int> {
    match idx {
        Some(i) => Some(i as int),
        None => None,
    }
}

impl MarketSimulator {
    fn book_fills(&mut self, t: usize, trader_id: &String, trades: &Vec<Trade>)
        requires
            t < old(self)@.traders.len(),
            trader_id@ == old(self)@.traders[t as int].id,
        ensures
            final(self)@ == (SimView {
                traders: old(self)@.traders.update(
                    t as int,
                    apply_fills(old(self)@.traders[t as int], trades_view(trades@)),
                ),
                ..old(self)@
            }),
    {
        let ghost s0 = self@;
        let ghost tv0 = s0.traders[t as int];
        let ghost ts = trades_view(trades@);
        let mut j: usize = 0;
        proof {
            assert(ts.subrange(0, 0) =~= Seq::<TradeView>::empty());
            assert(self@.traders =~= s0.traders.update(t as int, apply_fills(tv0, ts.subrange(0, 0))));
        }
        while j < trades.len()
            invariant
                j <= trades@.len(),
                t < s0.traders.len(),
                ts == trades_view(trades@),
                trader_id@ == tv0.id,
                tv0 == s0.traders[t as int],
                self@ == (SimView {
                    traders: s0.traders.update(t as int, apply_fills(tv0, ts.subrange(0, j as int))),
                    ..s0
                }),
            decreases trades@.len() - j,
        {
            let ghost prev = self@;
            let ghost pre = ts.subrange(0, j as int + 1);
            proof {
                assert(pre.drop_last() =~= ts.subrange(0, j as int));
                assert(pre.last() == trades@[j as int]@);
                assert(self@.traders == traders_view(self.traders.traders@));
                assert(self.traders.traders@.len() == self@.traders.len());
                assert(traders_view(self.traders.traders@)[t as int] == self.traders.traders@[t as int]@);
                assert(self.traders.traders@[t as int]@ == prev.traders[t as int]);
                assert(apply_fills(tv0, ts.subrange(0, j as int)).id == tv0.id) by {
                    lemma_apply_fills_id(tv0, ts.subrange(0, j as int));
                }
            }
            let ghost tvec = self.traders.traders@;
            let tr = &trades[j];
            if tr.buyer == *trader_id {
                if self.traders.traders[t].can_book(OrderSide::Buy, tr.quantity, tr.price) {
                    self.traders.traders[t].update_position(OrderSide::Buy, tr.quantity, tr.price);
                }
            } else if tr.seller == *trader_id {
                if self.traders.traders[t].can_book(OrderSide::Sell, tr.quantity, tr.price) {
                    self.traders.traders[t].update_position(OrderSide::Sell, tr.quantity, tr.price);
                }
            }
            proof {
                assert(self.traders.traders@[t as int]@ == apply_fills(tv0, pre));
                assert(self.traders.traders@.len() == tvec.len());
                assert forall|k: int| 0 <= k < tvec.len() && k != t implies self.traders.traders@[k] == tvec[k] by {}
                assert forall|k: int| 0 <= k < self@.traders.len() implies #[trigger] self@.traders[k]
                    == s0.traders.update(t as int, apply_fills(tv0, pre))[k] by {
                    assert(self@.traders[k] == self.traders.traders@[k]@);
                    if k != t {
                        assert(traders_view(tvec)[k] == tvec[k]@);
                    }
                }
                assert(self@.traders =~= s0.traders.update(t as int, apply_fills(tv0, pre)));
            }
            j = j + 1;
        }
        proof {
            assert(ts.subrange(0, j as int) =~= ts);
        }
    }

    fn trader_turn_exec(
        &mut self,
        idx: Option<usize>,
        symbol: &String,
        current: u64,
        pc: i64,
        t: usize,
    ) -> (r: Vec<Trade>)
        requires
            old(self)@.wf(),
            t < old(self)@.traders.len(),
            idx matches Some(i) ==> i < old(self)@.symbols.len() && old(self)@.symbols[i as int]
                == symbol@,
            1 <= current <= MAX_PRICE,
        ensures
            (final(self)@, trades_view(r@)) == trader_turn(
                old(self)@,
                opt_int(idx),
                symbol@,
                current,
                pc as int,
                t as int,
            ),
            final(self)@.wf(),
            final(self)@.traders.len() == old(self)@.traders.len(),
            final(self)@.symbols == old(self)@.symbols,
            final(self)@.micro == old(self)@.micro,
    {
        let ghost s0 = self@;
        proof {
            reveal(trader_turn);
            let r0 = self.rng;
            assert(after_draws(r0, 0) == r0);
            assert(after_draws(r0, 1) == r0.after_draw());
            assert(after_draws(r0, 2) == after_draws(r0, 1).after_draw());
            assert(after_draws(r0, 3) == after_draws(r0, 2).after_draw());
        }
        let u1 = self.rng.generate_random(10_000);
        let u2 = self.rng.generate_random(10_000);
        let u3 = self.rng.generate_random(10_000);
        let empty: Vec<Trade> = Vec::new();
        proof {
            assert(trades_view(empty@) =~= Seq::<TradeView>::empty());
            assert(self.traders.traders@[t as int]@ == s0.traders[t as int]);
            assert(s0.traders[t as int].wf());
        }
        if !self.traders.traders[t].is_active(u1) {
            return empty;
        }
        let side = self.traders.traders[t].determine_side(current, pc, u2);
        let q = self.traders.traders[t].generate_trade_size(u3, current);
        if q < MIN_ORDER_QTY as u128 || q > u64::MAX as u128 {
            return empty;
        }
        let aggressive = self.traders.traders[t].is_aggressive_order(u1);
        let price = order_price(side, aggressive, current, self.microstructure.base_spread_bps, u2);
        let trader_id = self.traders.traders[t].id.clone();
        let id = self.rng.next_order_id();
        let order = Order::new(id, self.rng.current_time, trader_id.clone(), symbol.clone(), side, price, q as u64);
        match idx {
            Some(i) => {
                proof {
                    assert(s0.books[i as int] == self.orderbooks@[i as int]@);
                    assert(s0.books[i as int].wf());
                }
                let trades = submit(&mut self.orderbooks[i], order);
                let ghost mid = self@;
                proof {
                    assert(mid.books =~= s0.books.update(i as int, submit_spec(s0.books[i as int], order@).0));
                }
                self.book_fills(t, &trader_id, &trades);
                proof {
                    let v = self@;
                    assert forall|j: int| 0 <= j < v.symbols.len() implies {
                        &&& (#[trigger] v.books[j]).wf()
                        &&& v.books[j].symbol == v.symbols[j]
                    } by {
                        if j != i {
                            assert(v.books[j] == s0.books[j]);
                        }
                    }
                    assert forall|k: int| 0 <= k < v.traders.len() implies (#[trigger] v.traders[k]).wf() by {
                        if k == t {
                            lemma_apply_fills_wf(s0.traders[t as int], trades_view(trades@));
                        } else {
                            assert(v.traders[k] == s0.traders[k]);
                        }
                    }
                }
                trades
            },
            None => empty,
        }
    }

    /// Lets every trader, in roster order, decide and submit one order for
    /// `symbol`; returns all the trades made.
    pub fn generate_trader_orders(&mut self, symbol: &str, base_price: u64) -> (r: Vec<Trade>)
        requires
            old(self)@.wf(),
            1 <= base_price <= MAX_PRICE,
        ensures
            final(self)@.wf(),
            (final(self)@, trades_view(r@)) == trader_round(
                old(self)@,
                symbol_index(old(self)@.symbols, symbol@),
                symbol@,
                current_price(old(self)@, symbol_index(old(self)@.symbols, symbol@), base_price),
                change_for(old(self)@, symbol_index(old(self)@.symbols, symbol@)),
                0,
                old(self)@.traders.len() as int,
            ),
    {
        let ghost s0 = self@;
        let idx = self.index_of(symbol);
        proof {
            lemma_find_from(s0.symbols, symbol@, 0);
        }
        let key = String::from_str(symbol);
        let current = match idx {
            Some(i) => match self.last_prices[i] {
                Some(p) => p,
                None => base_price,
            },
            None => base_price,
        };
        let pc: i64 = match idx {
            Some(i) => {
                proof {
                    assert(s0.histories[i as int] == self.price_history@[i as int]@);
                }
                last_change(&self.price_history[i])
            },
            None => 0,
        };
        let n = self.traders.traders.len();
        let ghost gidx = opt_int(idx);
        let ghost target = trader_round(s0, gidx, symbol@, current, pc as int, 0, n as int);
        let mut all: Vec<Trade> = Vec::new();
        let mut t: usize = 0;
        proof {
            assert(trades_view(all@) + target.1 =~= target.1);
        }
        while t < n
            invariant
                t <= n,
                n == s0.traders.len(),
                self@.wf(),
                self@.traders.len() == n,
                self@.symbols == s0.symbols,
                key@ == symbol@,
                gidx == opt_int(idx),
                idx matches Some(i) ==> i < s0.symbols.len() && s0.symbols[i as int] == symbol@,
                1 <= current <= MAX_PRICE,
                trader_round(self@, gidx, symbol@, current, pc as int, t as int, n as int).0
                    == target.0,
                trades_view(all@) + trader_round(self@, gidx, symbol@, current, pc as int, t as int, n as int).1
                    == target.1,
            decreases n - t,
        {
            let ghost prev = self@;
            let ghost before = trades_view(all@);
            let mut ts = self.trader_turn_exec(idx, &key, current, pc, t);
            let ghost tsv = trades_view(ts@);
            all.append(&mut ts);
            proof {
                assert(trades_view(all@) =~= before + tsv);
                let rest = trader_round(self@, gidx, symbol@, current, pc as int, t as int + 1, n as int);
                assert(trader_round(prev, gidx, symbol@, current, pc as int, t as int, n as int) == (
                rest.0, tsv + rest.1));
                assert(before + (tsv + rest.1) =~= (before + tsv) + rest.1);
            }
            t = t + 1;
        }
        proof {
            assert(trades_view(all@) + Seq::<TradeView>::empty() =~= trades_view(all@));
        }
        all
    }
}

/// The price change a trader round reacts to for the symbol at `idx`.
pub open spec fn change_for(s: SimView, idx: Option<int>) -> int {
    match idx {
        Some(i) => price_change_of(s.histories[i]),
        None => 0,
    }
}

proof fn lemma_apply_fills_id(tv: TraderView, ts: Seq<TradeView>)
    ensures
        apply_fills(tv, ts).id == tv.id,
        apply_fills(tv, ts).wf() == tv.wf(),
    decreases ts.len(),
{
    if ts.len() > 0 {
        lemma_apply_fills_id(tv, ts.drop_last());
    }
}

proof fn lemma_apply_fills_wf(tv: TraderView, ts: Seq<TradeView>)
    requires
        tv.wf(),
    ensures
        apply_fills(tv, ts).wf(),
{
    lemma_apply_fills_id(tv, ts);
}

// ----------------------------------------------------------------------------
// Ticks and sessions
// ----------------------------------------------------------------------------

#[verifier::opaque]
/// One tick: the clock advances, the price moves, the market makers post
/// their ladder around the new price, and the traders take their turns.
pub open spec fn step_spec(s: SimView, sym: Seq<char>, base: u64) -> (SimView, Seq<TradeView>) {
    let idx = symbol_index(s.symbols, sym);
    let s1 = SimView {
        rng: DrawSource { current_time: crate::draws::wrapping_inc(s.rng.current_time), ..s.rng },
        ..s
    };
    let (s2, p) = price_movement(s1, idx, base);
    let s3 = mm_ladder(
        s2,
        idx,
        sym,
        p,
        half_spread(p, s2.micro, s2.process.regime),
        0,
        s2.micro.depth_at_touch,
    );
    trader_round(
        s3,
        idx,
        sym,
        current_price(s3, idx, p),
        change_for(s3, idx),
        0,
        s3.traders.len() as int,
    )
}

pub open spec fn bound_price(x: int) -> u64 {
    clamp(x, 1, MAX_PRICE as int) as u64
}

#[verifier::opaque]
/// One bar of a session: the tick's trades folded into a bar, or a
/// zero-volume bar at the base price when there were none; the base follows
/// the last trade, and on every tenth bar a draw nudges it half a percent up
/// or down. Returns the state, the bar and the next base price.
pub open spec fn bar_step(s: SimView, sym: Seq<char>, base: u64, k: nat) -> (SimView, BarView, u64) {
    let t0 = s.rng.current_time;
    let (s1, ts) = step_spec(s, sym, base);
    let bar = if ts.len() > 0 {
        bar_of_trades(t0, sym, ts)
    } else {
        make_bar(t0, sym, base, base, base, base, 0)
    };
    let base1 = if ts.len() > 0 {
        bound_price(ts.last().price as int)
    } else {
        base
    };
    if k % 10 == 0 {
        let d = draw_at(s1.rng, 0) % 2;
        (
            SimView { rng: after_draws(s1.rng, 1), ..s1 },
            bar,
            if d == 0 {
                bound_price(base1 + base1 / 200)
            } else {
                bound_price(base1 - base1 / 200)
            },
        )
    } else {
        (s1, bar, base1)
    }
}

/// Bars `k` to `n - 1` of a session.
pub open spec fn session_spec(s: SimView, sym: Seq<char>, base: u64, k: nat, n: nat) -> (
    SimView,
    Seq<BarView>,
)
    decreases n - k,
{
    if k >= n {
        (s, Seq::empty())
    } else {
        let (s2, bar, base2) = bar_step(s, sym, base, k);
        let (s3, bars) = session_spec(s2, sym, base2, k + 1, n);
        (s3, seq![bar] + bars)
    }
}

pub open spec fn bars_view(v: Seq<MarketBar>) -> Seq<BarView> {
    v.map_values(|b: MarketBar| b@)
}

impl MarketSimulator {
    /// One tick for `symbol`; returns the trades of the trader round.
    pub fn step(&mut self, symbol: &str, base_price: u64) -> (r: Vec<Trade>)
        requires
            old(self)@.wf(),
            1 <= base_price <= MAX_PRICE,
        ensures
            final(self)@.wf(),
            (final(self)@, trades_view(r@)) == step_spec(old(self)@, symbol@, base_price),
    {
        let ghost s0 = self@;
        proof {
            reveal(step_spec);
        }
        self.rng.tick();
        proof {
            assert(self@ == SimView { rng: self.rng, ..s0 });
        }
        let target_price = self.generate_price_movement(symbol, base_price);
        let ghost s2 = self@;
        self.add_market_maker_orders(symbol, target_price);
        proof {
            assert(s2.symbols == s0.symbols);
        }
        self.generate_trader_orders(symbol, target_price)
    }

    /// Runs `num_bars` ticks for `symbol` from `initial_price`, one bar per tick.
    pub fn simulate_session(&mut self, symbol: &str, initial_price: u64, num_bars: usize) -> (r: Vec<MarketBar>)
        requires
            old(self)@.wf(),
            1 <= initial_price <= MAX_PRICE,
        ensures
            final(self)@.wf(),
            (final(self)@, bars_view(r@)) == session_spec(old(self)@, symbol@, initial_price, 0, num_bars as nat),
            r@.len() == num_bars,
    {
        let ghost s0 = self@;
        let ghost target = session_spec(s0, symbol@, initial_price, 0, num_bars as nat);
        let key = String::from_str(symbol);
        let mut bars: Vec<MarketBar> = Vec::new();
        let mut base = initial_price;
        let mut k: usize = 0;
        proof {
            assert(bars_view(bars@) + target.1 =~= target.1);
        }
        while k < num_bars
            invariant
                k <= num_bars,
                self@.wf(),
                key@ == symbol@,
                1 <= base <= MAX_PRICE,
                bars@.len() == k,
                session_spec(self@, symbol@, base, k as nat, num_bars as nat).0 == target.0,
                bars_view(bars@) + session_spec(self@, symbol@, base, k as nat, num_bars as nat).1
                    == target.1,
            decreases num_bars - k,
        {
            let ghost prev = self@;
            let ghost prev_bars = bars_view(bars@);
            let ghost prev_base = base;
            let (bar, next_base) = self.session_bar(symbol, &key, base, k);
            let ghost bar_v = bar@;
            bars.push(bar);
            base = next_base;
            proof {
                let rest = session_spec(self@, symbol@, base, (k + 1) as nat, num_bars as nat);
                assert(session_spec(prev, symbol@, prev_base, k as nat, num_bars as nat) == (
                rest.0, seq![bar_v] + rest.1));
                assert(bars_view(bars@) =~= prev_bars.push(bar_v));
                assert(prev_bars + (seq![bar_v] + rest.1) =~= prev_bars.push(bar_v) + rest.1);
            }
            k = k + 1;
        }
        proof {
            assert(bars_view(bars@) + Seq::<BarView>::empty() =~= bars_view(bars@));
        }
        bars
    }

    fn session_bar(&mut self, symbol: &str, key: &String, base: u64, k: usize) -> (r: (MarketBar, u64))
        requires
            old(self)@.wf(),
            key@ == symbol@,
            1 <= base <= MAX_PRICE,
        ensures
            final(self)@.wf(),
            (final(self)@, r.0@, r.1) == bar_step(old(self)@, symbol@, base, k as nat),
            1 <= r.1 <= MAX_PRICE,
    {
        proof {
            reveal(bar_step);
        }
        let mut base = base;
        let t0 = self.rng.current_time;
        let trades = self.step(symbol, base);
        proof {
            assert(trades@.map_values(|t: Trade| t@) =~= trades_view(trades@));
        }
        let bar = match MarketBar::from_trades(t0, key.clone(), trades.as_slice()) {
            Some(bar) => {
                let last = trades[trades.len() - 1].price;
                base = if last < 1 {
                    1
                } else if last > MAX_PRICE {
                    MAX_PRICE
                } else {
                    last
                };
                proof {
                    assert(trades_view(trades@).last() == trades@[trades@.len() - 1]@);
                }
                bar
            },
            None => MarketBar::new(t0, key.clone(), base, base, base, base, 0),
        };
        if k % 10 == 0 {
            proof {
                lemma_one_draw(self.rng);
            }
            let ghost before = self@;
            let d = self.rng.generate_random(2);
            proof {
                assert(self@ == SimView { rng: self.rng, ..before });
            }
            base = if d == 0 {
                if base > MAX_PRICE - base / 200 {
                    MAX_PRICE
                } else {
                    base + base / 200
                }
            } else {
                base - base / 200
            };
        }
        (bar, base)
    }

    pub fn get_orderbook(&self, symbol: &str) -> (r: Option<&OrderBook>)
        requires
            self@.wf(),
        ensures
            match symbol_index(self@.symbols, symbol@) {
                Some(i) => r matches Some(b) && b@ == self@.books[i],
                None => r is None,
            },
    {
        match self.index_of(symbol) {
            Some(i) => {
                proof {
                    assert(self@.books[i as int] == self.orderbooks@[i as int]@);
                }
                Some(&self.orderbooks[i])
            },
            None => None,
        }
    }
}

} // verus!
