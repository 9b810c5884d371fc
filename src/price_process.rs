//! The regime-switching price process, in fixed point.
//!
//! Ratios are signed parts per million (`PPM`); prices are in price units and
//! kept within `1..=MAX_PRICE`.
use vstd::prelude::*;

verus! {

pub const PPM: i64 = 1_000_000;

/// The highest price the process reaches, in price units.
pub const MAX_PRICE: u64 = 1_000_000_000_000_000;

/// Number of trailing prices the regime is classified from.
pub const REGIME_WINDOW: usize = 20;

/// Number of prices kept in a symbol's history.
pub const HISTORY_LEN: usize = 200;

#[derive(Debug, Clone, Copy, PartialEq, Eq, Structural)]
pub enum MarketRegime {
    Trending,
    MeanReverting,
    HighVolatility,
    LowVolatility,
    Crisis,
}

/// Division rounding toward zero.
pub open spec fn div_t(a: int, b: int) -> int {
    if a >= 0 {
        a / b
    } else {
        -((-a) / b)
    }
}

pub open spec fn clamp(x: int, lo: int, hi: int) -> int {
    if x < lo {
        lo
    } else if x > hi {
        hi
    } else {
        x
    }
}

fn div_trunc(a: i128, b: i128) -> (r: i128)
    requires
        b > 0,
        a > i128::MIN,
    ensures
        r == div_t(a as int, b as int),
{
    if a >= 0 {
        a / b
    } else {
        -((-a) / b)
    }
}

/// Outcome of one three-way game between moves `p` and `b` (each `0..3`,
/// where each move beats the one before it, cyclically): `1` if `p` wins,
/// `-1` if `b` wins, `0` on a draw.
pub open spec fn game_score(p: u64, b: u64) -> int {
    if p == b {
        0
    } else if (p + 3 - b) % 3 == 1 {
        1
    } else {
        -1
    }
}

pub fn play(p: u64, b: u64) -> (r: i64)
    requires
        p < 3,
        b < 3,
    ensures
        r == game_score(p, b),
{
    if p == b {
        0
    } else if (p + 3 - b) % 3 == 1 {
        1
    } else {
        -1
    }
}

/// `|b / a - 1|` in parts per million, rounded down.
pub open spec fn abs_return(a: u64, b: u64) -> int {
    (if b >= a {
        b - a
    } else {
        a - b
    }) * PPM / (a as int)
}

/// Sum of the absolute returns between consecutive prices of `w`.
pub open spec fn sum_abs_returns(w: Seq<u64>) -> int
    decreases w.len(),
{
    if w.len() < 2 {
        0
    } else {
        sum_abs_returns(w.drop_last()) + abs_return(w[w.len() - 2], w[w.len() - 1])
    }
}

/// The last `REGIME_WINDOW` prices.
pub open spec fn recent(h: Seq<u64>) -> Seq<u64> {
    h.subrange(h.len() - REGIME_WINDOW, h.len() as int)
}

/// Mean absolute return over the window, in ppm, capped at 100%.
pub open spec fn avg_vol(h: Seq<u64>) -> int {
    let v = sum_abs_returns(recent(h)) / (REGIME_WINDOW - 1) as int;
    if v > PPM {
        PPM as int
    } else {
        v
    }
}

/// Relative change from the first to the last price of the window, in ppm.
pub open spec fn trend_strength(h: Seq<u64>) -> int {
    let w = recent(h);
    div_t((w.last() - w[0]) * PPM, w[0] as int)
}

pub open spec fn classify(avg: int, trend: int) -> MarketRegime {
    if avg > 30_000 {
        MarketRegime::HighVolatility
    } else if avg > 20_000 {
        if trend > 20_000 || trend < -20_000 {
            MarketRegime::Trending
        } else {
            MarketRegime::MeanReverting
        }
    } else {
        MarketRegime::LowVolatility
    }
}

/// Every price of the history is within `1..=MAX_PRICE`.
pub open spec fn prices_in_range(h: Seq<u64>) -> bool {
    forall|k: int| 0 <= k < h.len() ==> 1 <= #[trigger] h[k] <= MAX_PRICE
}

/// Regime and realised volatility from the trailing window of `history`.
pub fn classify_regime(history: &Vec<u64>) -> (r: (MarketRegime, i64))
    requires
        history@.len() >= REGIME_WINDOW,
        prices_in_range(history@),
    ensures
        r.1 == avg_vol(history@),
        0 <= r.1 <= PPM,
        r.0 == classify(avg_vol(history@), trend_strength(history@)),
{
    let n = history.len();
    let start = n - REGIME_WINDOW;
    let ghost w = recent(history@);
    let mut sum: u128 = 0;
    let mut i: usize = start + 1;
    proof {
        assert(w.subrange(0, 1).len() == 1);
        assert(sum_abs_returns(w.subrange(0, 1)) == 0);
    }
    while i < n
        invariant
            start + 1 <= i <= n,
            n == history@.len(),
            start == n - REGIME_WINDOW,
            w == recent(history@),
            prices_in_range(history@),
            sum == sum_abs_returns(w.subrange(0, (i - start) as int)),
            sum <= (i - start) * 1_000_000_000_000_000_000_000,
        decreases n - i,
    {
        let a = history[i - 1];
        let b = history[i];
        let d: u64 = if b >= a {
            b - a
        } else {
            a - b
        };
        proof {
            let pre = w.subrange(0, (i - start) as int + 1);
            assert(pre.drop_last() =~= w.subrange(0, (i - start) as int));
            assert(pre[pre.len() - 2] == a);
            assert(pre[pre.len() - 1] == b);
            assert(d * 1_000_000 <= 1_000_000_000_000_000 * 1_000_000) by (nonlinear_arith)
                requires
                    d <= 1_000_000_000_000_000,
            ;
            assert(d * 1_000_000 / (a as int) <= d * 1_000_000) by (nonlinear_arith)
                requires
                    a >= 1,
                    d >= 0,
            ;
        }
        sum = sum + (d as u128) * 1_000_000 / (a as u128);
        i = i + 1;
    }
    proof {
        assert(w.subrange(0, REGIME_WINDOW as int) =~= w);
    }
    let v: u128 = sum / 19;
    let avg: i64 = if v > 1_000_000 {
        PPM
    } else {
        v as i64
    };
    let first = history[start];
    let last = history[n - 1];
    let strength = div_trunc(((last as i128) - (first as i128)) * 1_000_000, first as i128);
    let regime = if avg > 30_000 {
        MarketRegime::HighVolatility
    } else if avg > 20_000 {
        if strength > 20_000 || strength < -20_000 {
            MarketRegime::Trending
        } else {
            MarketRegime::MeanReverting
        }
    } else {
        MarketRegime::LowVolatility
    };
    (regime, avg)
}

/// The volatility cluster after one update: a 0.9 decay toward fifty times
/// the realised volatility.
pub open spec fn next_cluster(cluster: int, avg: int) -> int {
    (9 * cluster + 50 * avg) / 10
}

/// Largest magnitude of the net score after mean reversion.
pub const MAX_SCORE: i64 = 1000;

/// Largest volatility cluster, in ppm.
pub const MAX_CLUSTER: i64 = 50_000_000;

/// The state the price process carries from tick to tick.
#[derive(Debug, Clone, Copy, PartialEq, Eq, Structural)]
pub struct ProcessState {
    pub regime: MarketRegime,
    /// EMA of the net score while trending, in ppm.
    pub trend: i64,
    /// Volatility cluster multiplier, in ppm.
    pub volatility_cluster: i64,
    /// EMA of the net score, in ppm.
    pub momentum: i64,
}

impl ProcessState {
    pub open spec fn wf(self) -> bool {
        &&& -2 * PPM <= self.trend <= 2 * PPM
        &&& 0 <= self.volatility_cluster <= MAX_CLUSTER
        &&& -MAX_SCORE * PPM <= self.momentum <= MAX_SCORE * PPM
    }
}

/// The net score after mean reversion: pulled against the deviation of the
/// price from the mean of the last window of `history`.
pub open spec fn reverted_score(score: int, current: u64, history: Seq<u64>) -> int {
    let w = history.subrange(history.len() - REGIME_WINDOW, history.len() as int);
    let mean = sum_prices(w) / REGIME_WINDOW as int;
    let dev = div_t((current - mean) * PPM, mean);
    clamp(div_t(score * PPM - 10 * dev, PPM as int), -MAX_SCORE as int, MAX_SCORE as int)
}

pub open spec fn sum_prices(w: Seq<u64>) -> int
    decreases w.len(),
{
    if w.len() == 0 {
        0
    } else {
        sum_prices(w.drop_last()) + w.last()
    }
}

/// The price a step lands on: the raw price kept within 10% of the current
/// price and within `1..=MAX_PRICE`.
pub open spec fn clamp_price(current: u64, raw: int) -> u64 {
    let lo = current - current / 10;
    let hi = if current + current / 10 > MAX_PRICE {
        MAX_PRICE as int
    } else {
        current + current / 10
    };
    clamp(raw, if lo < 1 { 1 } else { lo }, hi) as u64
}

pub open spec fn regime_multiplier(regime: MarketRegime, trend: int) -> int {
    match regime {
        MarketRegime::Trending => PPM + div_t(trend, 2),
        MarketRegime::MeanReverting => 700_000,
        MarketRegime::HighVolatility => 2_500_000,
        MarketRegime::LowVolatility => 300_000,
        MarketRegime::Crisis => 5_000_000,
    }
}

/// One move of the price: the four game moves give a net score; the regime
/// gives a multiplier (and, while trending, updates the trend; while mean
/// reverting, pulls the score back); the change is the score times the base
/// volatility, the price, the multiplier and the volatility cluster, plus the
/// momentum drift and a small noise, clamped. Returns the new trend, the new
/// momentum and the new price.
pub open spec fn price_step(
    st: ProcessState,
    history: Seq<u64>,
    current: u64,
    moves: (u64, u64, u64, u64),
    noise: u64,
) -> (int, int, u64) {
    let score = game_score(moves.0, moves.1) + game_score(moves.2, moves.3);
    let trend = if st.regime == MarketRegime::Trending {
        div_t(95 * st.trend + 5 * score * PPM, 100)
    } else {
        st.trend as int
    };
    let mult = regime_multiplier(st.regime, trend);
    let score2 = if st.regime == MarketRegime::MeanReverting && history.len() > REGIME_WINDOW {
        reverted_score(score, current, history)
    } else {
        score
    };
    let momentum = div_t(9 * st.momentum + score2 * PPM, 10);
    let change = div_t(score2 * 300 * current * mult * st.volatility_cluster, PPM * PPM * PPM)
        + div_t(momentum * current, 10_000_000_000);
    let noise_move = div_t((noise - 50) * current, 5_000_000);
    (trend, momentum, clamp_price(current, current + change + noise_move))
}

fn sum_window(history: &Vec<u64>) -> (r: u128)
    requires
        history@.len() >= REGIME_WINDOW,
        prices_in_range(history@),
    ensures
        r == sum_prices(history@.subrange(history@.len() - REGIME_WINDOW, history@.len() as int)),
        r <= REGIME_WINDOW * MAX_PRICE,
        r >= REGIME_WINDOW,
{
    let n = history.len();
    let start = n - REGIME_WINDOW;
    let ghost w = history@.subrange(start as int, n as int);
    let mut sum: u128 = 0;
    let mut i: usize = start;
    while i < n
        invariant
            start <= i <= n,
            n == history@.len(),
            start == n - REGIME_WINDOW,
            w == history@.subrange(start as int, n as int),
            prices_in_range(history@),
            sum == sum_prices(w.subrange(0, (i - start) as int)),
            (i - start) <= sum <= (i - start) * MAX_PRICE,
        decreases n - i,
    {
        proof {
            let pre = w.subrange(0, (i - start) as int + 1);
            assert(pre.drop_last() =~= w.subrange(0, (i - start) as int));
            assert(pre.last() == history@[i as int]);
        }
        sum = sum + history[i] as u128;
        i = i + 1;
    }
    proof {
        assert(w.subrange(0, REGIME_WINDOW as int) =~= w);
    }
    sum
}

/// See `price_step`.
pub fn next_price(
    st: ProcessState,
    history: &Vec<u64>,
    current: u64,
    moves: (u64, u64, u64, u64),
    noise: u64,
) -> (r: (i64, i64, u64))
    requires
        st.wf(),
        prices_in_range(history@),
        1 <= current <= MAX_PRICE,
        moves.0 < 3 && moves.1 < 3 && moves.2 < 3 && moves.3 < 3,
        noise < 100,
    ensures
        (r.0 as int, r.1 as int, r.2) == price_step(st, history@, current, moves, noise),
        (ProcessState { trend: r.0, momentum: r.1, ..st }).wf(),
        1 <= r.2 <= MAX_PRICE,
{
    let score: i64 = play(moves.0, moves.1) + play(moves.2, moves.3);
    let trend: i64 = match st.regime {
        MarketRegime::Trending => div_trunc(
            95 * (st.trend as i128) + 5 * (score as i128) * 1_000_000,
            100,
        ) as i64,
        _ => st.trend,
    };
    let mult: i128 = match st.regime {
        MarketRegime::Trending => 1_000_000 + div_trunc(trend as i128, 2),
        MarketRegime::MeanReverting => 700_000,
        MarketRegime::HighVolatility => 2_500_000,
        MarketRegime::LowVolatility => 300_000,
        MarketRegime::Crisis => 5_000_000,
    };
    let mut score2: i128 = score as i128;
    let reverting = match st.regime {
        MarketRegime::MeanReverting => true,
        _ => false,
    };
    if reverting && history.len() > REGIME_WINDOW {
        let mean = (sum_window(history) / 20) as i128;
        let dev = div_trunc(((current as i128) - mean) * 1_000_000, mean);
        let s = div_trunc((score as i128) * 1_000_000 - 10 * dev, 1_000_000);
        score2 = if s < -1000 {
            -1000
        } else if s > 1000 {
            1000
        } else {
            s
        };
    }
    let momentum: i128 = div_trunc(9 * (st.momentum as i128) + score2 * 1_000_000, 10);
    let cur = current as i128;
    proof {
        assert(-1000 <= score2 <= 1000);
        assert(0 <= mult <= 5_000_000);
        let c = st.volatility_cluster as int;
        assert(-1000 * 300 <= score2 * 300 <= 1000 * 300);
        assert(-300_000 * 1_000_000_000_000_000 <= score2 * 300 * cur <= 300_000
            * 1_000_000_000_000_000) by (nonlinear_arith)
            requires
                -300_000 <= score2 * 300 <= 300_000,
                1 <= cur <= 1_000_000_000_000_000,
        ;
        assert(-300_000_000_000_000_000_000 * 5_000_000 <= score2 * 300 * cur * mult
            <= 300_000_000_000_000_000_000 * 5_000_000) by (nonlinear_arith)
            requires
                -300_000_000_000_000_000_000 <= score2 * 300 * cur <= 300_000_000_000_000_000_000,
                0 <= mult <= 5_000_000,
        ;
        assert(-1_500_000_000_000_000_000_000_000_000 * 50_000_000 <= score2 * 300 * cur * mult * c
            <= 1_500_000_000_000_000_000_000_000_000 * 50_000_000) by (nonlinear_arith)
            requires
                -1_500_000_000_000_000_000_000_000_000 <= score2 * 300 * cur * mult
                    <= 1_500_000_000_000_000_000_000_000_000,
                0 <= c <= 50_000_000,
        ;
        assert(-1_000_000_000 <= momentum <= 1_000_000_000);
        assert(-1_000_000_000 * 1_000_000_000_000_000 <= momentum * cur <= 1_000_000_000
            * 1_000_000_000_000_000) by (nonlinear_arith)
            requires
                -1_000_000_000 <= momentum <= 1_000_000_000,
                1 <= cur <= 1_000_000_000_000_000,
        ;
        assert(-50 * 1_000_000_000_000_000 <= (noise - 50) * cur <= 50 * 1_000_000_000_000_000)
            by (nonlinear_arith)
            requires
                -50 <= noise - 50 <= 50,
                1 <= cur <= 1_000_000_000_000_000,
        ;
    }
    let change: i128 = div_trunc(
        score2 * 300 * cur * mult * (st.volatility_cluster as i128),
        1_000_000_000_000_000_000,
    ) + div_trunc((momentum as i128) * cur, 10_000_000_000);
    let noise_move: i128 = div_trunc(((noise as i128) - 50) * cur, 5_000_000);
    let raw: i128 = cur + change + noise_move;
    let lo: i128 = cur - cur / 10;
    let lo: i128 = if lo < 1 {
        1
    } else {
        lo
    };
    let hi: i128 = if cur + cur / 10 > MAX_PRICE as i128 {
        MAX_PRICE as i128
    } else {
        cur + cur / 10
    };
    let price: i128 = if raw < lo {
        lo
    } else if raw > hi {
        hi
    } else {
        raw
    };
    (trend, momentum as i64, price as u64)
}

} // verus!
