//! The trader population: archetypes, their fixed parameters, and the pure
//! decision rules that turn uniform draws into orders.
//!
//! Probabilities and factors are fixed-point in units of `1 / ONE`; a draw is
//! an integer `u` with `0 <= u < ONE`, standing for `u / ONE`. Price changes
//! are signed parts per million.
use crate::market::{OrderSide, PRICE_SCALE, QTY_SCALE};
use vstd::prelude::*;
use vstd::string::StringExecFns;

verus! {

/// Fixed-point unit of probabilities, factors and draws.
pub const ONE: u64 = 10_000;

/// The largest capital a trader may hold, in whole currency units.
pub const MAX_CAPITAL: u64 = 1_000_000_000_000;

#[derive(Debug, Clone, Copy, PartialEq, Eq, Structural, Hash)]
pub enum TraderType {
    Retail,
    Institutional,
    HFT,
    MarketMaker,
    Whale,
    Momentum,
    Arbitrageur,
}

/// The behavioural parameters of an archetype; all but `size_pct` in units of `1 / ONE`.
#[derive(Debug, Clone, Copy)]
pub struct ArchetypeParams {
    pub activity_level: u64,
    /// Average trade size, in percent of capital.
    pub size_pct: u64,
    pub trade_size_variance: u64,
    pub win_rate: u64,
    pub patience: u64,
    pub aggression: u64,
    pub risk_tolerance: u64,
}

pub open spec fn params_of(t: TraderType) -> ArchetypeParams {
    match t {
        TraderType::Retail => ArchetypeParams {
            activity_level: 500,
            size_pct: 2,
            trade_size_variance: 5000,
            win_rate: 4500,
            patience: 3000,
            aggression: 7000,
            risk_tolerance: 5000,
        },
        TraderType::Institutional => ArchetypeParams {
            activity_level: 2000,
            size_pct: 10,
            trade_size_variance: 3000,
            win_rate: 5500,
            patience: 8000,
            aggression: 3000,
            risk_tolerance: 3000,
        },
        TraderType::HFT => ArchetypeParams {
            activity_level: 9500,
            size_pct: 1,
            trade_size_variance: 2000,
            win_rate: 5200,
            patience: 1000,
            aggression: 5000,
            risk_tolerance: 2000,
        },
        TraderType::MarketMaker => ArchetypeParams {
            activity_level: 9900,
            size_pct: 5,
            trade_size_variance: 3000,
            win_rate: 5100,
            patience: 9000,
            aggression: 1000,
            risk_tolerance: 4000,
        },
        TraderType::Whale => ArchetypeParams {
            activity_level: 100,
            size_pct: 30,
            trade_size_variance: 6000,
            win_rate: 6000,
            patience: 9000,
            aggression: 2000,
            risk_tolerance: 6000,
        },
        TraderType::Momentum => ArchetypeParams {
            activity_level: 4000,
            size_pct: 5,
            trade_size_variance: 4000,
            win_rate: 4800,
            patience: 5000,
            aggression: 6000,
            risk_tolerance: 7000,
        },
        TraderType::Arbitrageur => ArchetypeParams {
            activity_level: 8000,
            size_pct: 3,
            trade_size_variance: 2000,
            win_rate: 5300,
            patience: 2000,
            aggression: 8000,
            risk_tolerance: 3000,
        },
    }
}

pub fn params(t: TraderType) -> (r: ArchetypeParams)
    ensures
        r == params_of(t),
{
    match t {
        TraderType::Retail => ArchetypeParams {
            activity_level: 500,
            size_pct: 2,
            trade_size_variance: 5000,
            win_rate: 4500,
            patience: 3000,
            aggression: 7000,
            risk_tolerance: 5000,
        },
        TraderType::Institutional => ArchetypeParams {
            activity_level: 2000,
            size_pct: 10,
            trade_size_variance: 3000,
            win_rate: 5500,
            patience: 8000,
            aggression: 3000,
            risk_tolerance: 3000,
        },
        TraderType::HFT => ArchetypeParams {
            activity_level: 9500,
            size_pct: 1,
            trade_size_variance: 2000,
            win_rate: 5200,
            patience: 1000,
            aggression: 5000,
            risk_tolerance: 2000,
        },
        TraderType::MarketMaker => ArchetypeParams {
            activity_level: 9900,
            size_pct: 5,
            trade_size_variance: 3000,
            win_rate: 5100,
            patience: 9000,
            aggression: 1000,
            risk_tolerance: 4000,
        },
        TraderType::Whale => ArchetypeParams {
            activity_level: 100,
            size_pct: 30,
            trade_size_variance: 6000,
            win_rate: 6000,
            patience: 9000,
            aggression: 2000,
            risk_tolerance: 6000,
        },
        TraderType::Momentum => ArchetypeParams {
            activity_level: 4000,
            size_pct: 5,
            trade_size_variance: 4000,
            win_rate: 4800,
            patience: 5000,
            aggression: 6000,
            risk_tolerance: 7000,
        },
        TraderType::Arbitrageur => ArchetypeParams {
            activity_level: 8000,
            size_pct: 3,
            trade_size_variance: 2000,
            win_rate: 5300,
            patience: 2000,
            aggression: 8000,
            risk_tolerance: 3000,
        },
    }
}

/// One agent. Money is in price units (`1 / PRICE_SCALE` of a currency
/// unit) but for `capital`, in whole currency units; `position` is in
/// quantity units; `pnl` is in quantity units times price units.
pub struct Trader {
    pub id: String,
    pub trader_type: TraderType,
    pub capital: u64,
    pub activity_level: u64,
    pub avg_trade_size: u64,
    pub trade_size_variance: u64,
    pub win_rate: u64,
    pub patience: u64,
    pub aggression: u64,
    pub risk_tolerance: u64,
    pub trades_today: usize,
    pub pnl: i128,
    pub position: i64,
    pub last_trade_time: u64,
}

/// The abstract content of a trader.
pub struct TraderView {
    pub id: Seq<char>,
    pub trader_type: TraderType,
    pub capital: u64,
    pub activity_level: u64,
    pub avg_trade_size: u64,
    pub trade_size_variance: u64,
    pub win_rate: u64,
    pub patience: u64,
    pub aggression: u64,
    pub risk_tolerance: u64,
    pub trades_today: usize,
    pub pnl: i128,
    pub position: i64,
    pub last_trade_time: u64,
}

impl View for Trader {
    type V = TraderView;

    open spec fn view(&self) -> TraderView {
        TraderView {
            id: self.id@,
            trader_type: self.trader_type,
            capital: self.capital,
            activity_level: self.activity_level,
            avg_trade_size: self.avg_trade_size,
            trade_size_variance: self.trade_size_variance,
            win_rate: self.win_rate,
            patience: self.patience,
            aggression: self.aggression,
            risk_tolerance: self.risk_tolerance,
            trades_today: self.trades_today,
            pnl: self.pnl,
            position: self.position,
            last_trade_time: self.last_trade_time,
        }
    }
}

impl TraderView {
    /// A fill of `quantity` at `price` can be booked without overflow.
    pub open spec fn can_book(self, side: OrderSide, quantity: u64, price: u64) -> bool {
        &&& self.trades_today < usize::MAX
        &&& i64::MIN <= self.position + position_delta(side, quantity) <= i64::MAX
        &&& i128::MIN <= self.pnl - position_delta(side, quantity) * price <= i128::MAX
        &&& quantity * price <= i128::MAX
    }

    /// The trader after a fill of `quantity` at `price` is booked.
    pub open spec fn booked(self, side: OrderSide, quantity: u64, price: u64) -> TraderView {
        TraderView {
            trades_today: (self.trades_today + 1) as usize,
            position: (self.position + position_delta(side, quantity)) as i64,
            pnl: (self.pnl - position_delta(side, quantity) * price) as i128,
            ..self
        }
    }

    pub open spec fn wf(self) -> bool {
        let p = params_of(self.trader_type);
        &&& self.capital <= MAX_CAPITAL
        &&& self.activity_level == p.activity_level
        &&& self.avg_trade_size == self.capital * (PRICE_SCALE / 100) * p.size_pct
        &&& self.trade_size_variance == p.trade_size_variance
        &&& self.win_rate == p.win_rate
        &&& self.patience == p.patience
        &&& self.aggression == p.aggression
        &&& self.risk_tolerance == p.risk_tolerance
    }
}

impl Trader {
    /// Whether a fill of `quantity` at `price` can be booked without overflow.
    pub fn can_book(&self, side: OrderSide, quantity: u64, price: u64) -> (r: bool)
        ensures
            r == self@.can_book(side, quantity, price),
    {
        if self.trades_today == usize::MAX {
            return false;
        }
        let q = quantity as i128;
        let p = price as i128;
        proof {
            assert(quantity * price <= 0xffff_ffff_ffff_ffff * 0xffff_ffff_ffff_ffff) by (
            nonlinear_arith)
                requires
                    quantity <= 0xffff_ffff_ffff_ffff,
                    price <= 0xffff_ffff_ffff_ffff,
            ;
        }
        if (quantity as u128) * (price as u128) > i128::MAX as u128 {
            return false;
        }
        let cash = q * p;
        let (pos, pnl) = match side {
            OrderSide::Buy => (self.position as i128 + q, (self.pnl).checked_sub(cash)),
            OrderSide::Sell => (self.position as i128 - q, (self.pnl).checked_add(cash)),
        };
        proof {
            assert(position_delta(side, quantity) * price == (match side {
                OrderSide::Buy => quantity * price,
                OrderSide::Sell => -(quantity * price),
            })) by (nonlinear_arith)
                requires
                    position_delta(side, quantity) == (match side {
                        OrderSide::Buy => quantity as int,
                        OrderSide::Sell => -(quantity as int),
                    }),
            ;
        }
        pos >= i64::MIN as i128 && pos <= i64::MAX as i128 && pnl.is_some()
    }
}

impl Trader {
    /// Parameters as the archetype fixes them, scaled by the capital.
    pub open spec fn wf(&self) -> bool {
        let p = params_of(self.trader_type);
        &&& self.capital <= MAX_CAPITAL
        &&& self.activity_level == p.activity_level
        &&& self.avg_trade_size == self.capital * (PRICE_SCALE / 100) * p.size_pct
        &&& self.trade_size_variance == p.trade_size_variance
        &&& self.win_rate == p.win_rate
        &&& self.patience == p.patience
        &&& self.aggression == p.aggression
        &&& self.risk_tolerance == p.risk_tolerance
    }

    /// A trader as constructed: archetype parameters and zeroed running state.
    pub open spec fn is_fresh(&self, id: Seq<char>, t: TraderType, capital: u64) -> bool {
        &&& self.wf()
        &&& self.id@ == id
        &&& self.trader_type == t
        &&& self.capital == capital
        &&& self.trades_today == 0
        &&& self.pnl == 0
        &&& self.position == 0
        &&& self.last_trade_time == 0
    }

    pub fn new(id: String, trader_type: TraderType, capital: u64) -> (r: Trader)
        requires
            capital <= MAX_CAPITAL,
        ensures
            r.is_fresh(id@, trader_type, capital),
    {
        let p = params(trader_type);
        Trader {
            id,
            trader_type,
            capital,
            activity_level: p.activity_level,
            avg_trade_size: capital * (PRICE_SCALE / 100) * p.size_pct,
            trade_size_variance: p.trade_size_variance,
            win_rate: p.win_rate,
            patience: p.patience,
            aggression: p.aggression,
            risk_tolerance: p.risk_tolerance,
            trades_today: 0,
            pnl: 0,
            position: 0,
            last_trade_time: 0,
        }
    }

    pub fn is_active(&self, random: u64) -> (r: bool)
        ensures
            r == (random < self.activity_level),
    {
        random < self.activity_level
    }

    /// The order size in quantity units: the average trade size, scaled by
    /// `1 + (u - 1/2) * variance`, divided by the price; halved while the
    /// position's value exceeds half the capital.
    pub fn generate_trade_size(&self, random: u64, price: u64) -> (r: u128)
        requires
            self.wf(),
            random < ONE,
            price > 0,
        ensures
            r == trade_size(self.avg_trade_size, self.trade_size_variance, self.capital,
                self.position, random, price),
    {
        proof {
            let p = params_of(self.trader_type);
            assert(p.trade_size_variance <= 6000 && p.size_pct <= 30);
            assert(self.avg_trade_size <= 3_000_000_000_000_000) by (nonlinear_arith)
                requires
                    self.avg_trade_size == self.capital * 100 * p.size_pct,
                    self.capital <= 1_000_000_000_000,
                    p.size_pct <= 30,
            ;
            assert((ONE / 2 - random) * self.trade_size_variance <= 5000 * 6000) by (
            nonlinear_arith)
                requires
                    random <= 5000 ==> ONE / 2 - random <= 5000,
                    self.trade_size_variance <= 6000,
            ;
            assert((random - ONE / 2) * self.trade_size_variance <= 5000 * 6000) by (
            nonlinear_arith)
                requires
                    random >= 5000 ==> random - ONE / 2 <= 5000,
                    random < 10000,
                    self.trade_size_variance <= 6000,
            ;
        }
        let factor: u64 = if random >= ONE / 2 {
            ONE + (random - ONE / 2) * self.trade_size_variance / ONE
        } else {
            ONE - (ONE / 2 - random) * self.trade_size_variance / ONE
        };
        proof {
            assert(factor <= 13000);
            assert(self.avg_trade_size * factor <= 3_000_000_000_000_000 * 13000) by (
            nonlinear_arith)
                requires
                    self.avg_trade_size <= 3_000_000_000_000_000,
                    factor <= 13000,
            ;
        }
        let value: u128 = self.avg_trade_size as u128 * factor as u128 / ONE as u128;
        proof {
            assert(value * QTY_SCALE <= 3_000_000_000_000_000 * 13000 * 100_000_000) by (
            nonlinear_arith)
                requires
                    value <= 3_000_000_000_000_000 * 13000,
            ;
        }
        let size: u128 = value * QTY_SCALE as u128 / price as u128;
        let magnitude: u128 = if self.position >= 0 {
            self.position as u128
        } else {
            (-(self.position as i128)) as u128
        };
        proof {
            assert(self.capital * 1_000_000_000_000 <= 1_000_000_000_000 * 1_000_000_000_000)
                by (nonlinear_arith)
                requires
                    self.capital <= 1_000_000_000_000,
            ;
        }
        let limit: u128 = self.capital as u128 * (PRICE_SCALE as u128 * QTY_SCALE as u128) / 2;
        proof {
            assert(magnitude * (price as int) <= 0x8000_0000_0000_0000 * 0xffff_ffff_ffff_ffff)
                by (nonlinear_arith)
                requires
                    magnitude <= 0x8000_0000_0000_0000,
                    price <= 0xffff_ffff_ffff_ffff,
            ;
        }
        if magnitude * price as u128 > limit {
            size / 2
        } else {
            size
        }
    }

    pub fn determine_side(&self, price: u64, price_change: i64, random: u64) -> (r: OrderSide)
        ensures
            r == side_decision(self.trader_type, self.win_rate, self.position, price_change, random),
    {
        let coin = if random < ONE / 2 {
            OrderSide::Buy
        } else {
            OrderSide::Sell
        };
        match self.trader_type {
            TraderType::Retail => {
                if (random as i128) * 100 < 500_000 + 5 * (price_change as i128) {
                    OrderSide::Buy
                } else {
                    OrderSide::Sell
                }
            },
            TraderType::Institutional => {
                if random < self.win_rate {
                    if price_change > 10_000 {
                        OrderSide::Sell
                    } else if price_change < -10_000 {
                        OrderSide::Buy
                    } else {
                        coin
                    }
                } else {
                    coin
                }
            },
            TraderType::HFT | TraderType::Arbitrageur => {
                if self.position > 0 {
                    OrderSide::Sell
                } else if self.position < 0 {
                    OrderSide::Buy
                } else {
                    coin
                }
            },
            TraderType::MarketMaker => coin,
            TraderType::Whale => {
                if price_change > 20_000 {
                    OrderSide::Sell
                } else if price_change < -20_000 {
                    OrderSide::Buy
                } else {
                    coin
                }
            },
            TraderType::Momentum => {
                if price_change > 5_000 {
                    OrderSide::Buy
                } else if price_change < -5_000 {
                    OrderSide::Sell
                } else {
                    coin
                }
            },
        }
    }

    pub fn is_aggressive_order(&self, random: u64) -> (r: bool)
        ensures
            r == (random < self.aggression),
    {
        random < self.aggression
    }

    /// Books a fill: the position moves by the quantity (up for a buy), the
    /// cash flow `quantity * price` goes the other way, and the trade count
    /// goes up by one.
    pub fn update_position(&mut self, side: OrderSide, quantity: u64, price: u64)
        requires
            old(self).trades_today < usize::MAX,
            i64::MIN <= old(self).position + position_delta(side, quantity) <= i64::MAX,
            i128::MIN <= old(self).pnl - position_delta(side, quantity) * price <= i128::MAX,
            quantity * price <= i128::MAX,
        ensures
            final(self)@ == old(self)@.booked(side, quantity, price),
            final(self).trades_today == old(self).trades_today + 1,
            final(self).position == old(self).position + position_delta(side, quantity),
            final(self).pnl == old(self).pnl - position_delta(side, quantity) * price,
            final(self).id == old(self).id,
            final(self).trader_type == old(self).trader_type,
            final(self).capital == old(self).capital,
            final(self).wf() == old(self).wf(),
    {
        self.trades_today = self.trades_today + 1;
        proof {
            assert(position_delta(side, quantity) * price == (match side {
                OrderSide::Buy => quantity * price,
                OrderSide::Sell => -(quantity * price),
            })) by (nonlinear_arith)
                requires
                    position_delta(side, quantity) == (match side {
                        OrderSide::Buy => quantity as int,
                        OrderSide::Sell => -(quantity as int),
                    }),
            ;
        }
        let cash: i128 = quantity as i128 * price as i128;
        match side {
            OrderSide::Buy => {
                self.position = (self.position as i128 + quantity as i128) as i64;
                self.pnl = self.pnl - cash;
            },
            OrderSide::Sell => {
                self.position = (self.position as i128 - quantity as i128) as i64;
                self.pnl = self.pnl + cash;
            },
        }
    }

    pub fn reset_daily_stats(&mut self)
        ensures
            final(self)@ == (TraderView { trades_today: 0, ..old(self)@ }),
            final(self).trades_today == 0,
            final(self).id == old(self).id,
            final(self).trader_type == old(self).trader_type,
            final(self).capital == old(self).capital,
            final(self).position == old(self).position,
            final(self).pnl == old(self).pnl,
            final(self).wf() == old(self).wf(),
    {
        self.trades_today = 0;
    }
}

/// Signed change of position for a fill: up for a buy, down for a sell.
pub open spec fn position_delta(side: OrderSide, quantity: u64) -> int {
    match side {
        OrderSide::Buy => quantity as int,
        OrderSide::Sell => -(quantity as int),
    }
}

/// `1 + (u - 1/2) * variance`, in units of `1 / ONE`, rounded toward one.
pub open spec fn size_factor(u: u64, variance: u64) -> int {
    if u >= ONE / 2 {
        ONE + (u - ONE / 2) * variance / (ONE as int)
    } else {
        ONE - (ONE / 2 - u) * variance / (ONE as int)
    }
}

pub open spec fn abs(x: int) -> int {
    if x >= 0 {
        x
    } else {
        -x
    }
}

pub open spec fn trade_size(avg: u64, variance: u64, capital: u64, position: i64, u: u64, price: u64) -> int {
    let value = avg * size_factor(u, variance) / (ONE as int);
    let size = value * (QTY_SCALE as int) / (price as int);
    if abs(position as int) * price > capital * (PRICE_SCALE as int) * (QTY_SCALE as int) / 2 {
        size / 2
    } else {
        size
    }
}

pub open spec fn coin(u: u64) -> OrderSide {
    if u < ONE / 2 {
        OrderSide::Buy
    } else {
        OrderSide::Sell
    }
}

/// The archetype's side rule; `pc` is the last price change in parts per million.
pub open spec fn side_decision(t: TraderType, win_rate: u64, position: i64, pc: i64, u: u64) -> OrderSide {
    match t {
        TraderType::Retail => if u * 100 < 500_000 + 5 * pc {
            OrderSide::Buy
        } else {
            OrderSide::Sell
        },
        TraderType::Institutional => if u < win_rate && pc > 10_000 {
            OrderSide::Sell
        } else if u < win_rate && pc < -10_000 {
            OrderSide::Buy
        } else {
            coin(u)
        },
        TraderType::HFT | TraderType::Arbitrageur => if position > 0 {
            OrderSide::Sell
        } else if position < 0 {
            OrderSide::Buy
        } else {
            coin(u)
        },
        TraderType::MarketMaker => coin(u),
        TraderType::Whale => if pc > 20_000 {
            OrderSide::Sell
        } else if pc < -20_000 {
            OrderSide::Buy
        } else {
            coin(u)
        },
        TraderType::Momentum => if pc > 5_000 {
            OrderSide::Buy
        } else if pc < -5_000 {
            OrderSide::Sell
        } else {
            coin(u)
        },
    }
}

// ----------------------------------------------------------------------------
// Names
// ----------------------------------------------------------------------------

pub open spec fn digit_char(d: int) -> char {
    if d == 0 {
        '0'
    } else if d == 1 {
        '1'
    } else if d == 2 {
        '2'
    } else if d == 3 {
        '3'
    } else if d == 4 {
        '4'
    } else if d == 5 {
        '5'
    } else if d == 6 {
        '6'
    } else if d == 7 {
        '7'
    } else if d == 8 {
        '8'
    } else {
        '9'
    }
}

/// The decimal digits of `n`, without leading zeros.
pub open spec fn decimal(n: nat) -> Seq<char>
    decreases n,
{
    if n < 10 {
        seq![digit_char(n as int)]
    } else {
        decimal(n / 10).push(digit_char((n % 10) as int))
    }
}

fn digit_str(d: u64) -> (r: &'static str)
    requires
        d < 10,
    ensures
        r@ == seq![digit_char(d as int)],
{
    if d == 0 {
        proof { reveal_strlit("0"); }
        "0"
    } else if d == 1 {
        proof { reveal_strlit("1"); }
        "1"
    } else if d == 2 {
        proof { reveal_strlit("2"); }
        "2"
    } else if d == 3 {
        proof { reveal_strlit("3"); }
        "3"
    } else if d == 4 {
        proof { reveal_strlit("4"); }
        "4"
    } else if d == 5 {
        proof { reveal_strlit("5"); }
        "5"
    } else if d == 6 {
        proof { reveal_strlit("6"); }
        "6"
    } else if d == 7 {
        proof { reveal_strlit("7"); }
        "7"
    } else if d == 8 {
        proof { reveal_strlit("8"); }
        "8"
    } else {
        proof { reveal_strlit("9"); }
        "9"
    }
}

fn push_decimal(s: &mut String, n: u64)
    ensures
        final(s)@ == old(s)@ + decimal(n as nat),
    decreases n,
{
    if n >= 10 {
        push_decimal(s, n / 10);
    }
    s.append(digit_str(n % 10));
    proof {
        if n >= 10 {
            assert(final(s)@ =~= old(s)@ + decimal(n as nat));
        } else {
            assert(final(s)@ =~= old(s)@ + decimal(n as nat));
        }
    }
}

/// `prefix` followed by the decimal digits of `n`.
pub fn numbered(prefix: &str, n: u64) -> (r: String)
    ensures
        r@ == prefix@ + decimal(n as nat),
{
    let mut s = String::from_str(prefix);
    push_decimal(&mut s, n);
    s
}

// ----------------------------------------------------------------------------
// The population
// ----------------------------------------------------------------------------

/// Number of traders in the population.
pub const POPULATION_SIZE: usize = 1430;

/// The archetype of the `k`-th cohort, in the order the roster is built.
pub open spec fn cohort_type(k: int) -> TraderType {
    if k == 0 {
        TraderType::Retail
    } else if k == 1 {
        TraderType::Institutional
    } else if k == 2 {
        TraderType::HFT
    } else if k == 3 {
        TraderType::MarketMaker
    } else if k == 4 {
        TraderType::Whale
    } else if k == 5 {
        TraderType::Momentum
    } else {
        TraderType::Arbitrageur
    }
}

/// Index of the first trader of cohort `k`; `cohort_start(7)` is the roster's size.
pub open spec fn cohort_start(k: int) -> int {
    if k <= 0 {
        0
    } else if k == 1 {
        1000
    } else if k == 2 {
        1100
    } else if k == 3 {
        1300
    } else if k == 4 {
        1350
    } else if k == 5 {
        1360
    } else if k == 6 {
        1410
    } else {
        1430
    }
}

/// Capital of the first trader of cohort `k`, and the increment from one to the next.
pub open spec fn cohort_capital(k: int) -> (int, int) {
    if k == 0 {
        (1000, 5)
    } else if k == 1 {
        (50000, 1000)
    } else if k == 2 {
        (10000, 200)
    } else if k == 3 {
        (30000, 500)
    } else if k == 4 {
        (150000, 10000)
    } else if k == 5 {
        (8000, 200)
    } else {
        (15000, 500)
    }
}

pub open spec fn cohort_prefix(k: int) -> Seq<char> {
    if k == 0 {
        "retail_"@
    } else if k == 1 {
        "inst_"@
    } else if k == 2 {
        "hft_"@
    } else if k == 3 {
        "mm_"@
    } else if k == 4 {
        "whale_"@
    } else if k == 5 {
        "momentum_"@
    } else {
        "arb_"@
    }
}

/// Trader `j` of cohort `k` is as constructed, with its name, archetype and capital.
pub open spec fn is_census_member(t: Trader, k: int, j: int) -> bool {
    t.is_fresh(
        cohort_prefix(k) + decimal(j as nat),
        cohort_type(k),
        (cohort_capital(k).0 + j * cohort_capital(k).1) as u64,
    )
}

pub open spec fn capital_sum(ts: Seq<Trader>) -> int
    decreases ts.len(),
{
    if ts.len() == 0 {
        0
    } else {
        capital_sum(ts.drop_last()) + ts.last().capital
    }
}

pub struct TraderPopulation {
    pub traders: Vec<Trader>,
    pub total_capital: u64,
}

fn add_cohort(
    traders: &mut Vec<Trader>,
    total: &mut u64,
    prefix: &str,
    trader_type: TraderType,
    count: u64,
    base: u64,
    step: u64,
)
    requires
        count <= 1000,
        base + count * step <= MAX_CAPITAL,
        *old(total) <= 7_000_000_000_000_000,
        *old(total) == capital_sum(old(traders)@),
    ensures
        final(traders)@.len() == old(traders)@.len() + count,
        forall|j: int| 0 <= j < old(traders)@.len() ==> #[trigger] final(traders)@[j] == old(traders)@[j],
        forall|j: int|
            0 <= j < count ==> (#[trigger] final(traders)@[old(traders)@.len() + j]).is_fresh(
                prefix@ + decimal(j as nat),
                trader_type,
                (base + j * step) as u64,
            ),
        *final(total) == capital_sum(final(traders)@),
        *final(total) <= *old(total) + 1_000_000_000_000_000,
{
    let ghost n0 = traders@.len();
    let ghost t0 = *total;
    let mut i: u64 = 0;
    while i < count
        invariant
            i <= count,
            count <= 1000,
            base + count * step <= MAX_CAPITAL,
            traders@.len() == n0 + i,
            forall|j: int| 0 <= j < n0 ==> #[trigger] traders@[j] == old(traders)@[j],
            forall|j: int|
                0 <= j < i ==> (#[trigger] traders@[n0 + j]).is_fresh(
                    prefix@ + decimal(j as nat),
                    trader_type,
                    (base + j * step) as u64,
                ),
            *total == capital_sum(traders@),
            *total <= t0 + i * MAX_CAPITAL,
            t0 <= 7_000_000_000_000_000,
        decreases count - i,
    {
        proof {
            assert(i * step <= count * step) by (nonlinear_arith)
                requires
                    i <= count,
            ;
            assert((i + 1) * MAX_CAPITAL == i * MAX_CAPITAL + MAX_CAPITAL) by (nonlinear_arith);
            assert(i * MAX_CAPITAL <= 1000 * MAX_CAPITAL) by (nonlinear_arith)
                requires
                    i <= 1000,
            ;
        }
        let capital = base + i * step;
        let trader = Trader::new(numbered(prefix, i), trader_type, capital);
        let ghost before = traders@;
        traders.push(trader);
        *total = *total + capital;
        proof {
            assert(traders@.drop_last() =~= before);
        }
        i = i + 1;
    }
    proof {
        assert(count * MAX_CAPITAL <= 1000 * MAX_CAPITAL) by (nonlinear_arith)
            requires
                count <= 1000,
        ;
    }
}

impl TraderPopulation {
    /// The fixed roster: 1000 retail, 100 institutional, 200 HFT, 50 market
    /// makers, 10 whales, 50 momentum and 20 arbitrageurs, each cohort's
    /// capital rising linearly from trader to trader.
    pub fn new() -> (r: TraderPopulation)
        ensures
            r.traders@.len() == POPULATION_SIZE,
            forall|k: int, i: int|
                #![trigger r.traders@[i], cohort_start(k)]
                0 <= k < 7 && cohort_start(k) <= i < cohort_start(k + 1) ==> is_census_member(
                    r.traders@[i],
                    k,
                    i - cohort_start(k),
                ),
            r.total_capital == capital_sum(r.traders@),
    {
        let mut traders: Vec<Trader> = Vec::new();
        let mut total: u64 = 0;
        add_cohort(&mut traders, &mut total, "retail_", TraderType::Retail, 1000, 1000, 5);
        let ghost s1 = traders@;
        add_cohort(&mut traders, &mut total, "inst_", TraderType::Institutional, 100, 50000, 1000);
        let ghost s2 = traders@;
        add_cohort(&mut traders, &mut total, "hft_", TraderType::HFT, 200, 10000, 200);
        let ghost s3 = traders@;
        add_cohort(&mut traders, &mut total, "mm_", TraderType::MarketMaker, 50, 30000, 500);
        let ghost s4 = traders@;
        add_cohort(&mut traders, &mut total, "whale_", TraderType::Whale, 10, 150000, 10000);
        let ghost s5 = traders@;
        add_cohort(&mut traders, &mut total, "momentum_", TraderType::Momentum, 50, 8000, 200);
        let ghost s6 = traders@;
        add_cohort(&mut traders, &mut total, "arb_", TraderType::Arbitrageur, 20, 15000, 500);
        let r = TraderPopulation { traders, total_capital: total };
        proof {
            let f = r.traders@;
            assert forall|k: int, i: int|
                #![trigger f[i], cohort_start(k)]
                0 <= k < 7 && cohort_start(k) <= i < cohort_start(k + 1) implies is_census_member(
                f[i],
                k,
                i - cohort_start(k),
            ) by {
                let j = i - cohort_start(k);
                if k == 0 {
                    assert(s1[0 + j] == f[i]);
                } else if k == 1 {
                    assert(s2[1000 + j] == f[i]);
                } else if k == 2 {
                    assert(s3[1100 + j] == f[i]);
                } else if k == 3 {
                    assert(s4[1300 + j] == f[i]);
                } else if k == 4 {
                    assert(s5[1350 + j] == f[i]);
                } else if k == 5 {
                    assert(s6[1360 + j] == f[i]);
                } else {
                    assert(f[1410 + j] == f[i]);
                }
            }
        }
        r
    }
}

// ----------------------------------------------------------------------------
// Statistics
// ----------------------------------------------------------------------------

/// Aggregates over the traders of one archetype.
pub struct TypeStats {
    pub trader_type: TraderType,
    pub count: usize,
    pub total_capital: u128,
    pub total_trades: u128,
}

pub struct TraderStats {
    pub total_traders: usize,
    pub total_capital: u64,
    /// One entry per archetype, in roster order.
    pub stats_by_type: Vec<TypeStats>,
}

pub open spec fn count_of(ts: Seq<Trader>, t: TraderType) -> int
    decreases ts.len(),
{
    if ts.len() == 0 {
        0
    } else {
        count_of(ts.drop_last(), t) + if ts.last().trader_type == t {
            1int
        } else {
            0int
        }
    }
}

pub open spec fn capital_of(ts: Seq<Trader>, t: TraderType) -> int
    decreases ts.len(),
{
    if ts.len() == 0 {
        0
    } else {
        capital_of(ts.drop_last(), t) + if ts.last().trader_type == t {
            ts.last().capital as int
        } else {
            0int
        }
    }
}

pub open spec fn trades_of(ts: Seq<Trader>, t: TraderType) -> int
    decreases ts.len(),
{
    if ts.len() == 0 {
        0
    } else {
        trades_of(ts.drop_last(), t) + if ts.last().trader_type == t {
            ts.last().trades_today as int
        } else {
            0int
        }
    }
}

fn same_type(a: TraderType, b: TraderType) -> (r: bool)
    ensures
        r == (a == b),
{
    match (a, b) {
        (TraderType::Retail, TraderType::Retail) => true,
        (TraderType::Institutional, TraderType::Institutional) => true,
        (TraderType::HFT, TraderType::HFT) => true,
        (TraderType::MarketMaker, TraderType::MarketMaker) => true,
        (TraderType::Whale, TraderType::Whale) => true,
        (TraderType::Momentum, TraderType::Momentum) => true,
        (TraderType::Arbitrageur, TraderType::Arbitrageur) => true,
        _ => false,
    }
}

fn type_stats(traders: &Vec<Trader>, t: TraderType) -> (r: TypeStats)
    ensures
        r.trader_type == t,
        r.count == count_of(traders@, t),
        r.total_capital == capital_of(traders@, t),
        r.total_trades == trades_of(traders@, t),
{
    let mut count: usize = 0;
    let mut capital: u128 = 0;
    let mut trades: u128 = 0;
    let mut i: usize = 0;
    while i < traders.len()
        invariant
            i <= traders@.len(),
            count == count_of(traders@.subrange(0, i as int), t),
            count <= i,
            capital == capital_of(traders@.subrange(0, i as int), t),
            capital <= i * (u64::MAX as int),
            trades == trades_of(traders@.subrange(0, i as int), t),
            trades <= i * (usize::MAX as int),
        decreases traders@.len() - i,
    {
        proof {
            let pre = traders@.subrange(0, i as int + 1);
            assert(pre.drop_last() =~= traders@.subrange(0, i as int));
            assert((i + 1) * (u64::MAX as int) <= (usize::MAX as int) * (u64::MAX as int))
                by (nonlinear_arith)
                requires
                    i + 1 <= usize::MAX,
            ;
            assert((i + 1) * (usize::MAX as int) <= (usize::MAX as int) * (usize::MAX as int))
                by (nonlinear_arith)
                requires
                    i + 1 <= usize::MAX,
            ;
            assert((usize::MAX as int) <= (u64::MAX as int));
            assert((i as int) * (u64::MAX as int) + (u64::MAX as int) == (i + 1) * (
            u64::MAX as int)) by (nonlinear_arith);
            assert((i as int) * (usize::MAX as int) + (usize::MAX as int) == (i + 1) * (
            usize::MAX as int)) by (nonlinear_arith);
            assert((usize::MAX as int) * (usize::MAX as int) <= (u64::MAX as int) * (u64::MAX as int))
                by (nonlinear_arith)
                requires
                    (usize::MAX as int) <= (u64::MAX as int),
                    0 <= (usize::MAX as int),
            ;
        }
        if same_type(traders[i].trader_type, t) {
            count = count + 1;
            capital = capital + traders[i].capital as u128;
            trades = trades + traders[i].trades_today as u128;
        }
        i = i + 1;
    }
    proof {
        assert(traders@.subrange(0, i as int) =~= traders@);
    }
    TypeStats { trader_type: t, count, total_capital: capital, total_trades: trades }
}

impl TraderPopulation {
    /// Head counts, capital and trade counts per archetype.
    pub fn get_trader_stats(&self) -> (r: TraderStats)
        ensures
            r.total_traders == self.traders@.len(),
            r.total_capital == self.total_capital,
            r.stats_by_type@.len() == 7,
            forall|k: int|
                0 <= k < 7 ==> {
                    let e = #[trigger] r.stats_by_type@[k];
                    &&& e.trader_type == cohort_type(k)
                    &&& e.count == count_of(self.traders@, cohort_type(k))
                    &&& e.total_capital == capital_of(self.traders@, cohort_type(k))
                    &&& e.total_trades == trades_of(self.traders@, cohort_type(k))
                },
    {
        let mut by_type: Vec<TypeStats> = Vec::new();
        by_type.push(type_stats(&self.traders, TraderType::Retail));
        by_type.push(type_stats(&self.traders, TraderType::Institutional));
        by_type.push(type_stats(&self.traders, TraderType::HFT));
        by_type.push(type_stats(&self.traders, TraderType::MarketMaker));
        by_type.push(type_stats(&self.traders, TraderType::Whale));
        by_type.push(type_stats(&self.traders, TraderType::Momentum));
        by_type.push(type_stats(&self.traders, TraderType::Arbitrageur));
        TraderStats {
            total_traders: self.traders.len(),
            total_capital: self.total_capital,
            stats_by_type: by_type,
        }
    }
}

} // verus!
