use rsm_en::draws::DrawSource;
use rsm_en::market::{MarketBar, PRICE_SCALE};
use rsm_en::market_simulation::MarketSimulator;
use rsm_en::price_process::{classify_regime, next_price, MarketRegime, ProcessState};

fn px(p: u64) -> u64 {
    p * PRICE_SCALE
}

#[test]
fn test_market_simulator_creation() {
    let symbols = vec!["BTC/USD".to_string()];
    let simulator = MarketSimulator::new(symbols);
    assert_eq!(simulator.symbols.len(), 1);
    assert!(simulator.get_orderbook("BTC/USD").is_some());
}

#[test]
fn test_price_generation() {
    let symbols = vec!["BTC/USD".to_string()];
    let mut simulator = MarketSimulator::new(symbols);
    let price = simulator.generate_price_movement("BTC/USD", px(50000));
    assert!(price > px(49000) && price < px(51000));
}

#[test]
fn test_market_simulation() {
    let symbols = vec!["BTC/USD".to_string()];
    let mut simulator = MarketSimulator::new(symbols);
    let bars = simulator.simulate_session("BTC/USD", px(50000), 100);
    assert_eq!(bars.len(), 100);
}

fn same_bars(a: &[MarketBar], b: &[MarketBar]) -> bool {
    a.len() == b.len()
        && a.iter().zip(b.iter()).all(|(x, y)| {
            x.timestamp == y.timestamp
                && x.open == y.open
                && x.high == y.high
                && x.low == y.low
                && x.close == y.close
                && x.volume == y.volume
                && x.hash.bytes == y.hash.bytes
        })
}

#[test]
fn identical_simulators_reproduce_bars_and_ledgers() {
    let mut a = MarketSimulator::new(vec!["BTC/USD".to_string()]);
    let mut b = MarketSimulator::new(vec!["BTC/USD".to_string()]);
    a.set_initial_price("BTC/USD", px(50000));
    b.set_initial_price("BTC/USD", px(50000));
    let bars_a = a.simulate_session("BTC/USD", px(50000), 12);
    let bars_b = b.simulate_session("BTC/USD", px(50000), 12);
    assert!(same_bars(&bars_a, &bars_b));
    let la = &a.get_orderbook("BTC/USD").unwrap().trades;
    let lb = &b.get_orderbook("BTC/USD").unwrap().trades;
    assert!(!la.is_empty());
    assert_eq!(la.len(), lb.len());
    for (x, y) in la.iter().zip(lb.iter()) {
        assert_eq!(x.hash.bytes, y.hash.bytes);
        assert_eq!((x.price, x.quantity), (y.price, y.quantity));
    }
    assert_eq!(a.rng, b.rng);
}

#[test]
fn bars_are_well_formed_and_timestamped_by_tick() {
    let mut sim = MarketSimulator::new(vec!["BTC/USD".to_string()]);
    sim.set_initial_price("BTC/USD", px(50000));
    let bars = sim.simulate_session("BTC/USD", px(50000), 15);
    for (i, bar) in bars.iter().enumerate() {
        assert_eq!(bar.timestamp, i as u64);
        assert!(bar.low <= bar.open && bar.open <= bar.high);
        assert!(bar.low <= bar.close && bar.close <= bar.high);
        assert_eq!(bar.calculate_hash().bytes, bar.hash.bytes);
    }
    let book = sim.get_orderbook("BTC/USD").unwrap();
    if let (Some((bid, _)), Some((ask, _))) = (book.get_best_bid(), book.get_best_ask()) {
        assert!(bid < ask);
    }
}

#[test]
fn market_makers_post_ten_levels_each_side() {
    let mut sim = MarketSimulator::new(vec!["BTC/USD".to_string()]);
    sim.add_market_maker_orders("BTC/USD", px(50000));
    let book = sim.get_orderbook("BTC/USD").unwrap();
    assert_eq!(book.bids.len(), 10);
    assert_eq!(book.asks.len(), 10);
    // trending regime: a 5 bps spread, 12.5 on each side, then 5 ticks of 0.01 per level
    assert_eq!(book.bids[0].price, px(50000) - 125_000 - 500);
    assert_eq!(book.asks[0].price, px(50000) + 125_000 + 500);
    assert_eq!(sim.rng.order_id_counter, 20);
    assert!(book.trades.is_empty());
}

#[test]
fn unknown_symbol_posts_nothing() {
    let mut sim = MarketSimulator::new(vec!["BTC/USD".to_string()]);
    sim.add_market_maker_orders("ETH/USD", px(3000));
    assert!(sim.get_orderbook("ETH/USD").is_none());
    assert!(sim.get_orderbook("BTC/USD").unwrap().bids.is_empty());
    assert_eq!(sim.rng.order_id_counter, 20);
}

#[test]
fn draws_are_deterministic_and_chained() {
    let mut a = DrawSource::new(42);
    let mut b = DrawSource::new(42);
    let xs: Vec<u64> = (0..5).map(|_| a.generate_random(1000)).collect();
    let ys: Vec<u64> = (0..5).map(|_| b.generate_random(1000)).collect();
    assert_eq!(xs, ys);
    assert!(xs.iter().all(|x| *x < 1000));
    assert_ne!(a.seed, 42);
    let mut c = DrawSource::new(43);
    let zs: Vec<u64> = (0..5).map(|_| c.generate_random(1000)).collect();
    assert_ne!(xs, zs);
    assert_eq!(a.next_order_id(), 1);
    assert_eq!(a.next_order_id(), 2);
}

#[test]
fn flat_history_is_low_volatility() {
    let h = vec![px(100); 20];
    let (regime, avg) = classify_regime(&h);
    assert_eq!(regime, MarketRegime::LowVolatility);
    assert_eq!(avg, 0);
}

#[test]
fn choppy_history_is_high_volatility() {
    let h: Vec<u64> = (0..20).map(|i| if i % 2 == 0 { px(100) } else { px(105) }).collect();
    let (regime, avg) = classify_regime(&h);
    // returns alternate +5% and about -4.76%
    assert_eq!(regime, MarketRegime::HighVolatility);
    assert!(avg > 30_000);
}

#[test]
fn price_step_is_clamped_to_ten_percent() {
    let st = ProcessState {
        regime: MarketRegime::HighVolatility,
        trend: 0,
        volatility_cluster: 50_000_000,
        momentum: 1_000_000_000,
    };
    let (_, _, p) = next_price(st, &Vec::new(), px(100), (1, 0, 1, 0), 99);
    assert_eq!(p, px(110));
    let (_, _, q) = next_price(st, &Vec::new(), px(100), (0, 0, 0, 0), 50);
    assert!(q > px(100));
}
