use rsm_en::market::{OrderSide, PRICE_SCALE, QTY_SCALE};
use rsm_en::traders::{numbered, Trader, TraderPopulation, TraderType, POPULATION_SIZE};

#[test]
fn test_trader_creation() {
    let trader = Trader::new("test".to_string(), TraderType::Retail, 10000);
    assert_eq!(trader.capital, 10000);
    assert_eq!(trader.trader_type, TraderType::Retail);
}

#[test]
fn test_population_creation() {
    let pop = TraderPopulation::new();
    assert!(pop.traders.len() > 0);
    assert!(pop.total_capital > 0);
}

#[test]
fn test_trader_stats() {
    let pop = TraderPopulation::new();
    let stats = pop.get_trader_stats();
    assert_eq!(stats.total_traders, pop.traders.len());
}

#[test]
fn population_census() {
    let pop = TraderPopulation::new();
    assert_eq!(pop.traders.len(), POPULATION_SIZE);
    assert_eq!(pop.traders.len(), 1430);
    assert_eq!(pop.total_capital, 24_530_000);
    assert_eq!(pop.traders[0].id, "retail_0");
    assert_eq!(pop.traders[999].id, "retail_999");
    assert_eq!(pop.traders[999].capital, 1000 + 999 * 5);
    assert_eq!(pop.traders[1000].id, "inst_0");
    assert_eq!(pop.traders[1000].capital, 50000);
    assert_eq!(pop.traders[1429].id, "arb_19");
    assert_eq!(pop.traders[1429].trader_type, TraderType::Arbitrageur);
    assert_eq!(pop.traders[1429].capital, 15000 + 19 * 500);
    let stats = pop.get_trader_stats();
    let counts: Vec<usize> = stats.stats_by_type.iter().map(|s| s.count).collect();
    assert_eq!(counts, vec![1000, 100, 200, 50, 10, 50, 20]);
    assert_eq!(stats.stats_by_type[4].trader_type, TraderType::Whale);
    assert_eq!(stats.stats_by_type[4].total_capital, 1_950_000);
    assert_eq!(stats.total_capital, 24_530_000);
}

#[test]
fn archetype_parameters_scale_with_capital() {
    let t = Trader::new("w".to_string(), TraderType::Whale, 200_000);
    assert_eq!(t.activity_level, 100);
    assert_eq!(t.avg_trade_size, 200_000 * 30 * PRICE_SCALE / 100);
    assert_eq!(t.aggression, 2000);
    assert_eq!(t.position, 0);
    assert_eq!(t.pnl, 0);
}

#[test]
fn activity_and_aggression_gates() {
    let t = Trader::new("r".to_string(), TraderType::Retail, 10000);
    assert!(t.is_active(499));
    assert!(!t.is_active(500));
    assert!(t.is_aggressive_order(6999));
    assert!(!t.is_aggressive_order(7000));
}

#[test]
fn trade_size_formula() {
    let mut t = Trader::new("r".to_string(), TraderType::Retail, 10000);
    let price = 50000 * PRICE_SCALE;
    // 2% of 10000 is 200; at 50000 that is 0.004 lots
    assert_eq!(t.generate_trade_size(5000, price), 400_000);
    // a draw of 1.0 scales by 1 + 0.5 * 0.5
    assert_eq!(t.generate_trade_size(9999, price), 499_960);
    assert_eq!(t.generate_trade_size(0, price), 300_000);
    // above half the capital in position value, the size is halved
    t.position = (QTY_SCALE / 5) as i64 * 3 / 2;
    assert_eq!(t.generate_trade_size(5000, price), 200_000);
}

#[test]
fn side_rules() {
    let retail = Trader::new("r".to_string(), TraderType::Retail, 10000);
    assert_eq!(retail.determine_side(1, 0, 4999), OrderSide::Buy);
    assert_eq!(retail.determine_side(1, 0, 5000), OrderSide::Sell);
    assert_eq!(retail.determine_side(1, 10_000, 5400), OrderSide::Buy);
    let inst = Trader::new("i".to_string(), TraderType::Institutional, 50000);
    assert_eq!(inst.determine_side(1, 20_000, 100), OrderSide::Sell);
    assert_eq!(inst.determine_side(1, -20_000, 100), OrderSide::Buy);
    assert_eq!(inst.determine_side(1, 20_000, 6000), OrderSide::Sell);
    assert_eq!(inst.determine_side(1, 20_000, 4000), OrderSide::Sell);
    let mut hft = Trader::new("h".to_string(), TraderType::HFT, 10000);
    hft.position = 5;
    assert_eq!(hft.determine_side(1, 0, 0), OrderSide::Sell);
    hft.position = -5;
    assert_eq!(hft.determine_side(1, 0, 9999), OrderSide::Buy);
    let whale = Trader::new("w".to_string(), TraderType::Whale, 150000);
    assert_eq!(whale.determine_side(1, 30_000, 0), OrderSide::Sell);
    assert_eq!(whale.determine_side(1, 10_000, 0), OrderSide::Buy);
    let mom = Trader::new("m".to_string(), TraderType::Momentum, 8000);
    assert_eq!(mom.determine_side(1, 6_000, 9999), OrderSide::Buy);
    assert_eq!(mom.determine_side(1, -6_000, 0), OrderSide::Sell);
}

#[test]
fn position_and_pnl_updates() {
    let mut t = Trader::new("r".to_string(), TraderType::Retail, 10000);
    t.update_position(OrderSide::Buy, QTY_SCALE, 50000 * PRICE_SCALE);
    assert_eq!(t.position, QTY_SCALE as i64);
    assert_eq!(t.pnl, -((QTY_SCALE as i128) * (50000 * PRICE_SCALE) as i128));
    t.update_position(OrderSide::Sell, QTY_SCALE, 51000 * PRICE_SCALE);
    assert_eq!(t.position, 0);
    assert_eq!(t.pnl, (QTY_SCALE as i128) * (1000 * PRICE_SCALE) as i128);
    assert_eq!(t.trades_today, 2);
    t.reset_daily_stats();
    assert_eq!(t.trades_today, 0);
}

#[test]
fn names_are_prefix_and_decimal() {
    assert_eq!(numbered("retail_", 0), "retail_0");
    assert_eq!(numbered("mm_", 42), "mm_42");
    assert_eq!(numbered("x", 1234567890), "x1234567890");
}

#[test]
fn session_ids_are_hex_of_the_clock() {
    assert_eq!(rsm_en::ids::Uuid::new_v4(0), "0");
    assert_eq!(rsm_en::ids::Uuid::new_v4(255), "ff");
    assert_eq!(rsm_en::ids::Uuid::new_v4(0x1a2b_3c4d), "1a2b3c4d");
}
