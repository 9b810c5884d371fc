use rsm_en::market::{PRICE_SCALE, QTY_SCALE};
use rsm_en::orderbook_market::OrderBookMarket;
use rsm_en::traders::TraderType;

fn px(p: u64) -> u64 {
    p * PRICE_SCALE
}

#[test]
fn fair_value_market_starts_at_initial_price() {
    let m = OrderBookMarket::new("BTC/USD".to_string(), px(50000));
    assert_eq!(m.fair_value, px(50000));
    assert_eq!(m.last_trade_price, px(50000));
    assert_eq!(m.get_mid_price(), px(50000));
    assert_eq!(m.get_spread_bps(), 0);
}

#[test]
fn initial_depth_ladder() {
    let mut m = OrderBookMarket::new("BTC/USD".to_string(), px(50000));
    m.initialize_depth(10, 10, 3 * QTY_SCALE);
    assert_eq!(m.orderbook.bids.len(), 10);
    assert_eq!(m.orderbook.asks.len(), 10);
    // 10 bps of 50000 is 50; the first level sits one spread away
    assert_eq!(m.orderbook.bids[0].price, px(50000) - px(50));
    assert_eq!(m.orderbook.asks[0].price, px(50000) + px(50));
    assert_eq!(m.orderbook.bids[1].price, px(50000) - px(75));
    assert_eq!(m.orderbook.bids[0].total_quantity, 3 * QTY_SCALE);
    assert_eq!(m.orderbook.bids[1].total_quantity, 3 * QTY_SCALE * 8 / 10);
    assert_eq!(m.get_mid_price(), px(50000));
    assert_eq!(m.get_spread_bps(), 20);
    assert_eq!(m.rng.order_id_counter, 20);
}

#[test]
fn market_makers_send_no_trader_orders() {
    let mut m = OrderBookMarket::new("BTC/USD".to_string(), px(50000));
    let before = m.rng;
    assert!(m.generate_order_for_trader_type(TraderType::MarketMaker).is_none());
    // no gap between mid and fair value: no arbitrage
    assert!(m.generate_order_for_trader_type(TraderType::Arbitrageur).is_none());
    assert_eq!(m.rng, before);
    let o = m.generate_order_for_trader_type(TraderType::Momentum).unwrap();
    assert_eq!(o.trader, "Momentum");
    // last trade not above fair value: sell 0.3% through the mid
    assert_eq!(o.price, px(50000) * 997 / 1000);
    assert!(o.quantity >= QTY_SCALE / 2 && o.quantity < 2 * QTY_SCALE);
}

#[test]
fn fair_value_moves_at_most_five_hundredths_of_a_percent() {
    let mut m = OrderBookMarket::new("BTC/USD".to_string(), px(50000));
    for _ in 0..20 {
        let before = m.fair_value;
        m.update_fair_value();
        let diff = if m.fair_value > before { m.fair_value - before } else { before - m.fair_value };
        assert!(diff <= before / 2000 + 1);
    }
}

#[test]
fn fair_value_session_is_reproducible() {
    let mut a = OrderBookMarket::new("BTC/USD".to_string(), px(50000));
    let mut b = OrderBookMarket::new("BTC/USD".to_string(), px(50000));
    let bars_a = a.simulate_session(30);
    let bars_b = b.simulate_session(30);
    assert_eq!(bars_a.len(), 30);
    for (x, y) in bars_a.iter().zip(bars_b.iter()) {
        assert_eq!(x.hash.bytes, y.hash.bytes);
        assert!(x.low <= x.open && x.open <= x.high);
        assert!(x.low <= x.close && x.close <= x.high);
    }
    assert_eq!(a.orderbook.trades.len(), b.orderbook.trades.len());
    if let (Some((bid, _)), Some((ask, _))) = (a.orderbook.get_best_bid(), a.orderbook.get_best_ask()) {
        assert!(bid < ask);
    }
}
