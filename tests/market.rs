use rsm_en::book::{OrderBook, PriceLevel};
use rsm_en::digest::HashValue;
use rsm_en::market::{MarketBar, Order, OrderSide, Trade, PRICE_SCALE, QTY_SCALE};

fn px(p: u64) -> u64 {
    p * PRICE_SCALE
}

fn order(id: u64, trader: &str, side: OrderSide, price: u64, qty: u64) -> Order {
    Order::new(id, 0, trader.to_string(), "BTC/USD".to_string(), side, price, qty)
}

#[test]
fn test_order_creation() {
    let order = Order::new(1, 0, "alice".to_string(), "BTC/USD".to_string(), OrderSide::Buy, px(50000), QTY_SCALE);
    assert_eq!(order.id, 1);
    assert_eq!(order.remaining(), QTY_SCALE);
    assert!(!order.is_filled());
}

#[test]
fn test_order_matching() {
    let mut book = OrderBook::new("BTC/USD".to_string());
    let buy_order = order(1, "alice", OrderSide::Buy, px(50000), QTY_SCALE);
    book.add_order(buy_order);
    let sell_order = order(2, "bob", OrderSide::Sell, px(50000), QTY_SCALE);
    let trades = book.add_order(sell_order);
    assert_eq!(trades.len(), 1);
    assert_eq!(trades[0].price, px(50000));
    assert_eq!(trades[0].quantity, QTY_SCALE);
}

#[test]
fn test_orderbook_depth() {
    let mut book = OrderBook::new("BTC/USD".to_string());
    book.add_order(order(1, "alice", OrderSide::Buy, px(49900), QTY_SCALE));
    book.add_order(order(2, "alice", OrderSide::Buy, px(49800), 2 * QTY_SCALE));
    book.add_order(order(3, "bob", OrderSide::Sell, px(50100), QTY_SCALE));
    book.add_order(order(4, "bob", OrderSide::Sell, px(50200), 2 * QTY_SCALE));
    let bid_depth = book.get_bid_depth(2);
    let ask_depth = book.get_ask_depth(2);
    assert_eq!(bid_depth.len(), 2);
    assert_eq!(ask_depth.len(), 2);
    assert_eq!(bid_depth[0].0, px(49900));
    assert_eq!(ask_depth[0].0, px(50100));
}

#[test]
fn resting_then_crossing_order_clears_both_sides() {
    let mut book = OrderBook::new("BTC/USD".to_string());
    assert!(book.add_order(order(1, "alice", OrderSide::Buy, px(50000), QTY_SCALE)).is_empty());
    let trades = book.add_order(order(2, "bob", OrderSide::Sell, px(50000), QTY_SCALE));
    assert_eq!(trades.len(), 1);
    assert_eq!(trades[0].price, px(50000));
    assert_eq!(trades[0].quantity, QTY_SCALE);
    assert_eq!(trades[0].buyer, "alice");
    assert_eq!(trades[0].seller, "bob");
    assert_eq!(trades[0].buy_order_id, 1);
    assert_eq!(trades[0].sell_order_id, 2);
    assert!(book.bids.is_empty());
    assert!(book.asks.is_empty());
    assert_eq!(book.last_price, Some(px(50000)));
    assert_eq!(book.trades.len(), 1);
}

#[test]
fn equal_price_sells_fill_in_arrival_order() {
    let mut book = OrderBook::new("BTC/USD".to_string());
    book.add_order(order(1, "A", OrderSide::Sell, px(50000), QTY_SCALE));
    book.add_order(order(2, "B", OrderSide::Sell, px(50000), QTY_SCALE));
    let trades = book.add_order(order(3, "C", OrderSide::Buy, px(50000), QTY_SCALE + QTY_SCALE / 2));
    assert_eq!(trades.len(), 2);
    assert_eq!(trades[0].seller, "A");
    assert_eq!(trades[0].quantity, QTY_SCALE);
    assert_eq!(trades[1].seller, "B");
    assert_eq!(trades[1].quantity, QTY_SCALE / 2);
    assert_eq!(trades[0].id, 0);
    assert_eq!(trades[1].id, 1);
    assert_eq!(book.asks.len(), 1);
    assert_eq!(book.asks[0].orders.len(), 1);
    assert_eq!(book.asks[0].orders[0].trader, "B");
    assert_eq!(book.asks[0].orders[0].remaining(), QTY_SCALE / 2);
    assert_eq!(book.asks[0].total_quantity, QTY_SCALE / 2);
    assert!(book.bids.is_empty());
}

#[test]
fn bid_depth_is_best_first_and_limited() {
    let mut book = OrderBook::new("BTC/USD".to_string());
    book.add_order(order(1, "a", OrderSide::Buy, px(49800), QTY_SCALE));
    book.add_order(order(2, "b", OrderSide::Buy, px(49900), 2 * QTY_SCALE));
    book.add_order(order(3, "c", OrderSide::Buy, px(49700), 3 * QTY_SCALE));
    book.add_order(order(4, "d", OrderSide::Buy, px(49900), QTY_SCALE));
    let depth = book.get_bid_depth(2);
    assert_eq!(depth, vec![(px(49900), 3 * QTY_SCALE), (px(49800), QTY_SCALE)]);
    assert!(depth[0].0 > depth[1].0);
    assert_eq!(book.get_bid_depth(10).len(), 3);
    assert_eq!(book.get_bid_depth(0).len(), 0);
}

#[test]
fn trade_executes_at_resting_price_and_walks_levels() {
    let mut book = OrderBook::new("BTC/USD".to_string());
    book.add_order(order(1, "s1", OrderSide::Sell, px(50100), QTY_SCALE));
    book.add_order(order(2, "s2", OrderSide::Sell, px(50000), QTY_SCALE));
    book.add_order(order(3, "s3", OrderSide::Sell, px(50300), QTY_SCALE));
    let trades = book.add_order(order(4, "b", OrderSide::Buy, px(50200), 3 * QTY_SCALE));
    assert_eq!(trades.len(), 2);
    assert_eq!(trades[0].price, px(50000));
    assert_eq!(trades[1].price, px(50100));
    // the remainder rests at its own limit, below the remaining ask
    assert_eq!(book.get_best_bid(), Some((px(50200), QTY_SCALE)));
    assert_eq!(book.get_best_ask(), Some((px(50300), QTY_SCALE)));
    assert_eq!(book.get_spread(), Some(px(100)));
    assert_eq!(book.get_mid_price(), Some(px(50250)));
}

#[test]
fn mid_price_falls_back_to_last_trade() {
    let mut book = OrderBook::new("BTC/USD".to_string());
    assert_eq!(book.get_mid_price(), None);
    assert_eq!(book.get_spread(), None);
    book.add_order(order(1, "a", OrderSide::Sell, px(50000), QTY_SCALE));
    book.add_order(order(2, "b", OrderSide::Buy, px(50000), QTY_SCALE));
    assert_eq!(book.get_mid_price(), Some(px(50000)));
    book.add_order(order(3, "c", OrderSide::Buy, px(49000), QTY_SCALE));
    assert_eq!(book.get_mid_price(), Some(px(50000)));
    assert_eq!(book.get_best_ask(), None);
}

#[test]
fn mid_price_rounds_down() {
    let mut book = OrderBook::new("X".to_string());
    book.add_order(order(1, "a", OrderSide::Buy, 3, 1));
    book.add_order(order(2, "b", OrderSide::Sell, 6, 1));
    assert_eq!(book.get_mid_price(), Some(4));
}

#[test]
fn book_never_crossed_after_adds() {
    let mut book = OrderBook::new("BTC/USD".to_string());
    let prices = [50000u64, 50010, 49990, 50005, 49995, 50020, 49980, 50000];
    for (i, p) in prices.iter().enumerate() {
        let side = if i % 2 == 0 { OrderSide::Buy } else { OrderSide::Sell };
        book.add_order(order(i as u64, "t", side, px(*p), QTY_SCALE * (1 + i as u64 % 3)));
        if let (Some((bid, _)), Some((ask, _))) = (book.get_best_bid(), book.get_best_ask()) {
            assert!(bid < ask);
        }
    }
}

#[test]
fn matching_conserves_quantity() {
    let mut book = OrderBook::new("BTC/USD".to_string());
    book.add_order(order(1, "a", OrderSide::Sell, px(50000), 3 * QTY_SCALE));
    book.add_order(order(2, "b", OrderSide::Sell, px(50100), 2 * QTY_SCALE));
    let trades = book.add_order(order(3, "c", OrderSide::Buy, px(50100), 4 * QTY_SCALE));
    let traded: u64 = trades.iter().map(|t| t.quantity).sum();
    assert_eq!(traded, 4 * QTY_SCALE);
    let resting: u64 = book.asks.iter().map(|l| l.total_quantity).sum();
    assert_eq!(resting, 5 * QTY_SCALE - traded);
    for level in &book.asks {
        for o in &level.orders {
            assert_eq!(o.filled + o.remaining(), o.quantity);
        }
    }
    assert_eq!(book.asks[0].orders[0].filled, QTY_SCALE);
}

#[test]
fn can_accept_refuses_overflowing_level() {
    let mut book = OrderBook::new("X".to_string());
    book.add_order(order(1, "a", OrderSide::Buy, 10, u64::MAX - 5));
    assert!(!book.can_accept(&order(2, "b", OrderSide::Buy, 10, 6)));
    assert!(book.can_accept(&order(3, "b", OrderSide::Buy, 10, 5)));
    assert!(book.can_accept(&order(4, "b", OrderSide::Buy, 11, 100)));
}

#[test]
fn price_level_removes_filled_orders() {
    let mut level = PriceLevel::new(px(100));
    let mut a = order(1, "a", OrderSide::Buy, px(100), 10);
    let b = order(2, "b", OrderSide::Buy, px(100), 20);
    a.filled = 10;
    level.add_order(a);
    level.add_order(b);
    assert_eq!(level.total_quantity, 20);
    level.remove_filled_orders();
    assert_eq!(level.orders.len(), 1);
    assert_eq!(level.orders[0].id, 2);
    assert_eq!(level.total_quantity, 20);
}

#[test]
fn sha256_digest_of_abc() {
    let h = HashValue::of_bytes(&b"abc".to_vec());
    let hex: String = h.bytes.iter().map(|b| format!("{:02x}", b)).collect();
    assert_eq!(hex, "ba7816bf8f01cfea414140de5dae2223b00361a396177a9cb410ff61f20015ad");
}

#[test]
fn hashes_recompute_to_stored_value() {
    let mut o = order(7, "alice", OrderSide::Sell, px(123), 42);
    assert_eq!(o.calculate_hash().bytes, o.hash.bytes);
    o.filled = 40;
    assert_eq!(o.calculate_hash().bytes, o.hash.bytes);
    let other = order(8, "alice", OrderSide::Sell, px(123), 42);
    assert_ne!(other.hash.bytes, o.hash.bytes);
    let t = Trade::new(1, 5, "BTC/USD".to_string(), px(1), 2, "a".to_string(), "b".to_string(), 3, 4);
    assert_eq!(t.calculate_hash().bytes, t.hash.bytes);
    assert_eq!(t.hash.bytes.len(), 32);
    let bar = MarketBar::new(9, "BTC/USD".to_string(), 1, 3, 1, 2, 10);
    assert_eq!(bar.calculate_hash().bytes, bar.hash.bytes);
}

#[test]
fn resting_orders_in_book_keep_valid_hashes() {
    let mut book = OrderBook::new("BTC/USD".to_string());
    book.add_order(order(1, "a", OrderSide::Sell, px(50000), 3 * QTY_SCALE));
    book.add_order(order(2, "c", OrderSide::Buy, px(50000), QTY_SCALE));
    let rest = &book.asks[0].orders[0];
    assert_eq!(rest.filled, QTY_SCALE);
    assert_eq!(rest.calculate_hash().bytes, rest.hash.bytes);
    for t in &book.trades {
        assert_eq!(t.calculate_hash().bytes, t.hash.bytes);
    }
}

#[test]
fn bar_from_trades_folds_ohlcv() {
    let mk = |id: u64, price: u64, qty: u64| {
        Trade::new(id, 0, "BTC/USD".to_string(), price, qty, "a".to_string(), "b".to_string(), 1, 2)
    };
    let trades = vec![mk(0, 105, 1), mk(1, 110, 2), mk(2, 95, 3), mk(3, 100, 4)];
    let bar = MarketBar::from_trades(77, "BTC/USD".to_string(), &trades).unwrap();
    assert_eq!(bar.timestamp, 77);
    assert_eq!((bar.open, bar.high, bar.low, bar.close, bar.volume), (105, 110, 95, 100, 10));
    assert!(MarketBar::from_trades(1, "BTC/USD".to_string(), &[]).is_none());
}

#[test]
fn self_match_allowed_by_default() {
    let mut book = OrderBook::new("BTC/USD".to_string());
    book.add_order(order(1, "alice", OrderSide::Buy, px(50000), QTY_SCALE));
    let trades = book.add_order(order(2, "alice", OrderSide::Sell, px(50000), QTY_SCALE));
    assert_eq!(trades.len(), 1);
    assert_eq!(trades[0].buyer, "alice");
    assert_eq!(trades[0].seller, "alice");
}

#[test]
fn self_match_rejected_drops_the_remainder() {
    let mut book = OrderBook::new("BTC/USD".to_string());
    book.add_order(order(1, "bob", OrderSide::Buy, px(50100), QTY_SCALE));
    book.add_order(order(2, "alice", OrderSide::Buy, px(50000), QTY_SCALE));
    let incoming = order(3, "alice", OrderSide::Sell, px(49000), 3 * QTY_SCALE).with_self_match_rejected(true);
    let trades = book.add_order(incoming);
    // fills bob's bid, then stops at alice's own bid; nothing rests on the ask side
    assert_eq!(trades.len(), 1);
    assert_eq!(trades[0].buyer, "bob");
    assert!(book.asks.is_empty());
    assert_eq!(book.get_best_bid(), Some((px(50000), QTY_SCALE)));
}
