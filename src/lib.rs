//! A limit order book with price-time priority matching, and an agent-based
//! market simulation that feeds it.
//!
//! - `market`: orders, trades and bars, with integrity hashes;
//! - `book`: price levels and the order book, its matching and its laws;
//! - `traders`: archetypes, decision rules and the fixed population;
//! - `draws`: the deterministic draw source;
//! - `price_process`: the regime-switching price process;
//! - `market_simulation`: the regime-switching driver;
//! - `orderbook_market`: the fair-value driver;
//! - `digest`, `ids`, `consumers`: hashing, session ids, downstream types.
//!
//! Prices, quantities and ratios are fixed-point integers throughout.
pub mod digest;
pub mod market;
pub mod book;
pub mod traders;
pub mod draws;
pub mod price_process;
pub mod market_simulation;
pub mod consumers;
pub mod ids;
pub mod orderbook_market;
