//! An in-memory limit order matching core.
//!
//! Resting interest is held at discrete price levels and incoming orders are
//! executed against it under price-time priority. Quantities are whole lots
//! and prices are fixed-point values, so every fill is exact.

pub mod engine;
pub mod limit;
pub mod order;
pub mod orderbook;
pub mod pair;
pub mod price;
pub mod service;

pub use engine::{Engine, EngineError};
pub use limit::{Limit, LimitView};
pub use order::{Order, OrderType};
pub use orderbook::{OrderBook, OrderBookView};
pub use pair::TradingPair;
pub use price::{Price, SCALAR};
