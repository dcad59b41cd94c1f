//! Trading-bot core for Polymarket BTC Up/Down markets driven by Binance candles:
//! candle model, the three-candle RSI7 reversal strategy, configuration decoding,
//! the trade journal rows, the order tracker, and the Polymarket request logic.
pub mod text;
pub mod decimal;
pub mod calendar;
pub mod binance;
pub mod strategy;
pub mod strategies;
pub mod config;
pub mod tracker;
pub mod logger;
pub mod signing;
pub mod polymarket;
