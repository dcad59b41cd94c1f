//! The strategies the engine can run.
pub mod three_candle_rsi7_reversal;
