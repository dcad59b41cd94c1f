//! What a strategy hands to the engine: a prediction for the next candle.
use vstd::prelude::*;
use crate::binance::Candle;
use crate::text::{chars_of, string_of};
use crate::decimal::{div_round_even, div_round_half_even};

verus! {

/// The predicted colour of the next candle: `Up` (green) or `Down` (red).
#[derive(Clone, Copy, Debug, PartialEq, Eq)]
pub enum Prediction {
    Up,
    Down,
}

/// The text of a prediction: "UP" or "DOWN".
pub open spec fn prediction_text(p: Prediction) -> Seq<char> {
    match p {
        Prediction::Up => "UP"@,
        Prediction::Down => "DOWN"@,
    }
}

impl Prediction {
    /// The text of the prediction, as the journal and the signal keys write it.
    pub fn to_text(&self) -> (r: String)
        ensures
            r@ == prediction_text(*self),
    {
        match self {
            Prediction::Up => string_of(&chars_of("UP")),
            Prediction::Down => string_of(&chars_of("DOWN")),
        }
    }
}

/// Largest sum of gains or losses over seven price moves of `u64` prices.
pub const RSI_SUM_LIMIT: u128 = 7 * 18446744073709551615u128;

/// A relative strength index kept exactly: the summed upward and downward close moves
/// (in 10^-8 units) over the period. Its value is 100·gains/(gains+losses), 50 for a
/// flat market and 100 when there was no loss.
#[derive(Clone, Copy, Debug, PartialEq, Eq)]
pub struct Rsi {
    pub gains: u128,
    pub losses: u128,
}

impl Rsi {
    /// Sums small enough for the comparisons to be computed exactly.
    pub open spec fn wf(self) -> bool {
        self.gains <= RSI_SUM_LIMIT && self.losses <= RSI_SUM_LIMIT
    }

    /// The index is at least `pct` percent.
    pub open spec fn spec_at_least(self, pct: int) -> bool {
        if self.losses == 0 {
            (if self.gains == 0 { 50int } else { 100int }) >= pct
        } else {
            100 * self.gains >= pct * (self.gains + self.losses)
        }
    }

    /// The index is at most `pct` percent.
    pub open spec fn spec_at_most(self, pct: int) -> bool {
        if self.losses == 0 {
            (if self.gains == 0 { 50int } else { 100int }) <= pct
        } else {
            100 * self.gains <= pct * (self.gains + self.losses)
        }
    }

    /// The index in hundredths of a percent, rounded ties to even.
    pub open spec fn spec_hundredths(self) -> int {
        if self.losses == 0 {
            if self.gains == 0 { 5000 } else { 10000 }
        } else {
            div_round_half_even((10000 * self.gains) as nat, (self.gains + self.losses) as nat) as int
        }
    }

    pub fn at_least(&self, pct: u64) -> (r: bool)
        requires
            self.wf(),
            pct <= 100,
        ensures
            r == self.spec_at_least(pct as int),
    {
        if self.losses == 0 {
            let v: u64 = if self.gains == 0 { 50 } else { 100 };
            v >= pct
        } else {
            proof {
                assert((pct as u128) * (self.gains + self.losses) <= 100 * (2 * RSI_SUM_LIMIT)) by (nonlinear_arith)
                    requires pct <= 100, self.gains + self.losses <= 2 * RSI_SUM_LIMIT;
            }
            100 * self.gains >= (pct as u128) * (self.gains + self.losses)
        }
    }

    pub fn at_most(&self, pct: u64) -> (r: bool)
        requires
            self.wf(),
            pct <= 100,
        ensures
            r == self.spec_at_most(pct as int),
    {
        if self.losses == 0 {
            let v: u64 = if self.gains == 0 { 50 } else { 100 };
            v <= pct
        } else {
            proof {
                assert((pct as u128) * (self.gains + self.losses) <= 100 * (2 * RSI_SUM_LIMIT)) by (nonlinear_arith)
                    requires pct <= 100, self.gains + self.losses <= 2 * RSI_SUM_LIMIT;
            }
            100 * self.gains <= (pct as u128) * (self.gains + self.losses)
        }
    }

    /// The index in hundredths of a percent (0 to 10000), rounded ties to even.
    pub fn hundredths(&self) -> (r: u64)
        requires
            self.wf(),
        ensures
            r as int == self.spec_hundredths(),
            r <= 10000,
    {
        if self.losses == 0 {
            if self.gains == 0 { 5000 } else { 10000 }
        } else {
            let total: u128 = self.gains + self.losses;
            let n: u128 = 10000 * self.gains;
            proof {
                assert(n / total < 10000) by (nonlinear_arith)
                    requires n == 10000 * self.gains, total == self.gains + self.losses, self.losses > 0;
            }
            let q: u128 = div_round_even(n, total);
            q as u64
        }
    }
}

/// A trading signal produced by a strategy on a closed candle.
#[derive(Clone, Debug)]
pub struct Signal {
    pub prediction: Prediction,
    /// Close time (UTC milliseconds) of the candle that produced the signal.
    pub signal_candle_close_time: i64,
    pub rsi: Rsi,
    pub strategy_name: String,
}

/// A trading strategy fed with closed candles, one at a time.
pub trait Strategy {
    fn name(&self) -> &str;

    fn on_closed_candle(&mut self, candle: &Candle) -> Option<Signal>;
}

} // verus!
