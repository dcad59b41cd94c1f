//! Three candles of one colour with a confirming RSI7 predict a reversal:
//! three red candles with RSI7 <= 35 predict UP, three green ones with RSI7 >= 65 DOWN.
use vstd::prelude::*;
use crate::binance::Candle;
use crate::strategy::{Prediction, Rsi, Signal, Strategy, RSI_SUM_LIMIT};
use crate::text::{chars_of, string_of};

verus! {

pub const RSI_PERIOD: usize = 7;

/// Candles kept: enough for RSI7 (eight closes) and the three-candle pattern.
pub const CANDLE_HISTORY: usize = 11;

/// Upward move of the close from `a` to `b`.
pub open spec fn close_gain(a: Candle, b: Candle) -> nat {
    if b.close > a.close { (b.close - a.close) as nat } else { 0 }
}

/// Downward move of the close from `a` to `b`.
pub open spec fn close_loss(a: Candle, b: Candle) -> nat {
    if b.close > a.close { 0 } else { (a.close - b.close) as nat }
}

/// Sum of the upward close moves between consecutive candles of `w`.
pub open spec fn window_gains(w: Seq<Candle>) -> nat
    decreases w.len(),
{
    if w.len() < 2 {
        0
    } else {
        window_gains(w.drop_last()) + close_gain(w[w.len() - 2], w.last())
    }
}

/// Sum of the downward close moves between consecutive candles of `w`.
pub open spec fn window_losses(w: Seq<Candle>) -> nat
    decreases w.len(),
{
    if w.len() < 2 {
        0
    } else {
        window_losses(w.drop_last()) + close_loss(w[w.len() - 2], w.last())
    }
}

/// The last eight candles of a history, whose seven moves make RSI7.
pub open spec fn rsi_window(h: Seq<Candle>) -> Seq<Candle> {
    h.subrange(h.len() - (RSI_PERIOD + 1), h.len() as int)
}

/// RSI7 of a history: `None` with fewer than eight candles.
pub open spec fn history_rsi(h: Seq<Candle>) -> Option<(nat, nat)> {
    if h.len() < RSI_PERIOD + 1 {
        None
    } else {
        Some((window_gains(rsi_window(h)), window_losses(rsi_window(h))))
    }
}

pub open spec fn is_green(c: Candle) -> bool {
    c.close >= c.open
}

pub open spec fn is_red(c: Candle) -> bool {
    c.close < c.open
}

/// `Some(true)` when the last three candles are green, `Some(false)` when they are
/// red, `None` otherwise.
pub open spec fn last_three_color(h: Seq<Candle>) -> Option<bool> {
    if h.len() < 3 {
        None
    } else {
        let c1 = h[h.len() - 3];
        let c2 = h[h.len() - 2];
        let c3 = h[h.len() - 1];
        if is_green(c1) && is_green(c2) && is_green(c3) {
            Some(true)
        } else if is_red(c1) && is_red(c2) && is_red(c3) {
            Some(false)
        } else {
            None
        }
    }
}

pub open spec fn rsi_of_sums(s: (nat, nat)) -> Rsi {
    Rsi { gains: s.0 as u128, losses: s.1 as u128 }
}

/// The prediction of the strategy on a history: against a green series when RSI7 is
/// at least 65, against a red series when RSI7 is at most 35.
pub open spec fn reversal_prediction(h: Seq<Candle>) -> Option<Prediction> {
    let rsi = history_rsi(h);
    let color = last_three_color(h);
    if rsi is None || color is None {
        None
    } else if color->0 {
        if rsi_of_sums(rsi->0).spec_at_least(65) { Some(Prediction::Down) } else { None }
    } else {
        if rsi_of_sums(rsi->0).spec_at_most(35) { Some(Prediction::Up) } else { None }
    }
}

/// The history after a closed candle arrives: the candle is appended and the oldest
/// candle leaves once more than `CANDLE_HISTORY` are held.
pub open spec fn history_after(h: Seq<Candle>, c: Candle) -> Seq<Candle> {
    let s = h.push(c);
    if s.len() > CANDLE_HISTORY { s.drop_first() } else { s }
}

pub open spec fn strategy_name() -> Seq<char> {
    "three_candle_rsi7_reversal"@
}

/// A reversal signal predicts UP only after three red candles with RSI7 at most 35,
/// and DOWN only after three green candles with RSI7 at least 65; and each such
/// situation gives its signal.
pub proof fn lemma_reversal_rule(h: Seq<Candle>)
    ensures
        reversal_prediction(h) == Some(Prediction::Up) <==> (history_rsi(h) is Some
            && last_three_color(h) == Some(false) && rsi_of_sums(history_rsi(h)->0).spec_at_most(35)),
        reversal_prediction(h) == Some(Prediction::Down) <==> (history_rsi(h) is Some
            && last_three_color(h) == Some(true) && rsi_of_sums(history_rsi(h)->0).spec_at_least(65)),
{
}

/// No signal comes before eight candles are held, RSI7 needing eight closes.
pub proof fn lemma_no_signal_before_eight_candles(h: Seq<Candle>)
    requires
        h.len() < RSI_PERIOD + 1,
    ensures
        reversal_prediction(h) is None,
{
}

/// RSI7 cannot be both at least 65 and at most 35: a history never matches both
/// the overbought and the oversold condition.
pub proof fn lemma_rsi_conditions_exclusive(r: Rsi)
    ensures
        !(r.spec_at_least(65) && r.spec_at_most(35)),
{
    if r.losses != 0 {
        assert(100 * r.gains >= 65 * (r.gains + r.losses) ==> 100 * r.gains > 35 * (r.gains + r.losses)) by (nonlinear_arith)
            requires r.losses > 0;
    }
}

/// The history after a candle ends with that candle, keeps at most eleven candles,
/// and is the most recent part of the previous history followed by the candle.
pub proof fn lemma_history_after(h: Seq<Candle>, c: Candle)
    requires
        h.len() <= CANDLE_HISTORY,
    ensures
        history_after(h, c).len() <= CANDLE_HISTORY,
        history_after(h, c).last() == c,
        history_after(h, c) == h.push(c).skip(h.push(c).len() - history_after(h, c).len()),
        history_after(h, c).len() == (if h.len() < CANDLE_HISTORY { h.len() as int + 1 } else { CANDLE_HISTORY as int }),
{
    let s = h.push(c);
    if s.len() > CANDLE_HISTORY {
        assert(s.drop_first() =~= s.skip(1));
    } else {
        assert(s.skip(0) =~= s);
    }
}

/// The history after the candles `cs` arrive one by one, from the empty history of
/// `new()`.
pub open spec fn history_of(cs: Seq<Candle>) -> Seq<Candle>
    decreases cs.len(),
{
    if cs.len() == 0 {
        Seq::empty()
    } else {
        history_after(history_of(cs.drop_last()), cs.last())
    }
}

/// The last `min(11, n)` of `n` candles.
pub open spec fn recent(cs: Seq<Candle>) -> Seq<Candle> {
    if cs.len() <= CANDLE_HISTORY { cs } else { cs.skip(cs.len() - CANDLE_HISTORY) }
}

/// After `new()` and the candles `cs`, the strategy holds exactly the last
/// `min(11, n)` of them, and its RSI7, its colour series and so its signal are those of
/// the whole sequence: keeping eleven candles never changes a decision.
pub proof fn lemma_calls_from_new(cs: Seq<Candle>)
    ensures
        history_of(cs) == recent(cs),
        history_rsi(history_of(cs)) == history_rsi(cs),
        last_three_color(history_of(cs)) == last_three_color(cs),
        reversal_prediction(history_of(cs)) == reversal_prediction(cs),
    decreases cs.len(),
{
    if cs.len() > 0 {
        let p = cs.drop_last();
        lemma_calls_from_new(p);
        let c = cs.last();
        if p.len() < CANDLE_HISTORY {
            assert(p.push(c) =~= cs);
        } else {
            assert(recent(p).push(c).drop_first() =~= cs.skip(cs.len() - CANDLE_HISTORY));
        }
    }
    let h = recent(cs);
    let n = cs.len();
    if n > CANDLE_HISTORY {
        assert(rsi_window(h) =~= rsi_window(cs));
        assert(h[h.len() - 3] == cs[n - 3]);
        assert(h[h.len() - 2] == cs[n - 2]);
        assert(h[h.len() - 1] == cs[n - 1]);
    }
}

/// A colour series is reported exactly when the last three candles all have that
/// colour: red (`Some(false)`) when each closes below its open, green (`Some(true)`)
/// when each closes at or above it.
pub proof fn lemma_series_is_three_candles(h: Seq<Candle>)
    ensures
        last_three_color(h) == Some(false) <==> (h.len() >= 3
            && h[h.len() - 3].close < h[h.len() - 3].open
            && h[h.len() - 2].close < h[h.len() - 2].open
            && h[h.len() - 1].close < h[h.len() - 1].open),
        last_three_color(h) == Some(true) <==> (h.len() >= 3
            && h[h.len() - 3].close >= h[h.len() - 3].open
            && h[h.len() - 2].close >= h[h.len() - 2].open
            && h[h.len() - 1].close >= h[h.len() - 1].open),
{
}

/// An UP signal needs the last three candles red and a DOWN signal the last three
/// green.
pub proof fn lemma_signal_needs_three_candles(h: Seq<Candle>)
    ensures
        reversal_prediction(h) == Some(Prediction::Up) ==> (h.len() >= 3
            && h[h.len() - 3].close < h[h.len() - 3].open
            && h[h.len() - 2].close < h[h.len() - 2].open
            && h[h.len() - 1].close < h[h.len() - 1].open),
        reversal_prediction(h) == Some(Prediction::Down) ==> (h.len() >= 3
            && h[h.len() - 3].close >= h[h.len() - 3].open
            && h[h.len() - 2].close >= h[h.len() - 2].open
            && h[h.len() - 1].close >= h[h.len() - 1].open),
{
    lemma_reversal_rule(h);
    lemma_series_is_three_candles(h);
}

proof fn lemma_window_net(w: Seq<Candle>)
    requires
        w.len() >= 1,
    ensures
        window_gains(w) - window_losses(w) == w.last().close - w[0].close,
    decreases w.len(),
{
    if w.len() >= 2 {
        let p = w.drop_last();
        lemma_window_net(p);
        assert(p[0] == w[0]);
        assert(p.last() == w[w.len() - 2]);
    }
}

/// RSI7 exists exactly from eight candles on, and its gains minus its losses are the
/// move of the close over the last eight candles (seven moves).
pub proof fn lemma_rsi_covers_last_eight_closes(h: Seq<Candle>)
    ensures
        history_rsi(h) is Some <==> h.len() >= 8,
        history_rsi(h) matches Some(s) ==> s.0 - s.1 == h[h.len() - 1].close - h[h.len() - 8].close,
{
    if h.len() >= 8 {
        let w = rsi_window(h);
        lemma_window_net(w);
        assert(w[0] == h[h.len() - 8]);
        assert(w.last() == h[h.len() - 1]);
    }
}

pub struct ThreeCandleRsi7Reversal {
    candles: Vec<Candle>,
}

proof fn lemma_window_sums_bound(w: Seq<Candle>)
    ensures
        window_gains(w) <= (if w.len() < 2 { 0 } else { (w.len() - 1) as nat }) * (u64::MAX as nat),
        window_losses(w) <= (if w.len() < 2 { 0 } else { (w.len() - 1) as nat }) * (u64::MAX as nat),
    decreases w.len(),
{
    if w.len() >= 2 {
        lemma_window_sums_bound(w.drop_last());
        let n = (w.len() - 1) as nat;
        assert((if w.drop_last().len() < 2 { 0 } else { (w.drop_last().len() - 1) as nat }) * (u64::MAX as nat)
            <= (n - 1) * (u64::MAX as nat)) by (nonlinear_arith)
            requires n >= 1, w.drop_last().len() == n;
        assert((n - 1) * (u64::MAX as nat) + (u64::MAX as nat) == n * (u64::MAX as nat)) by (nonlinear_arith);
    }
}

impl ThreeCandleRsi7Reversal {
    #[verifier::type_invariant]
    spec fn inv(self) -> bool {
        self.candles.len() <= CANDLE_HISTORY
    }

    /// The candles held: the last closed candles, oldest first, at most eleven.
    pub closed spec fn history(self) -> Seq<Candle> {
        self.candles@
    }

    pub fn new() -> (s: Self)
        ensures
            s.history() == Seq::<Candle>::empty(),
    {
        ThreeCandleRsi7Reversal { candles: Vec::new() }
    }

    /// RSI7 over the last eight closes, or `None` with fewer than eight candles.
    pub fn compute_rsi(&self) -> (r: Option<Rsi>)
        ensures
            r is None <==> history_rsi(self.history()) is None,
            r matches Some(x) ==> x.wf()
                && x.gains == (history_rsi(self.history())->0).0
                && x.losses == (history_rsi(self.history())->0).1,
    {
        let len = self.candles.len();
        if len < RSI_PERIOD + 1 {
            return None;
        }
        let ghost w = rsi_window(self.candles@);
        let start = len - (RSI_PERIOD + 1);
        let mut gains: u128 = 0;
        let mut losses: u128 = 0;
        let mut k: usize = 1;
        proof {
            assert(w.take(1).len() == 1);
        }
        while k <= RSI_PERIOD
            invariant
                1 <= k <= RSI_PERIOD + 1,
                start + RSI_PERIOD + 1 == len == self.candles.len(),
                w == self.candles@.subrange(start as int, len as int),
                gains == window_gains(w.take(k as int)),
                losses == window_losses(w.take(k as int)),
                gains <= (k - 1) * (u64::MAX as nat),
                losses <= (k - 1) * (u64::MAX as nat),
            decreases RSI_PERIOD + 1 - k,
        {
            let prev = self.candles[start + k - 1].close;
            let cur = self.candles[start + k].close;
            proof {
                let t = w.take(k as int + 1);
                assert(t.drop_last() =~= w.take(k as int));
                assert(t[t.len() - 2] == w[k - 1]);
                assert(t.last() == w[k as int]);
                assert(k * (u64::MAX as nat) == (k - 1) * (u64::MAX as nat) + (u64::MAX as nat)) by (nonlinear_arith);
            }
            if cur > prev {
                gains = gains + (cur - prev) as u128;
            } else {
                losses = losses + (prev - cur) as u128;
            }
            k = k + 1;
        }
        proof {
            assert(w.take(8) =~= w);
            assert(7 * (u64::MAX as nat) == RSI_SUM_LIMIT);
        }
        Some(Rsi { gains, losses })
    }

    /// `Some(true)` when the last three candles are green, `Some(false)` when they
    /// are all red, `None` otherwise.
    pub fn last_three_same_color(&self) -> (r: Option<bool>)
        ensures
            r == last_three_color(self.history()),
    {
        let len = self.candles.len();
        if len < 3 {
            return None;
        }
        let c1 = &self.candles[len - 3];
        let c2 = &self.candles[len - 2];
        let c3 = &self.candles[len - 1];
        if c1.is_green() && c2.is_green() && c3.is_green() {
            Some(true)
        } else if c1.is_red() && c2.is_red() && c3.is_red() {
            Some(false)
        } else {
            None
        }
    }
}

impl Strategy for ThreeCandleRsi7Reversal {
    fn name(&self) -> (r: &str)
        ensures
            r@ == strategy_name(),
    {
        "three_candle_rsi7_reversal"
    }

    /// Adds the closed candle to the history and returns the reversal signal, if any.
    fn on_closed_candle(&mut self, candle: &Candle) -> (r: Option<Signal>)
        ensures
            final(self).history() == history_after(old(self).history(), *candle),
            final(self).history().len() <= CANDLE_HISTORY,
            r is None <==> reversal_prediction(final(self).history()) is None,
            r matches Some(sig) ==> {
                &&& Some(sig.prediction) == reversal_prediction(final(self).history())
                &&& sig.rsi == rsi_of_sums(history_rsi(final(self).history())->0)
                &&& sig.rsi.wf()
                &&& sig.signal_candle_close_time == candle.close_time
                &&& sig.strategy_name@ == strategy_name()
            },
    {
        proof {
            use_type_invariant(&*self);
        }
        let mut held: Vec<Candle> = Vec::new();
        std::mem::swap(&mut held, &mut self.candles);
        held.push(*candle);
        if held.len() > CANDLE_HISTORY {
            held.remove(0);
        }
        assert(held@ =~= history_after(old(self).history(), *candle));
        self.candles = held;

        let rsi = self.compute_rsi();
        let is_green_series = self.last_three_same_color();
        let rsi = match rsi {
            Some(x) => x,
            None => return None,
        };
        let is_green_series = match is_green_series {
            Some(b) => b,
            None => return None,
        };
        let last_close = self.candles[self.candles.len() - 1].close_time;
        let prediction = if is_green_series {
            if rsi.at_least(65) {
                Prediction::Down
            } else {
                return None;
            }
        } else {
            if rsi.at_most(35) {
                Prediction::Up
            } else {
                return None;
            }
        };
        let name = string_of(&chars_of(self.name()));
        Some(Signal {
            prediction,
            signal_candle_close_time: last_close,
            rsi,
            strategy_name: name,
        })
    }
}

} // verus!
