//! Follow-up of the orders sent: which are still pending, when their outcome is
//! known, and when they can be forgotten.
use vstd::prelude::*;
use crate::strategy::{Prediction, prediction_text};
use crate::text::{ascii_lower_seq, ascii_upper_seq, chars_eq, chars_of, eq_ignore_ascii_case, has_prefix, join_path, join_path_exec, push_all, starts_with, str_eq, str_eq_ignore_ascii_case, string_of, to_ascii_lower, to_ascii_upper, trim_chars, trim_seq};

verus! {

/// The key that identifies a signal: `strategy:slug:PREDICTION`, strategy and slug
/// trimmed and in ASCII lower case.
pub open spec fn signal_key_text(strategy_name: Seq<char>, slug: Seq<char>, p: Prediction) -> Seq<char> {
    ascii_lower_seq(trim_seq(strategy_name)) + seq![':'] + ascii_lower_seq(trim_seq(slug)) + seq![':']
        + ascii_upper_seq(prediction_text(p))
}

pub fn build_signal_key(strategy_name: &str, slug: &str, prediction: &Prediction) -> (r: String)
    ensures
        r@ == signal_key_text(strategy_name@, slug@, *prediction),
{
    let mut out = to_ascii_lower(&trim_chars(&chars_of(strategy_name)));
    out.push(':');
    let s = to_ascii_lower(&trim_chars(&chars_of(slug)));
    push_all(&mut out, &s);
    out.push(':');
    let p = prediction.to_text();
    let pu = to_ascii_upper(&chars_of(p.as_str()));
    push_all(&mut out, &pu);
    string_of(&out)
}

/// An order whose outcome is not settled yet.
#[derive(Clone, Debug)]
pub struct PendingTrade {
    pub trade_id: String,
    pub order_id: String,
    pub signal_key: String,
    pub prediction: Option<Prediction>,
    pub target_close_time_ms: Option<i64>,
    pub order_status: Option<String>,
    pub validation_done: bool,
}

/// "MATCHED" or "FILLED", in any ASCII case.
pub open spec fn is_filled_status(s: Seq<char>) -> bool {
    let u = ascii_upper_seq(s);
    u == "MATCHED"@ || u == "FILLED"@
}

/// "CANCELLED", "EXPIRED" or "UNMATCHED", in any ASCII case.
pub open spec fn is_non_fill_terminal_status(s: Seq<char>) -> bool {
    let u = ascii_upper_seq(s);
    u == "CANCELLED"@ || u == "EXPIRED"@ || u == "UNMATCHED"@
}

/// The statuses after which an order no longer changes (exact upper-case spelling).
pub open spec fn is_terminal_status(s: Seq<char>) -> bool {
    s == "MATCHED"@ || s == "FILLED"@ || s == "CANCELLED"@ || s == "EXPIRED"@ || s == "UNMATCHED"@
}

/// A trade can be forgotten once its outcome is written and its status is final.
pub open spec fn can_drop(t: PendingTrade) -> bool {
    t.validation_done && (t.order_status matches Some(s)
        && (is_filled_status(s@) || is_non_fill_terminal_status(s@)))
}

/// "WIN" when the prediction matches the colour of the candle, "LOSS" otherwise.
pub open spec fn binance_outcome_text(p: Prediction, candle_is_green: bool) -> Seq<char> {
    if (p == Prediction::Up && candle_is_green) || (p == Prediction::Down && !candle_is_green) {
        "WIN"@
    } else {
        "LOSS"@
    }
}

/// The outcome a closed candle settles for a trade, if any: the trade must not be
/// validated yet and must target that candle; a filled order with a prediction wins or
/// loses by the candle's colour, an order that ended unfilled has "NO_ENTRY".
pub open spec fn candle_outcome(t: PendingTrade, close_time_ms: i64, candle_is_green: bool) -> Option<Seq<char>> {
    if t.validation_done || t.target_close_time_ms != Some(close_time_ms) {
        None
    } else if t.prediction is Some && t.order_status is Some && is_filled_status(t.order_status->0@) {
        Some(binance_outcome_text(t.prediction->0, candle_is_green))
    } else if t.order_status is Some && is_non_fill_terminal_status(t.order_status->0@) {
        Some("NO_ENTRY"@)
    } else {
        None
    }
}

/// What one poll of an order's status asks to write in the journal.
#[derive(Clone, Copy, Debug, PartialEq, Eq)]
pub struct PollActions {
    /// The status differs from the one known (ignoring ASCII case), or none was known.
    pub status_changed: bool,
    /// Write the new status: it is final and it changed.
    pub write_status: bool,
    /// Write the outcome "NO_ENTRY": the order ended without a fill.
    pub write_no_entry: bool,
}

pub open spec fn poll_actions_spec(t: PendingTrade, status: Seq<char>) -> PollActions {
    let changed = match t.order_status {
        Some(prev) => !eq_ignore_ascii_case(prev@, status),
        None => true,
    };
    let terminal = is_terminal_status(status);
    PollActions {
        status_changed: changed,
        write_status: terminal && changed,
        write_no_entry: terminal && is_non_fill_terminal_status(status),
    }
}

/// The result of polling one order: the status read (`None` when the read failed),
/// and whether each journal write asked for succeeded.
#[derive(Clone, Debug)]
pub struct PollReport {
    pub status: Option<String>,
    pub status_written: bool,
    pub outcome_written: bool,
}

/// A trade after a poll: a status written to the journal becomes the known status,
/// a "NO_ENTRY" written settles the trade.
pub open spec fn trade_after_poll(t: PendingTrade, r: PollReport) -> PendingTrade {
    match r.status {
        None => t,
        Some(st) => {
            let a = poll_actions_spec(t, st@);
            PendingTrade {
                order_status: if a.write_status && r.status_written { Some(st) } else { t.order_status },
                validation_done: if a.write_no_entry && r.outcome_written { true } else { t.validation_done },
                ..t
            }
        },
    }
}

/// The trades that cannot be dropped yet, in order.
pub open spec fn keep_pending(s: Seq<PendingTrade>) -> Seq<PendingTrade>
    decreases s.len(),
{
    if s.len() == 0 {
        Seq::empty()
    } else {
        let prev = keep_pending(s.drop_last());
        if can_drop(s.last()) { prev } else { prev.push(s.last()) }
    }
}

/// `t` with its outcome recorded when `written` holds.
pub open spec fn mark_validated(t: PendingTrade, written: bool) -> PendingTrade {
    if written { PendingTrade { validation_done: true, ..t } } else { t }
}

/// No two pending trades share a signal key or an order id.
pub open spec fn keys_unique(s: Seq<PendingTrade>) -> bool {
    forall|i: int, j: int| 0 <= i < s.len() && 0 <= j < s.len() && i != j ==>
        (#[trigger] s[i]).signal_key@ != (#[trigger] s[j]).signal_key@ && s[i].order_id@ != s[j].order_id@
}

/// A pending trade holds the signal key.
pub open spec fn signal_active(s: Seq<PendingTrade>, key: Seq<char>) -> bool {
    exists|i: int| 0 <= i < s.len() && (#[trigger] s[i]).signal_key@ == key
}

/// A pending trade holds the signal key or the order id.
pub open spec fn already_tracked(s: Seq<PendingTrade>, key: Seq<char>, order_id: Seq<char>) -> bool {
    exists|i: int| 0 <= i < s.len() && ((#[trigger] s[i]).signal_key@ == key || s[i].order_id@ == order_id)
}

/// What `track` did with an order.
#[derive(Clone, Copy, Debug, PartialEq, Eq)]
pub enum TrackResult {
    /// The order is simulated ("dry-run-" id) and is not followed.
    DryRunIgnored,
    /// The signal key or the order id is already followed.
    AlreadyFollowed,
    /// The order is now followed.
    Followed,
}

fn clone_opt_string(o: &Option<String>) -> (r: Option<String>)
    ensures
        r == *o,
{
    match o {
        Some(s) => Some(s.clone()),
        None => None,
    }
}

impl PendingTrade {
    /// A copy of the trade.
    pub fn duplicate(&self) -> (r: PendingTrade)
        ensures
            r == *self,
    {
        PendingTrade {
            trade_id: self.trade_id.clone(),
            order_id: self.order_id.clone(),
            signal_key: self.signal_key.clone(),
            prediction: self.prediction,
            target_close_time_ms: self.target_close_time_ms,
            order_status: clone_opt_string(&self.order_status),
            validation_done: self.validation_done,
        }
    }

    pub fn is_filled_status(status: &str) -> (r: bool)
        ensures
            r == is_filled_status(status@),
    {
        let u = to_ascii_upper(&chars_of(status));
        chars_eq(&u, &chars_of("MATCHED")) || chars_eq(&u, &chars_of("FILLED"))
    }

    pub fn is_non_fill_terminal_status(status: &str) -> (r: bool)
        ensures
            r == is_non_fill_terminal_status(status@),
    {
        let u = to_ascii_upper(&chars_of(status));
        chars_eq(&u, &chars_of("CANCELLED")) || chars_eq(&u, &chars_of("EXPIRED"))
            || chars_eq(&u, &chars_of("UNMATCHED"))
    }

    pub fn is_terminal_status(status: &str) -> (r: bool)
        ensures
            r == is_terminal_status(status@),
    {
        str_eq(status, "MATCHED") || str_eq(status, "FILLED") || str_eq(status, "CANCELLED")
            || str_eq(status, "EXPIRED") || str_eq(status, "UNMATCHED")
    }

    pub fn can_drop(&self) -> (r: bool)
        ensures
            r == can_drop(*self),
    {
        if !self.validation_done {
            return false;
        }
        match &self.order_status {
            Some(s) => Self::is_filled_status(s.as_str()) || Self::is_non_fill_terminal_status(s.as_str()),
            None => false,
        }
    }

    pub fn binance_outcome(prediction: &Prediction, candle_is_green: bool) -> (r: String)
        ensures
            r@ == binance_outcome_text(*prediction, candle_is_green),
    {
        match (prediction, candle_is_green) {
            (Prediction::Up, true) | (Prediction::Down, false) => string_of(&chars_of("WIN")),
            _ => string_of(&chars_of("LOSS")),
        }
    }

    /// The outcome that the closed candle settles for this trade, if any.
    pub fn candle_outcome(&self, candle_close_time: i64, candle_is_green: bool) -> (r: Option<String>)
        ensures
            r is Some <==> candle_outcome(*self, candle_close_time, candle_is_green) is Some,
            r matches Some(o) ==> o@ == candle_outcome(*self, candle_close_time, candle_is_green)->0,
    {
        if self.validation_done {
            return None;
        }
        match self.target_close_time_ms {
            Some(t) => if t != candle_close_time { return None; },
            None => return None,
        }
        match (&self.prediction, &self.order_status) {
            (Some(p), Some(st)) => {
                if Self::is_filled_status(st.as_str()) {
                    return Some(Self::binance_outcome(p, candle_is_green));
                }
            },
            _ => {},
        }
        match &self.order_status {
            Some(st) => {
                if Self::is_non_fill_terminal_status(st.as_str()) {
                    Some(string_of(&chars_of("NO_ENTRY")))
                } else {
                    None
                }
            },
            None => None,
        }
    }

    /// What a poll that read `status` asks to write in the journal.
    pub fn poll_actions(&self, status: &str) -> (r: PollActions)
        ensures
            r == poll_actions_spec(*self, status@),
    {
        let changed = match &self.order_status {
            Some(prev) => !str_eq_ignore_ascii_case(prev.as_str(), status),
            None => true,
        };
        let terminal = Self::is_terminal_status(status);
        PollActions {
            status_changed: changed,
            write_status: terminal && changed,
            write_no_entry: terminal && Self::is_non_fill_terminal_status(status),
        }
    }

    /// The trade after a poll, given what the journal accepted.
    pub fn after_poll(&self, report: &PollReport) -> (r: PendingTrade)
        ensures
            r == trade_after_poll(*self, *report),
    {
        match &report.status {
            None => self.duplicate(),
            Some(st) => {
                let a = self.poll_actions(st.as_str());
                let order_status = if a.write_status && report.status_written {
                    Some(st.clone())
                } else {
                    clone_opt_string(&self.order_status)
                };
                PendingTrade {
                    trade_id: self.trade_id.clone(),
                    order_id: self.order_id.clone(),
                    signal_key: self.signal_key.clone(),
                    prediction: self.prediction,
                    target_close_time_ms: self.target_close_time_ms,
                    order_status,
                    validation_done: if a.write_no_entry && report.outcome_written { true } else { self.validation_done },
                }
            },
        }
    }
}

/// The orders being followed, and where their list is saved.
pub struct PositionTracker {
    pending: Vec<PendingTrade>,
    state_path: String,
}

impl PositionTracker {
    /// The trades being followed, in the order they were tracked.
    pub closed spec fn trades(&self) -> Seq<PendingTrade> {
        self.pending@
    }

    /// Starts from the trades saved earlier; the list is saved as
    /// `pending_orders.json` in the logs directory.
    pub fn new(logs_dir: &str, saved: Vec<PendingTrade>) -> (r: Self)
        ensures
            r.trades() == saved@,
            r.state_path_spec() == join_path(logs_dir@, "pending_orders.json"@),
    {
        PositionTracker {
            pending: saved,
            state_path: join_path_exec(logs_dir, "pending_orders.json"),
        }
    }

    pub closed spec fn state_path_spec(&self) -> Seq<char> {
        self.state_path@
    }

    /// Where the pending list is saved.
    pub fn state_path(&self) -> (r: &String)
        ensures
            r@ == self.state_path_spec(),
    {
        &self.state_path
    }

    /// The trades being followed.
    pub fn pending(&self) -> (r: &Vec<PendingTrade>)
        ensures
            r@ == self.trades(),
    {
        &self.pending
    }

    pub fn pending_count(&self) -> (r: usize)
        ensures
            r == self.trades().len(),
    {
        self.pending.len()
    }

    pub fn is_signal_active(&self, signal_key: &str) -> (r: bool)
        ensures
            r == signal_active(self.trades(), signal_key@),
    {
        let mut i: usize = 0;
        while i < self.pending.len()
            invariant
                i <= self.pending.len(),
                forall|j: int| 0 <= j < i ==> (#[trigger] self.pending@[j]).signal_key@ != signal_key@,
            decreases self.pending.len() - i,
        {
            if str_eq(self.pending[i].signal_key.as_str(), signal_key) {
                return true;
            }
            i = i + 1;
        }
        false
    }

    /// Follows an order. Simulated orders ("dry-run-" ids) and orders whose signal key
    /// or order id is already followed are left out; the caller saves the list when
    /// the result is `Followed`.
    pub fn track(
        &mut self,
        trade_id: String,
        order_id: String,
        signal_key: String,
        prediction: Prediction,
        target_close_time_ms: i64,
        order_status: String,
    ) -> (r: TrackResult)
        ensures
            has_prefix(order_id@, "dry-run-"@) ==> r == TrackResult::DryRunIgnored,
            !has_prefix(order_id@, "dry-run-"@) && already_tracked(old(self).trades(), signal_key@, order_id@)
                ==> r == TrackResult::AlreadyFollowed,
            r != TrackResult::Followed ==> final(self).trades() == old(self).trades(),
            r == TrackResult::Followed ==> final(self).trades() == old(self).trades().push(PendingTrade {
                trade_id,
                order_id,
                signal_key,
                prediction: Some(prediction),
                target_close_time_ms: Some(target_close_time_ms),
                order_status: Some(order_status),
                validation_done: false,
            }),
            !has_prefix(order_id@, "dry-run-"@) && !already_tracked(old(self).trades(), signal_key@, order_id@)
                ==> r == TrackResult::Followed,
            final(self).state_path_spec() == old(self).state_path_spec(),
            keys_unique(old(self).trades()) ==> keys_unique(final(self).trades()),
    {
        if starts_with(order_id.as_str(), "dry-run-") {
            return TrackResult::DryRunIgnored;
        }
        let mut i: usize = 0;
        while i < self.pending.len()
            invariant
                i <= self.pending.len(),
                !has_prefix(order_id@, "dry-run-"@),
                forall|j: int| 0 <= j < i ==> (#[trigger] self.pending@[j]).signal_key@ != signal_key@
                    && self.pending@[j].order_id@ != order_id@,
            decreases self.pending.len() - i,
        {
            if str_eq(self.pending[i].signal_key.as_str(), signal_key.as_str())
                || str_eq(self.pending[i].order_id.as_str(), order_id.as_str()) {
                return TrackResult::AlreadyFollowed;
            }
            i = i + 1;
        }
        let ghost before = self.pending@;
        self.pending.push(PendingTrade {
            trade_id,
            order_id,
            signal_key,
            prediction: Some(prediction),
            target_close_time_ms: Some(target_close_time_ms),
            order_status: Some(order_status),
            validation_done: false,
        });
        proof {
            let after = self.pending@;
            assert forall|a: int, b: int| 0 <= a < after.len() && 0 <= b < after.len() && a != b
                && keys_unique(before) implies
                (#[trigger] after[a]).signal_key@ != (#[trigger] after[b]).signal_key@
                    && after[a].order_id@ != after[b].order_id@ by {
                if a < before.len() && b < before.len() {
                    assert(after[a] == before[a] && after[b] == before[b]);
                } else if a < before.len() {
                    assert(after[a] == before[a]);
                } else {
                    assert(after[b] == before[b]);
                }
            }
        }
        TrackResult::Followed
    }

    /// Records which trades had their candle outcome written to the journal
    /// (`written[i]` for the i-th trade), then drops the trades that are settled.
    /// Returns whether any outcome was written, in which case the caller saves the list.
    pub fn finish_validation(&mut self, written: &Vec<bool>) -> (changed: bool)
        requires
            written.len() == old(self).trades().len(),
        ensures
            final(self).trades() == keep_pending(Seq::new(old(self).trades().len(),
                |i: int| mark_validated(old(self).trades()[i], written@[i]))),
            changed == (exists|i: int| 0 <= i < written.len() && written@[i]),
            final(self).state_path_spec() == old(self).state_path_spec(),
            keys_unique(old(self).trades()) ==> keys_unique(final(self).trades()),
    {
        let ghost marked = Seq::new(self.pending@.len(), |i: int| mark_validated(self.pending@[i], written@[i]));
        let mut kept: Vec<PendingTrade> = Vec::new();
        let mut changed = false;
        let mut i: usize = 0;
        while i < self.pending.len()
            invariant
                i <= self.pending.len() == written.len(),
                marked == Seq::new(self.pending@.len(), |k: int| mark_validated(self.pending@[k], written@[k])),
                kept@ == keep_pending(marked.take(i as int)),
                changed == (exists|k: int| 0 <= k < i && written@[k]),
            decreases self.pending.len() - i,
        {
            let t = &self.pending[i];
            let m = if written[i] {
                changed = true;
                PendingTrade {
                    trade_id: t.trade_id.clone(),
                    order_id: t.order_id.clone(),
                    signal_key: t.signal_key.clone(),
                    prediction: t.prediction,
                    target_close_time_ms: t.target_close_time_ms,
                    order_status: clone_opt_string(&t.order_status),
                    validation_done: true,
                }
            } else {
                t.duplicate()
            };
            assert(m == marked[i as int]);
            if !m.can_drop() {
                kept.push(m);
            }
            i = i + 1;
            assert(marked.take(i as int).drop_last() =~= marked.take((i - 1) as int));
        }
        assert(marked.take(self.pending.len() as int) =~= marked);
        proof {
            lemma_keep_pending_unique(marked);
            assert(keys_unique(self.pending@) ==> keys_unique(marked));
        }
        self.pending = kept;
        changed
    }

    /// Applies the reports of one polling round (`reports[i]` for the i-th trade),
    /// then drops the trades that are settled. The caller saves the list afterwards.
    pub fn finish_poll(&mut self, reports: &Vec<PollReport>)
        requires
            reports.len() == old(self).trades().len(),
        ensures
            final(self).trades() == keep_pending(Seq::new(old(self).trades().len(),
                |i: int| trade_after_poll(old(self).trades()[i], reports@[i]))),
            final(self).state_path_spec() == old(self).state_path_spec(),
            keys_unique(old(self).trades()) ==> keys_unique(final(self).trades()),
    {
        let ghost polled = Seq::new(self.pending@.len(), |i: int| trade_after_poll(self.pending@[i], reports@[i]));
        let mut kept: Vec<PendingTrade> = Vec::new();
        let mut i: usize = 0;
        while i < self.pending.len()
            invariant
                i <= self.pending.len() == reports.len(),
                polled == Seq::new(self.pending@.len(), |k: int| trade_after_poll(self.pending@[k], reports@[k])),
                kept@ == keep_pending(polled.take(i as int)),
            decreases self.pending.len() - i,
        {
            let m = self.pending[i].after_poll(&reports[i]);
            if !m.can_drop() {
                kept.push(m);
            }
            i = i + 1;
            assert(polled.take(i as int).drop_last() =~= polled.take((i - 1) as int));
        }
        assert(polled.take(self.pending.len() as int) =~= polled);
        proof {
            lemma_keep_pending_unique(polled);
        }
        self.pending = kept;
    }
}

/// The outcome a closed candle settles: for an unvalidated trade that targets it, a
/// filled order (MATCHED or FILLED in any case) with prediction `p` wins exactly when
/// the candle has the predicted colour (UP with green, DOWN with red) and loses
/// otherwise; an order that ended unfilled (CANCELLED, EXPIRED or UNMATCHED) has no
/// entry; a validated trade, or one with another target, gets nothing.
pub proof fn lemma_candle_settles_trade(t: PendingTrade, close_time: i64, candle_is_green: bool)
    ensures
        (t.validation_done || t.target_close_time_ms != Some(close_time))
            ==> candle_outcome(t, close_time, candle_is_green) is None,
        (!t.validation_done && t.target_close_time_ms == Some(close_time)
            && t.prediction is Some && t.order_status is Some
            && (ascii_upper_seq(t.order_status->0@) == "MATCHED"@ || ascii_upper_seq(t.order_status->0@) == "FILLED"@))
            ==> candle_outcome(t, close_time, candle_is_green)
                == Some(if (t.prediction->0 == Prediction::Up) == candle_is_green { "WIN"@ } else { "LOSS"@ }),
        (!t.validation_done && t.target_close_time_ms == Some(close_time)
            && t.order_status is Some
            && (ascii_upper_seq(t.order_status->0@) == "CANCELLED"@ || ascii_upper_seq(t.order_status->0@) == "EXPIRED"@
                || ascii_upper_seq(t.order_status->0@) == "UNMATCHED"@))
            ==> candle_outcome(t, close_time, candle_is_green) == Some("NO_ENTRY"@),
{
    reveal_strlit("MATCHED");
    reveal_strlit("FILLED");
    reveal_strlit("CANCELLED");
    reveal_strlit("EXPIRED");
    reveal_strlit("UNMATCHED");
    assert("CANCELLED"@.len() != "MATCHED"@.len() && "CANCELLED"@.len() != "FILLED"@.len());
    assert("UNMATCHED"@.len() != "MATCHED"@.len() && "UNMATCHED"@.len() != "FILLED"@.len());
    assert("EXPIRED"@[0] != "MATCHED"@[0] && "EXPIRED"@.len() != "FILLED"@.len());
}

/// Once an order is followed, its signal is active.
pub proof fn lemma_followed_signal_is_active(before: Seq<PendingTrade>, t: PendingTrade)
    ensures
        signal_active(before.push(t), t.signal_key@),
{
    assert(before.push(t)[before.len() as int] == t);
}

/// A settled outcome is never undone: neither a poll nor a validation clears
/// `validation_done`, and neither changes which order or signal a trade is.
pub proof fn lemma_validation_is_kept(t: PendingTrade, r: PollReport, written: bool)
    ensures
        t.validation_done ==> trade_after_poll(t, r).validation_done,
        t.validation_done ==> mark_validated(t, written).validation_done,
        trade_after_poll(t, r).signal_key == t.signal_key && trade_after_poll(t, r).order_id == t.order_id,
        mark_validated(t, written).signal_key == t.signal_key && mark_validated(t, written).order_id == t.order_id,
{
}

/// The trades kept are exactly the trades that cannot be dropped: a trade leaves
/// the list only once its outcome is written and its order status is final.
pub proof fn lemma_keep_pending_exact(s: Seq<PendingTrade>)
    ensures
        forall|i: int| 0 <= i < keep_pending(s).len() ==> !can_drop(#[trigger] keep_pending(s)[i]),
        forall|i: int| 0 <= i < s.len() && !can_drop(#[trigger] s[i]) ==> keep_pending(s).contains(s[i]),
    decreases s.len(),
{
    if s.len() > 0 {
        let t = s.drop_last();
        lemma_keep_pending_exact(t);
        let k = keep_pending(s);
        let kt = keep_pending(t);
        assert forall|i: int| 0 <= i < k.len() implies !can_drop(#[trigger] k[i]) by {
            if i < kt.len() {
                assert(k[i] == kt[i]);
            }
        }
        assert forall|i: int| 0 <= i < s.len() && !can_drop(#[trigger] s[i]) implies k.contains(s[i]) by {
            if i < t.len() {
                assert(t[i] == s[i]);
                assert(kt.contains(t[i]));
                let j = choose|j: int| 0 <= j < kt.len() && kt[j] == t[i];
                assert(k[j] == kt[j]);
            } else {
                assert(s[i] == s.last());
                assert(k[k.len() - 1] == s.last());
            }
        }
    }
}

/// What a poll writes: the status only when it is final (MATCHED, FILLED, CANCELLED,
/// EXPIRED or UNMATCHED) and differs, ignoring ASCII case, from the one known; the
/// outcome NO_ENTRY only when the final status is CANCELLED, EXPIRED or UNMATCHED.
pub proof fn lemma_poll_writes(t: PendingTrade, status: Seq<char>)
    ensures
        poll_actions_spec(t, status).write_status <==> (
            (status == "MATCHED"@ || status == "FILLED"@ || status == "CANCELLED"@
                || status == "EXPIRED"@ || status == "UNMATCHED"@)
            && (t.order_status is None || !eq_ignore_ascii_case(t.order_status->0@, status))),
        poll_actions_spec(t, status).write_no_entry <==> (
            status == "CANCELLED"@ || status == "EXPIRED"@ || status == "UNMATCHED"@),
{
    reveal_strlit("CANCELLED");
    reveal_strlit("EXPIRED");
    reveal_strlit("UNMATCHED");
    reveal_strlit("MATCHED");
    reveal_strlit("FILLED");
    if status == "CANCELLED"@ || status == "EXPIRED"@ || status == "UNMATCHED"@
        || status == "MATCHED"@ || status == "FILLED"@ {
        assert(ascii_upper_seq(status) =~= status);
    }
    assert("MATCHED"@.len() != "CANCELLED"@.len() && "MATCHED"@.len() != "UNMATCHED"@.len());
    assert("MATCHED"@[0] != "EXPIRED"@[0]);
    assert("FILLED"@.len() != "CANCELLED"@.len() && "FILLED"@.len() != "UNMATCHED"@.len()
        && "FILLED"@.len() != "EXPIRED"@.len());
}

/// A trade wins exactly when the candle has the predicted colour.
pub proof fn lemma_outcome_matches_prediction(p: Prediction, candle_is_green: bool)
    ensures
        (binance_outcome_text(p, candle_is_green) == "WIN"@) <==> ((p == Prediction::Up) == candle_is_green),
{
    reveal_strlit("WIN");
    reveal_strlit("LOSS");
    if !((p == Prediction::Up) == candle_is_green) {
        assert("LOSS"@[0] != "WIN"@[0]);
    }
}

/// `keep_pending` keeps a subsequence: every kept trade is one of the input trades,
/// at strictly increasing positions.
proof fn lemma_keep_pending_unique(s: Seq<PendingTrade>)
    ensures
        keys_unique(s) ==> keys_unique(keep_pending(s)),
        forall|i: int| 0 <= i < keep_pending(s).len() ==> s.contains(#[trigger] keep_pending(s)[i]),
    decreases s.len(),
{
    if s.len() > 0 {
        let t = s.drop_last();
        lemma_keep_pending_unique(t);
        let kt = keep_pending(t);
        let k = keep_pending(s);
        assert forall|i: int| 0 <= i < k.len() implies s.contains(#[trigger] k[i]) by {
            if i < kt.len() {
                assert(k[i] == kt[i]);
                assert(t.contains(kt[i]));
                let j = choose|j: int| 0 <= j < t.len() && t[j] == kt[i];
                assert(s[j] == t[j]);
            } else {
                assert(k[i] == s.last());
                assert(s[s.len() - 1] == s.last());
            }
        }
        if keys_unique(s) && !can_drop(s.last()) {
            assert(keys_unique(t)) by {
                assert forall|a: int, b: int| 0 <= a < t.len() && 0 <= b < t.len() && a != b implies
                    (#[trigger] t[a]).signal_key@ != (#[trigger] t[b]).signal_key@ && t[a].order_id@ != t[b].order_id@ by {
                    assert(t[a] == s[a] && t[b] == s[b]);
                }
            }
            assert forall|a: int, b: int| 0 <= a < k.len() && 0 <= b < k.len() && a != b implies
                (#[trigger] k[a]).signal_key@ != (#[trigger] k[b]).signal_key@ && k[a].order_id@ != k[b].order_id@ by {
                if a < kt.len() && b < kt.len() {
                    assert(k[a] == kt[a] && k[b] == kt[b]);
                } else if a < kt.len() {
                    assert(k[a] == kt[a]);
                    assert(t.contains(kt[a]));
                    let j = choose|j: int| 0 <= j < t.len() && t[j] == kt[a];
                    assert(s[j] == t[j]);
                    assert(k[b] == s[s.len() - 1]);
                } else {
                    assert(k[b] == kt[b]);
                    assert(t.contains(kt[b]));
                    let j = choose|j: int| 0 <= j < t.len() && t[j] == kt[b];
                    assert(s[j] == t[j]);
                    assert(k[a] == s[s.len() - 1]);
                }
            }
        } else if keys_unique(s) {
            assert(keys_unique(t)) by {
                assert forall|a: int, b: int| 0 <= a < t.len() && 0 <= b < t.len() && a != b implies
                    (#[trigger] t[a]).signal_key@ != (#[trigger] t[b]).signal_key@ && t[a].order_id@ != t[b].order_id@ by {
                    assert(t[a] == s[a] && t[b] == s[b]);
                }
            }
        }
    }
}

} // verus!
