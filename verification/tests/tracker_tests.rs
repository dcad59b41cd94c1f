use rusty_poly_bot::strategy::Prediction;
use rusty_poly_bot::tracker::{build_signal_key, PendingTrade, PollReport, PositionTracker, TrackResult};

fn track(t: &mut PositionTracker, trade: &str, order: &str, key: &str) -> TrackResult {
    t.track(
        trade.to_string(),
        order.to_string(),
        key.to_string(),
        Prediction::Up,
        1_710_000_299_999,
        "LIVE".to_string(),
    )
}

#[test]
fn test_build_signal_key_is_normalized() {
    let key = build_signal_key(" Three_Candle ", "BTC-UPDOWN-5M-123", &Prediction::Down);
    assert_eq!(key, "three_candle:btc-updown-5m-123:DOWN");
}

#[test]
fn signal_key_trims_unicode_whitespace() {
    let key = build_signal_key("\u{3000}\tS\n", " slug\u{a0}", &Prediction::Up);
    assert_eq!(key, "s:slug:UP");
}

#[test]
fn test_tracker_persists_pending_orders() {
    // The tracker reloaded from the saved trades knows the same signals.
    let mut tracker = PositionTracker::new("logs", Vec::new());
    assert_eq!(track(&mut tracker, "trade-1", "order-1", "signal-1"), TrackResult::Followed);
    let saved: Vec<PendingTrade> = tracker.pending().clone();
    let reloaded = PositionTracker::new("logs", saved);
    assert_eq!(reloaded.pending_count(), 1);
    assert!(reloaded.is_signal_active("signal-1"));
    assert_eq!(reloaded.state_path(), "logs/pending_orders.json");
}

#[test]
fn test_tracker_ignores_duplicate_signal_key() {
    let mut tracker = PositionTracker::new("logs/", Vec::new());
    track(&mut tracker, "trade-1", "order-1", "signal-1");
    assert_eq!(track(&mut tracker, "trade-2", "order-2", "signal-1"), TrackResult::AlreadyFollowed);
    assert_eq!(track(&mut tracker, "trade-3", "order-1", "signal-3"), TrackResult::AlreadyFollowed);
    assert_eq!(tracker.pending_count(), 1);
    assert_eq!(tracker.state_path(), "logs/pending_orders.json");
}

#[test]
fn tracker_ignores_dry_run_orders() {
    let mut tracker = PositionTracker::new("", Vec::new());
    assert_eq!(track(&mut tracker, "t", "dry-run-1234", "k"), TrackResult::DryRunIgnored);
    assert_eq!(tracker.pending_count(), 0);
    assert!(!tracker.is_signal_active("k"));
    assert_eq!(tracker.state_path(), "pending_orders.json");
}

fn trade(status: &str, target: i64) -> PendingTrade {
    PendingTrade {
        trade_id: "t1".to_string(),
        order_id: "o1".to_string(),
        signal_key: "k1".to_string(),
        prediction: Some(Prediction::Up),
        target_close_time_ms: Some(target),
        order_status: Some(status.to_string()),
        validation_done: false,
    }
}

#[test]
fn candle_outcomes() {
    assert_eq!(trade("MATCHED", 10).candle_outcome(10, true).as_deref(), Some("WIN"));
    assert_eq!(trade("filled", 10).candle_outcome(10, false).as_deref(), Some("LOSS"));
    assert_eq!(trade("Cancelled", 10).candle_outcome(10, true).as_deref(), Some("NO_ENTRY"));
    assert_eq!(trade("LIVE", 10).candle_outcome(10, true), None);
    assert_eq!(trade("MATCHED", 11).candle_outcome(10, true), None);
    let mut done = trade("MATCHED", 10);
    done.validation_done = true;
    assert_eq!(done.candle_outcome(10, true), None);
    assert_eq!(PendingTrade::binance_outcome(&Prediction::Down, false), "WIN");
    assert_eq!(PendingTrade::binance_outcome(&Prediction::Down, true), "LOSS");
}

#[test]
fn validation_drops_settled_trades() {
    let mut tracker = PositionTracker::new("logs", vec![trade("MATCHED", 10), {
        let mut t = trade("LIVE", 10);
        t.trade_id = "t2".to_string();
        t.order_id = "o2".to_string();
        t.signal_key = "k2".to_string();
        t
    }]);
    let changed = tracker.finish_validation(&vec![true, false]);
    assert!(changed);
    assert_eq!(tracker.pending_count(), 1);
    assert!(tracker.is_signal_active("k2"));
    assert!(!tracker.is_signal_active("k1"));
    assert!(!tracker.finish_validation(&vec![false]));
    assert_eq!(tracker.pending_count(), 1);
}

#[test]
fn poll_actions_and_reports() {
    let t = trade("LIVE", 10);
    let a = t.poll_actions("CANCELLED");
    assert!(a.status_changed && a.write_status && a.write_no_entry);
    let a = t.poll_actions("live");
    assert!(!a.status_changed && !a.write_status && !a.write_no_entry);
    let a = t.poll_actions("MATCHED");
    assert!(a.status_changed && a.write_status && !a.write_no_entry);
    // lower-case statuses are not final for the poll
    assert!(!t.poll_actions("matched").write_status);

    let mut tracker = PositionTracker::new("logs", vec![trade("LIVE", 10)]);
    tracker.finish_poll(&vec![PollReport {
        status: Some("CANCELLED".to_string()),
        status_written: true,
        outcome_written: true,
    }]);
    assert_eq!(tracker.pending_count(), 0);

    let mut tracker = PositionTracker::new("logs", vec![trade("LIVE", 10)]);
    tracker.finish_poll(&vec![PollReport {
        status: Some("MATCHED".to_string()),
        status_written: true,
        outcome_written: false,
    }]);
    assert_eq!(tracker.pending()[0].order_status.as_deref(), Some("MATCHED"));
    assert!(!tracker.pending()[0].validation_done);

    let mut tracker = PositionTracker::new("logs", vec![trade("LIVE", 10)]);
    tracker.finish_poll(&vec![PollReport { status: None, status_written: false, outcome_written: false }]);
    assert_eq!(tracker.pending()[0].order_status.as_deref(), Some("LIVE"));
}

#[test]
fn status_classes() {
    assert!(PendingTrade::is_filled_status("Filled"));
    assert!(PendingTrade::is_non_fill_terminal_status("unmatched"));
    assert!(!PendingTrade::is_non_fill_terminal_status("MATCHED"));
    let mut t = trade("EXPIRED", 1);
    assert!(!t.can_drop());
    t.validation_done = true;
    assert!(t.can_drop());
}
