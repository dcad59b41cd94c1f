use rusty_poly_bot::config::ExecutionMode;
use rusty_poly_bot::logger::{
    latency_between, log_candle_close, log_order_ack, log_order_sent, log_signal_detected,
    JournalError, TradeLogger, TradeRecord,
};
use rusty_poly_bot::polymarket::OrderResult;
use rusty_poly_bot::strategy::{Prediction, Rsi, Signal};

fn make_record(trade_id: &str, prediction: &str) -> TradeRecord {
    TradeRecord {
        trade_id: trade_id.to_string(),
        signal_key: format!("three_candle:slug:{}", prediction),
        symbol: "BTCUSDT".to_string(),
        interval: "5m".to_string(),
        signal_close_time_utc: "2024-01-01T00:00:00+00:00".to_string(),
        target_candle_open_time_utc: "2024-01-01T00:05:00+00:00".to_string(),
        prediction: prediction.to_string(),
        entry_side: "BUY".to_string(),
        entry_order_type: "DRY_RUN".to_string(),
        order_status: "DRY_RUN".to_string(),
        signal_to_submit_start_ms: 10,
        submit_start_to_ack_ms: 5,
        signal_to_ack_ms: 15,
        trade_open_to_order_ack_ms: 20,
        outcome: "PENDING".to_string(),
    }
}

fn text(b: Vec<u8>) -> String {
    String::from_utf8(b).unwrap()
}

fn journal(records: &[TradeRecord]) -> String {
    let mut s = text(TradeLogger::header_bytes());
    for r in records {
        s.push_str(&text(TradeLogger::record_bytes(r)));
    }
    s
}

#[test]
fn test_logger_csv_contains_headers() {
    let content = text(TradeLogger::header_bytes());
    for header in &[
        "trade_id", "symbol", "interval", "prediction",
        "order_status", "outcome", "signal_to_ack_ms",
    ] {
        assert!(content.contains(header), "Header manquant: {}", header);
    }
    assert_eq!(content.lines().count(), 1);
}

#[test]
fn test_logger_writes_headers_on_empty_existing_file() {
    assert!(TradeLogger::needs_header(false, None));
    assert!(TradeLogger::needs_header(true, Some(0)));
    assert!(TradeLogger::needs_header(true, None));
    assert!(!TradeLogger::needs_header(true, Some(120)));
}

#[test]
fn test_logger_creates_csv_file() {
    // a logs directory without a journal: the file trades.csv is created with its header
    let logger = TradeLogger::new("creates_csv");
    assert!(logger.path().ends_with("trades.csv"));
    assert!(TradeLogger::needs_header(false, None));
}

#[test]
fn test_logger_does_not_overwrite_existing_data() {
    let append = |content: &mut String, exists: bool, record: &TradeRecord| {
        if TradeLogger::needs_header(exists, Some(content.len() as u64)) {
            *content = text(TradeLogger::header_bytes());
        }
        content.push_str(&text(TradeLogger::record_bytes(record)));
    };
    let mut content = String::new();
    append(&mut content, false, &make_record("id-first", "UP"));
    let line_count_before = content.lines().count();
    // a second logger on the same file
    append(&mut content, true, &make_record("id-second", "DOWN"));
    let line_count_after = content.lines().count();
    assert_eq!(line_count_after, line_count_before + 1, "Une seule ligne doit être ajoutée");
    assert!(!content.contains("trade_id\ntrade_id"), "Les headers ne doivent pas être dupliqués");
}

#[test]
fn logger_path_is_trades_csv_in_logs_dir() {
    assert_eq!(TradeLogger::new("logs").path(), "logs/trades.csv");
    assert_eq!(TradeLogger::new("/tmp/x/").path(), "/tmp/x/trades.csv");
}

#[test]
fn test_log_trade_appends_record() {
    let content = journal(&[make_record("test-id-123", "UP")]);
    assert!(content.contains("test-id-123"));
    assert!(content.contains("BTCUSDT"));
    assert!(content.contains("UP"));
    assert!(content.contains("PENDING"));
}

#[test]
fn test_log_trade_multiple_records_all_present() {
    let content = journal(&[
        make_record("id-001", "UP"),
        make_record("id-002", "DOWN"),
        make_record("id-003", "UP"),
    ]);
    assert!(content.contains("id-001"));
    assert!(content.contains("id-002"));
    assert!(content.contains("id-003"));
    // 1 header + 3 records = 4 lines
    assert_eq!(content.lines().count(), 4);
}

#[test]
fn test_log_trade_latency_fields_written() {
    let mut record = make_record("lat-test", "UP");
    record.signal_to_submit_start_ms = 42;
    record.submit_start_to_ack_ms = 17;
    record.signal_to_ack_ms = 59;
    record.trade_open_to_order_ack_ms = 310;
    let content = text(TradeLogger::record_bytes(&record));
    assert!(content.contains("42"));
    assert!(content.contains("17"));
    assert!(content.contains("59"));
    assert!(content.contains("310"));
    assert_eq!(
        content,
        "lat-test,three_candle:slug:UP,BTCUSDT,5m,2024-01-01T00:00:00+00:00,2024-01-01T00:05:00+00:00,UP,BUY,DRY_RUN,DRY_RUN,42,17,59,310,PENDING\n"
    );
}

#[test]
fn negative_latency_is_written_with_its_sign() {
    let mut record = make_record("lat-neg", "UP");
    record.trade_open_to_order_ack_ms = -310;
    let content = text(TradeLogger::record_bytes(&record));
    assert!(content.contains(",-310,PENDING"));
}

#[test]
fn has_signal_key_searches_the_signal_key_column() {
    let logger = TradeLogger::new("logs");
    let content = journal(&[make_record("id-1", "UP"), make_record("id-2", "DOWN")]);
    assert_eq!(logger.has_signal_key(&content, "three_candle:slug:DOWN"), Ok(true));
    assert_eq!(logger.has_signal_key(&content, "three_candle:slug:FLAT"), Ok(false));
    // "id-1" is a trade id, not a signal key
    assert_eq!(logger.has_signal_key(&content, "id-1"), Ok(false));
    assert_eq!(logger.has_signal_key("a,b\n1,2\n", "x"), Err(JournalError::MissingColumn));
    assert_eq!(logger.has_signal_key("", "x"), Err(JournalError::MissingColumn));
    assert_eq!(logger.has_signal_key("signal_key,b\n1,2\n3\n", "x"), Err(JournalError::Unreadable));
    assert_eq!(logger.has_signal_key("signal_key,b\n1,2\n3\n", "1"), Ok(true));
}

#[test]
fn update_outcome_changes_only_the_trade() {
    let logger = TradeLogger::new("logs");
    let content = journal(&[make_record("id-1", "UP"), make_record("id-2", "DOWN")]);
    let updated = text(logger.update_outcome(&content, "id-2", "WIN").unwrap());
    let lines: Vec<&str> = updated.lines().collect();
    let before: Vec<&str> = content.lines().collect();
    assert_eq!(lines.len(), 3);
    assert_eq!(lines[0], before[0]);
    assert_eq!(lines[1], before[1]);
    assert!(lines[2].ends_with(",WIN"));
    assert_eq!(lines[2].replace(",WIN", ",PENDING"), before[2]);

    let status = text(logger.update_order_status(&content, "id-1", "MATCHED").unwrap());
    assert!(status.lines().nth(1).unwrap().contains(",DRY_RUN,MATCHED,"));
    assert_eq!(logger.update_outcome("a,b\n1,2\n", "1", "WIN"), Err(JournalError::MissingColumn));
    assert_eq!(logger.update_outcome("outcome,b\n1,2\n3\n", "1", "WIN"), Err(JournalError::Unreadable));
}

#[test]
fn trade_record_for_order() {
    let signal = Signal {
        prediction: Prediction::Down,
        signal_candle_close_time: 1_704_067_499_999,
        rsi: Rsi { gains: 70, losses: 30 },
        strategy_name: "three_candle_rsi7_reversal".to_string(),
    };
    let order = OrderResult {
        order_id: "dry-run-x".to_string(),
        status: "DRY_RUN".to_string(),
        submitted_at: 1_704_067_500_100,
        ack_at: 1_704_067_500_150,
    };
    let r = TradeRecord::for_order(
        "k", "btcusdt", "5m", &signal, 1_704_067_499_999, ExecutionMode::DryRun, &order,
        1_704_067_500_000, 1_704_067_500_100,
    );
    assert_eq!(r.trade_id.len(), 36);
    assert_eq!(r.signal_close_time_utc, "2024-01-01T00:04:59.999+00:00");
    assert_eq!(r.prediction, "DOWN");
    assert_eq!(r.entry_order_type, "DRY_RUN");
    assert_eq!(r.signal_to_submit_start_ms, 100);
    assert_eq!(r.submit_start_to_ack_ms, 50);
    assert_eq!(r.signal_to_ack_ms, 150);
    assert_eq!(r.trade_open_to_order_ack_ms, 151);
    assert_eq!(r.outcome, "PENDING");
    assert_eq!(latency_between(i64::MIN, i64::MAX), i64::MAX);
}

#[test]
fn console_lines() {
    assert_eq!(log_order_ack("o1", "MATCHED", 42), "[ORDRE ACK] id=o1 status=MATCHED latence=42ms");
    assert_eq!(log_order_ack("o1", "X", -7), "[ORDRE ACK] id=o1 status=X latence=-7ms");
    assert_eq!(
        log_signal_detected("s", "UP", &Rsi { gains: 8, losses: 3 }),
        "[SIGNAL] strategy=s prediction=UP rsi=72.73"
    );
    assert_eq!(log_order_sent("o", "t", 1_050_000_000), "[ORDRE ENVOYÉ] id=o token=t amount=10.5 USDC");
    assert_eq!(log_order_sent("o", "t", 1_000_000_000), "[ORDRE ENVOYÉ] id=o token=t amount=10 USDC");
    let line = log_candle_close(
        "btcusdt", "5m", 4_200_000_000_000, 4_100_000_000_000, 4_150_000_000_000, 4_175_000_000_000,
        "VERTE", Some(Rsi { gains: 1, losses: 1 }), Some(true), None, 1_704_067_199_999,
    );
    assert_eq!(
        line,
        "[BOUGIE FERMÉE] btcusdt 5m | close=41750.00 VERTE | RSI=50.00 | série=3xVERT | ATR=N/A | range=1000.00 | body=25% | 2023-12-31 23:59:59 UTC"
    );
}

#[test]
fn candle_line_rounds_ties_to_even() {
    const U: u64 = 100_000_000;
    // open 1, close 2, high 10, low 2: body 12.5% is written 12%
    let line = log_candle_close("btcusdt", "5m", 10 * U, 2 * U, U, 2 * U, "VERTE", None, None, None, 0);
    assert!(line.contains("| body=12% |"), "{}", line);
    // 0.125 and 0.135 written with two decimals: ties go to the even cent
    let line = log_candle_close("b", "5m", U, 0, 0, 12_500_000, "VERTE", None, None, Some(13_500_000), 0);
    assert!(line.contains("close=0.12 "), "{}", line);
    assert!(line.contains("ATR=0.14 "), "{}", line);
    // RSI 100·1/8 = 12.5 exactly: 1250 hundredths; 100·1/16 = 6.25: 625
    assert_eq!(Rsi { gains: 1, losses: 7 }.hundredths(), 1250);
    assert_eq!(Rsi { gains: 1, losses: 15 }.hundredths(), 625);
    // 100·1/160000 = 0.000625: 0.0625 hundredths, rounded to 0
    assert_eq!(Rsi { gains: 1, losses: 159_999 }.hundredths(), 0);
    // 100·1/20000 = 0.005 = half a hundredth: ties to even gives 0
    assert_eq!(Rsi { gains: 1, losses: 19_999 }.hundredths(), 0);
    // 100·3/20000 = 0.015 = 1.5 hundredths: ties to even gives 2
    assert_eq!(Rsi { gains: 3, losses: 19_997 }.hundredths(), 2);
}
