use rusty_poly_bot::binance::{
    closed_candle_from_event, keep_closed, Candle, kline_stream_url, klines_rest_url, parse_klines, KlineCell, KlineEvent,
    KlineRejection, PriceField,
};
use rusty_poly_bot::decimal::{parse_fixed8, read_decimal, DecimalReading};

fn text(s: &str) -> KlineCell {
    KlineCell::Text(s.to_string())
}

fn row(open_time: i64) -> Option<Vec<KlineCell>> {
    Some(vec![
        KlineCell::Int(open_time),
        text("42000.10"),
        text("42100.00"),
        text("41900.5"),
        text("42050.25000000"),
        text("12.345"),
        KlineCell::Int(open_time + 299_999),
        text("ignored"),
    ])
}

#[test]
fn parse_klines_reads_rows_and_skips_malformed_ones() {
    let rows = vec![
        row(1_700_000_000_000),
        None,
        Some(vec![KlineCell::Int(1), text("1")]),
        Some(vec![KlineCell::Other, text("1"), text("1"), text("1"), text("1"), text("1"), KlineCell::Int(2)]),
        Some(vec![KlineCell::Int(1), text("x"), text("1"), text("1"), text("1"), text("1"), KlineCell::Int(2)]),
        Some(vec![KlineCell::Int(i64::MAX), text("1"), text("1"), text("1"), text("1"), text("1"), KlineCell::Int(2)]),
        row(1_700_000_300_000),
    ];
    let candles = parse_klines(rows);
    assert_eq!(candles.len(), 2);
    let c = candles[0];
    assert_eq!(c.open_time, 1_700_000_000_000);
    assert_eq!(c.close_time, 1_700_000_299_999);
    assert_eq!(c.open, 4_200_010_000_000);
    assert_eq!(c.high, 4_210_000_000_000);
    assert_eq!(c.low, 4_190_050_000_000);
    assert_eq!(c.close, 4_205_025_000_000);
    assert_eq!(c.volume, 1_234_500_000);
    assert!(c.is_closed);
    assert_eq!(candles[1].open_time, 1_700_000_300_000);
}

fn event(closed: bool) -> KlineEvent {
    KlineEvent {
        open_time: 1_700_000_000_000,
        close_time: 1_700_000_299_999,
        open: "100.5".to_string(),
        high: "101".to_string(),
        low: "99".to_string(),
        close: "100".to_string(),
        volume: "abc".to_string(),
        is_closed: closed,
    }
}

#[test]
fn kline_events() {
    let c = closed_candle_from_event(&event(true)).unwrap();
    assert_eq!(c.open, 10_050_000_000);
    assert_eq!(c.volume, 0, "an unreadable volume counts as zero");
    assert!(matches!(closed_candle_from_event(&event(false)), Err(KlineRejection::NotClosed)));
    let mut e = event(true);
    e.low = "0".to_string();
    match closed_candle_from_event(&e) {
        Err(KlineRejection::InvalidPrice(PriceField::Low, t)) => assert_eq!(t, "0"),
        other => panic!("{:?}", other),
    }
    let mut e = event(true);
    e.open_time = i64::MIN;
    assert!(matches!(closed_candle_from_event(&e), Err(KlineRejection::InvalidOpenTime(_))));
    let mut e = event(true);
    e.close_time = i64::MAX;
    assert!(matches!(closed_candle_from_event(&e), Err(KlineRejection::InvalidCloseTime(_))));
}

#[test]
fn binance_urls() {
    assert_eq!(
        kline_stream_url("wss://stream.binance.com:9443/ws", "btcusdt", "5m"),
        "wss://stream.binance.com:9443/ws/btcusdt@kline_5m"
    );
    assert_eq!(
        klines_rest_url("btcusdt", "5m", 20),
        "https://api.binance.com/api/v3/klines?symbol=BTCUSDT&interval=5m&limit=20"
    );
}

#[test]
fn fixed_point_reading() {
    assert_eq!(parse_fixed8("1"), Some(100_000_000));
    assert_eq!(parse_fixed8("0.00000001"), Some(1));
    assert_eq!(parse_fixed8("12."), Some(1_200_000_000));
    assert_eq!(parse_fixed8("0.000000001"), Some(0));
    assert_eq!(parse_fixed8(".5"), Some(50_000_000));
    assert_eq!(parse_fixed8("-1"), None);
    assert_eq!(parse_fixed8("1.2.3"), None);
    assert_eq!(parse_fixed8("184467440737.09551615"), Some(u64::MAX));
    assert_eq!(parse_fixed8("184467440737.09551616"), None);
    assert_eq!(parse_fixed8(""), None);
}

#[test]
fn next_candle_close_time() {
    let c = Candle {
        open_time: 1_704_067_200_000,
        close_time: 1_704_067_499_999,
        open: 1,
        high: 1,
        low: 1,
        close: 1,
        volume: 0,
        is_closed: true,
    };
    assert_eq!(c.next_close_time(), Some(1_704_067_799_999));
    let reversed = Candle { open_time: 10, close_time: 5, ..c };
    assert_eq!(reversed.next_close_time(), None);
    let late = Candle { open_time: 0, close_time: i64::MAX / 2 + 1, ..c };
    assert_eq!(late.next_close_time(), None);
}

#[test]
fn numbers_in_the_grammar_of_f64() {
    assert_eq!(read_decimal("+5"), DecimalReading::Units(500_000_000));
    assert_eq!(read_decimal("1e2"), DecimalReading::Units(10_000_000_000));
    assert_eq!(read_decimal("1E+2"), DecimalReading::Units(10_000_000_000));
    assert_eq!(read_decimal("2.5e-3"), DecimalReading::Units(250_000));
    assert_eq!(read_decimal("5."), DecimalReading::Units(500_000_000));
    // nine decimals round ties to even
    assert_eq!(read_decimal("1.234567895"), DecimalReading::Units(123_456_790));
    assert_eq!(read_decimal("1.234567885"), DecimalReading::Units(123_456_788));
    assert_eq!(read_decimal("1.2345678851"), DecimalReading::Units(123_456_789));
    assert_eq!(read_decimal("0.000000005"), DecimalReading::Units(0));
    assert_eq!(read_decimal("0.0000000051"), DecimalReading::Units(1));
    assert_eq!(read_decimal("-0"), DecimalReading::Units(0));
    assert_eq!(read_decimal("-1.5"), DecimalReading::Negative);
    assert_eq!(read_decimal("-inf"), DecimalReading::Negative);
    assert_eq!(read_decimal("inf"), DecimalReading::TooLarge);
    assert_eq!(read_decimal("Infinity"), DecimalReading::TooLarge);
    assert_eq!(read_decimal("NaN"), DecimalReading::NotANumber);
    assert_eq!(read_decimal("1e400"), DecimalReading::TooLarge);
    assert_eq!(read_decimal("1e-400"), DecimalReading::Units(0));
    assert_eq!(read_decimal("0e99999999999999999999999999999999"), DecimalReading::Units(0));
    assert_eq!(read_decimal("1e99999999999999999999999999999999"), DecimalReading::TooLarge);
    assert_eq!(read_decimal("184467440737.09551616"), DecimalReading::TooLarge);
    for bad in ["", ".", "e5", "1e", "1e+", "+", "+-5", "1.2.3", "1 ", "infinit", "0x10"] {
        assert_eq!(read_decimal(bad), DecimalReading::Unreadable, "{}", bad);
    }
    // every text accepted here is accepted by f64 parsing, and with the same value
    for ok in ["0.1", ".5", "+5", "1e2", "5.", "42000.12345678", "3E-2", "-0.0"] {
        let f: f64 = ok.parse().unwrap();
        match read_decimal(ok) {
            DecimalReading::Units(u) => assert!((u as f64 / 1e8 - f.abs()).abs() < 1e-9, "{}", ok),
            other => panic!("{} read as {:?}", ok, other),
        }
    }
}

#[test]
fn the_still_open_kline_is_left_out() {
    let rows = vec![row(1_704_067_200_000), row(1_704_067_500_000), row(1_704_067_800_000)];
    let candles = parse_klines(rows);
    assert_eq!(candles.len(), 3);
    // at 00:12 the third candle (00:10 to 00:15) is still open
    let closed = keep_closed(&candles, 1_704_067_920_000);
    assert_eq!(closed.len(), 2);
    assert_eq!(closed[1].open_time, 1_704_067_500_000);
    assert_eq!(keep_closed(&candles, 1_704_068_100_000).len(), 3);
}
