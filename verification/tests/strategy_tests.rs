use rusty_poly_bot::binance::Candle;
use rusty_poly_bot::strategies::three_candle_rsi7_reversal::ThreeCandleRsi7Reversal;
use rusty_poly_bot::strategy::{Prediction, Rsi, Strategy};

const UNIT: u64 = 100_000_000;

fn candle(open: u64, close: u64, i: i64) -> Candle {
    Candle {
        open_time: 1_700_000_000_000 + i * 300_000,
        close_time: 1_700_000_000_000 + i * 300_000 + 299_999,
        open: open * UNIT,
        high: open.max(close) * UNIT,
        low: open.min(close) * UNIT,
        close: close * UNIT,
        volume: 0,
        is_closed: true,
    }
}

#[test]
fn candle_colors() {
    assert!(candle(100, 101, 0).is_green());
    assert!(!candle(100, 101, 0).is_red());
    assert!(candle(101, 100, 0).is_red());
    // a doji (close == open) counts as green
    assert!(candle(100, 100, 0).is_green());
    assert!(!candle(100, 100, 0).is_red());
}

#[test]
fn rsi_needs_eight_candles() {
    let mut s = ThreeCandleRsi7Reversal::new();
    for i in 0..7 {
        assert!(s.on_closed_candle(&candle(100, 99, i)).is_none());
        assert!(s.compute_rsi().is_none());
    }
    s.on_closed_candle(&candle(100, 99, 7));
    assert!(s.compute_rsi().is_some());
}

#[test]
fn rsi_of_only_gains_is_100_and_flat_is_50() {
    let mut s = ThreeCandleRsi7Reversal::new();
    for i in 0..8 {
        s.on_closed_candle(&candle(100 + i as u64, 101 + i as u64, i));
    }
    let r = s.compute_rsi().unwrap();
    assert_eq!(r.losses, 0);
    assert_eq!(r.hundredths(), 10000);

    let mut flat = ThreeCandleRsi7Reversal::new();
    for i in 0..8 {
        flat.on_closed_candle(&candle(100, 100, i));
    }
    assert_eq!(flat.compute_rsi().unwrap().hundredths(), 5000);
}

#[test]
fn rsi_exact_value() {
    // closes 100, 102, 101, 103, 102, 104, 103, 105: gains 2*4 = 8, losses 1*3 = 3
    let closes = [100u64, 102, 101, 103, 102, 104, 103, 105];
    let mut s = ThreeCandleRsi7Reversal::new();
    for (i, c) in closes.iter().enumerate() {
        s.on_closed_candle(&candle(*c, *c, i as i64));
    }
    let r = s.compute_rsi().unwrap();
    assert_eq!(r.gains, 8 * UNIT as u128);
    assert_eq!(r.losses, 3 * UNIT as u128);
    // 100 * 8 / 11 = 72.7272... -> 7273 hundredths
    assert_eq!(r.hundredths(), 7273);
}

#[test]
fn three_red_candles_with_low_rsi_predict_up() {
    let mut s = ThreeCandleRsi7Reversal::new();
    let mut last = None;
    for i in 0..8 {
        let open = 200 - i as u64;
        last = s.on_closed_candle(&candle(open, open - 1, i));
    }
    let sig = last.expect("3 red candles + RSI 0 must signal");
    assert_eq!(sig.prediction, Prediction::Up);
    assert_eq!(sig.strategy_name, "three_candle_rsi7_reversal");
    assert_eq!(sig.signal_candle_close_time, candle(193, 192, 7).close_time);
    assert_eq!(s.last_three_same_color(), Some(false));
}

#[test]
fn three_green_candles_with_high_rsi_predict_down() {
    let mut s = ThreeCandleRsi7Reversal::new();
    let mut last = None;
    for i in 0..8 {
        let open = 100 + i as u64;
        last = s.on_closed_candle(&candle(open, open + 1, i));
    }
    assert_eq!(last.unwrap().prediction, Prediction::Down);
}

#[test]
fn no_signal_without_rsi_condition() {
    // three green candles at the end, but RSI = 100 * 14 / 39, about 35.9
    let closes = [(100u64, 100u64), (100, 90), (90, 80), (80, 85), (85, 80), (80, 83), (83, 86), (86, 89)];
    let mut s = ThreeCandleRsi7Reversal::new();
    let mut last = None;
    for (i, (o, c)) in closes.iter().enumerate() {
        last = s.on_closed_candle(&candle(*o, *c, i as i64));
    }
    assert_eq!(s.last_three_same_color(), Some(true));
    let r = s.compute_rsi().unwrap();
    assert_eq!(r.hundredths(), 3590);
    assert!(!r.at_most(35) && !r.at_least(65));
    assert!(last.is_none());
}

#[test]
fn mixed_colors_give_no_series() {
    let mut s = ThreeCandleRsi7Reversal::new();
    s.on_closed_candle(&candle(100, 101, 0));
    s.on_closed_candle(&candle(101, 100, 1));
    s.on_closed_candle(&candle(100, 101, 2));
    assert_eq!(s.last_three_same_color(), None);
}

#[test]
fn rsi_thresholds() {
    let r = Rsi { gains: 65, losses: 35 };
    assert!(r.at_least(65));
    assert!(!r.at_most(35));
    let r = Rsi { gains: 35, losses: 65 };
    assert!(r.at_most(35));
    assert!(!r.at_least(65));
    let flat = Rsi { gains: 0, losses: 0 };
    assert!(!flat.at_least(65) && !flat.at_most(35));
}

#[test]
fn strategy_name_is_fixed() {
    let s = ThreeCandleRsi7Reversal::new();
    assert_eq!(s.name(), "three_candle_rsi7_reversal");
}

#[test]
fn prediction_texts() {
    assert_eq!(Prediction::Up.to_text(), "UP");
    assert_eq!(Prediction::Down.to_text(), "DOWN");
}
