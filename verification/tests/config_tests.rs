use rusty_poly_bot::config::{parse_execution_mode, Config, ConfigWarning, EnvValues, ExecutionMode};

fn empty_env() -> EnvValues {
    EnvValues {
        execution_mode: None,
        trade_amount_usdc: None,
        binance_ws_url: None,
        symbol: None,
        interval: None,
        polymarket_api_key: None,
        polymarket_api_secret: None,
        polymarket_api_url: None,
        logs_dir: None,
        polymarket_private_key: None,
        polymarket_funder: None,
        polymarket_signature_type: None,
        polymarket_slug_prefix: None,
    }
}

#[test]
fn defaults_when_nothing_is_set() {
    let (c, warnings) = Config::from_values(&empty_env());
    assert_eq!(c.execution_mode, ExecutionMode::DryRun);
    assert_eq!(c.trade_amount_usdc, 1_000_000_000);
    assert_eq!(c.binance_ws_url, "wss://stream.binance.com:9443/ws");
    assert_eq!(c.symbol, "btcusdt");
    assert_eq!(c.interval, "5m");
    assert_eq!(c.polymarket_api_url, "https://clob.polymarket.com");
    assert_eq!(c.logs_dir, "logs");
    assert_eq!(c.polymarket_slug_prefix, "btc-updown-5m");
    assert!(c.evm_private_key.is_none());
    assert!(warnings.is_empty());
}

#[test]
fn execution_modes() {
    assert_eq!(parse_execution_mode("market"), Some(ExecutionMode::Market));
    assert_eq!(parse_execution_mode("limit"), Some(ExecutionMode::Limit));
    assert_eq!(parse_execution_mode("dry-run"), Some(ExecutionMode::DryRun));
    assert_eq!(parse_execution_mode("dryrun"), Some(ExecutionMode::DryRun));
    assert_eq!(parse_execution_mode("MARKET"), None);
    assert_eq!(ExecutionMode::DryRun.as_str(), "DRY_RUN");
    assert_eq!(ExecutionMode::Market.as_str(), "MARKET");
    assert_eq!(ExecutionMode::Limit.as_str(), "LIMIT");
}

#[test]
fn unknown_mode_and_bad_amounts_fall_back_with_warnings() {
    let mut env = empty_env();
    env.execution_mode = Some("yolo".to_string());
    env.trade_amount_usdc = Some("0".to_string());
    env.polymarket_signature_type = Some("300".to_string());
    let (c, warnings) = Config::from_values(&env);
    assert_eq!(c.execution_mode, ExecutionMode::DryRun);
    assert_eq!(c.trade_amount_usdc, 1_000_000_000);
    assert_eq!(c.polymarket_signature_type, None);
    assert_eq!(warnings.len(), 3);
    assert!(matches!(warnings[0], ConfigWarning::UnknownExecutionMode(_)));
    assert!(matches!(warnings[1], ConfigWarning::NonPositiveAmount(_)));

    env.trade_amount_usdc = Some("ten".to_string());
    let (_, warnings) = Config::from_values(&env);
    assert!(matches!(warnings[1], ConfigWarning::UnreadableAmount(_)));
}

#[test]
fn amounts_and_optional_values() {
    let mut env = empty_env();
    env.execution_mode = Some("market".to_string());
    env.trade_amount_usdc = Some("2.5".to_string());
    env.polymarket_private_key = Some(String::new());
    env.polymarket_funder = Some("0xfunder".to_string());
    env.polymarket_signature_type = Some("1".to_string());
    let (c, warnings) = Config::from_values(&env);
    assert_eq!(c.execution_mode, ExecutionMode::Market);
    assert_eq!(c.trade_amount_usdc, 250_000_000);
    assert!(c.evm_private_key.is_none(), "an empty key counts as unset");
    assert_eq!(c.polymarket_funder.as_deref(), Some("0xfunder"));
    assert_eq!(c.polymarket_signature_type, Some(1));
    assert!(warnings.is_empty());
}

#[test]
fn amounts_read_as_f64_texts() {
    let mut env = empty_env();
    env.trade_amount_usdc = Some(".5".to_string());
    let (c, warnings) = Config::from_values(&env);
    assert_eq!(c.trade_amount_usdc, 50_000_000);
    assert!(warnings.is_empty());

    env.trade_amount_usdc = Some("1e1".to_string());
    assert_eq!(Config::from_values(&env).0.trade_amount_usdc, 1_000_000_000);

    for non_positive in ["-2", "NaN", "-inf", "0.000000001"] {
        env.trade_amount_usdc = Some(non_positive.to_string());
        let (c, warnings) = Config::from_values(&env);
        assert_eq!(c.trade_amount_usdc, 1_000_000_000);
        assert!(matches!(warnings[0], ConfigWarning::NonPositiveAmount(_)), "{}", non_positive);
    }
    for too_large in ["inf", "1e300"] {
        env.trade_amount_usdc = Some(too_large.to_string());
        let (c, warnings) = Config::from_values(&env);
        assert_eq!(c.trade_amount_usdc, 1_000_000_000);
        assert!(matches!(warnings[0], ConfigWarning::AmountTooLarge(_)), "{}", too_large);
    }
}

#[test]
fn description_masks_the_secrets() {
    let mut env = empty_env();
    env.polymarket_api_key = Some("my-key".to_string());
    env.polymarket_api_secret = Some("my-secret".to_string());
    env.polymarket_private_key = Some("0xprivate".to_string());
    env.trade_amount_usdc = Some("2.5".to_string());
    let (c, _) = Config::from_values(&env);
    let text = c.redacted();
    assert_eq!(
        text,
        "Config { binance_ws_url: \"wss://stream.binance.com:9443/ws\", symbol: \"btcusdt\", interval: \"5m\", \
         execution_mode: DryRun, trade_amount_usdc: 2.5, polymarket_api_key: \"[REDACTED]\", \
         polymarket_api_secret: \"[REDACTED]\", polymarket_api_url: \"https://clob.polymarket.com\", logs_dir: \"logs\" }"
    );
    assert!(!text.contains("my-key") && !text.contains("my-secret") && !text.contains("private"));
    let (d, _) = Config::from_values(&empty_env());
    assert!(d.redacted().contains("trade_amount_usdc: 10.0,"));
}
