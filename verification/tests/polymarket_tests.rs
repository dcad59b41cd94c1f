use rusty_poly_bot::config::{Config, ExecutionMode};
use rusty_poly_bot::polymarket::{
    ApiCreds, GammaMarket, MarketError, MarketInfo, OrderError, OrderPlan, PolymarketClient,
    PreSignedOrders, SdkAuthError, SignatureKind,
};
use rusty_poly_bot::strategy::{Prediction, Rsi, Signal};

fn make_config(mode: ExecutionMode) -> Config {
    Config {
        binance_ws_url: "wss://stream.binance.com:9443/ws".to_string(),
        symbol: "btcusdt".to_string(),
        interval: "5m".to_string(),
        execution_mode: mode,
        trade_amount_usdc: 1_000_000_000,
        polymarket_api_key: String::new(),
        polymarket_api_secret: String::new(),
        polymarket_api_url: "https://clob.polymarket.com".to_string(),
        logs_dir: "logs".to_string(),
        evm_private_key: None,
        polymarket_funder: None,
        polymarket_signature_type: None,
        polymarket_slug_prefix: "btc-updown-5m".to_string(),
    }
}

fn make_signal(prediction: Prediction) -> Signal {
    Signal {
        prediction,
        signal_candle_close_time: 1_710_000_000_000,
        rsi: Rsi { gains: 72, losses: 28 },
        strategy_name: "test".to_string(),
    }
}

fn make_market() -> MarketInfo {
    MarketInfo {
        condition_id: "cond_123".to_string(),
        up_token_id: "up_token".to_string(),
        down_token_id: "down_token".to_string(),
        slug: "btc-updown-5m-20240309".to_string(),
        order_min_size: 500_000_000,
    }
}

// --- build_slug ---

#[test]
fn test_build_slug_known_timestamp() {
    // 2024-03-09 UTC
    let slug = PolymarketClient::build_slug(1710000000000);
    assert_eq!(slug, "btc-updown-5m-20240309");
}

#[test]
fn test_build_slug_format_prefix() {
    let slug = PolymarketClient::build_slug(1710000000000);
    assert!(slug.starts_with("btc-updown-5m-"));
}

#[test]
fn test_build_slug_date_format_8_digits() {
    let slug = PolymarketClient::build_slug(1710000000000);
    let date_part = slug.strip_prefix("btc-updown-5m-").unwrap();
    assert_eq!(date_part.len(), 8, "La date doit être au format YYYYMMDD (8 chiffres)");
    assert!(date_part.chars().all(|c| c.is_ascii_digit()));
}

#[test]
fn test_build_slug_utc_midnight() {
    // 2024-01-01 00:00:00 UTC = 1704067200000 ms
    let slug = PolymarketClient::build_slug(1704067200000);
    assert_eq!(slug, "btc-updown-5m-20240101");
}

#[test]
fn test_build_slug_different_days_produce_different_slugs() {
    let slug_day1 = PolymarketClient::build_slug(1710000000000); // 2024-03-09
    let slug_day2 = PolymarketClient::build_slug(1710086400000); // 2024-03-10
    assert_ne!(slug_day1, slug_day2);
}

#[test]
fn build_slug_same_day_same_slug() {
    assert_eq!(
        PolymarketClient::build_slug(1709942400000),
        PolymarketClient::build_slug(1710028799999)
    );
    assert_eq!(PolymarketClient::build_slug(1710028799999), "btc-updown-5m-20240309");
}

#[test]
fn build_slug_before_1970_and_far_years() {
    assert_eq!(PolymarketClient::build_slug(-1), "btc-updown-5m-19691231");
    assert_eq!(PolymarketClient::build_slug(0), "btc-updown-5m-19700101");
    // 10000-01-01 needs a sign, as chrono writes years past 9999
    assert_eq!(PolymarketClient::build_slug(253402300800000), "btc-updown-5m-+100000101");
}

// --- place_order ---

#[test]
fn test_place_order_dryrun_returns_ok() {
    let mut client = PolymarketClient::new(make_config(ExecutionMode::DryRun));
    let signal = make_signal(Prediction::Up);
    let market = make_market();

    match client.place_order(&signal, &market) {
        OrderPlan::Completed(Ok(order)) => {
            assert_eq!(order.status, "DRY_RUN");
            assert!(order.order_id.starts_with("dry-run-"));
            assert_eq!(order.order_id.len(), 44);
        }
        other => panic!("DryRun doit retourner Ok, got {:?}", other),
    }
}

#[test]
fn test_place_order_dryrun_down_signal() {
    let mut client = PolymarketClient::new(make_config(ExecutionMode::DryRun));
    let signal = make_signal(Prediction::Down);
    let market = make_market();
    match client.place_order(&signal, &market) {
        OrderPlan::Completed(Ok(order)) => assert_eq!(order.status, "DRY_RUN"),
        other => panic!("expected a simulated order, got {:?}", other),
    }
}

#[test]
fn test_place_order_market_mode_returns_err() {
    let mut client = PolymarketClient::new(make_config(ExecutionMode::Market));
    let signal = make_signal(Prediction::Up);
    let market = make_market();
    match client.place_order(&signal, &market) {
        OrderPlan::Completed(Err(e)) => assert_eq!(e, OrderError::MissingPrivateKey),
        other => panic!("Mode Market sans clé doit retourner Err, got {:?}", other),
    }
}

#[test]
fn test_place_order_limit_mode_returns_err() {
    let mut client = PolymarketClient::new(make_config(ExecutionMode::Limit));
    let signal = make_signal(Prediction::Down);
    let market = make_market();
    match client.place_order(&signal, &market) {
        OrderPlan::Completed(Err(e)) => assert_eq!(e, OrderError::LimitNotImplemented),
        other => panic!("Mode Limit non implémenté doit retourner Err, got {:?}", other),
    }
}

#[test]
fn test_place_order_dryrun_timestamps_ordered() {
    let mut client = PolymarketClient::new(make_config(ExecutionMode::DryRun));
    let signal = make_signal(Prediction::Up);
    let market = make_market();
    let before = chrono::Utc::now().timestamp_millis();
    match client.place_order(&signal, &market) {
        OrderPlan::Completed(Ok(order)) => {
            assert!(order.ack_at >= before, "ack_at doit être >= au timestamp avant l'appel");
            assert!(order.ack_at >= order.submitted_at, "ack_at doit être >= submitted_at");
        }
        other => panic!("expected a simulated order, got {:?}", other),
    }
}

#[test]
fn place_order_market_mode_uses_matching_pre_signed_order() {
    // a valid secp256k1 key (the number 1)
    let mut config = make_config(ExecutionMode::Market);
    config.evm_private_key =
        Some("0x0000000000000000000000000000000000000000000000000000000000000001".to_string());
    let mut client = PolymarketClient::new(config);
    assert!(client.has_signer());
    client.remember_pre_signed(PreSignedOrders {
        up_json: "{\"up\":1}".to_string(),
        down_json: "{\"down\":1}".to_string(),
        amount_usdc: 1_000_050_000, // within 0.001 USDC of 10
        slug: "btc-updown-5m-20240309".to_string(),
    });
    match client.place_order(&make_signal(Prediction::Down), &make_market()) {
        OrderPlan::PostPreSigned { token_id, body, .. } => {
            assert_eq!(token_id, "down_token");
            assert_eq!(body, "{\"down\":1}");
        }
        other => panic!("expected the pre-signed order, got {:?}", other),
    }
    // the pre-signed orders are consumed: the next order goes through the SDK
    match client.place_order(&make_signal(Prediction::Up), &make_market()) {
        OrderPlan::SubmitViaSdk { token_id, amount_usdc, .. } => {
            assert_eq!(token_id, "up_token");
            assert_eq!(amount_usdc, 1_000_000_000);
        }
        other => panic!("expected an SDK submission, got {:?}", other),
    }
}

#[test]
fn place_order_market_mode_ignores_pre_signed_order_of_other_amount() {
    let mut config = make_config(ExecutionMode::Market);
    config.evm_private_key =
        Some("0000000000000000000000000000000000000000000000000000000000000001".to_string());
    let mut client = PolymarketClient::new(config);
    client.remember_pre_signed(PreSignedOrders {
        up_json: "u".to_string(),
        down_json: "d".to_string(),
        amount_usdc: 1_000_200_000, // 0.002 USDC away
        slug: "btc-updown-5m-20240309".to_string(),
    });
    match client.place_order(&make_signal(Prediction::Up), &make_market()) {
        OrderPlan::SubmitViaSdk { .. } => {}
        other => panic!("expected an SDK submission, got {:?}", other),
    }
}

#[test]
fn invalid_private_key_gives_no_signer() {
    let mut config = make_config(ExecutionMode::Market);
    config.evm_private_key = Some("0xnot-a-key".to_string());
    let client = PolymarketClient::new(config);
    assert!(!client.has_signer());
}

// --- market resolution and cache ---

fn gamma(outcomes: &str, tokens: &str) -> GammaMarket {
    GammaMarket {
        condition_id: "0xcond".to_string(),
        outcomes: outcomes.to_string(),
        clob_token_ids: tokens.to_string(),
        order_min_size: 500_000_000,
    }
}

#[test]
fn market_from_gamma_maps_up_and_down_tokens() {
    let markets = vec![gamma("[\"Down\", \"Up\"]", "[\"111\", \"222\"]")];
    let m = PolymarketClient::market_from_gamma("btc-updown-5m-20240309", &markets).unwrap();
    assert_eq!(m.up_token_id, "222");
    assert_eq!(m.down_token_id, "111");
    assert_eq!(m.condition_id, "0xcond");
    assert_eq!(m.slug, "btc-updown-5m-20240309");
    assert_eq!(m.order_min_size, 500_000_000);
}

#[test]
fn market_from_gamma_errors() {
    let none: Vec<GammaMarket> = vec![];
    assert_eq!(PolymarketClient::market_from_gamma("s", &none).unwrap_err(), MarketError::NoMarket);
    assert_eq!(
        PolymarketClient::market_from_gamma("s", &vec![gamma("not json", "[]")]).unwrap_err(),
        MarketError::UnreadableOutcomes
    );
    assert_eq!(
        PolymarketClient::market_from_gamma("s", &vec![gamma("[\"Up\",\"Down\"]", "{}")]).unwrap_err(),
        MarketError::UnreadableTokenIds
    );
    assert_eq!(
        PolymarketClient::market_from_gamma("s", &vec![gamma("[\"Yes\",\"Down\"]", "[\"1\",\"2\"]")]).unwrap_err(),
        MarketError::NoUpOutcome
    );
    assert_eq!(
        PolymarketClient::market_from_gamma("s", &vec![gamma("[\"UP\",\"No\"]", "[\"1\",\"2\"]")]).unwrap_err(),
        MarketError::NoDownOutcome
    );
    assert_eq!(
        PolymarketClient::market_from_gamma("s", &vec![gamma("[\"a\",\"up\",\"down\"]", "[\"1\"]")]).unwrap_err(),
        MarketError::MissingUpToken
    );
    assert_eq!(
        PolymarketClient::market_from_gamma("s", &vec![gamma("[\"up\",\"b\",\"down\"]", "[\"1\",\"2\"]")]).unwrap_err(),
        MarketError::MissingDownToken
    );
}

#[test]
fn market_cache_returns_only_the_remembered_slug() {
    let mut client = PolymarketClient::new(make_config(ExecutionMode::DryRun));
    assert!(client.cached_market("btc-updown-5m-20240309").is_none());
    client.remember_market("btc-updown-5m-20240309", make_market());
    let m = client.cached_market("btc-updown-5m-20240309").unwrap();
    assert_eq!(m.up_token_id, "up_token");
    assert!(client.cached_market("btc-updown-5m-20240310").is_none());
}

// --- retries, amounts, signatures ---

#[test]
fn fok_retry_delays_are_3_7_10_seconds() {
    let msg = "SDK post_order: FOK orders are fully filled or killed";
    assert_eq!(PolymarketClient::fok_retry_delay(0, msg), Some(3));
    assert_eq!(PolymarketClient::fok_retry_delay(1, msg), Some(7));
    assert_eq!(PolymarketClient::fok_retry_delay(2, msg), Some(10));
    assert_eq!(PolymarketClient::fok_retry_delay(3, msg), None);
    assert_eq!(PolymarketClient::fok_retry_delay(0, "network down"), None);
    assert!(PolymarketClient::is_fok_unfilled_error("Order couldn't be fully filled"));
    assert!(!PolymarketClient::is_fok_unfilled_error("order filled"));
}

#[test]
fn usdc_amount_is_truncated_to_cents() {
    assert_eq!(PolymarketClient::usdc_amount_text(1_000_000_000), "10.00");
    assert_eq!(PolymarketClient::usdc_amount_text(29_000_000), "0.29");
    assert_eq!(PolymarketClient::usdc_amount_text(123_456_789), "1.23");
}

#[test]
fn signature_kind_codes() {
    assert_eq!(PolymarketClient::signature_kind(None), Ok(SignatureKind::GnosisSafe));
    assert_eq!(PolymarketClient::signature_kind(Some(0)), Ok(SignatureKind::Eoa));
    assert_eq!(PolymarketClient::signature_kind(Some(1)), Ok(SignatureKind::Proxy));
    assert_eq!(PolymarketClient::signature_kind(Some(7)), Err(7));
}

#[test]
fn trim_quotes_and_status_path() {
    assert_eq!(PolymarketClient::trim_quotes("\"0xabc\""), "0xabc");
    assert_eq!(PolymarketClient::trim_quotes("\"\"live\""), "live");
    assert_eq!(PolymarketClient::order_status_path("0x12"), "/orders/0x12");
}

#[test]
fn hmac_signature_matches_reference_value() {
    // HMAC-SHA256 with key "key" of the message below, in URL-safe base64
    // ("a2V5" is base64 for "key").
    let sig = PolymarketClient::compute_hmac_sig("a2V5", "1700000000", "POST", "/order", "{'a':1}").unwrap();
    let same = PolymarketClient::compute_hmac_sig("a2V5", "1700000000", "POST", "/order", "{\"a\":1}").unwrap();
    assert_eq!(sig, same, "single quotes are signed as double quotes");
    assert_eq!(sig, "FdadS_NH5GcO_rGtDlnFoJjrl3mVJ2Lq-J8da64yz1M=");
    assert_eq!(sig.len(), 44);
    assert!(sig.ends_with('='));
    assert_ne!(sig, "a2V5");
    assert!(PolymarketClient::compute_hmac_sig("not base64!", "1", "GET", "/", "").is_none());
}

#[test]
fn hmac_reference_vector() {
    // RFC 4231 style check: HMAC-SHA256(key="key", "The quick brown fox jumps over the lazy dog")
    let sig = PolymarketClient::compute_hmac_sig("a2V5", "The quick brown fox ", "jumps over ", "the lazy dog", "").unwrap();
    assert_eq!(sig, "97yD9DBThCSxMpjmqm-xQ-9NWaFJRhdZl0edvC0aPNg=");
}

#[test]
fn l2_headers_carry_creds_and_timestamp() {
    let creds = ApiCreds {
        api_key: "k".to_string(),
        secret: "a2V5".to_string(),
        passphrase: "p".to_string(),
        address: "0xabc".to_string(),
    };
    let h = PolymarketClient::l2_headers(&creds, 1700000000, "GET", "/orders/1", "").unwrap();
    assert_eq!(h.poly_timestamp, "1700000000");
    assert_eq!(h.poly_address, "0xabc");
    assert_eq!(h.poly_api_key, "k");
    assert_eq!(h.poly_passphrase, "p");
    assert_eq!(
        h.poly_signature,
        PolymarketClient::compute_hmac_sig("a2V5", "1700000000", "GET", "/orders/1", "").unwrap()
    );
}

fn hex(b: &[u8]) -> String {
    b.iter().map(|x| format!("{:02x}", x)).collect()
}

#[test]
fn eip712_domain_separators_are_32_bytes_and_distinct() {
    let ctf = PolymarketClient::ctf_domain_separator().unwrap();
    let auth = PolymarketClient::clob_auth_domain_separator();
    assert_eq!(ctf.len(), 32);
    assert_eq!(auth.len(), 32);
    assert_ne!(ctf, auth);
}

#[test]
fn clob_auth_hash_depends_on_timestamp_and_nonce() {
    let a = PolymarketClient::clob_auth_signing_hash(&vec![0u8; 20], "", 0);
    let b = PolymarketClient::clob_auth_signing_hash(&vec![0u8; 20], "1", 0);
    let c = PolymarketClient::clob_auth_signing_hash(&vec![0u8; 20], "", 1);
    assert_eq!(a.len(), 32);
    assert_ne!(a, b);
    assert_ne!(a, c);
    assert_eq!(hex(&a).len(), 64);
}

#[test]
fn order_signing_hash_depends_on_side() {
    let w = vec![0u8; 32];
    let maker = vec![1u8; 20];
    let buy = PolymarketClient::order_signing_hash(&w, &maker, &w, &w, &w, &w, 0, 0).unwrap();
    let sell = PolymarketClient::order_signing_hash(&w, &maker, &w, &w, &w, &w, 1, 0).unwrap();
    assert_eq!(buy.len(), 32);
    assert_ne!(buy, sell);
}

#[test]
fn sig_to_hex_layout() {
    let r = vec![0xabu8; 32];
    let s = vec![0x01u8; 32];
    let h = PolymarketClient::sig_to_hex(&r, &s, true);
    assert_eq!(h.len(), 2 + 130);
    assert!(h.starts_with("0xabab"));
    assert!(h.ends_with("01011c"));
    assert!(PolymarketClient::sig_to_hex(&r, &s, false).ends_with("1b"));
}

#[test]
fn l1_auth_headers_sign_the_clob_auth_hash() {
    // a well-known development key and its address
    let key = "0xac0974bec39a17e36ba4a6b4d238ff944bacb478cbed5efcae784d7bf4f2ff80";
    let h = PolymarketClient::l1_auth_headers(key, "1700000000", 0).unwrap();
    assert_eq!(h.poly_address, "0xf39Fd6e51aad88F6F4ce6aB8827279cffFb92266");
    assert_eq!(h.poly_timestamp, "1700000000");
    assert_eq!(h.poly_nonce, "0");
    assert_eq!(h.poly_signature.len(), 132);
    assert!(h.poly_signature.starts_with("0x"));
    assert!(h.poly_signature.ends_with("1b") || h.poly_signature.ends_with("1c"));
    // the signature recovers the wallet address from the ClobAuth hash
    let addr: Vec<u8> = (0..20)
        .map(|i| u8::from_str_radix(&h.poly_address[2 + 2 * i..4 + 2 * i], 16).unwrap())
        .collect();
    let hash = PolymarketClient::clob_auth_signing_hash(&addr, "1700000000", 0);
    let sig_bytes: Vec<u8> = (0..65)
        .map(|i| u8::from_str_radix(&h.poly_signature[2 + 2 * i..4 + 2 * i], 16).unwrap())
        .collect();
    let sig = alloy::primitives::Signature::from_raw(&sig_bytes).unwrap();
    let recovered = sig
        .recover_address_from_prehash(&alloy::primitives::B256::from_slice(&hash))
        .unwrap();
    assert_eq!(recovered.as_slice(), addr.as_slice());
    // the same key without its "0x" signs the same way
    let h2 = PolymarketClient::l1_auth_headers(&key[2..], "1700000000", 0).unwrap();
    assert_eq!(h2.poly_signature, h.poly_signature);
    assert!(PolymarketClient::l1_auth_headers("not a key", "1700000000", 0).is_none());
}

#[test]
fn market_tokens_follow_the_outcome_labels() {
    let s = |v: &[&str]| v.iter().map(|x| x.to_string()).collect::<Vec<String>>();
    assert_eq!(
        PolymarketClient::market_tokens(&s(&["Down", "UP"]), &s(&["t0", "t1"])),
        Ok(("t1".to_string(), "t0".to_string()))
    );
    assert_eq!(PolymarketClient::market_tokens(&s(&["Yes", "Down"]), &s(&["a", "b"])), Err(MarketError::NoUpOutcome));
    assert_eq!(PolymarketClient::market_tokens(&s(&["Up", "No"]), &s(&["a", "b"])), Err(MarketError::NoDownOutcome));
    assert_eq!(PolymarketClient::market_tokens(&s(&["Down", "Up"]), &s(&["a"])), Err(MarketError::MissingUpToken));
    assert_eq!(PolymarketClient::market_tokens(&s(&["Up", "Down"]), &s(&["a"])), Err(MarketError::MissingDownToken));
}

#[test]
fn sdk_auth_settings_check_funder_then_signature_type() {
    let mut c = make_config(ExecutionMode::Market);
    assert_eq!(PolymarketClient::new(c.clone()).sdk_auth_settings(), Ok(None));
    c.polymarket_funder = Some("not an address".to_string());
    c.polymarket_signature_type = Some(7);
    assert_eq!(PolymarketClient::new(c.clone()).sdk_auth_settings(), Err(SdkAuthError::InvalidFunder));
    c.polymarket_funder = Some("0xf39Fd6e51aad88F6F4ce6aB8827279cffFb92266".to_string());
    assert_eq!(PolymarketClient::new(c.clone()).sdk_auth_settings(), Err(SdkAuthError::InvalidSignatureType(7)));
    c.polymarket_signature_type = None;
    let (addr, kind) = PolymarketClient::new(c).sdk_auth_settings().unwrap().unwrap();
    assert_eq!(addr.len(), 20);
    assert_eq!(addr[0], 0xf3);
    assert_eq!(kind, SignatureKind::GnosisSafe);
}
