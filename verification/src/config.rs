//! Run configuration, decoded from the values of the environment variables.
use vstd::prelude::*;
use crate::decimal::{read_decimal, decimal_reading, DecimalReading, nat_digits, digits_value, all_digits, fixed8_plain_text, push_fixed8_plain};
use crate::text::{chars_of, push_str, str_eq, string_of};

verus! {

#[derive(Clone, Copy, Debug, PartialEq, Eq)]
pub enum ExecutionMode {
    DryRun,
    Market,
    Limit,
}

pub open spec fn execution_mode_text(m: ExecutionMode) -> Seq<char> {
    match m {
        ExecutionMode::DryRun => "DRY_RUN"@,
        ExecutionMode::Market => "MARKET"@,
        ExecutionMode::Limit => "LIMIT"@,
    }
}

impl ExecutionMode {
    /// "DRY_RUN", "MARKET" or "LIMIT".
    pub fn as_str(&self) -> (r: &'static str)
        ensures
            r@ == execution_mode_text(*self),
    {
        match self {
            ExecutionMode::DryRun => "DRY_RUN",
            ExecutionMode::Market => "MARKET",
            ExecutionMode::Limit => "LIMIT",
        }
    }
}

/// The execution mode a value of `EXECUTION_MODE` names, if it names one.
pub open spec fn named_execution_mode(s: Seq<char>) -> Option<ExecutionMode> {
    if s == "market"@ {
        Some(ExecutionMode::Market)
    } else if s == "limit"@ {
        Some(ExecutionMode::Limit)
    } else if s == "dry-run"@ || s == "dryrun"@ {
        Some(ExecutionMode::DryRun)
    } else {
        None
    }
}

/// Reads a value of `EXECUTION_MODE`: "market", "limit", "dry-run" or "dryrun".
pub fn parse_execution_mode(s: &str) -> (r: Option<ExecutionMode>)
    ensures
        r == named_execution_mode(s@),
{
    if str_eq(s, "market") {
        Some(ExecutionMode::Market)
    } else if str_eq(s, "limit") {
        Some(ExecutionMode::Limit)
    } else if str_eq(s, "dry-run") || str_eq(s, "dryrun") {
        Some(ExecutionMode::DryRun)
    } else {
        None
    }
}

/// 10 USDC, in 10^-8 units.
pub const DEFAULT_TRADE_AMOUNT: u64 = 1_000_000_000;

/// Everything the bot reads from its environment.
#[derive(Clone)]
pub struct Config {
    pub binance_ws_url: String,
    pub symbol: String,
    pub interval: String,
    pub execution_mode: ExecutionMode,
    /// Amount spent per trade, in 10^-8 USDC.
    pub trade_amount_usdc: u64,
    pub polymarket_api_key: String,
    pub polymarket_api_secret: String,
    pub polymarket_api_url: String,
    pub logs_dir: String,
    pub evm_private_key: Option<String>,
    pub polymarket_funder: Option<String>,
    pub polymarket_signature_type: Option<u8>,
    pub polymarket_slug_prefix: String,
}

/// The values of the environment variables the configuration reads (`None` when unset).
#[derive(Clone)]
pub struct EnvValues {
    pub execution_mode: Option<String>,
    pub trade_amount_usdc: Option<String>,
    pub binance_ws_url: Option<String>,
    pub symbol: Option<String>,
    pub interval: Option<String>,
    pub polymarket_api_key: Option<String>,
    pub polymarket_api_secret: Option<String>,
    pub polymarket_api_url: Option<String>,
    pub logs_dir: Option<String>,
    pub polymarket_private_key: Option<String>,
    pub polymarket_funder: Option<String>,
    pub polymarket_signature_type: Option<String>,
    pub polymarket_slug_prefix: Option<String>,
}

/// Something the configuration replaced by a default.
#[derive(Clone, Debug)]
pub enum ConfigWarning {
    /// `EXECUTION_MODE` names no mode; dry-run is used.
    UnknownExecutionMode(String),
    /// `TRADE_AMOUNT_USDC` is zero, negative or NaN (or rounds to zero at 10^-8);
    /// 10 USDC is used.
    NonPositiveAmount(String),
    /// `TRADE_AMOUNT_USDC` is not a number; 10 USDC is used.
    UnreadableAmount(String),
    /// `POLYMARKET_SIGNATURE_TYPE` is not a number from 0 to 255; it is ignored.
    UnreadableSignatureType(String),
    /// `TRADE_AMOUNT_USDC` is more than `u64::MAX` units of 10^-8 (or infinite), more
    /// than an amount can hold; 10 USDC is used.
    AmountTooLarge(String),
}

/// A warning as its kind (0 to 4, in the order of the variants) and the refused text.
pub open spec fn warning_view(w: ConfigWarning) -> (nat, Seq<char>) {
    match w {
        ConfigWarning::UnknownExecutionMode(s) => (0, s@),
        ConfigWarning::NonPositiveAmount(s) => (1, s@),
        ConfigWarning::UnreadableAmount(s) => (2, s@),
        ConfigWarning::UnreadableSignatureType(s) => (3, s@),
        ConfigWarning::AmountTooLarge(s) => (4, s@),
    }
}

/// The warnings that the environment values raise, in this order: the execution mode,
/// the trade amount, the signature type.
pub open spec fn expected_warnings(env: EnvValues) -> Seq<(nat, Seq<char>)> {
    let mode = opt_text(env.execution_mode, "dry-run"@);
    let amount = opt_text(env.trade_amount_usdc, "10.0"@);
    (if named_execution_mode(mode) is None { seq![(0nat, mode)] } else { Seq::empty() })
        + (match decimal_reading(amount) {
            DecimalReading::Units(u) => if u == 0 { seq![(1nat, amount)] } else { Seq::empty() },
            DecimalReading::Unreadable => seq![(2nat, amount)],
            DecimalReading::TooLarge => seq![(4nat, amount)],
            _ => seq![(1nat, amount)],
        })
        + (match env.polymarket_signature_type {
            Some(t) => if small_number_of(t@) is None { seq![(3nat, t@)] } else { Seq::empty() },
            None => Seq::empty(),
        })
}

pub open spec fn opt_text(v: Option<String>, default: Seq<char>) -> Seq<char> {
    match v {
        Some(s) => s@,
        None => default,
    }
}

/// The trade amount a value of `TRADE_AMOUNT_USDC` gives: a positive number (in
/// 10^-8 units, rounded ties to even), else 10.
pub open spec fn trade_amount_of(s: Seq<char>) -> u64 {
    match decimal_reading(s) {
        DecimalReading::Units(u) => if u > 0 { u } else { DEFAULT_TRADE_AMOUNT },
        _ => DEFAULT_TRADE_AMOUNT,
    }
}

/// A small unsigned decimal: digits only, at most 255.
pub open spec fn small_number_of(s: Seq<char>) -> Option<u8> {
    if s.len() >= 1 && all_digits(s) && digits_value(s) <= 255 {
        Some(digits_value(s) as u8)
    } else {
        None
    }
}

/// A value that is set and not empty.
pub open spec fn present(v: Option<String>) -> Option<Seq<char>> {
    match v {
        Some(s) => if s@.len() > 0 { Some(s@) } else { None },
        None => None,
    }
}

fn text_or(v: &Option<String>, default: &str) -> (r: String)
    ensures
        r@ == opt_text(*v, default@),
{
    match v {
        Some(s) => s.clone(),
        None => string_of(&chars_of(default)),
    }
}

fn non_empty(v: &Option<String>) -> (r: Option<String>)
    ensures
        r is Some <==> present(*v) is Some,
        r matches Some(s) ==> s@ == present(*v)->0,
{
    match v {
        Some(s) => if !s.as_str().is_empty() { Some(s.clone()) } else { None },
        None => None,
    }
}

/// Reads a small unsigned decimal (at most 255).
pub fn parse_small_number(s: &str) -> (r: Option<u8>)
    ensures
        r == small_number_of(s@),
{
    let v = chars_of(s);
    if v.len() == 0 {
        return None;
    }
    let mut acc: u64 = 0;
    let mut i: usize = 0;
    while i < v.len()
        invariant
            i <= v.len(),
            v@ == s@,
            v.len() >= 1,
            all_digits(v@.take(i as int)),
            acc as nat == digits_value(v@.take(i as int)),
            acc <= 255,
        decreases v.len() - i,
    {
        let c = v[i];
        if !('0' <= c && c <= '9') {
            assert(!crate::decimal::is_digit(v@[i as int]));
            assert(!all_digits(v@));
            return None;
        }
        let d: u64 = (c as u32 - '0' as u32) as u64;
        assert(d as nat == crate::decimal::digit_value(v@[i as int]));
        assert(v@.take(i as int + 1).drop_last() =~= v@.take(i as int));
        assert(all_digits(v@.take(i as int + 1))) by {
            assert forall|j: int| 0 <= j < i + 1 implies crate::decimal::is_digit(#[trigger] v@.take(i as int + 1)[j]) by {
                if j < i {
                    assert(v@.take(i as int + 1)[j] == v@.take(i as int)[j]);
                }
            }
        }
        assert(digits_value(v@.take(i as int + 1)) == digits_value(v@.take(i as int)) * 10 + crate::decimal::digit_value(v@[i as int]));
        acc = acc * 10 + d;
        i = i + 1;
        if acc > 255 {
            proof {
                lemma_digits_prefix_le(v@, i as int);
            }
            return None;
        }
    }
    assert(v@.take(v.len() as int) =~= v@);
    Some(acc as u8)
}

proof fn lemma_digits_prefix_le(s: Seq<char>, i: int)
    requires
        0 <= i <= s.len(),
    ensures
        digits_value(s.take(i)) <= digits_value(s),
    decreases s.len(),
{
    if i < s.len() {
        lemma_digits_prefix_le(s.drop_last(), i);
        assert(s.drop_last().take(i) =~= s.take(i));
    } else {
        assert(s.take(i) =~= s);
    }
}

impl Config {
    /// Builds the configuration from the environment values, with the defaults:
    /// dry-run mode, 10 USDC, `wss://stream.binance.com:9443/ws`, `btcusdt`, `5m`,
    /// `https://clob.polymarket.com`, `logs`, slug prefix `btc-updown-5m`.
    pub fn from_values(env: &EnvValues) -> (r: (Config, Vec<ConfigWarning>))
        ensures
            ({
                let c = r.0;
                let mode = named_execution_mode(opt_text(env.execution_mode, "dry-run"@));
                &&& c.execution_mode == (if mode is Some { mode->0 } else { ExecutionMode::DryRun })
                &&& c.trade_amount_usdc == trade_amount_of(opt_text(env.trade_amount_usdc, "10.0"@))
                &&& c.binance_ws_url@ == opt_text(env.binance_ws_url, "wss://stream.binance.com:9443/ws"@)
                &&& c.symbol@ == opt_text(env.symbol, "btcusdt"@)
                &&& c.interval@ == opt_text(env.interval, "5m"@)
                &&& c.polymarket_api_key@ == opt_text(env.polymarket_api_key, ""@)
                &&& c.polymarket_api_secret@ == opt_text(env.polymarket_api_secret, ""@)
                &&& c.polymarket_api_url@ == opt_text(env.polymarket_api_url, "https://clob.polymarket.com"@)
                &&& c.logs_dir@ == opt_text(env.logs_dir, "logs"@)
                &&& (c.evm_private_key is Some <==> present(env.polymarket_private_key) is Some)
                &&& (c.evm_private_key matches Some(k) ==> k@ == present(env.polymarket_private_key)->0)
                &&& (c.polymarket_funder is Some <==> present(env.polymarket_funder) is Some)
                &&& (c.polymarket_funder matches Some(f) ==> f@ == present(env.polymarket_funder)->0)
                &&& c.polymarket_signature_type == (match env.polymarket_signature_type {
                        Some(s) => small_number_of(s@),
                        None => None,
                    })
                &&& c.polymarket_slug_prefix@ == opt_text(env.polymarket_slug_prefix, "btc-updown-5m"@)
                &&& r.1@.map_values(|w: ConfigWarning| warning_view(w)) == expected_warnings(*env)
            }),
    {
        let mut warnings: Vec<ConfigWarning> = Vec::new();
        let mode_text = text_or(&env.execution_mode, "dry-run");
        let execution_mode = match parse_execution_mode(mode_text.as_str()) {
            Some(m) => m,
            None => {
                warnings.push(ConfigWarning::UnknownExecutionMode(mode_text.clone()));
                ExecutionMode::DryRun
            },
        };
        let amount_text = text_or(&env.trade_amount_usdc, "10.0");
        let trade_amount_usdc = match read_decimal(amount_text.as_str()) {
            DecimalReading::Units(v) => {
                if v > 0 {
                    v
                } else {
                    warnings.push(ConfigWarning::NonPositiveAmount(amount_text.clone()));
                    DEFAULT_TRADE_AMOUNT
                }
            },
            DecimalReading::Unreadable => {
                warnings.push(ConfigWarning::UnreadableAmount(amount_text.clone()));
                DEFAULT_TRADE_AMOUNT
            },
            DecimalReading::TooLarge => {
                warnings.push(ConfigWarning::AmountTooLarge(amount_text.clone()));
                DEFAULT_TRADE_AMOUNT
            },
            _ => {
                warnings.push(ConfigWarning::NonPositiveAmount(amount_text.clone()));
                DEFAULT_TRADE_AMOUNT
            },
        };
        let polymarket_signature_type = match &env.polymarket_signature_type {
            Some(s) => {
                let n = parse_small_number(s.as_str());
                if n.is_none() {
                    warnings.push(ConfigWarning::UnreadableSignatureType(s.clone()));
                }
                n
            },
            None => None,
        };
        let config = Config {
            binance_ws_url: text_or(&env.binance_ws_url, "wss://stream.binance.com:9443/ws"),
            symbol: text_or(&env.symbol, "btcusdt"),
            interval: text_or(&env.interval, "5m"),
            execution_mode,
            trade_amount_usdc,
            polymarket_api_key: text_or(&env.polymarket_api_key, ""),
            polymarket_api_secret: text_or(&env.polymarket_api_secret, ""),
            polymarket_api_url: text_or(&env.polymarket_api_url, "https://clob.polymarket.com"),
            logs_dir: text_or(&env.logs_dir, "logs"),
            evm_private_key: non_empty(&env.polymarket_private_key),
            polymarket_funder: non_empty(&env.polymarket_funder),
            polymarket_signature_type,
            polymarket_slug_prefix: text_or(&env.polymarket_slug_prefix, "btc-updown-5m"),
        };
        assert(warnings@.map_values(|w: ConfigWarning| warning_view(w)) =~= expected_warnings(*env));
        (config, warnings)
    }
}

/// The name of an execution mode as the configuration's description writes it.
pub open spec fn mode_name(m: ExecutionMode) -> Seq<char> {
    match m {
        ExecutionMode::DryRun => "DryRun"@,
        ExecutionMode::Market => "Market"@,
        ExecutionMode::Limit => "Limit"@,
    }
}

/// An amount as the description writes it: the plain decimal, with ".0" when whole.
pub open spec fn amount_text(v: u64) -> Seq<char> {
    if v as nat % 100_000_000 == 0 { fixed8_plain_text(v as nat) + ".0"@ } else { fixed8_plain_text(v as nat) }
}

/// The description of a configuration for the logs. It is made of the fields that
/// are not secret only: the API key and secret are written `[REDACTED]`, and the
/// private key and funder are not written.
pub open spec fn redacted_text(url: Seq<char>, symbol: Seq<char>, interval: Seq<char>, mode: ExecutionMode,
    amount: u64, api_url: Seq<char>, logs_dir: Seq<char>) -> Seq<char> {
    "Config { binance_ws_url: \""@ + url + "\", symbol: \""@ + symbol + "\", interval: \""@ + interval
        + "\", execution_mode: "@ + mode_name(mode) + ", trade_amount_usdc: "@ + amount_text(amount)
        + ", polymarket_api_key: \"[REDACTED]\", polymarket_api_secret: \"[REDACTED]\", polymarket_api_url: \""@
        + api_url + "\", logs_dir: \""@ + logs_dir + "\" }"@
}

pub open spec fn config_text(c: Config) -> Seq<char> {
    redacted_text(c.binance_ws_url@, c.symbol@, c.interval@, c.execution_mode, c.trade_amount_usdc,
        c.polymarket_api_url@, c.logs_dir@)
}

/// Configurations that differ only in their secrets have the same description.
pub proof fn lemma_description_hides_secrets(a: Config, b: Config)
    requires
        a.binance_ws_url@ == b.binance_ws_url@,
        a.symbol@ == b.symbol@,
        a.interval@ == b.interval@,
        a.execution_mode == b.execution_mode,
        a.trade_amount_usdc == b.trade_amount_usdc,
        a.polymarket_api_url@ == b.polymarket_api_url@,
        a.logs_dir@ == b.logs_dir@,
    ensures
        config_text(a) == config_text(b),
{
}

impl Config {
    /// The description of the configuration for the logs, secrets masked.
    pub fn redacted(&self) -> (r: String)
        ensures
            r@ == config_text(*self),
    {
        let mut v = chars_of("Config { binance_ws_url: \"");
        push_str(&mut v, self.binance_ws_url.as_str());
        push_str(&mut v, "\", symbol: \"");
        push_str(&mut v, self.symbol.as_str());
        push_str(&mut v, "\", interval: \"");
        push_str(&mut v, self.interval.as_str());
        push_str(&mut v, "\", execution_mode: ");
        match self.execution_mode {
            ExecutionMode::DryRun => push_str(&mut v, "DryRun"),
            ExecutionMode::Market => push_str(&mut v, "Market"),
            ExecutionMode::Limit => push_str(&mut v, "Limit"),
        }
        push_str(&mut v, ", trade_amount_usdc: ");
        push_fixed8_plain(&mut v, self.trade_amount_usdc);
        if self.trade_amount_usdc % 100_000_000 == 0 {
            push_str(&mut v, ".0");
        }
        push_str(&mut v, ", polymarket_api_key: \"[REDACTED]\", polymarket_api_secret: \"[REDACTED]\", polymarket_api_url: \"");
        push_str(&mut v, self.polymarket_api_url.as_str());
        push_str(&mut v, "\", logs_dir: \"");
        push_str(&mut v, self.logs_dir.as_str());
        push_str(&mut v, "\" }");
        assert(v@ =~= config_text(*self));
        string_of(&v)
    }
}

} // verus!
