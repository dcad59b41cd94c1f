//! The Polymarket side: market slugs, resolving a market's UP/DOWN tokens, the cache
//! of the current market, the decision of how an order is placed, retry of unfilled
//! FOK orders, and the signed parts of CLOB requests.
use chrono::Utc;
use uuid::Uuid;
use vstd::prelude::*;
use crate::calendar::{chrono_date_facts, lemma_same_date_iff_same_day, push_utc_ymd, utc_ymd_text, MILLIS_PER_DAY, MILLIS_RANGE};
use crate::config::{Config, ExecutionMode};
use crate::decimal::{int_digits, nat_digits, padded_digits, push_i64_digits, push_u64_digits, push_u64_padded};
use crate::signing::{
    address_text, alloy_accepts_private_key, address_display, key_address, private_key_accepted,
    secp256k1_signature, sign_hash_with_key, signer_address, address_word, byte_word, hex_address, hex_lower, keccak, keccak_digest, l2_signature,
    l2_signature_exec, parse_address, push_be_word, push_bytes, push_hex, text_bytes, utf8, word_of,
    zero_word,
};
use crate::strategy::{Prediction, Signal};
use crate::text::{
    ascii_lower_seq, chars_of, contains_chars, contains_seq, eq_ignore_ascii_case, has_prefix,
    push_str, str_eq, str_eq_ignore_ascii_case, string_of, to_ascii_lower,
};

verus! {

/// The market of one candle: its condition, the tokens of the UP and DOWN outcomes.
#[derive(Clone, Debug)]
pub struct MarketInfo {
    pub condition_id: String,
    pub up_token_id: String,
    pub down_token_id: String,
    pub slug: String,
    /// Minimum order size in shares, in 10^-8 units.
    pub order_min_size: u64,
}

/// The acknowledgement of an order. Times are UTC milliseconds.
#[derive(Clone, Debug)]
pub struct OrderResult {
    pub order_id: String,
    pub status: String,
    pub submitted_at: i64,
    pub ack_at: i64,
}

/// One market of the Gamma API answer. `outcomes` and `clob_token_ids` are JSON
/// arrays of strings written as strings.
#[derive(Clone, Debug)]
pub struct GammaMarket {
    pub condition_id: String,
    pub outcomes: String,
    pub clob_token_ids: String,
    pub order_min_size: u64,
}

/// 5 shares, the minimum order size when the Gamma API does not give one.
pub const DEFAULT_ORDER_MIN_SIZE: u64 = 500_000_000;

/// Why a market could not be resolved.
#[derive(Clone, Copy, Debug, PartialEq, Eq)]
pub enum MarketError {
    NoMarket,
    UnreadableOutcomes,
    UnreadableTokenIds,
    NoUpOutcome,
    NoDownOutcome,
    MissingUpToken,
    MissingDownToken,
}

/// The strings of a JSON array of strings, as `serde_json` reads it.
pub uninterp spec fn json_string_list(s: Seq<char>) -> Option<Seq<Seq<char>>>;

/// `serde_json::from_str::<Vec<String>>`. The contract names the result.
#[verifier::external_body]
fn parse_string_list(s: &str) -> (r: Option<Vec<String>>)
    ensures
        r is Some <==> json_string_list(s@) is Some,
        r matches Some(v) ==> v.deep_view() == json_string_list(s@)->0,
{
    match serde_json::from_str::<Vec<String>>(s) {
        Ok(v) => Some(v),
        Err(_) => None,
    }
}

/// The first position of an entry equal to `target` ignoring ASCII case.
pub open spec fn first_ci(list: Seq<Seq<char>>, target: Seq<char>) -> Option<int>
    decreases list.len(),
{
    if list.len() == 0 {
        None
    } else if eq_ignore_ascii_case(list[0], target) {
        Some(0)
    } else {
        match first_ci(list.drop_first(), target) {
            Some(i) => Some(i + 1),
            None => None,
        }
    }
}

/// The market resolved from the Gamma answer: the first market; its "up" and "down"
/// outcomes (ignoring case) give the positions of the UP and DOWN tokens.
/// Ok gives (condition id, UP token, DOWN token, minimum size).
/// The UP and DOWN tokens of a market from its outcome labels and token ids: the
/// tokens at the positions of the first labels "up" and "down" (ignoring ASCII case).
pub open spec fn token_pair(outcomes: Seq<Seq<char>>, tokens: Seq<Seq<char>>) -> Result<(Seq<char>, Seq<char>), MarketError> {
    let up = first_ci(outcomes, "up"@);
    let down = first_ci(outcomes, "down"@);
    if up is None {
        Err(MarketError::NoUpOutcome)
    } else if down is None {
        Err(MarketError::NoDownOutcome)
    } else if up->0 >= tokens.len() {
        Err(MarketError::MissingUpToken)
    } else if down->0 >= tokens.len() {
        Err(MarketError::MissingDownToken)
    } else {
        Ok((tokens[up->0], tokens[down->0]))
    }
}

pub open spec fn gamma_resolution(markets: Seq<GammaMarket>) -> Result<(Seq<char>, Seq<char>, Seq<char>, u64), MarketError> {
    if markets.len() == 0 {
        Err(MarketError::NoMarket)
    } else {
        let m = markets[0];
        let outcomes = json_string_list(m.outcomes@);
        let tokens = json_string_list(m.clob_token_ids@);
        if outcomes is None {
            Err(MarketError::UnreadableOutcomes)
        } else if tokens is None {
            Err(MarketError::UnreadableTokenIds)
        } else {
            match token_pair(outcomes->0, tokens->0) {
                Ok(p) => Ok((m.condition_id@, p.0, p.1, m.order_min_size)),
                Err(e) => Err(e),
            }
        }
    }
}

fn find_ci(list: &Vec<String>, target: &str) -> (r: Option<usize>)
    ensures
        r is Some <==> first_ci(list.deep_view(), target@) is Some,
        r matches Some(i) ==> i as int == first_ci(list.deep_view(), target@)->0,
{
    let ghost d = list.deep_view();
    let mut i: usize = 0;
    while i < list.len()
        invariant
            i <= list.len(),
            d == list.deep_view(),
            forall|j: int| 0 <= j < i ==> !eq_ignore_ascii_case(#[trigger] d[j], target@),
        decreases list.len() - i,
    {
        assert(d[i as int] == list@[i as int]@);
        if str_eq_ignore_ascii_case(list[i].as_str(), target) {
            proof { lemma_first_ci_at(d, target@, i as int); }
            return Some(i);
        }
        i = i + 1;
    }
    proof { lemma_first_ci_none(d, target@); }
    None
}

proof fn lemma_first_ci_at(d: Seq<Seq<char>>, t: Seq<char>, i: int)
    requires
        0 <= i < d.len(),
        eq_ignore_ascii_case(d[i], t),
        forall|j: int| 0 <= j < i ==> !eq_ignore_ascii_case(#[trigger] d[j], t),
    ensures
        first_ci(d, t) == Some(i),
    decreases i,
{
    if i > 0 {
        let e = d.drop_first();
        assert forall|j: int| 0 <= j < i - 1 implies !eq_ignore_ascii_case(#[trigger] e[j], t) by {
            assert(e[j] == d[j + 1]);
        }
        lemma_first_ci_at(e, t, i - 1);
    }
}

proof fn lemma_first_ci_none(d: Seq<Seq<char>>, t: Seq<char>)
    requires
        forall|j: int| 0 <= j < d.len() ==> !eq_ignore_ascii_case(#[trigger] d[j], t),
    ensures
        first_ci(d, t) is None,
    decreases d.len(),
{
    if d.len() > 0 {
        let e = d.drop_first();
        assert forall|j: int| 0 <= j < e.len() implies !eq_ignore_ascii_case(#[trigger] e[j], t) by {
            assert(e[j] == d[j + 1]);
        }
        lemma_first_ci_none(e, t);
    }
}

/// How an order is placed.
#[derive(Debug)]
pub enum OrderPlan {
    /// Settled without the exchange: a simulated order, or a refusal.
    Completed(Result<OrderResult, OrderError>),
    /// POST the pre-signed order `body` of token `token_id`.
    PostPreSigned { token_id: String, body: String, submitted_at: i64 },
    /// Build, sign and post a FOK market buy of `amount_usdc` (10^-8 USDC) of `token_id`.
    SubmitViaSdk { token_id: String, amount_usdc: u64, submitted_at: i64 },
}

/// Why an order was refused before reaching the exchange.
#[derive(Clone, Copy, Debug, PartialEq, Eq)]
pub enum OrderError {
    /// Market mode needs a valid `POLYMARKET_PRIVATE_KEY`.
    MissingPrivateKey,
    /// Limit orders are not implemented (they would need a minimum of 5 shares).
    LimitNotImplemented,
}

/// The UP and DOWN orders of a market, signed ahead of the signal.
#[derive(Clone, Debug)]
pub struct PreSignedOrders {
    pub up_json: String,
    pub down_json: String,
    pub amount_usdc: u64,
    pub slug: String,
}

/// The signer kinds of the CLOB SDK.
#[derive(Clone, Copy, Debug, PartialEq, Eq)]
pub enum SignatureKind {
    Eoa,
    Proxy,
    GnosisSafe,
}

/// Credentials of the CLOB L2 API.
#[derive(Clone, Debug)]
pub struct ApiCreds {
    pub api_key: String,
    pub secret: String,
    pub passphrase: String,
    pub address: String,
}

/// The authentication headers of an L1 request (API key creation or derivation).
#[derive(Clone, Debug)]
pub struct L1Headers {
    pub poly_address: String,
    pub poly_signature: String,
    pub poly_timestamp: String,
    pub poly_nonce: String,
}

/// The ClobAuth hash that the wallet of `key` signs at `timestamp` with `nonce`.
pub open spec fn clob_auth_digest(key: Seq<char>, timestamp: Seq<char>, nonce: u64) -> Seq<u8> {
    eip712_digest(clob_auth_domain_separator_spec(),
        keccak(clob_auth_struct_bytes(signer_address(key), timestamp, nonce)))
}

/// A signature written as `0x` and the hex of r, s and v (27 or 28 by the y parity).
pub open spec fn signature_hex(sig: (Seq<u8>, Seq<u8>, bool)) -> Seq<char> {
    "0x"@ + hex_lower(sig.0 + sig.1 + seq![if sig.2 { 28u8 } else { 27u8 }])
}

/// The signer kind of a signature type code (2 when unset).
pub open spec fn signature_kind_of(code: Option<u8>) -> Result<SignatureKind, u8> {
    let c = if code is Some { code->0 } else { 2u8 };
    if c == 0 { Ok(SignatureKind::Eoa) } else if c == 1 { Ok(SignatureKind::Proxy) }
    else if c == 2 { Ok(SignatureKind::GnosisSafe) } else { Err(c) }
}

/// Why the SDK signer settings are refused.
#[derive(Clone, Copy, Debug, PartialEq, Eq)]
pub enum SdkAuthError {
    /// `POLYMARKET_FUNDER` is not an address.
    InvalidFunder,
    /// `POLYMARKET_SIGNATURE_TYPE` is not 0, 1 or 2.
    InvalidSignatureType(u8),
}

/// The authentication headers of an L2 request.
#[derive(Clone, Debug)]
pub struct L2Headers {
    pub poly_address: String,
    pub poly_api_key: String,
    pub poly_passphrase: String,
    pub poly_signature: String,
    pub poly_timestamp: String,
}

/// `Uuid::new_v4().to_string()`. Random: the contract claims only the shape of the
/// text, 36 characters with hyphens at positions 8, 13, 18 and 23.
#[verifier::external_body]
pub(crate) fn new_uuid_text() -> (r: String)
    ensures
        r@.len() == 36,
        r@[8] == '-' && r@[13] == '-' && r@[18] == '-' && r@[23] == '-',
{
    Uuid::new_v4().to_string()
}

/// `Utc::now().timestamp_millis()`: the current time; nothing is claimed of it.
#[verifier::external_body]
fn now_millis() -> (r: i64) {
    Utc::now().timestamp_millis()
}

/// `str::trim_start_matches("0x")`: every leading "0x" removed.
pub open spec fn strip_hex_prefixes(s: Seq<char>) -> Seq<char>
    decreases s.len(),
{
    if has_prefix(s, "0x"@) && s.len() >= 2 {
        strip_hex_prefixes(s.skip(2))
    } else {
        s
    }
}

fn strip_hex_prefixes_exec(v: &Vec<char>) -> (r: Vec<char>)
    ensures
        r@ == strip_hex_prefixes(v@),
{
    let mut a: usize = 0;
    assert(v@.skip(0) =~= v@);
    while a < v.len() && v.len() - a >= 2 && v[a] == '0' && v[a + 1] == 'x'
        invariant
            a <= v.len(),
            strip_hex_prefixes(v@.skip(a as int)) == strip_hex_prefixes(v@),
        decreases v.len() - a,
    {
        proof {
            let t = v@.skip(a as int);
            assert(t.take(2) =~= "0x"@) by {
                reveal_strlit("0x");
            }
            assert(t.skip(2) =~= v@.skip(a + 2));
        }
        a = a + 2;
    }
    proof {
        let t = v@.skip(a as int);
        if has_prefix(t, "0x"@) && t.len() >= 2 {
            reveal_strlit("0x");
            assert(t.take(2)[0] == '0' && t.take(2)[1] == 'x');
            assert(v@[a as int] == '0' && v@[a + 1] == 'x');
        }
    }
    let mut out: Vec<char> = Vec::new();
    let mut i: usize = a;
    while i < v.len()
        invariant
            a <= i <= v.len(),
            out@ == v@.subrange(a as int, i as int),
        decreases v.len() - i,
    {
        out.push(v[i]);
        i = i + 1;
        assert(out@ =~= v@.subrange(a as int, i as int));
    }
    assert(out@ =~= v@.skip(a as int));
    out
}

/// The slug prefix of the BTC Up/Down 5-minute markets.
pub open spec fn slug_prefix() -> Seq<char> {
    "btc-updown-5m-"@
}

/// Text that a FOK order left unfilled answers with.
pub open spec fn is_fok_unfilled_text(msg: Seq<char>) -> bool {
    contains_seq(ascii_lower_seq(msg), "fok orders are fully filled or killed"@)
        || contains_seq(ascii_lower_seq(msg), "order couldn't be fully filled"@)
}

/// Seconds waited before the retries of an unfilled FOK order.
pub open spec fn fok_retry_delay_spec(attempt: nat) -> Option<u64> {
    if attempt == 0 { Some(3) } else if attempt == 1 { Some(7) } else if attempt == 2 { Some(10) } else { None }
}

/// An amount written with two decimals, truncated to the cent: `{:.2}` of the
/// amount floored to hundredths.
pub open spec fn cents_text(amount: u64) -> Seq<char> {
    let cents = amount as nat / 1_000_000;
    nat_digits(cents / 100) + seq!['.'] + padded_digits(cents % 100, 2)
}

/// A text without its leading and trailing '"' characters.
pub open spec fn trim_quotes_seq(s: Seq<char>) -> Seq<char>
    decreases s.len(),
{
    if s.len() > 0 && s[0] == '"' {
        trim_quotes_seq(s.drop_first())
    } else if s.len() > 0 && s.last() == '"' {
        trim_quotes_seq(s.drop_last())
    } else {
        s
    }
}

pub open spec fn ctf_domain_type() -> Seq<char> {
    "EIP712Domain(string name,string version,uint256 chainId,address verifyingContract)"@
}

pub open spec fn auth_domain_type() -> Seq<char> {
    "EIP712Domain(string name,string version,uint256 chainId)"@
}

pub open spec fn order_type() -> Seq<char> {
    "Order(uint256 salt,address maker,address signer,address taker,uint256 tokenId,uint256 makerAmount,uint256 takerAmount,uint256 expiration,uint256 nonce,uint256 feeRateBps,uint8 side,uint8 signatureType)"@
}

pub open spec fn clob_auth_type() -> Seq<char> {
    "ClobAuth(address address,string timestamp,uint256 nonce,string message)"@
}

pub open spec fn clob_auth_message() -> Seq<char> {
    "This message attests that I control the given wallet"@
}

pub open spec fn ctf_exchange_address() -> Seq<char> {
    "0x4bFb41d5B3570DeFd03C39a9A4D8dE6Bd8B8982E"@
}

/// Polygon mainnet.
pub const POLYGON_CHAIN_ID: u64 = 137;

/// The domain separator of the CTF Exchange contract on Polygon, or `None` if its
/// address does not read.
pub open spec fn ctf_domain_separator_spec() -> Option<Seq<u8>> {
    let addr = hex_address(ctf_exchange_address());
    if addr is Some {
        Some(keccak(keccak(utf8(ctf_domain_type())) + keccak(utf8("Polymarket CTF Exchange"@))
            + keccak(utf8("1"@)) + word_of(POLYGON_CHAIN_ID as nat) + address_word(addr->0)))
    } else {
        None
    }
}

/// The domain separator of ClobAuthDomain (no verifying contract).
pub open spec fn clob_auth_domain_separator_spec() -> Seq<u8> {
    keccak(keccak(utf8(auth_domain_type())) + keccak(utf8("ClobAuthDomain"@)) + keccak(utf8("1"@))
        + word_of(POLYGON_CHAIN_ID as nat))
}

/// The EIP-712 digest `keccak(0x19 0x01 ‖ domain ‖ struct_hash)`.
pub open spec fn eip712_digest(domain: Seq<u8>, struct_hash: Seq<u8>) -> Seq<u8> {
    keccak(seq![0x19u8, 0x01u8] + domain + struct_hash)
}

/// The encoded order of the CTF Exchange: signer is the maker, taker is zero,
/// expiration and nonce are zero.
pub open spec fn order_struct_bytes(salt: Seq<u8>, maker: Seq<u8>, token_id: Seq<u8>, maker_amount: Seq<u8>,
    taker_amount: Seq<u8>, fee_rate_bps: Seq<u8>, side: u8, signature_type: u8) -> Seq<u8> {
    keccak(utf8(order_type())) + salt + address_word(maker) + address_word(maker) + zero_word() + token_id
        + maker_amount + taker_amount + zero_word() + zero_word() + fee_rate_bps + byte_word(side)
        + byte_word(signature_type)
}

/// The encoded ClobAuth message.
pub open spec fn clob_auth_struct_bytes(address: Seq<u8>, timestamp: Seq<char>, nonce: u64) -> Seq<u8> {
    keccak(utf8(clob_auth_type())) + address_word(address) + keccak(utf8(timestamp)) + word_of(nonce as nat)
        + keccak(utf8(clob_auth_message()))
}

/// The body of a pre-signed order for a prediction, if the pre-signed orders match the
/// market and amount (within 0.001 USDC) and a signer is configured.
pub open spec fn fast_path_body(pre: Option<PreSignedOrders>, has_signer: bool, p: Prediction,
    market_slug: Seq<char>, amount: u64) -> Option<Seq<char>> {
    if pre is None {
        None
    } else {
        let o = pre->0;
        let diff: int = if o.amount_usdc >= amount { o.amount_usdc - amount } else { amount - o.amount_usdc };
        if o.slug@ != market_slug || diff > 100_000 || !has_signer {
            None
        } else {
            Some(if p == Prediction::Up { o.up_json@ } else { o.down_json@ })
        }
    }
}

/// A pre-signed body is used exactly when the orders were signed for this market's
/// slug, for the trade amount within 0.001 USDC (100,000 units), and a signer exists;
/// the body is then the one of the predicted side.
pub proof fn lemma_fast_path_is_for_its_market(pre: Option<PreSignedOrders>, has_signer: bool, p: Prediction,
    market_slug: Seq<char>, amount: u64)
    ensures
        fast_path_body(pre, has_signer, p, market_slug, amount) is Some <==> (pre is Some
            && pre->0.slug@ == market_slug
            && has_signer
            && -100_000 <= pre->0.amount_usdc - amount <= 100_000),
        fast_path_body(pre, has_signer, p, market_slug, amount) matches Some(b) ==> {
            &&& (p == Prediction::Up ==> b == pre->0.up_json@)
            &&& (p == Prediction::Down ==> b == pre->0.down_json@)
        },
{
}

/// The 32-byte words of the encoded ClobAuth message (for 32-byte Keccak digests, as
/// `keccak_digest` gives): the type hash, the address left-padded with twelve zero
/// bytes, the hash of the timestamp, the nonce as a big-endian word, and the hash of
/// the message; 160 bytes in all.
pub proof fn lemma_clob_auth_struct_layout(address: Seq<u8>, timestamp: Seq<char>, nonce: u64)
    requires
        address.len() == 20,
        keccak(utf8(clob_auth_type())).len() == 32,
        keccak(utf8(timestamp)).len() == 32,
        keccak(utf8(clob_auth_message())).len() == 32,
    ensures
        ({
            let s = clob_auth_struct_bytes(address, timestamp, nonce);
            &&& s.len() == 160
            &&& s.subrange(0, 32) == keccak(utf8(clob_auth_type()))
            &&& forall|i: int| 32 <= i < 44 ==> s[i] == 0u8
            &&& s.subrange(44, 64) == address
            &&& s.subrange(64, 96) == keccak(utf8(timestamp))
            &&& s.subrange(96, 128) == word_of(nonce as nat)
            &&& s.subrange(128, 160) == keccak(utf8(clob_auth_message()))
        }),
{
    crate::signing::lemma_be_bytes_shape(nonce as nat, 32);
    let s = clob_auth_struct_bytes(address, timestamp, nonce);
    let a = keccak(utf8(clob_auth_type()));
    let w = address_word(address);
    let t = keccak(utf8(timestamp));
    let n = word_of(nonce as nat);
    let m = keccak(utf8(clob_auth_message()));
    assert(s == a + w + t + n + m);
    assert(s.subrange(0, 32) =~= a);
    assert forall|i: int| 32 <= i < 44 implies s[i] == 0u8 by {
        assert(s[i] == w[i - 32]);
    }
    assert(s.subrange(44, 64) =~= address);
    assert(s.subrange(64, 96) =~= t);
    assert(s.subrange(96, 128) =~= n);
    assert(s.subrange(128, 160) =~= m);
}

/// The thirteen 32-byte words of an encoded order (for a 32-byte type hash): type
/// hash, salt, maker and signer (the maker's address left-padded with twelve zero
/// bytes), a zero taker, token id, maker and taker amounts, zero expiration and nonce,
/// fee rate, then side and signature type each in the last byte of a zero word.
pub proof fn lemma_order_struct_layout(salt: Seq<u8>, maker: Seq<u8>, token_id: Seq<u8>, maker_amount: Seq<u8>,
    taker_amount: Seq<u8>, fee_rate_bps: Seq<u8>, side: u8, signature_type: u8)
    requires
        keccak(utf8(order_type())).len() == 32,
        salt.len() == 32,
        maker.len() == 20,
        token_id.len() == 32,
        maker_amount.len() == 32,
        taker_amount.len() == 32,
        fee_rate_bps.len() == 32,
    ensures
        ({
            let s = order_struct_bytes(salt, maker, token_id, maker_amount, taker_amount, fee_rate_bps, side, signature_type);
            &&& s.len() == 416
            &&& s.subrange(0, 32) == keccak(utf8(order_type()))
            &&& s.subrange(32, 64) == salt
            &&& forall|i: int| 64 <= i < 76 ==> s[i] == 0u8
            &&& s.subrange(76, 96) == maker
            &&& forall|i: int| 96 <= i < 108 ==> s[i] == 0u8
            &&& s.subrange(108, 128) == maker
            &&& forall|i: int| 128 <= i < 160 ==> s[i] == 0u8
            &&& s.subrange(160, 192) == token_id
            &&& s.subrange(192, 224) == maker_amount
            &&& s.subrange(224, 256) == taker_amount
            &&& forall|i: int| 256 <= i < 320 ==> s[i] == 0u8
            &&& s.subrange(320, 352) == fee_rate_bps
            &&& forall|i: int| 352 <= i < 383 ==> s[i] == 0u8
            &&& s[383] == side
            &&& forall|i: int| 384 <= i < 415 ==> s[i] == 0u8
            &&& s[415] == signature_type
        }),
{
    let s = order_struct_bytes(salt, maker, token_id, maker_amount, taker_amount, fee_rate_bps, side, signature_type);
    let a = keccak(utf8(order_type()));
    let mw = address_word(maker);
    let z = zero_word();
    let sw = byte_word(side);
    let tw = byte_word(signature_type);
    assert(s == a + salt + mw + mw + z + token_id + maker_amount + taker_amount + z + z + fee_rate_bps + sw + tw);
    assert(z.len() == 32);
    assert(s.subrange(0, 32) =~= a);
    assert(s.subrange(32, 64) =~= salt);
    assert(s.subrange(76, 96) =~= maker);
    assert(s.subrange(108, 128) =~= maker);
    assert(s.subrange(160, 192) =~= token_id);
    assert(s.subrange(192, 224) =~= maker_amount);
    assert(s.subrange(224, 256) =~= taker_amount);
    assert(s.subrange(320, 352) =~= fee_rate_bps);
    assert forall|i: int| 64 <= i < 76 implies s[i] == 0u8 by { assert(s[i] == mw[i - 64]); }
    assert forall|i: int| 96 <= i < 108 implies s[i] == 0u8 by { assert(s[i] == mw[i - 96]); }
    assert forall|i: int| 128 <= i < 160 implies s[i] == 0u8 by { assert(s[i] == z[i - 128]); }
    assert forall|i: int| 256 <= i < 320 implies s[i] == 0u8 by {
        if i < 288 { assert(s[i] == z[i - 256]); } else { assert(s[i] == z[i - 288]); }
    }
    assert forall|i: int| 352 <= i < 383 implies s[i] == 0u8 by { assert(s[i] == sw[i - 352]); }
    assert(s[383] == sw[31]);
    assert forall|i: int| 384 <= i < 415 implies s[i] == 0u8 by { assert(s[i] == tw[i - 384]); }
    assert(s[415] == tw[31]);
}

/// The token bought for a prediction.
pub open spec fn token_for(p: Prediction, m: MarketInfo) -> Seq<char> {
    if p == Prediction::Up { m.up_token_id@ } else { m.down_token_id@ }
}

/// Two candles get the same market slug exactly when they open on the same UTC day
/// (for opening times whose chrono dates are known, as `build_slug` establishes).
pub proof fn lemma_slug_identifies_day(a: i64, b: i64)
    requires
        chrono_date_facts(a),
        chrono_date_facts(b),
    ensures
        (slug_prefix() + utc_ymd_text(a) == slug_prefix() + utc_ymd_text(b))
            <==> (a as int / MILLIS_PER_DAY as int == b as int / MILLIS_PER_DAY as int),
{
    lemma_same_date_iff_same_day(a, b);
    let p = slug_prefix();
    if p + utc_ymd_text(a) == p + utc_ymd_text(b) {
        assert((p + utc_ymd_text(a)).skip(p.len() as int) =~= utc_ymd_text(a));
        assert((p + utc_ymd_text(b)).skip(p.len() as int) =~= utc_ymd_text(b));
    }
}

/// The Polymarket client state the bot keeps between orders: the configuration,
/// whether the private key reads, the market of the current slug, and orders signed
/// ahead for it.
pub struct PolymarketClient {
    config: Config,
    has_signer: bool,
    market_cache: Option<(String, MarketInfo)>,
    pre_signed: Option<PreSignedOrders>,
}

fn clone_market(m: &MarketInfo) -> (r: MarketInfo)
    ensures
        r.condition_id@ == m.condition_id@,
        r.up_token_id@ == m.up_token_id@,
        r.down_token_id@ == m.down_token_id@,
        r.slug@ == m.slug@,
        r.order_min_size == m.order_min_size,
{
    MarketInfo {
        condition_id: m.condition_id.clone(),
        up_token_id: m.up_token_id.clone(),
        down_token_id: m.down_token_id.clone(),
        slug: m.slug.clone(),
        order_min_size: m.order_min_size,
    }
}

/// Two markets hold the same texts and size.
pub open spec fn same_market(a: MarketInfo, b: MarketInfo) -> bool {
    a.condition_id@ == b.condition_id@ && a.up_token_id@ == b.up_token_id@
        && a.down_token_id@ == b.down_token_id@ && a.slug@ == b.slug@ && a.order_min_size == b.order_min_size
}

impl PolymarketClient {
    pub closed spec fn config_spec(&self) -> Config {
        self.config
    }

    /// A signer can be built from the configured private key.
    pub closed spec fn has_signer_spec(&self) -> bool {
        self.has_signer
    }

    /// The cached market and its slug.
    pub closed spec fn cache_spec(&self) -> Option<(Seq<char>, MarketInfo)> {
        match self.market_cache {
            Some(c) => Some((c.0@, c.1)),
            None => None,
        }
    }

    pub closed spec fn pre_signed_spec(&self) -> Option<PreSignedOrders> {
        self.pre_signed
    }

    /// A client with an empty cache; the signer exists when the private key, without
    /// its leading "0x", is accepted by alloy.
    pub fn new(config: Config) -> (r: Self)
        ensures
            r.config_spec() == config,
            r.has_signer_spec() == (config.evm_private_key matches Some(k)
                && alloy_accepts_private_key(strip_hex_prefixes(k@))),
            r.cache_spec() is None,
            r.pre_signed_spec() is None,
    {
        let has_signer = match &config.evm_private_key {
            Some(k) => {
                let stripped = strip_hex_prefixes_exec(&chars_of(k.as_str()));
                private_key_accepted(string_of(&stripped).as_str())
            },
            None => false,
        };
        PolymarketClient { config, has_signer, market_cache: None, pre_signed: None }
    }

    pub fn config(&self) -> (r: &Config)
        ensures
            *r == self.config_spec(),
    {
        &self.config
    }

    pub fn has_signer(&self) -> (r: bool)
        ensures
            r == self.has_signer_spec(),
    {
        self.has_signer
    }

    /// The slug of the BTC Up/Down 5-minute market of a candle opening at
    /// `open_time_ms`: `btc-updown-5m-YYYYMMDD`, the UTC date of the candle.
    pub fn build_slug(open_time_ms: i64) -> (r: String)
        requires
            -MILLIS_RANGE <= open_time_ms <= MILLIS_RANGE,
        ensures
            r@ == slug_prefix() + utc_ymd_text(open_time_ms),
            chrono_date_facts(open_time_ms),
    {
        let mut v = chars_of("btc-updown-5m-");
        push_utc_ymd(&mut v, open_time_ms);
        string_of(&v)
    }

    /// Resolves the market of `slug` from the markets of the Gamma API answer.
    pub fn market_from_gamma(slug: &str, markets: &Vec<GammaMarket>) -> (r: Result<MarketInfo, MarketError>)
        ensures
            r is Ok <==> gamma_resolution(markets@) is Ok,
            r matches Ok(m) ==> {
                let g = gamma_resolution(markets@)->Ok_0;
                &&& m.condition_id@ == g.0
                &&& m.up_token_id@ == g.1
                &&& m.down_token_id@ == g.2
                &&& m.order_min_size == g.3
                &&& m.slug@ == slug@
            },
            r matches Err(e) ==> gamma_resolution(markets@) == Err::<(Seq<char>, Seq<char>, Seq<char>, u64), MarketError>(e),
    {
        if markets.len() == 0 {
            return Err(MarketError::NoMarket);
        }
        let m = &markets[0];
        let outcomes = match parse_string_list(m.outcomes.as_str()) {
            Some(o) => o,
            None => return Err(MarketError::UnreadableOutcomes),
        };
        let tokens = match parse_string_list(m.clob_token_ids.as_str()) {
            Some(t) => t,
            None => return Err(MarketError::UnreadableTokenIds),
        };
        let (up_token_id, down_token_id) = match Self::market_tokens(&outcomes, &tokens) {
            Ok(p) => p,
            Err(e) => return Err(e),
        };
        Ok(MarketInfo {
            condition_id: m.condition_id.clone(),
            up_token_id,
            down_token_id,
            slug: string_of(&chars_of(slug)),
            order_min_size: m.order_min_size,
        })
    }

    /// The UP and DOWN token ids from the outcome labels and the token ids of a market.
    pub fn market_tokens(outcomes: &Vec<String>, tokens: &Vec<String>) -> (r: Result<(String, String), MarketError>)
        ensures
            r is Ok <==> token_pair(outcomes.deep_view(), tokens.deep_view()) is Ok,
            r matches Ok(p) ==> (p.0@, p.1@) == token_pair(outcomes.deep_view(), tokens.deep_view())->Ok_0,
            r matches Err(e) ==> token_pair(outcomes.deep_view(), tokens.deep_view()) == Err::<(Seq<char>, Seq<char>), MarketError>(e),
    {
        let up = match find_ci(outcomes, "up") {
            Some(i) => i,
            None => return Err(MarketError::NoUpOutcome),
        };
        let down = match find_ci(outcomes, "down") {
            Some(i) => i,
            None => return Err(MarketError::NoDownOutcome),
        };
        if up >= tokens.len() {
            return Err(MarketError::MissingUpToken);
        }
        if down >= tokens.len() {
            return Err(MarketError::MissingDownToken);
        }
        assert(tokens.deep_view()[up as int] == tokens@[up as int]@);
        assert(tokens.deep_view()[down as int] == tokens@[down as int]@);
        Ok((tokens[up].clone(), tokens[down].clone()))
    }

    /// The cached market when it is the market of `slug`.
    pub fn cached_market(&self, slug: &str) -> (r: Option<MarketInfo>)
        ensures
            r is Some <==> (self.cache_spec() matches Some(c) && c.0 == slug@),
            r matches Some(m) ==> same_market(m, (self.cache_spec()->0).1),
    {
        match &self.market_cache {
            Some((cached_slug, info)) => {
                if str_eq(cached_slug.as_str(), slug) {
                    Some(clone_market(info))
                } else {
                    None
                }
            },
            None => None,
        }
    }

    /// Keeps `info` as the market of `slug`, in place of any other.
    pub fn remember_market(&mut self, slug: &str, info: MarketInfo)
        ensures
            final(self).cache_spec() == Some((slug@, info)),
            final(self).config_spec() == old(self).config_spec(),
            final(self).has_signer_spec() == old(self).has_signer_spec(),
            final(self).pre_signed_spec() == old(self).pre_signed_spec(),
    {
        self.market_cache = Some((string_of(&chars_of(slug)), info));
    }

    /// Keeps orders signed ahead for the next signal.
    pub fn remember_pre_signed(&mut self, orders: PreSignedOrders)
        ensures
            final(self).pre_signed_spec() == Some(orders),
            final(self).config_spec() == old(self).config_spec(),
            final(self).has_signer_spec() == old(self).has_signer_spec(),
            final(self).cache_spec() == old(self).cache_spec(),
    {
        self.pre_signed = Some(orders);
    }

    /// Takes the pre-signed orders (they are consumed whatever happens) and returns
    /// the body to post for the prediction when they match the market and amount.
    pub fn take_fast_path(&mut self, prediction: Prediction, market: &MarketInfo, amount_usdc: u64) -> (r: Option<String>)
        ensures
            r is Some <==> fast_path_body(old(self).pre_signed_spec(), old(self).has_signer_spec(),
                prediction, market.slug@, amount_usdc) is Some,
            r matches Some(b) ==> b@ == fast_path_body(old(self).pre_signed_spec(), old(self).has_signer_spec(),
                prediction, market.slug@, amount_usdc)->0,
            final(self).pre_signed_spec() is None,
            final(self).config_spec() == old(self).config_spec(),
            final(self).has_signer_spec() == old(self).has_signer_spec(),
            final(self).cache_spec() == old(self).cache_spec(),
    {
        let taken = self.pre_signed.take();
        let o = match taken {
            Some(o) => o,
            None => return None,
        };
        let diff: u64 = if o.amount_usdc >= amount_usdc { o.amount_usdc - amount_usdc } else { amount_usdc - o.amount_usdc };
        if !str_eq(o.slug.as_str(), market.slug.as_str()) || diff > 100_000 || !self.has_signer {
            return None;
        }
        match prediction {
            Prediction::Up => Some(o.up_json),
            Prediction::Down => Some(o.down_json),
        }
    }

    /// Decides how to place the order of a signal, with the configured amount:
    /// a dry run is simulated at once, a limit order is refused, a market order posts
    /// the matching pre-signed order, else goes through the SDK when a signer exists.
    pub fn place_order(&mut self, signal: &Signal, market: &MarketInfo) -> (r: OrderPlan)
        ensures
            final(self).config_spec() == old(self).config_spec(),
            final(self).has_signer_spec() == old(self).has_signer_spec(),
            final(self).cache_spec() == old(self).cache_spec(),
            old(self).config_spec().execution_mode == ExecutionMode::DryRun ==> {
                &&& final(self).pre_signed_spec() == old(self).pre_signed_spec()
                &&& r matches OrderPlan::Completed(Ok(o))
                &&& has_prefix(o.order_id@, "dry-run-"@)
                &&& o.order_id@.len() == 44
                &&& o.status@ == "DRY_RUN"@
            },
            old(self).config_spec().execution_mode == ExecutionMode::Limit ==> {
                &&& final(self).pre_signed_spec() == old(self).pre_signed_spec()
                &&& r matches OrderPlan::Completed(Err(e))
                &&& e == OrderError::LimitNotImplemented
            },
            old(self).config_spec().execution_mode == ExecutionMode::Market ==> {
                let fast = fast_path_body(old(self).pre_signed_spec(), old(self).has_signer_spec(),
                    signal.prediction, market.slug@, old(self).config_spec().trade_amount_usdc);
                &&& final(self).pre_signed_spec() is None
                &&& (fast is Some ==> (r matches OrderPlan::PostPreSigned { token_id, body, submitted_at }
                        && token_id@ == token_for(signal.prediction, *market) && body@ == fast->0))
                &&& (fast is None && !old(self).has_signer_spec() ==>
                        (r matches OrderPlan::Completed(Err(e)) && e == OrderError::MissingPrivateKey))
                &&& (old(self).has_signer_spec() && !(old(self).pre_signed_spec() matches Some(o)
                        && o.slug@ == market.slug@) ==> r is SubmitViaSdk)
                &&& (fast is None && old(self).has_signer_spec() ==>
                        (r matches OrderPlan::SubmitViaSdk { token_id, amount_usdc, submitted_at }
                        && token_id@ == token_for(signal.prediction, *market)
                        && amount_usdc == old(self).config_spec().trade_amount_usdc))
            },
    {
        let token_id = match signal.prediction {
            Prediction::Up => market.up_token_id.clone(),
            Prediction::Down => market.down_token_id.clone(),
        };
        let submitted_at = now_millis();
        match self.config.execution_mode {
            ExecutionMode::DryRun => {
                let mut id = chars_of("dry-run-");
                let u = new_uuid_text();
                push_str(&mut id, u.as_str());
                proof {
                    reveal_strlit("dry-run-");
                    assert(id@.take(8) =~= "dry-run-"@);
                }
                let ack_at = now_millis();
                OrderPlan::Completed(Ok(OrderResult {
                    order_id: string_of(&id),
                    status: string_of(&chars_of("DRY_RUN")),
                    submitted_at,
                    ack_at,
                }))
            },
            ExecutionMode::Limit => OrderPlan::Completed(Err(OrderError::LimitNotImplemented)),
            ExecutionMode::Market => {
                let amount = self.config.trade_amount_usdc;
                match self.take_fast_path(signal.prediction, market, amount) {
                    Some(body) => OrderPlan::PostPreSigned { token_id, body, submitted_at },
                    None => {
                        if !self.has_signer {
                            OrderPlan::Completed(Err(OrderError::MissingPrivateKey))
                        } else {
                            OrderPlan::SubmitViaSdk { token_id, amount_usdc: amount, submitted_at }
                        }
                    },
                }
            },
        }
    }

    /// The delay before retrying an order after attempt `attempt` failed with
    /// `message`: 3, 7 then 10 seconds while the message says the FOK order was not
    /// filled; `None` when the order must not be retried.
    pub fn fok_retry_delay(attempt: usize, message: &str) -> (r: Option<u64>)
        ensures
            r == (if is_fok_unfilled_text(message@) { fok_retry_delay_spec(attempt as nat) } else { None::<u64> }),
    {
        if !Self::is_fok_unfilled_error(message) {
            return None;
        }
        if attempt == 0 {
            Some(3)
        } else if attempt == 1 {
            Some(7)
        } else if attempt == 2 {
            Some(10)
        } else {
            None
        }
    }

    /// Whether an error message says that a FOK order could not be filled.
    pub fn is_fok_unfilled_error(message: &str) -> (r: bool)
        ensures
            r == is_fok_unfilled_text(message@),
    {
        let lower = to_ascii_lower(&chars_of(message));
        contains_chars(&lower, &chars_of("fok orders are fully filled or killed"))
            || contains_chars(&lower, &chars_of("order couldn't be fully filled"))
    }

    /// The USDC amount of a market order: truncated to the cent, two decimals.
    pub fn usdc_amount_text(amount_usdc: u64) -> (r: String)
        ensures
            r@ == cents_text(amount_usdc),
    {
        let cents = amount_usdc / 1_000_000;
        let mut v: Vec<char> = Vec::new();
        push_u64_digits(&mut v, cents / 100);
        v.push('.');
        push_u64_padded(&mut v, cents % 100, 2);
        string_of(&v)
    }

    /// The signer kind of `POLYMARKET_SIGNATURE_TYPE` (2 when unset): 0 EOA, 1 proxy,
    /// 2 Gnosis Safe; any other value is refused.
    pub fn signature_kind(code: Option<u8>) -> (r: Result<SignatureKind, u8>)
        ensures
            r == signature_kind_of(code),
    {
        let c = match code {
            Some(c) => c,
            None => 2,
        };
        if c == 0 {
            Ok(SignatureKind::Eoa)
        } else if c == 1 {
            Ok(SignatureKind::Proxy)
        } else if c == 2 {
            Ok(SignatureKind::GnosisSafe)
        } else {
            Err(c)
        }
    }

    /// The signer settings of the SDK client: none without a funder; with a funder, its
    /// address (read as `Address::from_str` reads it) and the signer kind of the
    /// signature type. The funder is checked first.
    pub fn sdk_auth_settings(&self) -> (r: Result<Option<(Vec<u8>, SignatureKind)>, SdkAuthError>)
        ensures
            ({
                let c = self.config_spec();
                match c.polymarket_funder {
                    None => r matches Ok(None),
                    Some(f) => {
                        if hex_address(f@) is None {
                            r == Err::<Option<(Vec<u8>, SignatureKind)>, SdkAuthError>(SdkAuthError::InvalidFunder)
                        } else {
                            match signature_kind_of(c.polymarket_signature_type) {
                                Err(code) => r == Err::<Option<(Vec<u8>, SignatureKind)>, SdkAuthError>(SdkAuthError::InvalidSignatureType(code)),
                                Ok(k) => r matches Ok(Some(t)) && t.0@ == hex_address(f@)->0 && t.1 == k,
                            }
                        }
                    },
                }
            }),
    {
        match &self.config.polymarket_funder {
            None => Ok(None),
            Some(f) => {
                let a = match parse_address(f.as_str()) {
                    Some(a) => a,
                    None => return Err(SdkAuthError::InvalidFunder),
                };
                match Self::signature_kind(self.config.polymarket_signature_type) {
                    Ok(k) => Ok(Some((a, k))),
                    Err(code) => Err(SdkAuthError::InvalidSignatureType(code)),
                }
            },
        }
    }

    /// A text without its surrounding '"' characters (`trim_matches('"')`).
    pub fn trim_quotes(s: &str) -> (r: String)
        ensures
            r@ == trim_quotes_seq(s@),
    {
        let v = chars_of(s);
        let mut a: usize = 0;
        let mut b: usize = v.len();
        assert(v@.subrange(0, v.len() as int) =~= v@);
        while a < b && (v[a] == '"' || v[b - 1] == '"')
            invariant
                a <= b <= v.len(),
                trim_quotes_seq(v@.subrange(a as int, b as int)) == trim_quotes_seq(v@),
            decreases b - a,
        {
            let ghost t = v@.subrange(a as int, b as int);
            if v[a] == '"' {
                assert(t.drop_first() =~= v@.subrange(a + 1, b as int));
                a = a + 1;
            } else {
                assert(t.drop_last() =~= v@.subrange(a as int, b - 1));
                b = b - 1;
            }
        }
        let mut out: Vec<char> = Vec::new();
        let mut i: usize = a;
        while i < b
            invariant
                a <= i <= b <= v.len(),
                out@ == v@.subrange(a as int, i as int),
            decreases b - i,
        {
            out.push(v[i]);
            i = i + 1;
            assert(out@ =~= v@.subrange(a as int, i as int));
        }
        assert(v@ == s@);
        string_of(&out)
    }

    /// The path of the status of an order: `/orders/{order_id}`.
    pub fn order_status_path(order_id: &str) -> (r: String)
        ensures
            r@ == "/orders/"@ + order_id@,
    {
        let mut v = chars_of("/orders/");
        push_str(&mut v, order_id);
        string_of(&v)
    }

    /// The L2 authentication headers of a request made at `timestamp_secs`.
    /// `None` when the secret is not base64.
    pub fn l2_headers(creds: &ApiCreds, timestamp_secs: i64, method: &str, path: &str, body: &str) -> (r: Option<L2Headers>)
        ensures
            r is Some <==> l2_signature(creds.secret@, int_digits(timestamp_secs as int), method@, path@, body@) is Some,
            r matches Some(h) ==> {
                &&& h.poly_address@ == creds.address@
                &&& h.poly_api_key@ == creds.api_key@
                &&& h.poly_passphrase@ == creds.passphrase@
                &&& h.poly_timestamp@ == int_digits(timestamp_secs as int)
                &&& h.poly_signature@ == l2_signature(creds.secret@, int_digits(timestamp_secs as int), method@, path@, body@)->0
                &&& h.poly_signature@.len() == 44
            },
    {
        let mut t: Vec<char> = Vec::new();
        push_i64_digits(&mut t, timestamp_secs);
        assert(t@ =~= int_digits(timestamp_secs as int));
        let ts = string_of(&t);
        let sig = match Self::compute_hmac_sig(creds.secret.as_str(), ts.as_str(), method, path, body) {
            Some(s) => s,
            None => return None,
        };
        Some(L2Headers {
            poly_address: creds.address.clone(),
            poly_api_key: creds.api_key.clone(),
            poly_passphrase: creds.passphrase.clone(),
            poly_signature: sig,
            poly_timestamp: ts,
        })
    }

    /// The HMAC-SHA256 signature of an L2 request (message = timestamp, method, path,
    /// body with `'` turned into `"`), in URL-safe base64; `None` when the secret is
    /// not URL-safe base64.
    pub fn compute_hmac_sig(secret: &str, timestamp: &str, method: &str, path: &str, body: &str) -> (r: Option<String>)
        ensures
            r is Some <==> l2_signature(secret@, timestamp@, method@, path@, body@) is Some,
            r matches Some(sig) ==> sig@ == l2_signature(secret@, timestamp@, method@, path@, body@)->0,
            r matches Some(sig) ==> sig@.len() == 44,
    {
        l2_signature_exec(secret, timestamp, method, path, body)
    }

    /// The domain separator of the CTF Exchange on Polygon (chain 137).
    pub fn ctf_domain_separator() -> (r: Option<Vec<u8>>)
        ensures
            r is Some <==> ctf_domain_separator_spec() is Some,
            r matches Some(d) ==> d@ == ctf_domain_separator_spec()->0 && d@.len() == 32,
    {
        let addr = match parse_address("0x4bFb41d5B3570DeFd03C39a9A4D8dE6Bd8B8982E") {
            Some(a) => a,
            None => return None,
        };
        let mut buf: Vec<u8> = Vec::new();
        let h1 = keccak_digest(text_bytes("EIP712Domain(string name,string version,uint256 chainId,address verifyingContract)").as_slice());
        push_bytes(&mut buf, h1.as_slice());
        let h2 = keccak_digest(text_bytes("Polymarket CTF Exchange").as_slice());
        push_bytes(&mut buf, h2.as_slice());
        let h3 = keccak_digest(text_bytes("1").as_slice());
        push_bytes(&mut buf, h3.as_slice());
        push_be_word(&mut buf, POLYGON_CHAIN_ID);
        push_zeros(&mut buf, 12);
        push_bytes(&mut buf, addr.as_slice());
        assert(buf@ =~= keccak(utf8(ctf_domain_type())) + keccak(utf8("Polymarket CTF Exchange"@))
            + keccak(utf8("1"@)) + word_of(POLYGON_CHAIN_ID as nat) + address_word(addr@));
        Some(keccak_digest(buf.as_slice()))
    }

    /// The domain separator of ClobAuthDomain on Polygon (chain 137).
    pub fn clob_auth_domain_separator() -> (r: Vec<u8>)
        ensures
            r@ == clob_auth_domain_separator_spec(),
            r@.len() == 32,
    {
        let mut buf: Vec<u8> = Vec::new();
        let h1 = keccak_digest(text_bytes("EIP712Domain(string name,string version,uint256 chainId)").as_slice());
        push_bytes(&mut buf, h1.as_slice());
        let h2 = keccak_digest(text_bytes("ClobAuthDomain").as_slice());
        push_bytes(&mut buf, h2.as_slice());
        let h3 = keccak_digest(text_bytes("1").as_slice());
        push_bytes(&mut buf, h3.as_slice());
        push_be_word(&mut buf, POLYGON_CHAIN_ID);
        keccak_digest(buf.as_slice())
    }

    /// The EIP-712 hash of a CTF Exchange order to sign. Words are 32-byte big-endian
    /// values and the maker a 20-byte address; `None` if the exchange address does
    /// not read.
    pub fn order_signing_hash(
        salt: &Vec<u8>,
        maker: &Vec<u8>,
        token_id: &Vec<u8>,
        maker_amount: &Vec<u8>,
        taker_amount: &Vec<u8>,
        fee_rate_bps: &Vec<u8>,
        side: u8,
        signature_type: u8,
    ) -> (r: Option<Vec<u8>>)
        requires
            salt@.len() == 32,
            maker@.len() == 20,
            token_id@.len() == 32,
            maker_amount@.len() == 32,
            taker_amount@.len() == 32,
            fee_rate_bps@.len() == 32,
        ensures
            r is Some <==> ctf_domain_separator_spec() is Some,
            r matches Some(h) ==> h@ == eip712_digest(ctf_domain_separator_spec()->0,
                keccak(order_struct_bytes(salt@, maker@, token_id@, maker_amount@, taker_amount@,
                    fee_rate_bps@, side, signature_type))),
    {
        let mut buf: Vec<u8> = Vec::new();
        let th = keccak_digest(text_bytes("Order(uint256 salt,address maker,address signer,address taker,uint256 tokenId,uint256 makerAmount,uint256 takerAmount,uint256 expiration,uint256 nonce,uint256 feeRateBps,uint8 side,uint8 signatureType)").as_slice());
        push_bytes(&mut buf, th.as_slice());
        push_bytes(&mut buf, salt.as_slice());
        push_zeros(&mut buf, 12);
        push_bytes(&mut buf, maker.as_slice());
        push_zeros(&mut buf, 12);
        push_bytes(&mut buf, maker.as_slice());
        push_zeros(&mut buf, 32);
        push_bytes(&mut buf, token_id.as_slice());
        push_bytes(&mut buf, maker_amount.as_slice());
        push_bytes(&mut buf, taker_amount.as_slice());
        push_zeros(&mut buf, 32);
        push_zeros(&mut buf, 32);
        push_bytes(&mut buf, fee_rate_bps.as_slice());
        push_zeros(&mut buf, 31);
        buf.push(side);
        push_zeros(&mut buf, 31);
        buf.push(signature_type);
        assert(buf@ =~= order_struct_bytes(salt@, maker@, token_id@, maker_amount@, taker_amount@,
            fee_rate_bps@, side, signature_type));
        let struct_hash = keccak_digest(buf.as_slice());
        let domain = match Self::ctf_domain_separator() {
            Some(d) => d,
            None => return None,
        };
        let mut fin: Vec<u8> = Vec::new();
        fin.push(0x19u8);
        fin.push(0x01u8);
        push_bytes(&mut fin, domain.as_slice());
        push_bytes(&mut fin, struct_hash.as_slice());
        assert(fin@ =~= seq![0x19u8, 0x01u8] + domain@ + struct_hash@);
        Some(keccak_digest(fin.as_slice()))
    }

    /// The EIP-712 hash of the ClobAuth message of L1 authentication.
    pub fn clob_auth_signing_hash(address: &Vec<u8>, timestamp: &str, nonce: u64) -> (r: Vec<u8>)
        requires
            address@.len() == 20,
        ensures
            r@ == eip712_digest(clob_auth_domain_separator_spec(),
                keccak(clob_auth_struct_bytes(address@, timestamp@, nonce))),
            r@.len() == 32,
    {
        let mut buf: Vec<u8> = Vec::new();
        let th = keccak_digest(text_bytes("ClobAuth(address address,string timestamp,uint256 nonce,string message)").as_slice());
        push_bytes(&mut buf, th.as_slice());
        push_zeros(&mut buf, 12);
        push_bytes(&mut buf, address.as_slice());
        let ts = keccak_digest(text_bytes(timestamp).as_slice());
        push_bytes(&mut buf, ts.as_slice());
        push_be_word(&mut buf, nonce);
        let mh = keccak_digest(text_bytes("This message attests that I control the given wallet").as_slice());
        push_bytes(&mut buf, mh.as_slice());
        assert(buf@ =~= clob_auth_struct_bytes(address@, timestamp@, nonce));
        let struct_hash = keccak_digest(buf.as_slice());
        let domain = Self::clob_auth_domain_separator();
        let mut fin: Vec<u8> = Vec::new();
        fin.push(0x19u8);
        fin.push(0x01u8);
        push_bytes(&mut fin, domain.as_slice());
        push_bytes(&mut fin, struct_hash.as_slice());
        assert(fin@ =~= seq![0x19u8, 0x01u8] + domain@ + struct_hash@);
        keccak_digest(fin.as_slice())
    }

    /// The L1 headers that prove control of the wallet of `private_key` (its leading
    /// "0x" removed, as for the signer): its address, its signature of the ClobAuth
    /// hash of `timestamp` and `nonce`, the timestamp and the nonce. They exist exactly
    /// when alloy accepts the key and signs that hash.
    pub fn l1_auth_headers(private_key: &str, timestamp: &str, nonce: u64) -> (r: Option<L1Headers>)
        ensures
            ({
                let k = strip_hex_prefixes(private_key@);
                let sig = secp256k1_signature(k, clob_auth_digest(k, timestamp@, nonce));
                &&& (r is Some <==> alloy_accepts_private_key(k) && sig is Some)
                &&& (r matches Some(h) ==> {
                    &&& h.poly_address@ == address_display(signer_address(k))
                    &&& h.poly_signature@ == signature_hex(sig->0)
                    &&& h.poly_timestamp@ == timestamp@
                    &&& h.poly_nonce@ == nat_digits(nonce as nat)
                })
            }),
    {
        let key = string_of(&strip_hex_prefixes_exec(&chars_of(private_key)));
        let address = match key_address(key.as_str()) {
            Some(a) => a,
            None => return None,
        };
        let hash = Self::clob_auth_signing_hash(&address, timestamp, nonce);
        let sig = match sign_hash_with_key(key.as_str(), &hash) {
            Some(t) => t,
            None => return None,
        };
        let signature = Self::sig_to_hex(&sig.0, &sig.1, sig.2);
        let mut n: Vec<char> = Vec::new();
        push_u64_digits(&mut n, nonce);
        Some(L1Headers {
            poly_address: address_text(&address),
            poly_signature: signature,
            poly_timestamp: string_of(&chars_of(timestamp)),
            poly_nonce: string_of(&n),
        })
    }

    /// A signature as `0x` and the hex of r, s and v (27 or 28 by the y parity).
    pub fn sig_to_hex(r: &Vec<u8>, s: &Vec<u8>, y_parity: bool) -> (out: String)
        requires
            r@.len() == 32,
            s@.len() == 32,
        ensures
            out@ == "0x"@ + hex_lower(r@ + s@ + seq![if y_parity { 28u8 } else { 27u8 }]),
    {
        let mut bytes: Vec<u8> = Vec::new();
        push_bytes(&mut bytes, r.as_slice());
        push_bytes(&mut bytes, s.as_slice());
        bytes.push(if y_parity { 28u8 } else { 27u8 });
        assert(bytes@ =~= r@ + s@ + seq![if y_parity { 28u8 } else { 27u8 }]);
        let mut v = chars_of("0x");
        push_hex(&mut v, &bytes);
        string_of(&v)
    }
}

fn push_zeros(dst: &mut Vec<u8>, n: usize)
    ensures
        final(dst)@ == old(dst)@ + Seq::new(n as nat, |i: int| 0u8),
{
    let mut i: usize = 0;
    while i < n
        invariant
            i <= n,
            dst@ == old(dst)@ + Seq::new(i as nat, |k: int| 0u8),
        decreases n - i,
    {
        dst.push(0u8);
        i = i + 1;
        assert(dst@ =~= old(dst)@ + Seq::new(i as nat, |k: int| 0u8));
    }
}

} // verus!
