//! Request signatures for the Polymarket CLOB: EIP-712 hashes of orders and of the
//! ClobAuth message, the L2 HMAC signature of a request, and hex writing of
//! signatures.
use alloy::primitives::{keccak256, Address, B256};
use alloy::signers::local::PrivateKeySigner;
use alloy::signers::SignerSync;
use base64::engine::general_purpose::URL_SAFE;
use base64::Engine;
use hmac::{Hmac, KeyInit, Mac};
use sha2::Sha256;
use std::str::FromStr;
use vstd::prelude::*;
use crate::text::{chars_of, string_of};

verus! {

/// The UTF-8 bytes of a text.
pub open spec fn utf8(s: Seq<char>) -> Seq<u8> {
    vstd::utf8::encode_utf8(s)
}

/// The Keccak-256 digest of bytes.
pub uninterp spec fn keccak(data: Seq<u8>) -> Seq<u8>;

/// `alloy::primitives::keccak256`. The contract names the digest `keccak(data)` and
/// states that it has 32 bytes.
#[verifier::external_body]
pub(crate) fn keccak_digest(data: &[u8]) -> (r: Vec<u8>)
    ensures
        r@ == keccak(data@),
        r@.len() == 32,
{
    keccak256(data).to_vec()
}

/// The bytes of a 40-digit hex address, as `Address::from_str` reads it.
pub uninterp spec fn hex_address(s: Seq<char>) -> Option<Seq<u8>>;

/// `alloy::primitives::Address::from_str`. The contract names the result and states
/// that an address read has 20 bytes.
#[verifier::external_body]
pub(crate) fn parse_address(s: &str) -> (r: Option<Vec<u8>>)
    ensures
        r is Some <==> hex_address(s@) is Some,
        r matches Some(b) ==> b@ == hex_address(s@)->0 && b@.len() == 20,
{
    match Address::from_str(s) {
        Ok(a) => Some(a.as_slice().to_vec()),
        Err(_) => None,
    }
}

/// The address (20 bytes) of the wallet of a private key, as alloy derives it.
pub uninterp spec fn signer_address(key: Seq<char>) -> Seq<u8>;

/// Whether alloy accepts a text as a private key (`PrivateKeySigner::from_str`).
pub uninterp spec fn alloy_accepts_private_key(s: Seq<char>) -> bool;

/// `PrivateKeySigner::from_str`. The contract names whether it succeeds.
#[verifier::external_body]
pub(crate) fn private_key_accepted(s: &str) -> (r: bool)
    ensures
        r == alloy_accepts_private_key(s@),
{
    PrivateKeySigner::from_str(s).is_ok()
}

/// `PrivateKeySigner::from_str` then `address()`. The contract names the address and
/// states that it exists exactly for the keys alloy accepts, with 20 bytes.
#[verifier::external_body]
pub(crate) fn key_address(key: &str) -> (r: Option<Vec<u8>>)
    ensures
        r is Some <==> alloy_accepts_private_key(key@),
        r matches Some(a) ==> a@ == signer_address(key@) && a@.len() == 20,
{
    match PrivateKeySigner::from_str(key) {
        Ok(signer) => Some(signer.address().as_slice().to_vec()),
        Err(_) => None,
    }
}

/// The text alloy writes for an address (`Display`: `0x` and checksummed hex).
pub uninterp spec fn address_display(address: Seq<u8>) -> Seq<char>;

/// `Display` of `alloy::primitives::Address`. The contract names the text.
#[verifier::external_body]
pub(crate) fn address_text(address: &Vec<u8>) -> (r: String)
    requires
        address@.len() == 20,
    ensures
        r@ == address_display(address@),
{
    format!("{}", Address::from_slice(address.as_slice()))
}

/// The secp256k1 signature (r, s, y parity) that alloy's local signer makes of a
/// 32-byte hash with a private key (RFC 6979, deterministic), or `None` when alloy
/// refuses the key or the signing call returns an error.
pub uninterp spec fn secp256k1_signature(key: Seq<char>, hash: Seq<u8>) -> Option<(Seq<u8>, Seq<u8>, bool)>;

/// `PrivateKeySigner::from_str` then `SignerSync::sign_hash_sync`. The contract states
/// that the result is the named signature (r and s as 32 big-endian bytes) and that
/// there is none for a key alloy refuses.
#[verifier::external_body]
pub(crate) fn sign_hash_with_key(key: &str, hash: &Vec<u8>) -> (r: Option<(Vec<u8>, Vec<u8>, bool)>)
    requires
        hash@.len() == 32,
    ensures
        r is Some <==> secp256k1_signature(key@, hash@) is Some,
        r matches Some(t) ==> secp256k1_signature(key@, hash@) == Some((t.0@, t.1@, t.2))
            && t.0@.len() == 32 && t.1@.len() == 32,
        !alloy_accepts_private_key(key@) ==> r is None,
{
    let signer = match PrivateKeySigner::from_str(key) {
        Ok(s) => s,
        Err(_) => return None,
    };
    match signer.sign_hash_sync(&B256::from_slice(hash.as_slice())) {
        Ok(sig) => Some((sig.r().to_be_bytes::<32>().to_vec(), sig.s().to_be_bytes::<32>().to_vec(), sig.v())),
        Err(_) => None,
    }
}

/// The HMAC-SHA256 tag of a message under a key.
pub uninterp spec fn hmac_sha256(key: Seq<u8>, message: Seq<u8>) -> Seq<u8>;

/// `Hmac::<Sha256>::new_from_slice`, `update` and `finalize`. HMAC accepts keys of any
/// length, so the `Err` arm is never taken. The contract names the tag.
#[verifier::external_body]
fn hmac_tag(key: &[u8], message: &[u8]) -> (r: Vec<u8>)
    ensures
        r@ == hmac_sha256(key@, message@),
        r@.len() == 32,
{
    match <Hmac<Sha256> as KeyInit>::new_from_slice(key) {
        Ok(mut mac) => {
            mac.update(message);
            mac.finalize().into_bytes().to_vec()
        },
        Err(_) => Vec::new(),
    }
}

/// The URL-safe padded base64 text of bytes.
pub uninterp spec fn base64_url(data: Seq<u8>) -> Seq<char>;

/// `URL_SAFE.encode` of base64. The contract names the text and states its length:
/// padded base64 writes four characters for every three bytes begun. Inputs are
/// bounded so that the encoded length fits in a `usize`.
#[verifier::external_body]
fn base64_url_encode(data: &[u8]) -> (r: String)
    requires
        data@.len() <= 1_000_000,
    ensures
        r@ == base64_url(data@),
        r@.len() == 4 * ((data@.len() + 2) / 3),
{
    URL_SAFE.encode(data)
}

/// The bytes of a URL-safe padded base64 text, `None` when it is not one.
pub uninterp spec fn base64_url_decoded(s: Seq<char>) -> Option<Seq<u8>>;

/// `URL_SAFE.decode` of base64. The contract names the result.
#[verifier::external_body]
fn base64_url_decode(s: &str) -> (r: Option<Vec<u8>>)
    ensures
        r is Some <==> base64_url_decoded(s@) is Some,
        r matches Some(b) ==> b@ == base64_url_decoded(s@)->0,
{
    match URL_SAFE.decode(s) {
        Ok(b) => Some(b),
        Err(_) => None,
    }
}

pub(crate) fn push_bytes(dst: &mut Vec<u8>, src: &[u8])
    ensures
        final(dst)@ == old(dst)@ + src@,
{
    let mut i: usize = 0;
    while i < src.len()
        invariant
            i <= src.len(),
            dst@ == old(dst)@ + src@.take(i as int),
        decreases src.len() - i,
    {
        dst.push(src[i]);
        i = i + 1;
        assert(src@.take(i as int) =~= src@.take((i - 1) as int).push(src@[i - 1]));
    }
    assert(src@.take(src@.len() as int) =~= src@);
}

/// The UTF-8 bytes of a text.
pub(crate) fn text_bytes(s: &str) -> (r: Vec<u8>)
    ensures
        r@ == utf8(s@),
{
    let mut v: Vec<u8> = Vec::new();
    push_bytes(&mut v, s.as_bytes());
    v
}

/// `n` as `len` big-endian bytes (the low bytes when it does not fit).
pub open spec fn be_bytes(n: nat, len: nat) -> Seq<u8>
    decreases len,
{
    if len == 0 {
        Seq::empty()
    } else {
        be_bytes(n / 256, (len - 1) as nat).push((n % 256) as u8)
    }
}

/// `n` as a 32-byte big-endian word, like `U256::from(n).to_be_bytes::<32>()`.
pub open spec fn word_of(n: nat) -> Seq<u8> {
    be_bytes(n, 32)
}

/// Twelve zero bytes then a 20-byte address: the ABI word of an address.
pub open spec fn address_word(addr: Seq<u8>) -> Seq<u8> {
    Seq::new(12, |i: int| 0u8) + addr
}

/// A word holding one small value in its last byte.
pub open spec fn byte_word(b: u8) -> Seq<u8> {
    Seq::new(31, |i: int| 0u8) + seq![b]
}

pub open spec fn zero_word() -> Seq<u8> {
    Seq::new(32, |i: int| 0u8)
}

pub(crate) fn push_be_word(dst: &mut Vec<u8>, n: u64)
    ensures
        final(dst)@ == old(dst)@ + word_of(n as nat),
{
    let mut bytes: Vec<u8> = Vec::new();
    let mut k: usize = 0;
    while k < 32
        invariant
            k <= 32,
            bytes@.len() == k,
            forall|i: int| 0 <= i < bytes@.len() ==> #[trigger] bytes@[i] == 0u8,
        decreases 32 - k,
    {
        bytes.push(0u8);
        k = k + 1;
    }
    let mut m: u64 = n;
    let mut j: usize = 32;
    proof {
        lemma_be_bytes_shape(n as nat, 32);
        assert(pow256(0) == 1);
        assert(n as nat / 1 == n as nat);
    }
    while j > 24
        invariant
            24 <= j <= 32,
            bytes@.len() == 32,
            m as nat == n as nat / pow256((32 - j) as nat),
            forall|i: int| j <= i < 32 ==> #[trigger] bytes@[i] == word_of(n as nat)[i],
            forall|i: int| 0 <= i < j ==> #[trigger] bytes@[i] == 0u8,
        decreases j,
    {
        j = j - 1;
        proof {
            lemma_word_byte(n as nat, j as int);
        }
        bytes.set(j, (m % 256) as u8);
        proof {
            lemma_div_pow256_step(n as nat, (32 - j - 1) as nat);
        }
        m = m / 256;
    }
    proof {
        assert forall|i: int| 0 <= i < 24 implies #[trigger] bytes@[i] == word_of(n as nat)[i] by {
            lemma_word_byte(n as nat, i);
            lemma_u64_high_zero(n as nat, (32 - i - 1) as nat);
        }
        assert(bytes@ =~= word_of(n as nat));
    }
    push_bytes(dst, bytes.as_slice());
}

pub open spec fn pow256(k: nat) -> nat
    decreases k,
{
    if k == 0 { 1 } else { 256 * pow256((k - 1) as nat) }
}

pub(crate) proof fn lemma_be_bytes_shape(n: nat, len: nat)
    ensures
        be_bytes(n, len).len() == len,
    decreases len,
{
    if len > 0 {
        lemma_be_bytes_shape(n / 256, (len - 1) as nat);
    }
}

/// Byte `i` of the `len`-byte writing of `n` is digit `len - 1 - i` in base 256.
proof fn lemma_be_byte(n: nat, len: nat, i: int)
    requires
        0 <= i < len,
    ensures
        be_bytes(n, len).len() == len,
        be_bytes(n, len)[i] == ((n / pow256((len - 1 - i) as nat)) % 256) as u8,
    decreases len,
{
    lemma_be_bytes_shape(n, len);
    lemma_be_bytes_shape(n / 256, (len - 1) as nat);
    if i < len - 1 {
        let k = (len - 2 - i) as nat;
        lemma_be_byte(n / 256, (len - 1) as nat, i);
        assert(be_bytes(n, len)[i] == be_bytes(n / 256, (len - 1) as nat)[i]);
        lemma_pow256_positive(k);
        vstd::arithmetic::div_mod::lemma_div_denominator(n as int, 256, pow256(k) as int);
        assert(pow256(k + 1) == 256 * pow256(k));
        assert(((len - 1 - i) as nat) == k + 1);
        assert(((len - 1 - 1 - i) as nat) == k);
    } else {
        assert(pow256(0) == 1);
        assert(((len - 1 - i) as nat) == 0);
        assert(n / 1 == n);
        assert(be_bytes(n, len)[i] == (n % 256) as u8);
    }
}

proof fn lemma_word_byte(n: nat, i: int)
    requires
        0 <= i < 32,
    ensures
        word_of(n).len() == 32,
        word_of(n)[i] == ((n / pow256((31 - i) as nat)) % 256) as u8,
{
    lemma_be_byte(n, 32, i);
}

/// Dividing by 256^(k+1) is dividing by 256^k and then by 256.
proof fn lemma_div_pow256_step(n: nat, k: nat)
    ensures
        n / pow256(k + 1) == (n / pow256(k)) / 256,
{
    lemma_pow256_positive(k);
    assert(pow256(k + 1) == 256 * pow256(k));
    vstd::arithmetic::div_mod::lemma_div_denominator(n as int, pow256(k) as int, 256);
    assert(pow256(k) * 256 == 256 * pow256(k)) by (nonlinear_arith);
}

proof fn lemma_pow256_positive(k: nat)
    ensures
        pow256(k) >= 1,
    decreases k,
{
    if k > 0 {
        lemma_pow256_positive((k - 1) as nat);
    }
}

/// A `u64` has no base-256 digit beyond the eighth.
proof fn lemma_u64_high_zero(n: nat, k: nat)
    requires
        n <= u64::MAX,
        k >= 8,
    ensures
        (n / pow256(k)) % 256 == 0,
    decreases k,
{
    lemma_pow256_ge(k);
    assert(n / pow256(k) == 0) by {
        vstd::arithmetic::div_mod::lemma_basic_div(n as int, pow256(k) as int);
    }
}

proof fn lemma_pow256_ge(k: nat)
    requires
        k >= 8,
    ensures
        pow256(k) > u64::MAX,
    decreases k,
{
    if k == 8 {
        reveal_with_fuel(pow256, 9);
        assert(pow256(8) == 18446744073709551616);
    } else {
        lemma_pow256_ge((k - 1) as nat);
    }
}


/// Lower-case hex digit of a nibble.
pub open spec fn hex_digit(d: nat) -> char {
    if d < 10 {
        crate::decimal::digit_char(d)
    } else if d == 10 { 'a' }
    else if d == 11 { 'b' }
    else if d == 12 { 'c' }
    else if d == 13 { 'd' }
    else if d == 14 { 'e' }
    else { 'f' }
}

/// Bytes as lower-case hex, two digits per byte.
pub open spec fn hex_lower(b: Seq<u8>) -> Seq<char>
    decreases b.len(),
{
    if b.len() == 0 {
        Seq::empty()
    } else {
        hex_lower(b.drop_last()) + seq![hex_digit((b.last() / 16) as nat), hex_digit((b.last() % 16) as nat)]
    }
}

fn hex_digit_exec(d: u8) -> (c: char)
    requires
        d < 16,
    ensures
        c == hex_digit(d as nat),
{
    if d < 10 {
        crate::decimal::digit_to_char(d as u64)
    } else if d == 10 { 'a' }
    else if d == 11 { 'b' }
    else if d == 12 { 'c' }
    else if d == 13 { 'd' }
    else if d == 14 { 'e' }
    else { 'f' }
}

/// Appends the lower-case hex writing of bytes.
pub(crate) fn push_hex(out: &mut Vec<char>, b: &Vec<u8>)
    ensures
        final(out)@ == old(out)@ + hex_lower(b@),
{
    let mut i: usize = 0;
    while i < b.len()
        invariant
            i <= b.len(),
            out@ == old(out)@ + hex_lower(b@.take(i as int)),
        decreases b.len() - i,
    {
        let x = b[i];
        let hi = hex_digit_exec(x / 16);
        let lo = hex_digit_exec(x % 16);
        out.push(hi);
        out.push(lo);
        i = i + 1;
        assert(b@.take(i as int).drop_last() =~= b@.take((i - 1) as int));
        assert(out@ =~= old(out)@ + hex_lower(b@.take(i as int)));
    }
    assert(b@.take(b@.len() as int) =~= b@);
}

/// `'` replaced by `"`, as the CLOB expects the signed body.
pub open spec fn quotes_normalized(s: Seq<char>) -> Seq<char> {
    s.map_values(|c: char| if c == '\'' { '"' } else { c })
}

/// The message of an L2 signature: timestamp, method, path and normalized body.
pub open spec fn l2_message(timestamp: Seq<char>, method: Seq<char>, path: Seq<char>, body: Seq<char>) -> Seq<char> {
    timestamp + method + path + quotes_normalized(body)
}

/// The L2 signature of a request: the URL-safe base64 HMAC-SHA256 of the message
/// under the base64-decoded secret; `None` when the secret is not base64.
pub open spec fn l2_signature(secret: Seq<char>, timestamp: Seq<char>, method: Seq<char>, path: Seq<char>, body: Seq<char>) -> Option<Seq<char>> {
    let key = base64_url_decoded(secret);
    if key is Some {
        Some(base64_url(hmac_sha256(key->0, utf8(l2_message(timestamp, method, path, body)))))
    } else {
        None
    }
}

/// Computes the L2 signature of a request.
pub fn l2_signature_exec(secret: &str, timestamp: &str, method: &str, path: &str, body: &str) -> (r: Option<String>)
    ensures
        r is Some <==> l2_signature(secret@, timestamp@, method@, path@, body@) is Some,
        r matches Some(sig) ==> sig@ == l2_signature(secret@, timestamp@, method@, path@, body@)->0,
        r matches Some(sig) ==> sig@.len() == 44,
{
    let key = match base64_url_decode(secret) {
        Some(k) => k,
        None => return None,
    };
    let mut msg: Vec<char> = chars_of(timestamp);
    crate::text::push_str(&mut msg, method);
    crate::text::push_str(&mut msg, path);
    let b = chars_of(body);
    let mut i: usize = 0;
    let ghost start = msg@;
    while i < b.len()
        invariant
            i <= b.len(),
            b@ == body@,
            msg@ == start + quotes_normalized(b@.take(i as int)),
        decreases b.len() - i,
    {
        let c = b[i];
        msg.push(if c == '\'' { '"' } else { c });
        i = i + 1;
        assert(msg@ =~= start + quotes_normalized(b@.take(i as int)));
    }
    assert(b@.take(b.len() as int) =~= b@);
    assert(msg@ =~= l2_message(timestamp@, method@, path@, body@));
    let message = string_of(&msg);
    let tag = hmac_tag(key.as_slice(), message.as_str().as_bytes());
    Some(base64_url_encode(tag.as_slice()))
}

} // verus!
