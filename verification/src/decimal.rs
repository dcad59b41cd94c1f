//! Decimal digits: rendering integers, and reading prices and amounts (number texts
//! in the grammar of `f64::from_str`) as fixed-point integers with eight fractional
//! digits, rounded ties to even.
use vstd::prelude::*;
use crate::text::{chars_eq, chars_of, to_ascii_lower};

verus! {

pub open spec fn is_digit(c: char) -> bool {
    '0' <= c && c <= '9'
}

pub open spec fn all_digits(s: Seq<char>) -> bool {
    forall|i: int| 0 <= i < s.len() ==> is_digit(#[trigger] s[i])
}

pub open spec fn digit_value(c: char) -> nat {
    (c as int - '0' as int) as nat
}

/// The number written by a sequence of decimal digits (0 for the empty sequence).
pub open spec fn digits_value(s: Seq<char>) -> nat
    decreases s.len(),
{
    if s.len() == 0 {
        0
    } else {
        digits_value(s.drop_last()) * 10 + digit_value(s.last())
    }
}

pub open spec fn pow10(n: nat) -> nat
    decreases n,
{
    if n == 0 {
        1
    } else {
        10 * pow10((n - 1) as nat)
    }
}

/// The character of a digit 0..9.
pub open spec fn digit_char(d: nat) -> char {
    if d == 0 { '0' }
    else if d == 1 { '1' }
    else if d == 2 { '2' }
    else if d == 3 { '3' }
    else if d == 4 { '4' }
    else if d == 5 { '5' }
    else if d == 6 { '6' }
    else if d == 7 { '7' }
    else if d == 8 { '8' }
    else { '9' }
}

/// The shortest decimal writing of `n` ("0" for zero).
pub open spec fn nat_digits(n: nat) -> Seq<char>
    decreases n,
{
    if n < 10 {
        seq![digit_char(n)]
    } else {
        nat_digits(n / 10).push(digit_char(n % 10))
    }
}

/// `n` written with at least `width` digits, padded on the left with zeros.
pub open spec fn padded_digits(n: nat, width: nat) -> Seq<char> {
    let d = nat_digits(n);
    if d.len() < width {
        Seq::new((width - d.len()) as nat, |i: int| '0') + d
    } else {
        d
    }
}

/// The decimal writing of a signed integer, with a leading '-' when negative.
pub open spec fn int_digits(n: int) -> Seq<char> {
    if n < 0 {
        seq!['-'] + nat_digits((-n) as nat)
    } else {
        nat_digits(n as nat)
    }
}

pub fn digit_to_char(d: u64) -> (c: char)
    requires
        d < 10,
    ensures
        c == digit_char(d as nat),
{
    if d == 0 { '0' }
    else if d == 1 { '1' }
    else if d == 2 { '2' }
    else if d == 3 { '3' }
    else if d == 4 { '4' }
    else if d == 5 { '5' }
    else if d == 6 { '6' }
    else if d == 7 { '7' }
    else if d == 8 { '8' }
    else { '9' }
}

/// Appends the decimal writing of `n` to `out`.
pub fn push_u64_digits(out: &mut Vec<char>, n: u64)
    ensures
        final(out)@ == old(out)@ + nat_digits(n as nat),
    decreases n,
{
    if n >= 10 {
        push_u64_digits(out, n / 10);
    }
    let c = digit_to_char(n % 10);
    out.push(c);
    proof {
        if n >= 10 {
            assert(nat_digits(n as nat) == nat_digits((n / 10) as nat).push(digit_char((n % 10) as nat)));
        }
    }
}

/// Appends the decimal writing of a `u128`.
pub fn push_u128_digits(out: &mut Vec<char>, n: u128)
    ensures
        final(out)@ == old(out)@ + nat_digits(n as nat),
    decreases n,
{
    if n >= 10 {
        push_u128_digits(out, n / 10);
    }
    let c = digit_to_char((n % 10) as u64);
    out.push(c);
    proof {
        if n >= 10 {
            assert(nat_digits(n as nat) == nat_digits((n / 10) as nat).push(digit_char((n % 10) as nat)));
        }
    }
}

/// Appends `n` padded with zeros on the left to at least `width` digits.
pub fn push_u64_padded(out: &mut Vec<char>, n: u64, width: usize)
    ensures
        final(out)@ == old(out)@ + padded_digits(n as nat, width as nat),
{
    let mut digits: Vec<char> = Vec::new();
    push_u64_digits(&mut digits, n);
    assert(digits@ == nat_digits(n as nat));
    let ghost start = out@;
    if digits.len() < width {
        let pad = width - digits.len();
        let mut i: usize = 0;
        while i < pad
            invariant
                i <= pad,
                out@ == start + Seq::new(i as nat, |k: int| '0'),
            decreases pad - i,
        {
            out.push('0');
            i = i + 1;
            assert(start + Seq::new(i as nat, |k: int| '0') =~= (start + Seq::new((i - 1) as nat, |k: int| '0')).push('0'));
        }
    }
    crate::text::push_all(out, &digits);
    assert(out@ =~= start + padded_digits(n as nat, width as nat));
}

/// Appends the decimal writing of a signed integer.
pub fn push_i64_digits(out: &mut Vec<char>, n: i64)
    ensures
        final(out)@ == old(out)@ + int_digits(n as int),
{
    if n < 0 {
        out.push('-');
        let m: u64 = if n == i64::MIN {
            9223372036854775808u64
        } else {
            (-n) as u64
        };
        assert(m as int == -(n as int));
        push_u64_digits(out, m);
        assert(out@ =~= old(out)@ + int_digits(n as int));
    } else {
        push_u64_digits(out, n as u64);
    }
}


/// The position of the first '.' in `s`, or its length when there is none.
pub open spec fn first_dot(s: Seq<char>) -> nat
    decreases s.len(),
{
    if s.len() == 0 {
        0
    } else if s[0] == '.' {
        0
    } else {
        1 + first_dot(s.drop_first())
    }
}

/// The digits before the first '.'.
pub open spec fn integer_part(s: Seq<char>) -> Seq<char> {
    s.take(first_dot(s) as int)
}

/// The characters after the first '.' (empty when there is no '.').
pub open spec fn fraction_part(s: Seq<char>) -> Seq<char> {
    if first_dot(s) < s.len() {
        s.skip(first_dot(s) as int + 1)
    } else {
        Seq::empty()
    }
}

/// The value, in units of 10^-8, of a decimal text `digits[.digits]` with at least one
/// digit before the point and at most eight after it; `None` for any other text.
pub open spec fn fixed8_text_value(s: Seq<char>) -> Option<nat> {
    let ip = integer_part(s);
    let fp = fraction_part(s);
    if ip.len() >= 1 && all_digits(ip) && all_digits(fp) && fp.len() <= 8 {
        Some(digits_value(ip) * pow10(8) + digits_value(fp) * pow10((8 - fp.len()) as nat))
    } else {
        None
    }
}

/// The reading of `s` in 10^-8 units when it is a number of at most `u64::MAX` units.
pub open spec fn parse_fixed8_spec(s: Seq<char>) -> Option<u64> {
    match decimal_reading(s) {
        DecimalReading::Units(u) => Some(u),
        _ => None,
    }
}

proof fn lemma_digits_value_take_step(s: Seq<char>, i: int)
    requires
        0 <= i < s.len(),
    ensures
        digits_value(s.take(i + 1)) == digits_value(s.take(i)) * 10 + digit_value(s[i]),
{
    assert(s.take(i + 1).drop_last() =~= s.take(i));
}

proof fn lemma_digits_value_prefix_le(s: Seq<char>, i: int)
    requires
        0 <= i <= s.len(),
    ensures
        digits_value(s.take(i)) <= digits_value(s),
    decreases s.len(),
{
    if i == s.len() {
        assert(s.take(i) =~= s);
    } else {
        let t = s.drop_last();
        lemma_digits_value_prefix_le(t, i);
        assert(t.take(i) =~= s.take(i));
    }
}

pub proof fn lemma_pow10_positive(n: nat)
    ensures
        pow10(n) >= 1,
    decreases n,
{
    if n > 0 {
        lemma_pow10_positive((n - 1) as nat);
    }
}

pub proof fn lemma_pow10_monotone(a: nat, b: nat)
    requires
        a <= b,
    ensures
        pow10(a) <= pow10(b),
    decreases b,
{
    if a < b {
        lemma_pow10_monotone(a, (b - 1) as nat);
        lemma_pow10_positive((b - 1) as nat);
    }
}

pub proof fn lemma_pow10_add(a: nat, b: nat)
    ensures
        pow10(a) * pow10(b) == pow10(a + b),
    decreases a,
{
    if a == 0 {
        assert(pow10(0) == 1);
        assert(a + b == b);
    } else {
        let p = pow10((a - 1) as nat);
        let q = pow10(b);
        lemma_pow10_add((a - 1) as nat, b);
        assert(p * q == pow10(((a - 1) as nat + b) as nat));
        assert(((a - 1) as nat + b) as nat == (a + b - 1) as nat);
        assert(pow10(a + b) == 10 * pow10((a + b - 1) as nat));
        assert(pow10(a) == 10 * p);
        assert((10 * p) * q == 10 * (p * q)) by (nonlinear_arith);
    }
}

pub proof fn lemma_digits_value_lt_pow10(s: Seq<char>)
    requires
        all_digits(s),
    ensures
        digits_value(s) < pow10(s.len()),
    decreases s.len(),
{
    if s.len() > 0 {
        let t = s.drop_last();
        assert(all_digits(t)) by {
            assert forall|i: int| 0 <= i < t.len() implies is_digit(#[trigger] t[i]) by {
                assert(t[i] == s[i]);
            }
        }
        lemma_digits_value_lt_pow10(t);
        assert(is_digit(s[s.len() - 1]));
        assert(digit_value(s.last()) < 10);
        assert(digits_value(t) * 10 + digit_value(s.last()) < pow10(t.len()) * 10) by (nonlinear_arith)
            requires digits_value(t) < pow10(t.len()), digit_value(s.last()) < 10;
        assert(pow10(s.len()) == 10 * pow10(t.len()));
    }
}

proof fn lemma_first_dot(s: Seq<char>, k: int)
    requires
        0 <= k <= s.len(),
        forall|j: int| 0 <= j < k ==> s[j] != '.',
        k < s.len() ==> s[k] == '.',
    ensures
        first_dot(s) == k,
    decreases s.len(),
{
    if s.len() > 0 && k > 0 {
        let t = s.drop_first();
        assert forall|j: int| 0 <= j < k - 1 implies t[j] != '.' by {
            assert(t[j] == s[j + 1]);
        }
        lemma_first_dot(t, k - 1);
    }
}


/// Reads a number text such as "42000.12" (in the grammar of `f64::from_str`) as a
/// count of 10^-8 units, rounded ties to even; `None` for anything else than a value
/// of at most `u64::MAX` units.
pub fn parse_fixed8(s: &str) -> (r: Option<u64>)
    ensures
        r == parse_fixed8_spec(s@),
{
    match read_decimal(s) {
        DecimalReading::Units(u) => Some(u),
        _ => None,
    }
}


/// `cents` written as units, a point and two digits.
pub open spec fn two_decimals_text(cents: nat) -> Seq<char> {
    nat_digits(cents / 100) + seq!['.'] + padded_digits(cents % 100, 2)
}

/// `n / d` rounded to the nearest integer, ties to the even one (as Rust's `{:.N}`
/// formatting rounds).
pub open spec fn div_round_half_even(n: nat, d: nat) -> nat {
    let q = n / d;
    let r = n % d;
    if 2 * r > d || (2 * r == d && q % 2 == 1) { q + 1 } else { q }
}

/// `div_round_half_even(n, d)` is a nearest integer to `n / d`: it is off by at most
/// half of `d`, and at exactly half it is even.
pub proof fn lemma_round_half_even_is_nearest(n: nat, d: nat)
    requires
        d > 0,
    ensures
        ({
            let r = div_round_half_even(n, d) as int;
            let off = n as int - r * d;
            &&& -(d as int) <= 2 * off <= d as int
            &&& (2 * off == d as int || 2 * off == -(d as int)) ==> r % 2 == 0
        }),
{
    let q = n / d;
    let rm = n % d;
    vstd::arithmetic::div_mod::lemma_fundamental_div_mod(n as int, d as int);
    assert(n as int == d * q + rm);
    assert(0 <= rm < d);
    if 2 * rm > d || (2 * rm == d && q % 2 == 1) {
        assert(n as int - (q + 1) * d == rm - d) by (nonlinear_arith)
            requires n as int == d * q + rm;
    } else {
        assert(n as int - q * d == rm) by (nonlinear_arith)
            requires n as int == d * q + rm;
    }
}

/// `n / d` rounded to the nearest integer, ties to even.
pub fn div_round_even(n: u128, d: u128) -> (r: u128)
    requires
        d > 0,
        n < u128::MAX,
    ensures
        r as nat == div_round_half_even(n as nat, d as nat),
        r <= n / d + 1,
{
    let q = n / d;
    let rem = n % d;
    if rem > d - rem || (rem == d - rem && q % 2 == 1) {
        proof {
            assert(q < u128::MAX) by (nonlinear_arith)
                requires q == n / d, d > 0, n < u128::MAX;
        }
        q + 1
    } else {
        q
    }
}

/// A fixed-point value (10^-8 units) rounded to hundredths, ties to even.
pub open spec fn rounded_cents(v: nat) -> nat {
    div_round_half_even(v, 1_000_000)
}

/// Appends `cents` as units, a point and two digits.
pub fn push_two_decimals(out: &mut Vec<char>, cents: u64)
    ensures
        final(out)@ == old(out)@ + two_decimals_text(cents as nat),
{
    push_u64_digits(out, cents / 100);
    out.push('.');
    push_u64_padded(out, cents % 100, 2);
    assert(out@ =~= old(out)@ + two_decimals_text(cents as nat));
}

/// Appends a fixed-point value with two decimals, rounded ties to even.
pub fn push_fixed8_2dp(out: &mut Vec<char>, v: u64)
    ensures
        final(out)@ == old(out)@ + two_decimals_text(rounded_cents(v as nat)),
{
    let c: u128 = div_round_even(v as u128, 1_000_000);
    push_two_decimals(out, c as u64);
}

/// A signed fixed-point value with two decimals: '-' then the rounded magnitude when
/// negative.
pub open spec fn signed_2dp_text(v: int) -> Seq<char> {
    if v < 0 {
        seq!['-'] + two_decimals_text(rounded_cents((-v) as nat))
    } else {
        two_decimals_text(rounded_cents(v as nat))
    }
}

pub fn push_signed_fixed8_2dp(out: &mut Vec<char>, v: i128)
    requires
        -(u64::MAX as int) <= v <= u64::MAX,
    ensures
        final(out)@ == old(out)@ + signed_2dp_text(v as int),
{
    if v < 0 {
        out.push('-');
        let m: u64 = (-v) as u64;
        push_fixed8_2dp(out, m);
        assert(out@ =~= old(out)@ + signed_2dp_text(v as int));
    } else {
        push_fixed8_2dp(out, v as u64);
    }
}

/// `s` without its trailing '0' characters.
pub open spec fn without_trailing_zeros(s: Seq<char>) -> Seq<char>
    decreases s.len(),
{
    if s.len() > 0 && s.last() == '0' {
        without_trailing_zeros(s.drop_last())
    } else {
        s
    }
}

/// A fixed-point value written like `f64`'s `Display`: the integer part, then, when
/// the fraction is not zero, a point and the fraction without trailing zeros.
pub open spec fn fixed8_plain_text(v: nat) -> Seq<char> {
    let int_part = v / 100_000_000;
    let frac = v % 100_000_000;
    if frac == 0 {
        nat_digits(int_part)
    } else {
        nat_digits(int_part) + seq!['.'] + without_trailing_zeros(padded_digits(frac, 8))
    }
}

pub fn push_fixed8_plain(out: &mut Vec<char>, v: u64)
    ensures
        final(out)@ == old(out)@ + fixed8_plain_text(v as nat),
{
    let int_part = v / 100_000_000;
    let frac = v % 100_000_000;
    push_u64_digits(out, int_part);
    if frac != 0 {
        out.push('.');
        let mut f: Vec<char> = Vec::new();
        push_u64_padded(&mut f, frac, 8);
        assert(f@ =~= padded_digits(frac as nat, 8));
        while f.len() > 0 && f[f.len() - 1] == '0'
            invariant
                without_trailing_zeros(f@) == without_trailing_zeros(padded_digits(frac as nat, 8)),
            decreases f.len(),
        {
            let ghost before = f@;
            f.pop();
            assert(f@ =~= before.drop_last());
        }
        crate::text::push_all(out, &f);
        assert(out@ =~= old(out)@ + fixed8_plain_text(v as nat));
    }
}


proof fn lemma_digit_char(d: nat)
    requires
        d < 10,
    ensures
        is_digit(digit_char(d)),
        digit_value(digit_char(d)) == d,
{
}

/// The shortest writing of `n` is made of digits, reads back as `n`, and has one
/// digit per power of ten up to `n`.
pub proof fn lemma_nat_digits(n: nat)
    ensures
        all_digits(nat_digits(n)),
        digits_value(nat_digits(n)) == n,
        nat_digits(n).len() >= 1,
        n < 10 ==> nat_digits(n).len() == 1,
        n < 100 ==> nat_digits(n).len() <= 2,
        n < 1000 ==> nat_digits(n).len() <= 3,
        n < 10000 ==> nat_digits(n).len() <= 4,
        nat_digits(n).len() == 1 ==> n < 10,
    decreases n,
{
    if n < 10 {
        lemma_digit_char(n);
        let s = nat_digits(n);
        assert(s.drop_last().len() == 0);
        assert(digits_value(s.drop_last()) == 0);
        assert(s.last() == digit_char(n));
    } else {
        lemma_nat_digits(n / 10);
        lemma_digit_char(n % 10);
        let t = nat_digits(n / 10);
        let s = t.push(digit_char(n % 10));
        assert(s.drop_last() =~= t);
        assert(nat_digits(n) == s);
        assert(digits_value(s) == digits_value(t) * 10 + digit_value(digit_char(n % 10)));
        assert(n == (n / 10) * 10 + n % 10);
        assert forall|i: int| 0 <= i < s.len() implies is_digit(#[trigger] s[i]) by {
            if i < t.len() {
                assert(s[i] == t[i]);
            }
        }
    }
}

/// A zero-padded writing is made of digits and reads back as the number.
pub proof fn lemma_padded_digits(n: nat, width: nat)
    ensures
        all_digits(padded_digits(n, width)),
        digits_value(padded_digits(n, width)) == n,
        padded_digits(n, width).len() >= width,
        nat_digits(n).len() <= width ==> padded_digits(n, width).len() == width,
{
    lemma_nat_digits(n);
    let d = nat_digits(n);
    if d.len() < width {
        let z = Seq::new((width - d.len()) as nat, |i: int| '0');
        lemma_zeros_then_digits(z, d);
    }
}

proof fn lemma_zeros_then_digits(z: Seq<char>, d: Seq<char>)
    requires
        forall|i: int| 0 <= i < z.len() ==> z[i] == '0',
        all_digits(d),
    ensures
        all_digits(z + d),
        digits_value(z + d) == digits_value(d),
    decreases z.len(),
{
    assert forall|i: int| 0 <= i < (z + d).len() implies is_digit(#[trigger] (z + d)[i]) by {
        if i < z.len() {
            assert((z + d)[i] == z[i]);
        } else {
            assert((z + d)[i] == d[i - z.len()]);
        }
    }
    if z.len() > 0 {
        let z2 = z.drop_first();
        lemma_zeros_then_digits(z2, d);
        lemma_leading_zero(z + d);
        assert((z + d).drop_first() =~= z2 + d);
    }
}

/// A leading zero does not change the value of a digit sequence.
proof fn lemma_leading_zero(s: Seq<char>)
    requires
        s.len() > 0,
        s[0] == '0',
    ensures
        digits_value(s) == digits_value(s.drop_first()),
    decreases s.len(),
{
    if s.len() == 1 {
        assert(s.drop_last().len() == 0);
        assert(digits_value(s.drop_last()) == 0);
        assert(s.drop_first().len() == 0);
        assert(digits_value(s.drop_first()) == 0);
        assert(s.last() == '0');
        assert(digit_value('0') == 0);
    } else {
        let t = s.drop_last();
        assert(t[0] == s[0]);
        lemma_leading_zero(t);
        let u = s.drop_first();
        assert(u.drop_last() =~= t.drop_first());
        assert(u.last() == s.last());
        assert(digits_value(u) == digits_value(u.drop_last()) * 10 + digit_value(u.last()));
        assert(digits_value(s) == digits_value(t) * 10 + digit_value(s.last()));
    }
}

/// Digit sequences of equal length and value are equal.
pub proof fn lemma_digits_injective(a: Seq<char>, b: Seq<char>)
    requires
        all_digits(a),
        all_digits(b),
        a.len() == b.len(),
        digits_value(a) == digits_value(b),
    ensures
        a == b,
    decreases a.len(),
{
    if a.len() > 0 {
        let ta = a.drop_last();
        let tb = b.drop_last();
        assert(is_digit(a[a.len() - 1]) && is_digit(b[b.len() - 1]));
        assert(all_digits(ta)) by {
            assert forall|i: int| 0 <= i < ta.len() implies is_digit(#[trigger] ta[i]) by { assert(ta[i] == a[i]); }
        }
        assert(all_digits(tb)) by {
            assert forall|i: int| 0 <= i < tb.len() implies is_digit(#[trigger] tb[i]) by { assert(tb[i] == b[i]); }
        }
        assert(digits_value(ta) == digits_value(tb) && digit_value(a.last()) == digit_value(b.last())) by (nonlinear_arith)
            requires
                digits_value(ta) * 10 + digit_value(a.last()) == digits_value(tb) * 10 + digit_value(b.last()),
                digit_value(a.last()) < 10,
                digit_value(b.last()) < 10;
        lemma_digits_injective(ta, tb);
        assert(a.last() == b.last());
        assert(a =~= ta.push(a.last()));
        assert(b =~= tb.push(b.last()));
    } else {
        assert(a =~= b);
    }
}


proof fn lemma_first_dot_none(s: Seq<char>)
    requires
        all_digits(s),
    ensures
        first_dot(s) == s.len(),
    decreases s.len(),
{
    if s.len() > 0 {
        assert(is_digit(s[0]));
        let t = s.drop_first();
        assert(all_digits(t)) by {
            assert forall|i: int| 0 <= i < t.len() implies is_digit(#[trigger] t[i]) by { assert(t[i] == s[i + 1]); }
        }
        lemma_first_dot_none(t);
    }
}

proof fn lemma_first_dot_after_digits(d: Seq<char>, rest: Seq<char>)
    requires
        all_digits(d),
        rest.len() > 0,
        rest[0] == '.',
    ensures
        first_dot(d + seq!['.'] + rest.drop_first()) == d.len(),
    decreases d.len(),
{
    let s = d + seq!['.'] + rest.drop_first();
    if d.len() == 0 {
        assert(s[0] == '.');
    } else {
        assert(is_digit(d[0]));
        assert(s[0] == d[0]);
        let t = d.drop_first();
        assert(all_digits(t)) by {
            assert forall|i: int| 0 <= i < t.len() implies is_digit(#[trigger] t[i]) by { assert(t[i] == d[i + 1]); }
        }
        lemma_first_dot_after_digits(t, rest);
        assert(s.drop_first() =~= t + seq!['.'] + rest.drop_first());
    }
}

proof fn lemma_trailing_zeros_value(s: Seq<char>)
    requires
        all_digits(s),
    ensures
        all_digits(without_trailing_zeros(s)),
        without_trailing_zeros(s).len() <= s.len(),
        digits_value(s) == digits_value(without_trailing_zeros(s)) * pow10((s.len() - without_trailing_zeros(s).len()) as nat),
    decreases s.len(),
{
    if s.len() > 0 && s.last() == '0' {
        let t = s.drop_last();
        assert(all_digits(t)) by {
            assert forall|i: int| 0 <= i < t.len() implies is_digit(#[trigger] t[i]) by { assert(t[i] == s[i]); }
        }
        lemma_trailing_zeros_value(t);
        let w = without_trailing_zeros(t);
        assert(without_trailing_zeros(s) == w);
        let k = (t.len() - w.len()) as nat;
        assert(digit_value('0') == 0);
        assert(digits_value(s) == digits_value(t) * 10 + digit_value(s.last()));
        assert(digits_value(s) == digits_value(t) * 10);
        assert(digits_value(t) == digits_value(w) * pow10(k));
        assert(pow10(k + 1) == 10 * pow10(k));
        assert(((s.len() - w.len()) as nat) == k + 1);
        assert(digits_value(w) * pow10(k) * 10 == digits_value(w) * (10 * pow10(k))) by (nonlinear_arith);
    } else {
        assert(without_trailing_zeros(s) == s);
        assert(pow10(0) == 1);
        assert(digits_value(s) == digits_value(s) * 1);
    }
}

/// Reading back what `fixed8_plain_text` writes gives the value written: the plain
/// writing of amounts and prices and the decimal reader agree.
pub proof fn lemma_plain_text_reads_back(v: u64)
    ensures
        parse_fixed8_spec(fixed8_plain_text(v as nat)) == Some(v),
{
    let ip = v as nat / 100_000_000;
    let fr = v as nat % 100_000_000;
    let d = nat_digits(ip);
    lemma_nat_digits(ip);
    reveal_with_fuel(pow10, 9);
    assert(pow10(8) == 100_000_000);
    let t = fixed8_plain_text(v as nat);
    if fr == 0 {
        lemma_first_dot_none(d);
        assert(integer_part(t) =~= d);
        assert(fraction_part(t) =~= Seq::<char>::empty());
        assert(digits_value(Seq::<char>::empty()) == 0);
        assert(fixed8_text_value(t) == Some(ip * pow10(8) + 0 * pow10(8)));
        assert(ip * 100_000_000 + fr == v as nat);
        assert forall|j: int| 0 <= j < t.len() implies t[j] != 'e' && t[j] != 'E' by {
            assert(is_digit(t[j]));
        }
        assert(is_digit(t[0]));
        lemma_simple_reading(t);
    } else {
        let p = padded_digits(fr, 8);
        lemma_nat_digits(fr);
        lemma_padded_digits(fr, 8);
        assert(nat_digits(fr).len() <= 8) by {
            lemma_nat_digits_len_bound_k(fr, 8);
        }
        assert(p.len() == 8);
        let w = without_trailing_zeros(p);
        lemma_trailing_zeros_value(p);
        let rest = seq!['.'] + w;
        assert(rest.drop_first() =~= w);
        lemma_first_dot_after_digits(d, rest);
        assert(t =~= d + seq!['.'] + rest.drop_first());
        assert(integer_part(t) =~= d);
        assert(fraction_part(t) =~= w);
        let k = (8 - w.len()) as nat;
        assert(digits_value(w) * pow10(k) == fr);
        assert(fixed8_text_value(t) == Some(ip * pow10(8) + digits_value(w) * pow10(k)));
        assert(ip * 100_000_000 + fr == v as nat);
        assert forall|j: int| 0 <= j < t.len() implies t[j] != 'e' && t[j] != 'E' by {
            if j < d.len() {
                assert(t[j] == d[j]);
                assert(is_digit(d[j]));
            } else if j > d.len() {
                assert(t[j] == w[j - d.len() - 1]);
                assert(is_digit(w[j - d.len() - 1]));
            }
        }
        assert(t[0] == d[0]);
        assert(is_digit(d[0]));
        lemma_simple_reading(t);
    }
}

proof fn lemma_nat_digits_len_bound_k(n: nat, k: nat)
    requires
        n < pow10(k),
        k >= 1,
    ensures
        nat_digits(n).len() <= k,
    decreases n,
{
    if n >= 10 {
        assert(k >= 2) by {
            if k == 1 {
                assert(pow10(1) == 10 * pow10(0));
                assert(pow10(0) == 1);
            }
        }
        assert(pow10(k) == 10 * pow10((k - 1) as nat));
        assert(n / 10 < pow10((k - 1) as nat));
        lemma_nat_digits_len_bound_k(n / 10, (k - 1) as nat);
    }
}


// ---- Numbers in the grammar of `f64::from_str` ----

/// How a text reads as a number in the grammar of `f64::from_str` (an optional sign,
/// then `inf`, `infinity` or `nan` in any case, or digits with an optional point and an
/// optional exponent), held in units of 10^-8 rounded ties to even.
#[derive(Clone, Copy, Debug, PartialEq, Eq)]
pub enum DecimalReading {
    /// Not a number text.
    Unreadable,
    /// `nan`.
    NotANumber,
    /// A negative value (that does not round to zero), or `-inf`.
    Negative,
    /// A positive value of more than `u64::MAX` units, or `inf`.
    TooLarge,
    /// A value of at most `u64::MAX` units (zero included).
    Units(u64),
}

/// The position of the first 'e' or 'E' in `s`, or its length when there is none.
pub open spec fn first_exp(s: Seq<char>) -> nat
    decreases s.len(),
{
    if s.len() == 0 {
        0
    } else if s[0] == 'e' || s[0] == 'E' {
        0
    } else {
        1 + first_exp(s.drop_first())
    }
}

/// 1 when the text starts with '+' or '-', else 0.
pub open spec fn sign_len(s: Seq<char>) -> int {
    if s.len() > 0 && (s[0] == '+' || s[0] == '-') { 1 } else { 0 }
}

/// The text without its sign.
pub open spec fn unsigned_part(s: Seq<char>) -> Seq<char> {
    s.skip(sign_len(s))
}

pub open spec fn negative_text(s: Seq<char>) -> bool {
    s.len() > 0 && s[0] == '-'
}

/// The part before the exponent mark.
pub open spec fn mantissa_part(b: Seq<char>) -> Seq<char> {
    b.take(first_exp(b) as int)
}

/// The exponent text after the mark, if there is a mark.
pub open spec fn exponent_part(b: Seq<char>) -> Option<Seq<char>> {
    if first_exp(b) < b.len() { Some(b.skip(first_exp(b) as int + 1)) } else { None }
}

/// An exponent is an optional sign followed by at least one digit.
pub open spec fn exponent_ok(e: Option<Seq<char>>) -> bool {
    match e {
        None => true,
        Some(t) => unsigned_part(t).len() >= 1 && all_digits(unsigned_part(t)),
    }
}

pub open spec fn exponent_value(e: Option<Seq<char>>) -> int {
    match e {
        None => 0,
        Some(t) => if negative_text(t) { -(digits_value(unsigned_part(t)) as int) } else { digits_value(unsigned_part(t)) as int },
    }
}

/// The digits of the mantissa, point removed.
pub open spec fn mantissa_digits(b: Seq<char>) -> Seq<char> {
    integer_part(mantissa_part(b)) + fraction_part(mantissa_part(b))
}

/// An unsigned number text: digits with at most one point and at least one digit,
/// then an optional exponent.
pub open spec fn number_text(b: Seq<char>) -> bool {
    let m = mantissa_part(b);
    &&& all_digits(integer_part(m))
    &&& all_digits(fraction_part(m))
    &&& integer_part(m).len() + fraction_part(m).len() >= 1
    &&& exponent_ok(exponent_part(b))
}

/// The power of ten that turns the mantissa digits into 10^-8 units.
pub open spec fn units_shift(b: Seq<char>) -> int {
    exponent_value(exponent_part(b)) - fraction_part(mantissa_part(b)).len() + 8
}

/// `n · 10^k`, rounded to an integer ties to even when `k` is negative.
pub open spec fn scaled_round(n: nat, k: int) -> nat {
    if k >= 0 { n * pow10(k as nat) } else { div_round_half_even(n, pow10((-k) as nat)) }
}

/// The value of an unsigned number text in 10^-8 units, rounded ties to even.
pub open spec fn number_units(b: Seq<char>) -> nat {
    scaled_round(digits_value(mantissa_digits(b)), units_shift(b))
}

/// How `f64::from_str` reads `s`, in 10^-8 units.
pub open spec fn decimal_reading(s: Seq<char>) -> DecimalReading {
    let b = unsigned_part(s);
    let lower = crate::text::ascii_lower_seq(b);
    if lower == "nan"@ {
        DecimalReading::NotANumber
    } else if lower == "inf"@ || lower == "infinity"@ {
        if negative_text(s) { DecimalReading::Negative } else { DecimalReading::TooLarge }
    } else if !number_text(b) {
        DecimalReading::Unreadable
    } else if number_units(b) == 0 {
        DecimalReading::Units(0)
    } else if negative_text(s) {
        DecimalReading::Negative
    } else if number_units(b) > u64::MAX {
        DecimalReading::TooLarge
    } else {
        DecimalReading::Units(number_units(b) as u64)
    }
}

/// The digits of `a` then `b` write `a · 10^|b| + b`.
pub proof fn lemma_digits_concat(a: Seq<char>, b: Seq<char>)
    ensures
        digits_value(a + b) == digits_value(a) * pow10(b.len()) + digits_value(b),
    decreases b.len(),
{
    if b.len() == 0 {
        assert(a + b =~= a);
        assert(digits_value(b) == 0);
        assert(pow10(b.len()) == 1);
        assert(digits_value(a) * 1 == digits_value(a));
        assert(digits_value(a + b) == digits_value(a) * pow10(b.len()) + digits_value(b));
    } else {
        let b1 = b.drop_last();
        lemma_digits_concat(a, b1);
        assert((a + b).drop_last() =~= a + b1);
        assert((a + b).last() == b.last());
        assert(pow10(b.len()) == 10 * pow10(b1.len()));
        let x = digits_value(a);
        let y = digits_value(b1);
        let p1 = pow10(b1.len());
        assert(digits_value(a + b) == digits_value(a + b1) * 10 + digit_value(b.last()));
        assert(digits_value(b) == y * 10 + digit_value(b.last()));
        assert((x * p1 + y) * 10 == x * (10 * p1) + y * 10) by (nonlinear_arith);
        assert(digits_value(a + b1) == x * p1 + y);
        assert(digits_value(a + b) == (x * p1 + y) * 10 + digit_value(b.last()));
        assert(digits_value(a + b) == x * pow10(b.len()) + digits_value(b));
    }
}

/// A single digit writes its value.
proof fn lemma_digits_single(c: char)
    ensures
        digits_value(seq![c]) == digit_value(c),
{
    assert(seq![c].drop_last() =~= Seq::<char>::empty());
    assert(digits_value(Seq::<char>::empty()) == 0);
    assert(seq![c].last() == c);
}

/// Splitting the digits at `c` splits the value into quotient and remainder by
/// `10^(len - c)`.
proof fn lemma_digits_split(d: Seq<char>, c: int)
    requires
        all_digits(d),
        0 <= c <= d.len(),
    ensures
        digits_value(d) / pow10((d.len() - c) as nat) == digits_value(d.take(c)),
        digits_value(d) % pow10((d.len() - c) as nat) == digits_value(d.skip(c)),
{
    let t = d.skip(c);
    assert(d =~= d.take(c) + t);
    lemma_digits_concat(d.take(c), t);
    assert(all_digits(t)) by {
        assert forall|i: int| 0 <= i < t.len() implies is_digit(#[trigger] t[i]) by {
            assert(t[i] == d[c + i]);
        }
    }
    lemma_digits_value_lt_pow10(t);
    lemma_pow10_positive(t.len());
    vstd::arithmetic::div_mod::lemma_fundamental_div_mod_converse(
        digits_value(d) as int, pow10(t.len()) as int, digits_value(d.take(c)) as int, digits_value(t) as int);
}

/// Rounding a number whose dropped digits are `d0` then `rest`: ties to even.
proof fn lemma_round_digits(q: nat, d0: nat, rest: nat, p: nat)
    requires
        d0 < 10,
        rest < p,
        p > 0,
    ensures
        div_round_half_even(q * (10 * p) + (d0 * p + rest), 10 * p)
            == q + (if d0 > 5 || (d0 == 5 && (rest > 0 || q % 2 == 1)) { 1nat } else { 0nat }),
{
    let x = q * (10 * p) + (d0 * p + rest);
    let r = d0 * p + rest;
    assert(r < 10 * p) by (nonlinear_arith)
        requires r == d0 * p + rest, d0 < 10, rest < p;
    vstd::arithmetic::div_mod::lemma_fundamental_div_mod_converse(x as int, (10 * p) as int, q as int, r as int);
    assert(2 * r > 10 * p <==> (d0 > 5 || (d0 == 5 && rest > 0))) by (nonlinear_arith)
        requires r == d0 * p + rest, rest < p, p > 0, d0 < 10;
    assert(2 * r == 10 * p <==> (d0 == 5 && rest == 0)) by (nonlinear_arith)
        requires r == d0 * p + rest, rest < p, p > 0, d0 < 10;
}

/// Rounding the value of digits `d` divided by `10^(len - c)`, ties to even, read from
/// the digits: the kept digits, then the first dropped digit and the rest.
proof fn lemma_scaled_round_digits(d: Seq<char>, c: int)
    requires
        all_digits(d),
        0 <= c < d.len(),
    ensures
        ({
            let q = digits_value(d.take(c));
            let d0 = digit_value(d[c]);
            let rest = digits_value(d.skip(c + 1));
            div_round_half_even(digits_value(d), pow10((d.len() - c) as nat))
                == q + (if d0 > 5 || (d0 == 5 && (rest > 0 || q % 2 == 1)) { 1nat } else { 0nat })
        }),
{
    let m = (d.len() - c) as nat;
    let q = digits_value(d.take(c));
    let t = d.skip(c);
    let tail = d.skip(c + 1);
    let p = pow10((m - 1) as nat);
    assert(d =~= d.take(c) + t);
    lemma_digits_concat(d.take(c), t);
    assert(t =~= seq![d[c]] + tail);
    lemma_digits_concat(seq![d[c]], tail);
    lemma_digits_single(d[c]);
    assert(all_digits(tail)) by {
        assert forall|i: int| 0 <= i < tail.len() implies is_digit(#[trigger] tail[i]) by {
            assert(tail[i] == d[c + 1 + i]);
        }
    }
    lemma_digits_value_lt_pow10(tail);
    assert(tail.len() == m - 1);
    assert(pow10(m) == 10 * p);
    assert(is_digit(d[c]));
    lemma_pow10_positive((m - 1) as nat);
    lemma_round_digits(q, digit_value(d[c]), digits_value(tail), p);
}

/// A value below `10^len` divided by `10^m` with `m > len` rounds to zero.
proof fn lemma_round_tiny(n: nat, len: nat, m: nat)
    requires
        n < pow10(len),
        m > len,
    ensures
        div_round_half_even(n, pow10(m)) == 0,
{
    lemma_pow10_monotone(len + 1, m);
    assert(pow10(len + 1) == 10 * pow10(len));
    vstd::arithmetic::div_mod::lemma_fundamental_div_mod_converse(n as int, pow10(m) as int, 0, n as int);
}

/// A positive value times `10^k` with `k >= 20` exceeds `u64::MAX`.
proof fn lemma_scaled_huge(n: nat, k: nat)
    requires
        n >= 1,
        k >= 20,
    ensures
        n * pow10(k) > u64::MAX,
{
    reveal_with_fuel(pow10, 21);
    assert(pow10(20) == 100_000_000_000_000_000_000);
    lemma_pow10_monotone(20, k);
    assert(n * pow10(k) >= pow10(k)) by (nonlinear_arith)
        requires n >= 1;
}

/// The value of digits `d[lo..hi]`, or `cap` when it is at least `cap`.
fn digits_value_capped(d: &Vec<char>, lo: usize, hi: usize, cap: u128) -> (r: u128)
    requires
        lo <= hi <= d.len(),
        all_digits(d@.subrange(lo as int, hi as int)),
        cap <= 0x10_0000_0000_0000_0000_0000_0000,
    ensures
        r as nat == (if digits_value(d@.subrange(lo as int, hi as int)) < cap { digits_value(d@.subrange(lo as int, hi as int)) } else { cap as nat }),
{
    let ghost sub = d@.subrange(lo as int, hi as int);
    let mut acc: u128 = 0;
    let mut i: usize = lo;
    assert(sub.take(0) =~= Seq::<char>::empty());
    assert(digits_value(Seq::<char>::empty()) == 0);
    while i < hi
        invariant
            lo <= i <= hi <= d.len(),
            sub == d@.subrange(lo as int, hi as int),
            all_digits(sub),
            cap <= 0x10_0000_0000_0000_0000_0000_0000,
            acc as nat == (if digits_value(sub.take(i - lo)) < cap { digits_value(sub.take(i - lo)) } else { cap as nat }),
        decreases hi - i,
    {
        let c = d[i];
        proof {
            lemma_digits_value_take_step(sub, i - lo);
            assert(sub[i - lo] == c);
            assert(is_digit(sub[i - lo]));
        }
        let dg: u128 = (c as u32 - '0' as u32) as u128;
        if acc < cap {
            let next: u128 = acc * 10 + dg;
            acc = if next < cap { next } else { cap };
        }
        i = i + 1;
    }
    assert(sub.take(hi - lo) =~= sub);
    acc
}

/// Whether digits `d[lo..hi]` write a positive value.
fn digits_nonzero(d: &Vec<char>, lo: usize, hi: usize) -> (r: bool)
    requires
        lo <= hi <= d.len(),
        all_digits(d@.subrange(lo as int, hi as int)),
    ensures
        r == (digits_value(d@.subrange(lo as int, hi as int)) > 0),
{
    let ghost sub = d@.subrange(lo as int, hi as int);
    let mut found = false;
    let mut i: usize = lo;
    assert(sub.take(0) =~= Seq::<char>::empty());
    assert(digits_value(Seq::<char>::empty()) == 0);
    while i < hi
        invariant
            lo <= i <= hi <= d.len(),
            sub == d@.subrange(lo as int, hi as int),
            all_digits(sub),
            found == (digits_value(sub.take(i - lo)) > 0),
        decreases hi - i,
    {
        proof {
            lemma_digits_value_take_step(sub, i - lo);
            assert(sub[i - lo] == d@[i as int]);
        }
        if d[i] != '0' {
            found = true;
        }
        i = i + 1;
    }
    assert(sub.take(hi - lo) =~= sub);
    found
}

/// `10^k` for `k <= 19`.
fn pow10_exec(k: u32) -> (r: u128)
    requires
        k <= 19,
    ensures
        r as nat == pow10(k as nat),
        r <= 10_000_000_000_000_000_000,
{
    let mut p: u128 = 1;
    let mut j: u32 = 0;
    while j < k
        invariant
            j <= k <= 19,
            p as nat == pow10(j as nat),
            p <= 10_000_000_000_000_000_000,
        decreases k - j,
    {
        proof {
            lemma_pow10_monotone((j + 1) as nat, 19);
            reveal_with_fuel(pow10, 20);
            assert(pow10(19) == 10_000_000_000_000_000_000);
        }
        p = p * 10;
        j = j + 1;
    }
    p
}

/// The value of the digits `d` times `10^k`, rounded ties to even when `k` is
/// negative; `None` when it exceeds `u64::MAX`.
fn scaled_round_exec(d: &Vec<char>, k: i128) -> (r: Option<u64>)
    requires
        all_digits(d@),
        -0x100_0000_0000_0000_0000_0000_0000 <= k <= 0x100_0000_0000_0000_0000_0000_0000,
    ensures
        r == (if scaled_round(digits_value(d@), k as int) <= u64::MAX {
            Some(scaled_round(digits_value(d@), k as int) as u64)
        } else {
            None::<u64>
        }),
{
    let len = d.len();
    assert(d@.subrange(0, len as int) =~= d@);
    let ghost n_ghost = digits_value(d@);
    if k >= 0 {
        if !digits_nonzero(d, 0, len) {
            assert(n_ghost == 0);
            assert(scaled_round(0, k as int) == 0 * pow10(k as nat));
            return Some(0);
        }
        if k > 19 {
            proof { lemma_scaled_huge(n_ghost, k as nat); }
            return None;
        }
        let n = digits_value_capped(d, 0, len, 0x1_0000_0000_0000_0000);
        if n > u64::MAX as u128 {
            proof {
                lemma_pow10_positive(k as nat);
                assert(n_ghost * pow10(k as nat) >= n_ghost) by (nonlinear_arith)
                    requires pow10(k as nat) >= 1;
            }
            return None;
        }
        let p = pow10_exec(k as u32);
        proof {
            assert(n * p <= 0xFFFF_FFFF_FFFF_FFFF * 10_000_000_000_000_000_000) by (nonlinear_arith)
                requires n <= 0xFFFF_FFFF_FFFF_FFFF, p <= 10_000_000_000_000_000_000;
        }
        let prod: u128 = n * p;
        if prod > u64::MAX as u128 {
            None
        } else {
            Some(prod as u64)
        }
    } else {
        let m: i128 = -k;
        let cut: i128 = len as i128 - m;
        if cut < 0 {
            proof {
                lemma_digits_value_lt_pow10(d@);
                lemma_round_tiny(n_ghost, len as nat, m as nat);
            }
            return Some(0);
        }
        let c: usize = cut as usize;
        assert(d@.take(c as int) =~= d@.subrange(0, c as int));
        assert(all_digits(d@.subrange(0, c as int))) by {
            assert forall|i: int| 0 <= i < c implies is_digit(#[trigger] d@.subrange(0, c as int)[i]) by {
                assert(d@.subrange(0, c as int)[i] == d@[i]);
            }
        }
        assert(all_digits(d@.subrange(c + 1, len as int))) by {
            assert forall|i: int| 0 <= i < len - c - 1 implies is_digit(#[trigger] d@.subrange(c + 1, len as int)[i]) by {
                assert(d@.subrange(c + 1, len as int)[i] == d@[c + 1 + i]);
            }
        }
        assert(d@.skip(c + 1) =~= d@.subrange(c + 1, len as int));
        proof { lemma_scaled_round_digits(d@, c as int); }
        let q = digits_value_capped(d, 0, c, 0x1_0000_0000_0000_0000);
        if q > u64::MAX as u128 {
            return None;
        }
        let d0: u32 = d[c] as u32 - '0' as u32;
        assert(is_digit(d@[c as int]));
        let rest_nonzero = digits_nonzero(d, c + 1, len);
        let up = d0 > 5 || (d0 == 5 && (rest_nonzero || q % 2 == 1));
        let units: u128 = if up { q + 1 } else { q };
        if units > u64::MAX as u128 {
            None
        } else {
            Some(units as u64)
        }
    }
}

proof fn lemma_first_exp(s: Seq<char>, k: int)
    requires
        0 <= k <= s.len(),
        forall|j: int| 0 <= j < k ==> s[j] != 'e' && s[j] != 'E',
        k < s.len() ==> (s[k] == 'e' || s[k] == 'E'),
    ensures
        first_exp(s) == k,
    decreases s.len(),
{
    if s.len() > 0 && k > 0 {
        let t = s.drop_first();
        assert forall|j: int| 0 <= j < k - 1 implies t[j] != 'e' && t[j] != 'E' by {
            assert(t[j] == s[j + 1]);
        }
        lemma_first_exp(t, k - 1);
    }
}

/// Appends `v[lo..hi]` to `out`.
fn push_range(out: &mut Vec<char>, v: &Vec<char>, lo: usize, hi: usize)
    requires
        lo <= hi <= v.len(),
    ensures
        final(out)@ == old(out)@ + v@.subrange(lo as int, hi as int),
{
    let mut i: usize = lo;
    while i < hi
        invariant
            lo <= i <= hi <= v.len(),
            out@ == old(out)@ + v@.subrange(lo as int, i as int),
        decreases hi - i,
    {
        out.push(v[i]);
        i = i + 1;
        assert(out@ =~= old(out)@ + v@.subrange(lo as int, i as int));
    }
}

/// Whether `v[lo..hi]` is made of digits only.
fn all_digits_in(v: &Vec<char>, lo: usize, hi: usize) -> (r: bool)
    requires
        lo <= hi <= v.len(),
    ensures
        r == all_digits(v@.subrange(lo as int, hi as int)),
{
    let mut i: usize = lo;
    while i < hi
        invariant
            lo <= i <= hi <= v.len(),
            forall|j: int| lo <= j < i ==> is_digit(#[trigger] v@[j]),
        decreases hi - i,
    {
        if !('0' <= v[i] && v[i] <= '9') {
            assert(!is_digit(v@.subrange(lo as int, hi as int)[i - lo]));
            return false;
        }
        i = i + 1;
    }
    assert forall|j: int| 0 <= j < hi - lo implies is_digit(#[trigger] v@.subrange(lo as int, hi as int)[j]) by {
        assert(v@.subrange(lo as int, hi as int)[j] == v@[lo + j]);
    }
    true
}

/// Exponents at or above this magnitude make every nonzero value too large and every
/// value rounded to zero, whatever the length of the text.
pub const EXPONENT_CAP: u128 = 0x1_0000_0000_0000_0000_0000_0000;

/// The parts of an unsigned number text: its mantissa digits, whether the exponent is
/// negative, its magnitude (capped at `EXPONENT_CAP`) and the count of fraction
/// digits; `None` when the text is not a number text.
fn number_parts(body: &Vec<char>) -> (r: Option<(Vec<char>, bool, u128, usize)>)
    ensures
        r is Some <==> number_text(body@),
        r matches Some(t) ==> {
            let ev = exponent_value(exponent_part(body@));
            &&& t.0@ == mantissa_digits(body@)
            &&& all_digits(t.0@)
            &&& t.3 == fraction_part(mantissa_part(body@)).len()
            &&& t.2 <= EXPONENT_CAP
            &&& (t.2 < EXPONENT_CAP ==> ev == (if t.1 { -(t.2 as int) } else { t.2 as int }))
            &&& (t.2 == EXPONENT_CAP ==> (if t.1 { ev <= -(EXPONENT_CAP as int) } else { ev >= EXPONENT_CAP as int }))
        },
{
    let ghost b = body@;
    let bl = body.len();
    let mut e: usize = 0;
    while e < bl && body[e] != 'e' && body[e] != 'E'
        invariant
            e <= bl == body.len(),
            forall|j: int| 0 <= j < e ==> body@[j] != 'e' && body@[j] != 'E',
        decreases bl - e,
    {
        e = e + 1;
    }
    proof { lemma_first_exp(b, e as int); }
    let ghost m = mantissa_part(b);
    assert(m =~= body@.subrange(0, e as int));
    let mut dpos: usize = 0;
    while dpos < e && body[dpos] != '.'
        invariant
            dpos <= e <= bl == body.len(),
            forall|j: int| 0 <= j < dpos ==> body@[j] != '.',
        decreases e - dpos,
    {
        dpos = dpos + 1;
    }
    proof { lemma_first_dot(m, dpos as int); }
    let fstart: usize = if dpos < e { dpos + 1 } else { e };
    assert(integer_part(m) =~= body@.subrange(0, dpos as int));
    assert(fraction_part(m) =~= body@.subrange(fstart as int, e as int));
    if !all_digits_in(body, 0, dpos) || !all_digits_in(body, fstart, e) || dpos + (e - fstart) == 0 {
        return None;
    }
    let mut exp_neg = false;
    let mut exp_mag: u128 = 0;
    if e < bl {
        let t0 = e + 1;
        let ghost t = b.skip(t0 as int);
        assert(exponent_part(b) == Some(t));
        let tsl: usize = if t0 < bl && (body[t0] == '+' || body[t0] == '-') { 1 } else { 0 };
        exp_neg = t0 < bl && body[t0] == '-';
        let ds = t0 + tsl;
        assert(unsigned_part(t) =~= body@.subrange(ds as int, bl as int));
        if ds >= bl || !all_digits_in(body, ds, bl) {
            return None;
        }
        exp_mag = digits_value_capped(body, ds, bl, EXPONENT_CAP);
    } else {
        assert(exponent_part(b) is None);
    }
    let mut dg: Vec<char> = Vec::new();
    push_range(&mut dg, body, 0, dpos);
    push_range(&mut dg, body, fstart, e);
    assert(dg@ =~= mantissa_digits(b));
    assert(all_digits(dg@)) by {
        assert forall|i: int| 0 <= i < dg@.len() implies is_digit(#[trigger] dg@[i]) by {
            if i < dpos {
                assert(dg@[i] == body@.subrange(0, dpos as int)[i]);
            } else {
                assert(dg@[i] == body@.subrange(fstart as int, e as int)[i - dpos]);
            }
        }
    }
    Some((dg, exp_neg, exp_mag, e - fstart))
}

/// The value in 10^-8 units of an unsigned number text given by its parts; `None`
/// when it exceeds `u64::MAX`.
fn units_of_parts(dg: &Vec<char>, exp_neg: bool, exp_mag: u128, flen: usize, b: Ghost<Seq<char>>) -> (r: Option<u64>)
    requires
        number_text(b@),
        dg@ == mantissa_digits(b@),
        all_digits(dg@),
        flen == fraction_part(mantissa_part(b@)).len(),
        exp_mag <= EXPONENT_CAP,
        exp_mag < EXPONENT_CAP ==> exponent_value(exponent_part(b@)) == (if exp_neg { -(exp_mag as int) } else { exp_mag as int }),
        exp_mag == EXPONENT_CAP ==> (if exp_neg { exponent_value(exponent_part(b@)) <= -(EXPONENT_CAP as int) }
            else { exponent_value(exponent_part(b@)) >= EXPONENT_CAP as int }),
    ensures
        r == (if number_units(b@) <= u64::MAX { Some(number_units(b@) as u64) } else { None::<u64> }),
{
    if exp_mag == EXPONENT_CAP {
        if exp_neg {
            proof {
                assert(dg@.len() == dg.len() && dg.len() <= usize::MAX);
                assert(usize::MAX < 0x1_0000_0000_0000_0000);
                assert(-units_shift(b@) >= EXPONENT_CAP - 8);
                lemma_digits_value_lt_pow10(dg@);
                lemma_round_tiny(digits_value(dg@), dg@.len(), (-units_shift(b@)) as nat);
            }
            Some(0)
        } else if !digits_nonzero(dg, 0, dg.len()) {
            assert(dg@.subrange(0, dg.len() as int) =~= dg@);
            assert(number_units(b@) == 0 * pow10(units_shift(b@) as nat));
            Some(0)
        } else {
            assert(dg@.subrange(0, dg.len() as int) =~= dg@);
            proof { lemma_scaled_huge(digits_value(dg@), units_shift(b@) as nat); }
            None
        }
    } else {
        let k: i128 = (if exp_neg { -(exp_mag as i128) } else { exp_mag as i128 }) - flen as i128 + 8;
        assert(k == units_shift(b@));
        scaled_round_exec(dg, k)
    }
}

/// Reads a text as `f64::from_str` does, in 10^-8 units rounded ties to even.
pub fn read_decimal(s: &str) -> (r: DecimalReading)
    ensures
        r == decimal_reading(s@),
{
    let v = chars_of(s);
    let n = v.len();
    let sl: usize = if n > 0 && (v[0] == '+' || v[0] == '-') { 1 } else { 0 };
    let neg = n > 0 && v[0] == '-';
    let mut body: Vec<char> = Vec::new();
    push_range(&mut body, &v, sl, n);
    assert(body@ =~= unsigned_part(s@));
    let lower = to_ascii_lower(&body);
    if chars_eq(&lower, &chars_of("nan")) {
        return DecimalReading::NotANumber;
    }
    if chars_eq(&lower, &chars_of("inf")) || chars_eq(&lower, &chars_of("infinity")) {
        return if neg { DecimalReading::Negative } else { DecimalReading::TooLarge };
    }
    let (dg, exp_neg, exp_mag, flen) = match number_parts(&body) {
        Some(t) => t,
        None => return DecimalReading::Unreadable,
    };
    let units = units_of_parts(&dg, exp_neg, exp_mag, flen, Ghost(body@));
    match units {
        Some(0) => DecimalReading::Units(0),
        Some(u) => if neg { DecimalReading::Negative } else { DecimalReading::Units(u) },
        None => if neg { DecimalReading::Negative } else { DecimalReading::TooLarge },
    }
}

/// A plain decimal text `digits[.digits]` (at most eight decimals) reads as the number
/// it writes.
proof fn lemma_simple_reading(s: Seq<char>)
    requires
        s.len() > 0,
        is_digit(s[0]),
        forall|j: int| 0 <= j < s.len() ==> s[j] != 'e' && s[j] != 'E',
        fixed8_text_value(s) is Some,
        fixed8_text_value(s)->0 <= u64::MAX,
    ensures
        decimal_reading(s) == DecimalReading::Units(fixed8_text_value(s)->0 as u64),
{
    let x = fixed8_text_value(s)->0;
    assert(sign_len(s) == 0);
    assert(unsigned_part(s) =~= s);
    let lower = crate::text::ascii_lower_seq(s);
    assert(lower[0] == s[0]);
    reveal_strlit("nan");
    reveal_strlit("inf");
    reveal_strlit("infinity");
    assert(lower != "nan"@);
    assert(lower != "inf"@);
    assert(lower != "infinity"@);
    lemma_first_exp(s, s.len() as int);
    assert(mantissa_part(s) =~= s);
    assert(exponent_part(s) is None);
    let ip = integer_part(s);
    let fp = fraction_part(s);
    assert(number_text(s));
    let f = fp.len();
    assert(units_shift(s) == 8 - f);
    lemma_digits_concat(ip, fp);
    lemma_pow10_add(f, (8 - f) as nat);
    let a = digits_value(ip);
    let c = digits_value(fp);
    assert((a * pow10(f) + c) * pow10((8 - f) as nat) == a * (pow10(f) * pow10((8 - f) as nat)) + c * pow10((8 - f) as nat))
        by (nonlinear_arith);
    assert(number_units(s) == x);
}

} // verus!
