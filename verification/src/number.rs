//! Numbers as the controller protocols write them: decimal tokens such as
//! `-5.25`, unsigned and signed integer tokens, and fixed-point rendering.
//!
//! A [`Decimal`] is the exact value of a decimal token, kept in canonical form
//! (no trailing zero after the point), so that two decimals are equal exactly
//! when they denote the same number.
use vstd::prelude::*;
use crate::text::{
    all_digits, digit_class, digits_value, find, find_byte, integer_class, is_digit,
    lemma_digits_value_bound, lemma_digits_value_prefix_monotone, lemma_digits_value_step,
    lemma_digits_value_concat, lemma_find_byte_props, lemma_nat_text_digits, lemma_nat_text_len,
    lemma_padded_digits, lemma_padded_shift, lemma_pow10_38, lemma_pow10_add,
    lemma_pow10_monotone, lemma_pow10_positive, lemma_run_len_props, nat_text, number_class,
    padded_text, pow10, pow10_u128, push_all, push_nat_text, push_padded_text, push_zeros,
    run_len, scan_run, zeros,
};

verus! {

/// The number `mantissa / 10^exponent`.
#[derive(Clone, Copy, Debug, PartialEq, Eq, Structural)]
pub struct Decimal {
    pub mantissa: i128,
    pub exponent: u32,
}

/// Most digits a decimal token may hold.
pub const MAX_DECIMAL_DIGITS: usize = 17;

pub open spec fn abs(x: int) -> nat {
    if x < 0 {
        (-x) as nat
    } else {
        x as nat
    }
}

/// `mag / 10^e` with trailing zero digits after the point removed.
pub open spec fn canonical(mag: nat, e: nat) -> (nat, nat)
    decreases e,
{
    if e > 0 && mag % 10 == 0 {
        canonical(mag / 10, (e - 1) as nat)
    } else {
        (mag, e)
    }
}

/// The canonical decimal with sign `neg`, magnitude `mag` and exponent `e`.
pub open spec fn make_decimal(neg: bool, mag: nat, e: nat) -> Decimal {
    let c = canonical(mag, e);
    Decimal {
        mantissa: (if neg {
            -(c.0 as int)
        } else {
            c.0 as int
        }) as i128,
        exponent: c.1 as u32,
    }
}

/// The canonical decimal for the integer `v / 10^e`.
pub open spec fn decimal_of_int(v: int, e: nat) -> Decimal {
    make_decimal(v < 0, abs(v), e)
}

pub proof fn lemma_canonical_bounds(mag: nat, e: nat)
    ensures
        canonical(mag, e).0 <= mag,
        canonical(mag, e).1 <= e,
    decreases e,
{
    if e > 0 && mag % 10 == 0 {
        lemma_canonical_bounds(mag / 10, (e - 1) as nat);
    }
}

impl Decimal {
    /// A decimal is in canonical form: zero has exponent zero and no other
    /// value ends in a zero digit after the point.
    pub open spec fn is_canonical(self) -> bool {
        self.exponent == 0 || self.mantissa % 10 != 0
    }

    /// Bound on decimals produced by parsing a token: at most 17 digits.
    pub open spec fn is_token_sized(self) -> bool {
        abs(self.mantissa as int) < pow10(17) && self.exponent <= 17
    }
}

/// The decimal written by the token `t`: an optional `-`, then digits with at
/// most one `.`, at least one and at most 17 digits in all.
pub open spec fn decimal_token(t: Seq<u8>) -> Option<Decimal> {
    decimal_token_within(t, 17)
}

/// The decimal written by the token `t` when a token may hold at most `max`
/// digits.
pub open spec fn decimal_token_within(t: Seq<u8>, max: nat) -> Option<Decimal> {
    let neg = t.len() > 0 && t[0] == 45;
    let body = if neg {
        t.drop_first()
    } else {
        t
    };
    let int_part = match find_byte(body, 46) {
        Some(k) => body.take(k as int),
        None => body,
    };
    let frac = match find_byte(body, 46) {
        Some(k) => body.skip(k + 1 as int),
        None => Seq::<u8>::empty(),
    };
    if all_digits(int_part) && all_digits(frac) && int_part.len() + frac.len() >= 1
        && int_part.len() + frac.len() <= max {
        Some(make_decimal(neg, digits_value(int_part + frac), frac.len()))
    } else {
        None
    }
}

/// The longest run of number characters at the start of `s`, read as a
/// decimal; the second component is the number of bytes consumed.
pub open spec fn decimal_prefix(s: Seq<u8>) -> Option<(Decimal, nat)> {
    decimal_prefix_within(s, 17)
}

/// The longest run of number characters at the start of `s`, read as a
/// decimal of at most `max` digits.
pub open spec fn decimal_prefix_within(s: Seq<u8>, max: nat) -> Option<(Decimal, nat)> {
    let n = run_len(s, number_class());
    match decimal_token_within(s.take(n as int), max) {
        Some(d) => Some((d, n)),
        None => None,
    }
}

/// The longest run of digits at the start of `s`, read as a `u64`.
pub open spec fn u64_prefix(s: Seq<u8>) -> Option<(u64, nat)> {
    let n = run_len(s, digit_class());
    let v = digits_value(s.take(n as int));
    if n >= 1 && v <= u64::MAX {
        Some((v as u64, n))
    } else {
        None
    }
}

/// The value of an integer token: an optional `-` followed by at least one digit.
pub open spec fn integer_token(t: Seq<u8>) -> Option<int> {
    let neg = t.len() > 0 && t[0] == 45;
    let body = if neg {
        t.drop_first()
    } else {
        t
    };
    if body.len() >= 1 && all_digits(body) {
        Some(
            if neg {
                -(digits_value(body) as int)
            } else {
                digits_value(body) as int
            },
        )
    } else {
        None
    }
}

/// The longest run of integer characters at the start of `s`, read as an `i64`.
pub open spec fn i64_prefix(s: Seq<u8>) -> Option<(i64, nat)> {
    let n = run_len(s, integer_class());
    match integer_token(s.take(n as int)) {
        Some(v) => if i64::MIN <= v <= i64::MAX {
            Some((v as i64, n))
        } else {
            None
        },
        None => None,
    }
}

/// Magnitude of a mantissa.
pub fn magnitude(m: i128) -> (r: u128)
    ensures
        r == abs(m as int),
{
    if m < 0 {
        ((-(m + 1)) as u128) + 1
    } else {
        m as u128
    }
}

/// Removes trailing zero digits after the point.
pub fn canonicalize(mag: u128, e: u32) -> (r: (u128, u32))
    ensures
        r.0 as nat == canonical(mag as nat, e as nat).0,
        r.1 as nat == canonical(mag as nat, e as nat).1,
{
    let mut m = mag;
    let mut k = e;
    while k > 0 && m % 10 == 0
        invariant
            canonical(m as nat, k as nat) == canonical(mag as nat, e as nat),
        decreases k,
    {
        m = m / 10;
        k = k - 1;
    }
    (m, k)
}

/// Builds the canonical decimal for sign `neg`, magnitude `mag`, exponent `e`.
pub fn build_decimal(neg: bool, mag: u128, e: u32) -> (d: Decimal)
    requires
        mag < pow10(38),
    ensures
        d == make_decimal(neg, mag as nat, e as nat),
        d.is_canonical(),
{
    let (m, k) = canonicalize(mag, e);
    proof {
        lemma_canonical_bounds(mag as nat, e as nat);
        lemma_pow10_38();
        lemma_canonical_form(mag as nat, e as nat);
    }
    let mantissa: i128 = if neg {
        -(m as i128)
    } else {
        m as i128
    };
    let d = Decimal { mantissa, exponent: k };
    proof {
        if k != 0 {
            assert(m % 10 != 0);
            if neg {
                assert((-(m as int)) % 10 != 0) by {
                    if (-(m as int)) % 10 == 0 {
                        assert((m as int) == -(-(m as int)));
                        vstd::arithmetic::div_mod::lemma_mod_neg_neg(-(m as int), 10);
                    }
                }
            }
        }
    }
    d
}

pub proof fn lemma_canonical_form(mag: nat, e: nat)
    ensures
        canonical(mag, e).1 == 0 || canonical(mag, e).0 % 10 != 0,
    decreases e,
{
    if e > 0 && mag % 10 == 0 {
        lemma_canonical_form(mag / 10, (e - 1) as nat);
    }
}

/// Whether every byte of `s` is a digit.
pub fn check_all_digits(s: &[u8]) -> (b: bool)
    ensures
        b == all_digits(s@),
{
    let mut i: usize = 0;
    while i < s.len()
        invariant
            i <= s.len(),
            forall|j: int| 0 <= j < i ==> is_digit(#[trigger] s@[j]),
        decreases s.len() - i,
    {
        if !(48 <= s[i] && s[i] <= 57) {
            return false;
        }
        i = i + 1;
    }
    true
}

/// The value of a run of at most 38 digits.
fn wide_digits_value(s: &[u8]) -> (v: u128)
    requires
        all_digits(s@),
        s.len() <= 38,
    ensures
        v == digits_value(s@),
{
    let mut v: u128 = 0;
    let mut i: usize = 0;
    proof {
        lemma_pow10_38();
    }
    while i < s.len()
        invariant
            i <= s.len() <= 38,
            all_digits(s@),
            v == digits_value(s@.take(i as int)),
            pow10(38) == 100000000000000000000000000000000000000,
        decreases s.len() - i,
    {
        proof {
            lemma_digits_value_step(s@, i as int);
            let t = s@.take(i as int + 1);
            assert(all_digits(t)) by {
                assert forall|j: int| 0 <= j < t.len() implies is_digit(#[trigger] t[j]) by {
                    assert(t[j] == s@[j]);
                }
            }
            lemma_digits_value_bound(t);
            lemma_pow10_monotone((i + 1) as nat, 38);
            assert(is_digit(s@[i as int]));
        }
        v = v * 10 + (s[i] - 48) as u128;
        i = i + 1;
    }
    assert(s@.take(s.len() as int) =~= s@);
    v
}

/// Reads a decimal token.
pub fn parse_decimal_token(t: &[u8]) -> (r: Option<Decimal>)
    ensures
        r == decimal_token(t@),
        r matches Some(d) ==> d.is_canonical() && d.is_token_sized(),
{
    parse_decimal_token_within(t, MAX_DECIMAL_DIGITS)
}

/// Reads a decimal token of at most `max` digits.
pub fn parse_decimal_token_within(t: &[u8], max: usize) -> (r: Option<Decimal>)
    requires
        max <= 38,
    ensures
        r == decimal_token_within(t@, max as nat),
        r matches Some(d) ==> d.is_canonical() && abs(d.mantissa as int) < pow10(max as nat)
            && d.exponent <= max,
{
    let neg = t.len() > 0 && t[0] == 45;
    let start: usize = if neg {
        1
    } else {
        0
    };
    let body = &t[start..t.len()];
    assert(body@ == (if neg {
        t@.drop_first()
    } else {
        t@
    }));
    let dot = find(body, 46);
    proof {
        lemma_find_byte_props(body@, 46);
    }
    let ilen: usize = match dot {
        Some(k) => k,
        None => body.len(),
    };
    let fstart: usize = match dot {
        Some(k) => k + 1,
        None => body.len(),
    };
    proof {
        lemma_find_byte_props(body@, 46);
    }
    let int_part = &body[0..ilen];
    let frac = &body[fstart..body.len()];
    proof {
        match dot {
            Some(k) => {
                assert(int_part@ == body@.take(k as int));
                assert(frac@ == body@.skip(k + 1 as int));
            },
            None => {
                assert(int_part@ =~= body@);
                assert(frac@ =~= Seq::<u8>::empty());
            },
        }
    }
    if !check_all_digits(int_part) || !check_all_digits(frac) {
        return None;
    }
    let total = ilen + frac.len();
    if total == 0 || total > max {
        return None;
    }
    let mut digits: Vec<u8> = Vec::new();
    push_all(&mut digits, int_part);
    push_all(&mut digits, frac);
    proof {
        assert(digits@ == int_part@ + frac@);
        assert(all_digits(digits@)) by {
            assert forall|j: int| 0 <= j < digits@.len() implies is_digit(#[trigger] digits@[j]) by {
                if j < int_part@.len() {
                    assert(digits@[j] == int_part@[j]);
                } else {
                    assert(digits@[j] == frac@[j - int_part@.len()]);
                }
            }
        }
        lemma_digits_value_bound(digits@);
        lemma_pow10_monotone(digits@.len(), max as nat);
        lemma_pow10_38();
        lemma_pow10_monotone(max as nat, 38);
    }
    let v = wide_digits_value(digits.as_slice());
    let e = frac.len() as u32;
    let d = build_decimal(neg, v as u128, e);
    proof {
        lemma_canonical_bounds(v as nat, e as nat);
        let c = canonical(v as nat, e as nat);
        assert(c.0 < pow10(max as nat));
        if neg {
            assert(d.mantissa as int == -(c.0 as int));
        }
    }
    Some(d)
}

/// Reads the decimal at the start of `s`; returns it with the number of bytes read.
pub fn parse_decimal_prefix(s: &[u8]) -> (r: Option<(Decimal, usize)>)
    ensures
        match r {
            Some((d, n)) => decimal_prefix(s@) == Some((d, n as nat)) && d.is_canonical()
                && d.is_token_sized() && n <= s.len(),
            None => decimal_prefix(s@) is None,
        },
{
    let n = scan_run(s, 3);
    let tok = &s[0..n];
    match parse_decimal_token(tok) {
        Some(d) => Some((d, n)),
        None => None,
    }
}

/// Reads the decimal of at most `max` digits at the start of `s`; returns it
/// with the number of bytes read.
pub fn parse_decimal_prefix_within(s: &[u8], max: usize) -> (r: Option<(Decimal, usize)>)
    requires
        max <= 38,
    ensures
        match r {
            Some((d, n)) => decimal_prefix_within(s@, max as nat) == Some((d, n as nat))
                && d.is_canonical() && abs(d.mantissa as int) < pow10(max as nat) && d.exponent
                <= max && n <= s.len(),
            None => decimal_prefix_within(s@, max as nat) is None,
        },
{
    let n = scan_run(s, 3);
    let tok = &s[0..n];
    match parse_decimal_token_within(tok, max) {
        Some(d) => Some((d, n)),
        None => None,
    }
}

/// Reads the `u64` at the start of `s`; returns it with the number of bytes read.
pub fn parse_u64_prefix(s: &[u8]) -> (r: Option<(u64, usize)>)
    ensures
        match r {
            Some((v, n)) => u64_prefix(s@) == Some((v, n as nat)) && n <= s.len(),
            None => u64_prefix(s@) is None,
        },
{
    let n = scan_run(s, 0);
    if n == 0 {
        return None;
    }
    proof {
        lemma_run_len_props(s@, digit_class());
    }
    let mut v: u64 = 0;
    let mut i: usize = 0;
    while i < n
        invariant
            i <= n <= s.len(),
            n == run_len(s@, digit_class()),
            forall|j: int| 0 <= j < n ==> is_digit(#[trigger] s@[j]),
            v == digits_value(s@.take(i as int)),
        decreases n - i,
    {
        let d = (s[i] - 48) as u64;
        proof {
            assert(is_digit(s@[i as int]));
            lemma_digits_value_step(s@, i as int);
        }
        if v > (u64::MAX - d) / 10 {
            proof {
                assert(v * 10 + d > u64::MAX) by (nonlinear_arith)
                    requires
                        v > (u64::MAX - d) / 10,
                        d <= 9,
                ;
                lemma_digits_value_prefix_monotone(s@, i as int + 1, n as int);
            }
            return None;
        }
        proof {
            assert(v * 10 + d <= u64::MAX) by (nonlinear_arith)
                requires
                    v <= (u64::MAX - d) / 10,
                    d <= 9,
            ;
        }
        v = v * 10 + d;
        i = i + 1;
    }
    Some((v, n))
}

/// Reads an integer token as an `i64`.
pub fn parse_i64_token(t: &[u8]) -> (r: Option<i64>)
    ensures
        match r {
            Some(v) => integer_token(t@) == Some(v as int),
            None => integer_token(t@) is None || !(i64::MIN <= integer_token(t@).unwrap()
                <= i64::MAX),
        },
{
    let neg = t.len() > 0 && t[0] == 45;
    let start: usize = if neg {
        1
    } else {
        0
    };
    let body = &t[start..t.len()];
    assert(body@ == (if neg {
        t@.drop_first()
    } else {
        t@
    }));
    if body.len() == 0 || !check_all_digits(body) {
        return None;
    }
    // The magnitude may reach 2^63 for the most negative value.
    let limit: u64 = if neg {
        0x8000000000000000u64
    } else {
        0x7fffffffffffffffu64
    };
    let mut v: u64 = 0;
    let mut i: usize = 0;
    while i < body.len()
        invariant
            i <= body.len(),
            all_digits(body@),
            body@ == (if neg {
                t@.drop_first()
            } else {
                t@
            }),
            neg == (t@.len() > 0 && t@[0] == 45),
            body@.len() >= 1,
            limit == (if neg {
                0x8000000000000000u64
            } else {
                0x7fffffffffffffffu64
            }),
            v <= limit,
            v == digits_value(body@.take(i as int)),
        decreases body.len() - i,
    {
        let d = (body[i] - 48) as u64;
        proof {
            assert(is_digit(body@[i as int]));
            lemma_digits_value_step(body@, i as int);
        }
        if v > (limit - d) / 10 {
            proof {
                assert(v * 10 + d > limit) by (nonlinear_arith)
                    requires
                        v > (limit - d) / 10,
                        d <= 9,
                        d <= limit,
                ;
                lemma_digits_value_prefix_monotone(body@, i as int + 1, body@.len() as int);
                assert(body@.take(body@.len() as int) =~= body@);
            }
            return None;
        }
        proof {
            assert(v * 10 + d <= limit) by (nonlinear_arith)
                requires
                    v <= (limit - d) / 10,
                    d <= 9,
            ;
        }
        v = v * 10 + d;
        i = i + 1;
    }
    assert(body@.take(body@.len() as int) =~= body@);
    if neg {
        if v == 0x8000000000000000u64 {
            Some(i64::MIN)
        } else {
            Some(-(v as i64))
        }
    } else {
        Some(v as i64)
    }
}

/// Reads the `i64` at the start of `s`; returns it with the number of bytes read.
pub fn parse_i64_prefix(s: &[u8]) -> (r: Option<(i64, usize)>)
    ensures
        match r {
            Some((v, n)) => i64_prefix(s@) == Some((v, n as nat)) && n <= s.len(),
            None => i64_prefix(s@) is None,
        },
{
    let n = scan_run(s, 4);
    let tok = &s[0..n];
    match parse_i64_token(tok) {
        Some(v) => Some((v, n)),
        None => None,
    }
}

/// `a / 10^shift` rounded to the nearest integer, ties to the even one.
pub open spec fn round_shift(a: nat, shift: nat) -> nat {
    let d = pow10(shift);
    let q = a / d;
    let r = a % d;
    if 2 * r > d || (2 * r == d && q % 2 == 1) {
        q + 1
    } else {
        q
    }
}

/// `|d| * 10^n` rounded to an integer the way fixed-point formatting rounds.
pub open spec fn scaled_magnitude(d: Decimal, n: nat) -> nat {
    let a = abs(d.mantissa as int);
    let e = d.exponent as nat;
    if n >= e {
        a * pow10((n - e) as nat)
    } else {
        round_shift(a, (e - n) as nat)
    }
}

/// The text of `d` with exactly `n` digits after the point (and no point when
/// `n` is zero), rounded half to even; a negative number keeps its `-` even
/// when it rounds to zero.
pub open spec fn fixed_text(d: Decimal, n: nat) -> Seq<u8> {
    let r = scaled_magnitude(d, n);
    (if d.mantissa < 0 {
        seq![45u8]
    } else {
        Seq::<u8>::empty()
    }) + nat_text(r / pow10(n)) + (if n == 0 {
        Seq::<u8>::empty()
    } else {
        seq![46u8] + padded_text(r, n)
    })
}

proof fn lemma_shift_quotient(a: nat, e: nat, k: nat)
    ensures
        (a * pow10(k)) / pow10(e + k) == a / pow10(e),
{
    lemma_pow10_add(e, k);
    lemma_pow10_positive(e);
    lemma_pow10_positive(k);
    let x = a * pow10(k);
    assert(pow10(e + k) == pow10(k) * pow10(e)) by (nonlinear_arith)
        requires
            pow10(e + k) == pow10(e) * pow10(k),
    ;
    vstd::arithmetic::div_mod::lemma_div_denominator(x as int, pow10(k) as int, pow10(e) as int);
    assert(x / pow10(k) == a) by {
        assert(x == pow10(k) * a) by (nonlinear_arith)
            requires
                x == a * pow10(k),
        ;
        vstd::arithmetic::div_mod::lemma_div_multiples_vanish(a as int, pow10(k) as int);
    }
}

/// Appends the digits of `scaled_magnitude(d, n)` split at the point, for `n >= exponent`.
fn push_fixed_wide(out: &mut Vec<u8>, a: u128, e: u32, n: usize)
    requires
        e <= 38,
        n >= e,
    ensures
        final(out)@ == old(out)@ + nat_text(((a as nat) * pow10((n - e) as nat)) / pow10(n as nat)) + (
        if n == 0 {
            Seq::<u8>::empty()
        } else {
            seq![46u8] + padded_text((a as nat) * pow10((n - e) as nat), n as nat)
        }),
{
    let ghost start = old(out)@;
    let ghost r = (a as nat) * pow10((n - e) as nat);
    let p = pow10_u128(e);
    proof {
        lemma_pow10_positive(e as nat);
    }
    push_nat_text(out, a / p);
    let k = n - e as usize;
    proof {
        lemma_shift_quotient(a as nat, e as nat, k as nat);
        assert(e as nat + k as nat == n as nat);
        assert(r / pow10(n as nat) == (a / p) as nat);
    }
    let ghost mid = out@;
    if n > 0 {
        out.push(46u8);
        push_padded_text(out, a, e as usize);
        push_zeros(out, k);
        proof {
            lemma_padded_shift(a as nat, e as nat, k as nat);
            assert(padded_text(r, n as nat) == padded_text(a as nat, e as nat) + zeros(k as nat));
            assert(out@ =~= mid + (seq![46u8] + padded_text(r, n as nat)));
        }
    } else {
        assert(out@ =~= mid + Seq::<u8>::empty());
    }
}

/// Appends the digits of `round_shift(a, e - n)` split at the point, for `n < exponent`.
fn push_fixed_narrow(out: &mut Vec<u8>, a: u128, e: u32, n: usize)
    requires
        e <= 38,
        n < e,
    ensures
        final(out)@ == old(out)@ + nat_text(round_shift(a as nat, (e - n) as nat) / pow10(n as nat))
            + (if n == 0 {
            Seq::<u8>::empty()
        } else {
            seq![46u8] + padded_text(round_shift(a as nat, (e - n) as nat), n as nat)
        }),
{
    let ghost r = round_shift(a as nat, (e - n) as nat);
    let shift = e - n as u32;
    let p = pow10_u128(shift);
    proof {
        lemma_pow10_positive(shift as nat);
        lemma_pow10_38();
        lemma_pow10_monotone(shift as nat, 38);
    }
    let q = a / p;
    let rem = a % p;
    proof {
        lemma_pow10_monotone(1, shift as nat);
        assert(pow10(1) == 10) by {
            reveal_with_fuel(pow10, 2);
        }
        assert(q < 0xffffffffffffffffffffffffffffffffu128) by (nonlinear_arith)
            requires
                q == a / p,
                p >= 10,
        ;
    }
    let rounded = if 2 * rem > p || (2 * rem == p && q % 2 == 1) {
        q + 1
    } else {
        q
    };
    assert(rounded == r);
    let pn = pow10_u128(n as u32);
    proof {
        lemma_pow10_positive(n as nat);
    }
    push_nat_text(out, rounded / pn);
    let ghost mid = out@;
    if n > 0 {
        out.push(46u8);
        push_padded_text(out, rounded, n);
        assert(out@ =~= mid + (seq![46u8] + padded_text(r, n as nat)));
    } else {
        assert(out@ =~= mid + Seq::<u8>::empty());
    }
}

/// Appends the text of `d` with `n` digits after the point.
pub fn push_fixed(out: &mut Vec<u8>, d: Decimal, n: usize)
    requires
        d.exponent <= 38,
    ensures
        final(out)@ == old(out)@ + fixed_text(d, n as nat),
{
    let ghost start = old(out)@;
    let a = magnitude(d.mantissa);
    let e = d.exponent;
    if d.mantissa < 0 {
        out.push(45u8);
    }
    let ghost sign: Seq<u8> = if d.mantissa < 0 {
        seq![45u8]
    } else {
        Seq::<u8>::empty()
    };
    assert(out@ == start + sign);
    let ghost mid = out@;
    if n >= e as usize {
        push_fixed_wide(out, a, e, n);
    } else {
        push_fixed_narrow(out, a, e, n);
    }
    assert(out@ =~= start + fixed_text(d, n as nat));
}

/// `d.mantissa` scaled to exponent `e`.
pub open spec fn aligned(d: Decimal, e: nat) -> int {
    d.mantissa * pow10((e - d.exponent) as nat)
}

pub open spec fn max_exponent(a: Decimal, b: Decimal) -> nat {
    if a.exponent >= b.exponent {
        a.exponent as nat
    } else {
        b.exponent as nat
    }
}

/// Both numbers, written over their common exponent, stay within the range
/// in which sums and differences are exact.
pub open spec fn can_combine(a: Decimal, b: Decimal) -> bool {
    let e = max_exponent(a, b);
    abs(aligned(a, e)) < pow10(37) && abs(aligned(b, e)) < pow10(37)
}

/// The exact sum of two decimals.
pub open spec fn sum_decimal(a: Decimal, b: Decimal) -> Decimal {
    let e = max_exponent(a, b);
    decimal_of_int(aligned(a, e) + aligned(b, e), e)
}

/// The exact difference of two decimals.
pub open spec fn difference_decimal(a: Decimal, b: Decimal) -> Decimal {
    let e = max_exponent(a, b);
    decimal_of_int(aligned(a, e) - aligned(b, e), e)
}

/// The mantissa of `d` written over exponent `e`.
fn align(d: Decimal, e: u32) -> (r: i128)
    requires
        d.exponent <= e,
        abs(aligned(d, e as nat)) < pow10(37),
    ensures
        r == aligned(d, e as nat),
{
    if d.mantissa == 0 {
        assert(aligned(d, e as nat) == 0);
        return 0;
    }
    let k = e - d.exponent;
    proof {
        lemma_pow10_38();
        if k >= 37 {
            lemma_pow10_monotone(37, k as nat);
            assert(abs(d.mantissa as int) * pow10(k as nat) >= pow10(37)) by (nonlinear_arith)
                requires
                    abs(d.mantissa as int) >= 1,
                    pow10(k as nat) >= pow10(37),
            ;
            assert(abs(aligned(d, e as nat)) == abs(d.mantissa as int) * pow10(k as nat))
                by (nonlinear_arith)
                requires
                    aligned(d, e as nat) == d.mantissa * pow10(k as nat),
            ;
        }
        lemma_pow10_monotone(k as nat, 38);
        lemma_pow10_positive(k as nat);
        assert(abs(aligned(d, e as nat)) == abs(d.mantissa as int) * pow10(k as nat))
            by (nonlinear_arith)
            requires
                aligned(d, e as nat) == d.mantissa * pow10(k as nat),
                pow10(k as nat) >= 1,
        ;
    }
    let p = pow10_u128(k) as i128;
    d.mantissa * p
}

/// Whether `d` written over exponent `e` stays below `10^37` in size.
fn aligned_small(d: Decimal, e: u32) -> (b: bool)
    requires
        d.exponent <= e,
    ensures
        b == (abs(aligned(d, e as nat)) < pow10(37)),
{
    let k = e - d.exponent;
    proof {
        lemma_pow10_38();
        lemma_pow10_positive(k as nat);
        assert(abs(aligned(d, e as nat)) == abs(d.mantissa as int) * pow10(k as nat))
            by (nonlinear_arith)
            requires
                aligned(d, e as nat) == d.mantissa * pow10(k as nat),
                pow10(k as nat) >= 1,
        ;
    }
    if d.mantissa == 0 {
        proof {
            lemma_pow10_positive(37);
        }
        return true;
    }
    let m = magnitude(d.mantissa);
    if k >= 37 {
        proof {
            lemma_pow10_monotone(37, k as nat);
            assert(abs(d.mantissa as int) * pow10(k as nat) >= pow10(37)) by (nonlinear_arith)
                requires
                    abs(d.mantissa as int) >= 1,
                    pow10(k as nat) >= pow10(37),
            ;
        }
        return false;
    }
    let bound = pow10_u128(37 - k);
    proof {
        lemma_pow10_add((37 - k) as nat, k as nat);
        assert((37 - k) as nat + k as nat == 37);
        let a = abs(d.mantissa as int);
        let p = pow10(k as nat);
        let q = pow10((37 - k) as nat);
        assert(pow10(37) == q * p);
        assert((a < q) == (a * p < q * p)) by (nonlinear_arith)
            requires
                p >= 1,
                a >= 0,
                q >= 0,
        ;
    }
    m < bound
}

/// Whether two decimals can be added or subtracted exactly.
pub fn combinable(a: Decimal, b: Decimal) -> (r: bool)
    ensures
        r == can_combine(a, b),
{
    let e = if a.exponent >= b.exponent {
        a.exponent
    } else {
        b.exponent
    };
    aligned_small(a, e) && aligned_small(b, e)
}

impl Decimal {
    /// The exact sum of two decimals.
    pub fn add(self, other: Decimal) -> (r: Decimal)
        requires
            can_combine(self, other),
        ensures
            r == sum_decimal(self, other),
            r.is_canonical(),
    {
        let e = if self.exponent >= other.exponent {
            self.exponent
        } else {
            other.exponent
        };
        let x = align(self, e);
        let y = align(other, e);
        proof {
            lemma_pow10_38();
            assert(pow10(38) == 10 * pow10(37));
        }
        let total = x + y;
        build_decimal(total < 0, magnitude(total), e)
    }

    /// The exact difference of two decimals.
    pub fn sub(self, other: Decimal) -> (r: Decimal)
        requires
            can_combine(self, other),
        ensures
            r == difference_decimal(self, other),
            r.is_canonical(),
    {
        let e = if self.exponent >= other.exponent {
            self.exponent
        } else {
            other.exponent
        };
        let x = align(self, e);
        let y = align(other, e);
        proof {
            lemma_pow10_38();
            assert(pow10(38) == 10 * pow10(37));
        }
        let total = x - y;
        build_decimal(total < 0, magnitude(total), e)
    }

    /// One hundredth of the number, exactly.
    pub fn hundredth(self) -> (r: Decimal)
        requires
            abs(self.mantissa as int) < pow10(38),
            self.exponent <= u32::MAX - 2,
        ensures
            r == make_decimal(self.mantissa < 0, abs(self.mantissa as int), (self.exponent + 2) as nat),
            r.is_canonical(),
    {
        build_decimal(self.mantissa < 0, magnitude(self.mantissa), self.exponent + 2)
    }
}

/// The integer part of a non-negative number, saturating at `u64::MAX`;
/// zero for negative numbers (the rule of a float-to-integer cast).
pub open spec fn truncate_to_u64(d: Decimal) -> u64 {
    if d.mantissa <= 0 {
        0
    } else {
        let q = abs(d.mantissa as int) / pow10(d.exponent as nat);
        if q > u64::MAX {
            u64::MAX
        } else {
            q as u64
        }
    }
}

/// Converts to `u64` the way a float-to-integer cast does.
pub fn truncate_u64(d: Decimal) -> (r: u64)
    ensures
        r == truncate_to_u64(d),
{
    if d.mantissa <= 0 {
        return 0;
    }
    let a = magnitude(d.mantissa);
    if d.exponent > 38 {
        proof {
            lemma_pow10_38();
            lemma_pow10_monotone(39, d.exponent as nat);
            assert(pow10(39) == 10 * pow10(38));
            assert(a < pow10(d.exponent as nat));
            assert(a as nat / pow10(d.exponent as nat) == 0) by (nonlinear_arith)
                requires
                    a < pow10(d.exponent as nat),
            ;
        }
        return 0;
    }
    let p = pow10_u128(d.exponent);
    proof {
        lemma_pow10_positive(d.exponent as nat);
    }
    let q = a / p;
    if q > 0xffffffffffffffffu128 {
        u64::MAX
    } else {
        q as u64
    }
}

/// Removing trailing zeros keeps the value: the kept digits, shifted back by
/// the zeros removed, give the magnitude again.
proof fn lemma_canonical_value(mag: nat, e: nat)
    ensures
        canonical(mag, e).1 <= e,
        canonical(mag, e).0 * pow10((e - canonical(mag, e).1) as nat) == mag,
    decreases e,
{
    if e > 0 && mag % 10 == 0 {
        let e1 = (e - 1) as nat;
        lemma_canonical_value(mag / 10, e1);
        let (m, k) = canonical(mag / 10, e1);
        assert(canonical(mag, e) == (m, k));
        let d = (e1 - k) as nat;
        assert((e - k) as nat == d + 1);
        assert(pow10(d + 1) == 10 * pow10(d));
        assert(m * pow10(d) == mag / 10);
        assert(m * (10 * pow10(d)) == 10 * (m * pow10(d))) by (nonlinear_arith);
        assert(10 * (mag / 10) == mag) by (nonlinear_arith)
            requires
                mag % 10 == 0,
        ;
        assert(m * pow10(d + 1) == mag);
        assert(canonical(mag, e).0 * pow10((e - canonical(mag, e).1) as nat) == m * pow10(d + 1));
    } else {
        assert(canonical(mag, e) == (mag, e));
        assert((e - e) as nat == 0);
        assert(pow10(0) == 1);
        assert(mag * pow10(0) == mag);
    }
}

/// The canonical decimal of `v / 10^e`, written back over exponent `e`, is `v`.
proof fn lemma_decimal_of_int_value(v: int, e: nat)
    requires
        abs(v) < pow10(38),
        e <= u32::MAX,
    ensures
        decimal_of_int(v, e).exponent <= e,
        aligned(decimal_of_int(v, e), e) == v,
{
    let (m, k) = canonical(abs(v), e);
    lemma_canonical_value(abs(v), e);
    lemma_canonical_bounds(abs(v), e);
    lemma_pow10_38();
    let d = decimal_of_int(v, e);
    let signed: int = if v < 0 {
        -(m as int)
    } else {
        m as int
    };
    assert(d.mantissa == signed);
    assert(d.exponent == k);
    let p = pow10((e - k) as nat);
    assert(signed * p == v) by (nonlinear_arith)
        requires
            m * p == abs(v),
            signed == (if v < 0 {
                -(m as int)
            } else {
                m as int
            }),
            abs(v) == (if v < 0 {
                -v
            } else {
                v
            }),
    ;
}

/// Law: the sum of two combinable decimals is exact: over the larger of the
/// two exponents it is the sum of the two values.
pub proof fn law_sum_is_exact(a: Decimal, b: Decimal)
    requires
        can_combine(a, b),
    ensures
        sum_decimal(a, b).exponent <= max_exponent(a, b),
        aligned(sum_decimal(a, b), max_exponent(a, b)) == aligned(a, max_exponent(a, b)) + aligned(
            b,
            max_exponent(a, b),
        ),
{
    let e = max_exponent(a, b);
    lemma_pow10_38();
    assert(pow10(38) == 10 * pow10(37));
    lemma_decimal_of_int_value(aligned(a, e) + aligned(b, e), e);
}

/// Law: the difference of two combinable decimals is exact.
pub proof fn law_difference_is_exact(a: Decimal, b: Decimal)
    requires
        can_combine(a, b),
    ensures
        difference_decimal(a, b).exponent <= max_exponent(a, b),
        aligned(difference_decimal(a, b), max_exponent(a, b)) == aligned(a, max_exponent(a, b))
            - aligned(b, max_exponent(a, b)),
{
    let e = max_exponent(a, b);
    lemma_pow10_38();
    assert(pow10(38) == 10 * pow10(37));
    lemma_decimal_of_int_value(aligned(a, e) - aligned(b, e), e);
}

/// The token `-? int . frac` reads as the canonical decimal of its digits
/// over the number of digits after the point.
proof fn lemma_token_parts(neg: bool, int_part: Seq<u8>, frac: Seq<u8>, max: nat)
    requires
        all_digits(int_part),
        all_digits(frac),
        1 <= int_part.len() + frac.len() <= max,
    ensures
        decimal_token_within(
            (if neg {
                seq![45u8]
            } else {
                Seq::<u8>::empty()
            }) + int_part + seq![46u8] + frac,
            max,
        ) == Some(make_decimal(neg, digits_value(int_part + frac), frac.len())),
{
    let t = (if neg {
        seq![45u8]
    } else {
        Seq::<u8>::empty()
    }) + int_part + seq![46u8] + frac;
    let body = int_part + seq![46u8] + frac;
    if neg {
        assert(t[0] == 45u8);
        assert(t.drop_first() =~= body);
    } else {
        assert(t =~= body);
        if t.len() > 0 {
            assert(t[0] == body[0]);
            if int_part.len() > 0 {
                assert(body[0] == int_part[0]);
                assert(is_digit(int_part[0]));
            } else {
                assert(body[0] == 46u8);
            }
        }
    }
    // The point is the first one.
    assert(body[int_part.len() as int] == 46u8);
    assert forall|j: int| 0 <= j < int_part.len() implies #[trigger] body[j] != 46u8 by {
        assert(body[j] == int_part[j]);
        assert(is_digit(int_part[j]));
    }
    crate::text::lemma_find_byte_found(body, 46u8, int_part.len() as int);
    assert(body.take(int_part.len() as int) =~= int_part);
    assert(body.skip(int_part.len() + 1 as int) =~= frac);
}

/// Law: a decimal as a token reads back as the number written: an optional
/// `-`, then digits, a point and more digits stand for their value divided
/// by ten to the number of digits after the point.
pub proof fn law_token_value(neg: bool, int_part: Seq<u8>, frac: Seq<u8>)
    requires
        all_digits(int_part),
        all_digits(frac),
        1 <= int_part.len() + frac.len() <= 17,
    ensures
        ({
            let t = (if neg {
                seq![45u8]
            } else {
                Seq::<u8>::empty()
            }) + int_part + seq![46u8] + frac;
            &&& decimal_token(t) matches Some(d)
            &&& d.exponent <= frac.len()
            &&& aligned(d, frac.len()) == (if neg {
                -(digits_value(int_part + frac) as int)
            } else {
                digits_value(int_part + frac) as int
            })
        }),
{
    lemma_token_parts(neg, int_part, frac, 17);
    let v = digits_value(int_part + frac);
    lemma_digits_value_bound(int_part + frac);
    lemma_pow10_monotone((int_part + frac).len(), 38);
    lemma_pow10_38();
    let signed: int = if neg {
        -(v as int)
    } else {
        v as int
    };
    assert(decimal_of_int(signed, frac.len()) == make_decimal(neg && v != 0, v, frac.len()));
    lemma_decimal_of_int_value(signed, frac.len());
    if neg && v == 0 {
        assert(canonical(0, frac.len()).0 == 0) by {
            lemma_canonical_bounds(0, frac.len());
        }
    }
}

/// Moving factors of ten between magnitude and exponent keeps the canonical form.
proof fn lemma_canonical_shift(a: nat, e: nat, k: nat)
    ensures
        canonical(a * pow10(k), e + k) == canonical(a, e),
    decreases k,
{
    if k == 0 {
        assert(pow10(0) == 1);
        assert(a * 1 == a);
    } else {
        let k1 = (k - 1) as nat;
        lemma_canonical_shift(a, e, k1);
        let b = a * pow10(k1);
        assert(pow10(k) == 10 * pow10(k1));
        assert(a * pow10(k) == b * 10) by (nonlinear_arith)
            requires
                pow10(k) == 10 * pow10(k1),
                b == a * pow10(k1),
        ;
        assert((b * 10) % 10 == 0 && (b * 10) / 10 == b) by (nonlinear_arith);
        assert((e + k - 1) as nat == e + k1);
    }
}

/// A token without a point: an optional `-` and digits.
proof fn lemma_integer_token(neg: bool, int_part: Seq<u8>, max: nat)
    requires
        all_digits(int_part),
        1 <= int_part.len() <= max,
    ensures
        decimal_token_within(
            (if neg {
                seq![45u8]
            } else {
                Seq::<u8>::empty()
            }) + int_part,
            max,
        ) == Some(make_decimal(neg, digits_value(int_part), 0)),
{
    let t = (if neg {
        seq![45u8]
    } else {
        Seq::<u8>::empty()
    }) + int_part;
    if neg {
        assert(t[0] == 45u8);
        assert(t.drop_first() =~= int_part);
    } else {
        assert(t =~= int_part);
        assert(t[0] == int_part[0]);
        assert(is_digit(int_part[0]));
    }
    assert forall|j: int| 0 <= j < int_part.len() implies #[trigger] int_part[j] != 46u8 by {
        assert(is_digit(int_part[j]));
    }
    crate::text::lemma_find_byte_absent(int_part, 46u8);
    assert(int_part + Seq::<u8>::empty() =~= int_part);
}

/// The canonical form of a canonical decimal's magnitude is itself.
proof fn lemma_canonical_self(d: Decimal)
    requires
        d.is_canonical(),
    ensures
        canonical(abs(d.mantissa as int), d.exponent as nat) == (
            abs(d.mantissa as int),
            d.exponent as nat,
        ),
{
    let a = abs(d.mantissa as int);
    if d.exponent > 0 {
        assert(d.mantissa % 10 != 0);
        if d.mantissa < 0 {
            if a % 10 == 0 {
                assert(a as int == -(d.mantissa as int));
                vstd::arithmetic::div_mod::lemma_mod_neg_neg(a as int, 10);
                assert((-(a as int)) % 10 == 0);
            }
        }
    }
}

/// Law: what the fixed-point writer writes, the decimal reader reads back
/// unchanged, when no digit is rounded away (the number has at most `n`
/// digits after the point, `n` possibly zero) and the text has at most 17
/// digits.
pub proof fn law_fixed_text_reads_back(d: Decimal, n: nat)
    requires
        d.is_canonical(),
        d.exponent <= n,
        n <= 16,
        scaled_magnitude(d, n) < pow10(17),
    ensures
        decimal_token(fixed_text(d, n)) == Some(d),
{
    law_fixed_text_reads_back_within(d, n, 17);
}

/// Law: the same, for a reader that takes tokens of up to `max` digits:
/// what is written with `n < max` digits after the point and at most `max`
/// digits in all reads back unchanged.
pub proof fn law_fixed_text_reads_back_within(d: Decimal, n: nat, max: nat)
    requires
        d.is_canonical(),
        d.exponent <= n,
        n < max,
        scaled_magnitude(d, n) < pow10(max),
    ensures
        decimal_token_within(fixed_text(d, n), max) == Some(d),
{
    if n == 0 {
        let a = abs(d.mantissa as int);
        assert(pow10(0) == 1);
        assert(d.exponent == 0);
        assert(((0 - d.exponent as nat) as nat) == 0nat);
        assert(a * pow10(0) == a);
        assert(scaled_magnitude(d, 0) == a);
        assert(a / pow10(0) == a) by (nonlinear_arith)
            requires
                pow10(0) == 1,
        ;
        let neg = d.mantissa < 0;
        let sign = if neg {
            seq![45u8]
        } else {
            Seq::<u8>::empty()
        };
        assert(fixed_text(d, 0) =~= sign + nat_text(a));
        lemma_nat_text_digits(a);
        lemma_nat_text_len(a, max);
        lemma_integer_token(neg, nat_text(a), max);
        lemma_canonical_self(d);
        return;
    }
    let a = abs(d.mantissa as int);
    let e = d.exponent as nat;
    let k = (n - e) as nat;
    let r = scaled_magnitude(d, n);
    assert(r == a * pow10(k));
    let q = r / pow10(n);
    let int_part = nat_text(q);
    let frac = padded_text(r, n);
    let neg = d.mantissa < 0;
    let sign = if neg {
        seq![45u8]
    } else {
        Seq::<u8>::empty()
    };
    assert(fixed_text(d, n) =~= sign + int_part + seq![46u8] + frac);
    // The digits.
    lemma_nat_text_digits(q);
    lemma_padded_digits(r, n);
    let m = (max - n) as nat;
    lemma_pow10_add(m, n);
    lemma_pow10_positive(n);
    assert(m + n == max);
    assert(q < pow10(m)) by (nonlinear_arith)
        requires
            r < pow10(m) * pow10(n),
            q == r / pow10(n),
            pow10(n) >= 1,
    ;
    lemma_nat_text_len(q, m);
    lemma_digits_value_concat(int_part, frac);
    assert(q * pow10(n) + r % pow10(n) == r) by (nonlinear_arith)
        requires
            q == r / pow10(n),
            pow10(n) >= 1,
    ;
    lemma_token_parts(neg, int_part, frac, max);
    assert(digits_value(int_part + frac) == r);
    // The canonical form is `d` itself.
    lemma_canonical_shift(a, e, k);
    assert(e + k == n);
    assert(canonical(a, e) == (a, e)) by {
        if e > 0 {
            assert(d.mantissa % 10 != 0);
            if d.mantissa < 0 {
                if a % 10 == 0 {
                    assert(a as int == -(d.mantissa as int));
                    vstd::arithmetic::div_mod::lemma_mod_neg_neg(a as int, 10);
                    assert((-(a as int)) % 10 == 0);
                }
            }
        }
    }
}

/// Law: writing with fewer digits rounds to the nearest value, ties to the
/// even one: dropping `k` digits from the magnitude `a` gives `q` with
/// `q * 10^k` at most half a unit (`10^k / 2`) away from `a`, and exactly
/// half a unit away only when `q` is even.
pub proof fn law_rounding(a: nat, k: nat)
    ensures
        ({
            let q = round_shift(a, k);
            let d = pow10(k);
            &&& 2 * (q * d) <= 2 * a + d
            &&& 2 * a <= 2 * (q * d) + d
            &&& (2 * (q * d) == 2 * a + d || 2 * a == 2 * (q * d) + d) ==> q % 2 == 0
        }),
{
    let d = pow10(k);
    lemma_pow10_positive(k);
    let q0 = a / d;
    let r = a % d;
    vstd::arithmetic::div_mod::lemma_fundamental_div_mod(a as int, d as int);
    vstd::arithmetic::div_mod::lemma_mod_bound(a as int, d as int);
    assert(a == q0 * d + r);
    assert((q0 + 1) * d == q0 * d + d) by (nonlinear_arith);
    let q = round_shift(a, k);
    if 2 * r > d || (2 * r == d && q0 % 2 == 1) {
        assert(q == q0 + 1);
        assert(q * d == q0 * d + d);
    } else {
        assert(q == q0);
    }
}

} // verus!
