//! Byte-level text helpers shared by the G-code and GRBL grammars: character
//! classes, maximal runs, byte search, and decimal rendering of numbers.
use vstd::prelude::*;

verus! {

/// ASCII decimal digit.
pub open spec fn is_digit(c: u8) -> bool {
    48 <= c <= 57
}

/// ASCII letter.
pub open spec fn is_alpha(c: u8) -> bool {
    (65 <= c <= 90) || (97 <= c <= 122)
}

/// The blanks that separate words on a line: space and horizontal tab.
pub open spec fn is_blank(c: u8) -> bool {
    c == 32 || c == 9
}

/// Bytes that may occur in a decimal number token: digits, `.` and `-`.
pub open spec fn is_number_char(c: u8) -> bool {
    is_digit(c) || c == 46 || c == 45
}

/// Bytes that may occur in an integer token: digits and `-`.
pub open spec fn is_integer_char(c: u8) -> bool {
    is_digit(c) || c == 45
}

pub open spec fn digit_class() -> spec_fn(u8) -> bool {
    |c: u8| is_digit(c)
}

pub open spec fn alpha_class() -> spec_fn(u8) -> bool {
    |c: u8| is_alpha(c)
}

pub open spec fn blank_class() -> spec_fn(u8) -> bool {
    |c: u8| is_blank(c)
}

pub open spec fn number_class() -> spec_fn(u8) -> bool {
    |c: u8| is_number_char(c)
}

pub open spec fn integer_class() -> spec_fn(u8) -> bool {
    |c: u8| is_integer_char(c)
}

/// Length of the longest prefix of `s` whose bytes all belong to class `p`.
pub open spec fn run_len(s: Seq<u8>, p: spec_fn(u8) -> bool) -> nat
    decreases s.len(),
{
    if s.len() == 0 {
        0
    } else if p(s[0]) {
        1 + run_len(s.drop_first(), p)
    } else {
        0
    }
}

/// `run_len` is the unique `k` such that the first `k` bytes are in the class
/// and byte `k`, if any, is not.
pub proof fn lemma_run_len(s: Seq<u8>, p: spec_fn(u8) -> bool, k: int)
    requires
        0 <= k <= s.len(),
        forall|j: int| 0 <= j < k ==> p(#[trigger] s[j]),
        k == s.len() || !p(s[k]),
    ensures
        run_len(s, p) == k,
    decreases k,
{
    if k > 0 {
        let t = s.drop_first();
        assert forall|j: int| 0 <= j < k - 1 implies p(#[trigger] t[j]) by {
            assert(t[j] == s[j + 1]);
        }
        if k - 1 < t.len() {
            assert(t[k - 1] == s[k]);
        }
        lemma_run_len(t, p, k - 1);
    }
}

/// The bytes inside a run belong to the class, and the run is maximal.
pub proof fn lemma_run_len_props(s: Seq<u8>, p: spec_fn(u8) -> bool)
    ensures
        run_len(s, p) <= s.len(),
        forall|j: int| 0 <= j < run_len(s, p) ==> p(#[trigger] s[j]),
        run_len(s, p) == s.len() || !p(s[run_len(s, p) as int]),
    decreases s.len(),
{
    if s.len() > 0 && p(s[0]) {
        let t = s.drop_first();
        lemma_run_len_props(t, p);
        assert forall|j: int| 0 <= j < run_len(s, p) implies p(#[trigger] s[j]) by {
            if j > 0 {
                assert(s[j] == t[j - 1]);
            }
        }
        if run_len(s, p) < s.len() {
            assert(s[run_len(s, p) as int] == t[run_len(t, p) as int]);
        }
    }
}

/// Index of the first occurrence of byte `c` in `s`.
pub open spec fn find_byte(s: Seq<u8>, c: u8) -> Option<nat>
    decreases s.len(),
{
    if s.len() == 0 {
        None
    } else if s[0] == c {
        Some(0)
    } else {
        match find_byte(s.drop_first(), c) {
            Some(i) => Some(i + 1),
            None => None,
        }
    }
}

pub proof fn lemma_find_byte_found(s: Seq<u8>, c: u8, k: int)
    requires
        0 <= k < s.len(),
        s[k] == c,
        forall|j: int| 0 <= j < k ==> #[trigger] s[j] != c,
    ensures
        find_byte(s, c) == Some(k as nat),
    decreases k,
{
    if k > 0 {
        let t = s.drop_first();
        assert forall|j: int| 0 <= j < k - 1 implies #[trigger] t[j] != c by {
            assert(t[j] == s[j + 1]);
        }
        assert(t[k - 1] == s[k]);
        lemma_find_byte_found(t, c, k - 1);
    }
}

pub proof fn lemma_find_byte_absent(s: Seq<u8>, c: u8)
    requires
        forall|j: int| 0 <= j < s.len() ==> #[trigger] s[j] != c,
    ensures
        find_byte(s, c) == None::<nat>,
    decreases s.len(),
{
    if s.len() > 0 {
        let t = s.drop_first();
        assert forall|j: int| 0 <= j < t.len() implies #[trigger] t[j] != c by {
            assert(t[j] == s[j + 1]);
        }
        lemma_find_byte_absent(t, c);
    }
}

/// What `find_byte` returns: the first occurrence, or nothing when the byte is absent.
pub proof fn lemma_find_byte_props(s: Seq<u8>, c: u8)
    ensures
        match find_byte(s, c) {
            Some(k) => k < s.len() && s[k as int] == c && forall|j: int|
                0 <= j < k ==> #[trigger] s[j] != c,
            None => forall|j: int| 0 <= j < s.len() ==> #[trigger] s[j] != c,
        },
    decreases s.len(),
{
    if s.len() > 0 && s[0] != c {
        let t = s.drop_first();
        lemma_find_byte_props(t, c);
        match find_byte(t, c) {
            Some(k) => {
                assert(s[k + 1 as int] == t[k as int]);
                assert forall|j: int| 0 <= j < k + 1 implies #[trigger] s[j] != c by {
                    if j > 0 {
                        assert(s[j] == t[j - 1]);
                    }
                }
            },
            None => {
                assert forall|j: int| 0 <= j < s.len() implies #[trigger] s[j] != c by {
                    if j > 0 {
                        assert(s[j] == t[j - 1]);
                    }
                }
            },
        }
    }
}

/// Whether `s` begins with `t`.
pub open spec fn starts_with(s: Seq<u8>, t: Seq<u8>) -> bool {
    t.len() <= s.len() && s.take(t.len() as int) == t
}

/// Every byte of `s` is a digit.
pub open spec fn all_digits(s: Seq<u8>) -> bool {
    forall|i: int| 0 <= i < s.len() ==> is_digit(#[trigger] s[i])
}

/// The number written by the decimal digits `s`, most significant first.
pub open spec fn digits_value(s: Seq<u8>) -> nat
    decreases s.len(),
{
    if s.len() == 0 {
        0
    } else {
        digits_value(s.drop_last()) * 10 + (s.last() - 48) as nat
    }
}

pub open spec fn pow10(n: nat) -> nat
    decreases n,
{
    if n == 0 {
        1
    } else {
        10 * pow10((n - 1) as nat)
    }
}

pub proof fn lemma_pow10_positive(n: nat)
    ensures
        pow10(n) >= 1,
    decreases n,
{
    if n > 0 {
        lemma_pow10_positive((n - 1) as nat);
    }
}

pub proof fn lemma_pow10_monotone(a: nat, b: nat)
    requires
        a <= b,
    ensures
        pow10(a) <= pow10(b),
    decreases b,
{
    if a < b {
        lemma_pow10_monotone(a, (b - 1) as nat);
        lemma_pow10_positive((b - 1) as nat);
    }
}

pub proof fn lemma_pow10_add(a: nat, b: nat)
    ensures
        pow10(a + b) == pow10(a) * pow10(b),
    decreases b,
{
    if b > 0 {
        let b1 = (b - 1) as nat;
        lemma_pow10_add(a, b1);
        let x = pow10(a);
        let y = pow10(b1);
        assert(a + b1 + 1 == a + b);
        assert(pow10(a + b) == 10 * pow10(a + b1));
        assert(pow10(b) == 10 * y);
        assert(x * (10 * y) == 10 * (x * y)) by (nonlinear_arith);
    } else {
        assert(pow10(0) == 1);
        assert(a + b == a);
        assert(pow10(a) * 1 == pow10(a));
    }
}

pub proof fn lemma_pow10_38()
    ensures
        pow10(19) == 10000000000000000000,
        pow10(38) == 100000000000000000000000000000000000000,
{
    reveal_with_fuel(pow10, 40);
}

/// Taking one more digit multiplies the value by ten and adds the new digit.
pub proof fn lemma_digits_value_step(s: Seq<u8>, k: int)
    requires
        0 <= k < s.len(),
    ensures
        digits_value(s.take(k + 1)) == digits_value(s.take(k)) * 10 + (s[k] - 48) as nat,
{
    assert(s.take(k + 1).drop_last() =~= s.take(k));
}

pub proof fn lemma_digits_value_bound(s: Seq<u8>)
    requires
        all_digits(s),
    ensures
        digits_value(s) < pow10(s.len()),
    decreases s.len(),
{
    if s.len() > 0 {
        let t = s.drop_last();
        assert(all_digits(t)) by {
            assert forall|i: int| 0 <= i < t.len() implies is_digit(#[trigger] t[i]) by {
                assert(t[i] == s[i]);
            }
        }
        lemma_digits_value_bound(t);
        assert(is_digit(s[s.len() - 1]));
    }
}

/// Prefix values never decrease as more digits are read.
pub proof fn lemma_digits_value_prefix_monotone(s: Seq<u8>, a: int, b: int)
    requires
        0 <= a <= b <= s.len(),
    ensures
        digits_value(s.take(a)) <= digits_value(s.take(b)),
    decreases b - a,
{
    if a < b {
        lemma_digits_value_prefix_monotone(s, a, b - 1);
        lemma_digits_value_step(s, b - 1);
    }
}

/// Decimal text of `n` without leading zeros (`"0"` for zero).
pub open spec fn nat_text(n: nat) -> Seq<u8>
    decreases n,
{
    if n < 10 {
        seq![(48 + n) as u8]
    } else {
        nat_text(n / 10).push((48 + n % 10) as u8)
    }
}

/// The lowest `width` decimal digits of `n`, most significant first.
pub open spec fn padded_text(n: nat, width: nat) -> Seq<u8>
    decreases width,
{
    if width == 0 {
        seq![]
    } else {
        padded_text(n / 10, (width - 1) as nat).push((48 + n % 10) as u8)
    }
}

/// `k` zero digits.
pub open spec fn zeros(k: nat) -> Seq<u8> {
    Seq::new(k, |i: int| 48u8)
}

pub proof fn lemma_padded_shift(n: nat, width: nat, k: nat)
    ensures
        padded_text(n * pow10(k), width + k) == padded_text(n, width) + zeros(k),
    decreases k,
{
    if k == 0 {
        assert(pow10(0) == 1);
        assert(n * 1 == n);
        assert(padded_text(n, width) + zeros(0) =~= padded_text(n, width));
    } else {
        let m = n * pow10((k - 1) as nat);
        assert(n * pow10(k) == m * 10) by {
            assert(pow10(k) == 10 * pow10((k - 1) as nat));
            assert(n * (10 * pow10((k - 1) as nat)) == (n * pow10((k - 1) as nat)) * 10)
                by (nonlinear_arith);
        }
        assert((m * 10) / 10 == m) by (nonlinear_arith);
        assert((m * 10) % 10 == 0) by (nonlinear_arith);
        assert((width + k - 1) as nat == width + (k - 1) as nat);
        lemma_padded_shift(n, width, (k - 1) as nat);
        assert(padded_text(n, width) + zeros(k) =~= (padded_text(n, width) + zeros(
            (k - 1) as nat,
        )).push(48u8));
    }
}

/// Appends the decimal text of `n` to `out`.
pub fn push_nat_text(out: &mut Vec<u8>, n: u128)
    ensures
        final(out)@ == old(out)@ + nat_text(n as nat),
    decreases n,
{
    if n >= 10 {
        push_nat_text(out, n / 10);
    }
    out.push((48 + n % 10) as u8);
    proof {
        if n >= 10 {
            assert(old(out)@ + nat_text(n as nat) =~= (old(out)@ + nat_text((n / 10) as nat)).push(
                (48 + n % 10) as u8,
            ));
        } else {
            assert(old(out)@ + nat_text(n as nat) =~= old(out)@.push((48 + n % 10) as u8));
        }
    }
}

/// Appends the lowest `width` decimal digits of `n` to `out`.
pub fn push_padded_text(out: &mut Vec<u8>, n: u128, width: usize)
    ensures
        final(out)@ == old(out)@ + padded_text(n as nat, width as nat),
    decreases width,
{
    if width > 0 {
        push_padded_text(out, n / 10, width - 1);
        out.push((48 + n % 10) as u8);
        proof {
            assert(old(out)@ + padded_text(n as nat, width as nat) =~= (old(out)@ + padded_text(
                (n / 10) as nat,
                (width - 1) as nat,
            )).push((48 + n % 10) as u8));
        }
    } else {
        proof {
            assert(old(out)@ + padded_text(n as nat, 0) =~= old(out)@);
        }
    }
}

/// Appends `k` zero digits to `out`.
pub fn push_zeros(out: &mut Vec<u8>, k: usize)
    ensures
        final(out)@ == old(out)@ + zeros(k as nat),
{
    let mut i: usize = 0;
    while i < k
        invariant
            i <= k,
            out@ == old(out)@ + zeros(i as nat),
        decreases k - i,
    {
        out.push(48u8);
        i = i + 1;
        assert(out@ =~= old(out)@ + zeros(i as nat));
    }
}

/// Appends the bytes of `t` to `out`.
pub fn push_all(out: &mut Vec<u8>, t: &[u8])
    ensures
        final(out)@ == old(out)@ + t@,
{
    let mut i: usize = 0;
    while i < t.len()
        invariant
            i <= t.len(),
            out@ == old(out)@ + t@.take(i as int),
        decreases t.len() - i,
    {
        out.push(t[i]);
        i = i + 1;
        assert(out@ =~= old(out)@ + t@.take(i as int));
    }
    assert(t@.take(t.len() as int) =~= t@);
}

/// `10^n` for small `n`.
pub fn pow10_u128(n: u32) -> (r: u128)
    requires
        n <= 38,
    ensures
        r == pow10(n as nat),
{
    let mut r: u128 = 1;
    let mut i: u32 = 0;
    proof {
        lemma_pow10_38();
    }
    while i < n
        invariant
            i <= n <= 38,
            r == pow10(i as nat),
            pow10(38) == 100000000000000000000000000000000000000,
        decreases n - i,
    {
        proof {
            lemma_pow10_monotone((i + 1) as nat, 38);
        }
        r = r * 10;
        i = i + 1;
    }
    r
}

/// Length of the maximal run of bytes of one class at the start of `s`.
pub fn scan_run(s: &[u8], class: u8) -> (n: usize)
    requires
        class <= 4,
    ensures
        n <= s.len(),
        n == run_len(
            s@,
            if class == 0 {
                digit_class()
            } else if class == 1 {
                alpha_class()
            } else if class == 2 {
                blank_class()
            } else if class == 3 {
                number_class()
            } else {
                integer_class()
            },
        ),
{
    let ghost p = if class == 0 {
        digit_class()
    } else if class == 1 {
        alpha_class()
    } else if class == 2 {
        blank_class()
    } else if class == 3 {
        number_class()
    } else {
        integer_class()
    };
    let mut i: usize = 0;
    while i < s.len()
        invariant
            i <= s.len(),
            class <= 4,
            p == (if class == 0 {
                digit_class()
            } else if class == 1 {
                alpha_class()
            } else if class == 2 {
                blank_class()
            } else if class == 3 {
                number_class()
            } else {
                integer_class()
            }),
            forall|j: int| 0 <= j < i ==> p(#[trigger] s@[j]),
        decreases s.len() - i,
    {
        let c = s[i];
        let member = if class == 0 {
            48 <= c && c <= 57
        } else if class == 1 {
            (65 <= c && c <= 90) || (97 <= c && c <= 122)
        } else if class == 2 {
            c == 32 || c == 9
        } else if class == 3 {
            (48 <= c && c <= 57) || c == 46 || c == 45
        } else {
            (48 <= c && c <= 57) || c == 45
        };
        if !member {
            proof {
                lemma_run_len(s@, p, i as int);
            }
            return i;
        }
        i = i + 1;
    }
    proof {
        lemma_run_len(s@, p, i as int);
    }
    i
}

/// Index of the first `c` in `s`.
pub fn find(s: &[u8], c: u8) -> (r: Option<usize>)
    ensures
        match r {
            Some(k) => find_byte(s@, c) == Some(k as nat),
            None => find_byte(s@, c) == None::<nat>,
        },
{
    let mut i: usize = 0;
    while i < s.len()
        invariant
            i <= s.len(),
            forall|j: int| 0 <= j < i ==> #[trigger] s@[j] != c,
        decreases s.len() - i,
    {
        if s[i] == c {
            proof {
                lemma_find_byte_found(s@, c, i as int);
            }
            return Some(i);
        }
        i = i + 1;
    }
    proof {
        lemma_find_byte_absent(s@, c);
    }
    None
}

/// Whether `s` begins with the bytes of `t`.
pub fn has_prefix(s: &[u8], t: &[u8]) -> (b: bool)
    ensures
        b == starts_with(s@, t@),
{
    if t.len() > s.len() {
        return false;
    }
    let mut i: usize = 0;
    while i < t.len()
        invariant
            t.len() <= s.len(),
            i <= t.len(),
            forall|j: int| 0 <= j < i ==> s@[j] == t@[j],
        decreases t.len() - i,
    {
        if s[i] != t[i] {
            assert(s@.take(t.len() as int)[i as int] != t@[i as int]);
            return false;
        }
        i = i + 1;
    }
    assert(s@.take(t.len() as int) =~= t@);
    true
}

/// Whether the bytes of `s` equal the bytes of `t`.
pub fn bytes_equal(s: &[u8], t: &[u8]) -> (b: bool)
    ensures
        b == (s@ == t@),
{
    if s.len() != t.len() {
        return false;
    }
    let r = has_prefix(s, t);
    proof {
        if r {
            assert(s@ =~= s@.take(t.len() as int));
        } else {
            assert(s@.take(t.len() as int) =~= s@);
        }
    }
    r
}

/// The text of a number is made of digits and reads back as the number.
pub proof fn lemma_nat_text_digits(x: nat)
    ensures
        all_digits(nat_text(x)),
        nat_text(x).len() >= 1,
        digits_value(nat_text(x)) == x,
    decreases x,
{
    let t = nat_text(x);
    if x < 10 {
        assert(t.drop_last() =~= Seq::<u8>::empty());
        assert(t.last() == (48 + x) as u8);
        assert(digits_value(t) == digits_value(t.drop_last()) * 10 + (t.last() - 48) as nat);
    } else {
        lemma_nat_text_digits(x / 10);
        assert(t.drop_last() =~= nat_text(x / 10));
        assert(t.last() == (48 + x % 10) as u8);
        assert(digits_value(t) == digits_value(t.drop_last()) * 10 + (t.last() - 48) as nat);
        assert(x == (x / 10) * 10 + x % 10);
        assert forall|i: int| 0 <= i < t.len() implies is_digit(#[trigger] t[i]) by {
            if i < t.len() - 1 {
                assert(t[i] == nat_text(x / 10)[i]);
            }
        }
    }
}

/// A number below `10^k` is written with at most `k` digits.
pub proof fn lemma_nat_text_len(x: nat, k: nat)
    requires
        k >= 1,
        x < pow10(k),
    ensures
        nat_text(x).len() <= k,
    decreases x,
{
    if x >= 10 {
        if k == 1 {
            assert(pow10(1) == 10);
        } else {
            let k1 = (k - 1) as nat;
            assert(pow10(k) == 10 * pow10(k1));
            assert(x / 10 < pow10(k1));
            lemma_nat_text_len(x / 10, k1);
        }
    }
}

/// The lowest `w` digits of a number are `w` digits reading back as the
/// number modulo `10^w`.
pub proof fn lemma_padded_digits(x: nat, w: nat)
    ensures
        all_digits(padded_text(x, w)),
        padded_text(x, w).len() == w,
        digits_value(padded_text(x, w)) == x % pow10(w),
    decreases w,
{
    let t = padded_text(x, w);
    if w == 0 {
        assert(pow10(0) == 1);
    } else {
        let w1 = (w - 1) as nat;
        lemma_padded_digits(x / 10, w1);
        assert(t.drop_last() =~= padded_text(x / 10, w1));
        assert forall|i: int| 0 <= i < t.len() implies is_digit(#[trigger] t[i]) by {
            if i < t.len() - 1 {
                assert(t[i] == padded_text(x / 10, w1)[i]);
            }
        }
        lemma_pow10_positive(w1);
        assert(pow10(w) == 10 * pow10(w1));
        vstd::arithmetic::div_mod::lemma_mod_breakdown(x as int, 10, pow10(w1) as int);
    }
}

/// Digits written after others shift them by their count.
pub proof fn lemma_digits_value_concat(s1: Seq<u8>, s2: Seq<u8>)
    ensures
        digits_value(s1 + s2) == digits_value(s1) * pow10(s2.len()) + digits_value(s2),
    decreases s2.len(),
{
    if s2.len() == 0 {
        assert(s1 + s2 =~= s1);
        assert(pow10(0) == 1);
    } else {
        let l1 = (s2.len() - 1) as nat;
        lemma_digits_value_concat(s1, s2.drop_last());
        assert((s1 + s2).drop_last() =~= s1 + s2.drop_last());
        assert((s1 + s2).last() == s2.last());
        let v1 = digits_value(s1);
        let p = pow10(l1);
        let w = digits_value(s2.drop_last());
        assert(pow10(s2.len()) == 10 * p);
        assert((v1 * p + w) * 10 == v1 * (10 * p) + w * 10) by (nonlinear_arith);
    }
}

/// Law: digits are read in base ten, most significant first: a single digit
/// is its own value, digits written after others shift those by a power of
/// ten, and `k` digits stay below `10^k`.
pub proof fn law_decimal_digits(s1: Seq<u8>, s2: Seq<u8>, d: u8)
    requires
        all_digits(s1),
        48 <= d <= 57,
    ensures
        digits_value(seq![d]) == d - 48,
        digits_value(s1 + s2) == digits_value(s1) * pow10(s2.len()) + digits_value(s2),
        digits_value(s1) < pow10(s1.len()),
        pow10(1) == 10,
{
    assert(seq![d].drop_last() =~= Seq::<u8>::empty());
    assert(digits_value(seq![d].drop_last()) == 0);
    assert(seq![d].last() == d);
    lemma_digits_value_concat(s1, s2);
    lemma_digits_value_bound(s1);
    assert(pow10(1) == 10 * pow10(0));
}

} // verus!
