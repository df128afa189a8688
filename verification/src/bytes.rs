//! Decimal numbers in byte slices.

use vstd::prelude::*;

verus! {

/// Whether `b` is one of the ASCII digits `0` to `9`.
pub open spec fn is_digit(b: u8) -> bool {
    48 <= b <= 57
}

/// Whether every byte of `s` is an ASCII digit.
pub open spec fn all_digits(s: Seq<u8>) -> bool {
    forall|i: int| 0 <= i < s.len() ==> is_digit(#[trigger] s[i])
}

/// The number that the digits of `s` spell, most significant first.
pub open spec fn digits_value(s: Seq<u8>) -> nat
    decreases s.len(),
{
    if s.len() == 0 {
        0
    } else {
        digits_value(s.drop_last()) * 10 + (s.last() - 48) as nat
    }
}

/// `s` without one leading plus sign.
pub open spec fn strip_plus(s: Seq<u8>) -> Seq<u8> {
    if s.len() > 0 && s[0] == 43 {
        s.subrange(1, s.len() as int)
    } else {
        s
    }
}

/// Whether `s` is an optional plus sign followed by one or more digits.
pub open spec fn is_decimal(s: Seq<u8>) -> bool {
    strip_plus(s).len() > 0 && all_digits(strip_plus(s))
}

/// The number that `s` denotes if it is a decimal no greater than `limit`.
pub open spec fn parse_decimal(s: Seq<u8>, limit: nat) -> Option<nat> {
    if is_decimal(s) && digits_value(strip_plus(s)) <= limit {
        Some(digits_value(strip_plus(s)))
    } else {
        None
    }
}

/// An unsigned integer type that a decimal can be parsed into.
pub trait Unsigned: Sized {
    /// The greatest value of the type.
    spec fn limit() -> nat;

    /// The value as a natural number.
    spec fn to_nat(&self) -> nat;

    /// The greatest value of the type, widened.
    fn limit_u64() -> (m: u64)
        ensures
            m == Self::limit(),
            m <= u32::MAX,
    ;

    /// The value `v` in this type.
    fn from_u64(v: u64) -> (r: Self)
        requires
            v <= Self::limit(),
        ensures
            r.to_nat() == v,
    ;
}

impl Unsigned for u8 {
    open spec fn limit() -> nat {
        255
    }

    open spec fn to_nat(&self) -> nat {
        *self as nat
    }

    fn limit_u64() -> (m: u64) {
        255
    }

    fn from_u64(v: u64) -> (r: Self) {
        v as u8
    }
}

impl Unsigned for u16 {
    open spec fn limit() -> nat {
        65535
    }

    open spec fn to_nat(&self) -> nat {
        *self as nat
    }

    fn limit_u64() -> (m: u64) {
        65535
    }

    fn from_u64(v: u64) -> (r: Self) {
        v as u16
    }
}

impl Unsigned for u32 {
    open spec fn limit() -> nat {
        4294967295
    }

    open spec fn to_nat(&self) -> nat {
        *self as nat
    }

    fn limit_u64() -> (m: u64) {
        4294967295
    }

    fn from_u64(v: u64) -> (r: Self) {
        v as u32
    }
}

/// A prefix of a digit string never spells a greater number than the whole.
pub proof fn lemma_digits_value_prefix(s: Seq<u8>, n: int)
    requires
        0 <= n <= s.len(),
        all_digits(s),
    ensures
        digits_value(s.subrange(0, n)) <= digits_value(s),
    decreases s.len() - n,
{
    if n == s.len() {
        assert(s.subrange(0, n) =~= s);
    } else {
        lemma_digits_value_prefix(s, n + 1);
        let t = s.subrange(0, n + 1);
        assert(t.drop_last() =~= s.subrange(0, n));
        assert(is_digit(s[n]));
    }
}

/// Parses a decimal number: an optional `+`, then digits only.
///
/// Returns `None` when the bytes are no such number or the number does not
/// fit the target type.
pub fn parse_bytes<T: Unsigned>(b: &[u8]) -> (r: Option<T>)
    ensures
        match r {
            Some(v) => parse_decimal(b@, T::limit()) == Some(v.to_nat()),
            None => parse_decimal(b@, T::limit()).is_none(),
        },
{
    let start: usize = if b.len() > 0 && b[0] == 43 { 1 } else { 0 };
    if start == b.len() {
        return None;
    }
    let limit: u64 = T::limit_u64();
    let ghost digits = strip_plus(b@);
    assert(digits =~= b@.subrange(start as int, b@.len() as int));
    let mut acc: u64 = 0;
    let mut i: usize = start;
    while i < b.len()
        invariant
            start <= i <= b.len(),
            digits == strip_plus(b@),
            digits == b@.subrange(start as int, b@.len() as int),
            all_digits(digits.subrange(0, i - start)),
            acc == digits_value(digits.subrange(0, i - start)),
            acc <= limit,
            limit == T::limit(),
            limit <= u32::MAX,
        decreases b.len() - i,
    {
        let c = b[i];
        if c < 48 || c > 57 {
            assert(!is_digit(digits[i - start]));
            return None;
        }
        let ghost next = digits.subrange(0, i - start + 1);
        assert(next.drop_last() =~= digits.subrange(0, i - start));
        assert(next.last() == c);
        assert(all_digits(next)) by {
            assert forall|k: int| 0 <= k < next.len() implies is_digit(#[trigger] next[k]) by {
                if k < next.len() - 1 {
                    assert(next[k] == digits.subrange(0, i - start)[k]);
                }
            }
        }
        let v: u64 = acc * 10 + (c - 48) as u64;
        assert(v == digits_value(next));
        if v > limit {
            proof {
                if all_digits(digits) {
                    lemma_digits_value_prefix(digits, i - start + 1);
                }
            }
            return None;
        }
        acc = v;
        i += 1;
    }
    assert(digits.subrange(0, i - start) =~= digits);
    Some(T::from_u64(acc))
}

/// Parses a field of two bytes that may end in blanks.
///
/// A blank stands for an unknown digit and counts as zero. Returns the number
/// and how many blanks the field holds. With `only_spaces` the field has to be
/// blank altogether.
pub fn parse_bytes_trailing_spaces(b: &[u8; 2], only_spaces: bool) -> (r: Option<(u32, u8)>)
    ensures
        r == blanked_pair(b@, only_spaces),
{
    if only_spaces {
        if b[0] == 32 && b[1] == 32 {
            return Some((0, 2));
        } else {
            return None;
        }
    }
    if b[0] == 32 && b[1] == 32 {
        Some((0, 2))
    } else if b[1] == 32 {
        let one: [u8; 1] = [b[0]];
        assert(one@ =~= seq![b@[0]]);
        match parse_bytes::<u32>(one.as_slice()) {
            Some(v) => {
                proof {
                    lemma_single_digit(b@[0]);
                }
                Some((v * 10, 1))
            },
            None => None,
        }
    } else {
        assert(b@ =~= seq![b@[0], b@[1]]);
        match parse_bytes::<u32>(b.as_slice()) {
            Some(v) => {
                proof {
                    lemma_two_bytes(b@[0], b@[1]);
                }
                Some((v, 0))
            },
            None => None,
        }
    }
}

/// What `parse_bytes_trailing_spaces` returns for a field of two bytes.
pub open spec fn blanked_pair(b: Seq<u8>, only_spaces: bool) -> Option<(u32, u8)>
    recommends
        b.len() == 2,
{
    if b[0] == 32 && b[1] == 32 {
        Some((0u32, 2u8))
    } else if only_spaces {
        None
    } else if b[1] == 32 {
        match parse_decimal(seq![b[0]], 4294967295) {
            Some(v) => Some(((v * 10) as u32, 1u8)),
            None => None,
        }
    } else {
        match parse_decimal(seq![b[0], b[1]], 4294967295) {
            Some(v) => Some((v as u32, 0u8)),
            None => None,
        }
    }
}

/// A field of two bytes holds at most two blanks and spells at most 99.
pub proof fn lemma_blanked_pair_bounds(b: Seq<u8>, only_spaces: bool)
    requires
        b.len() == 2,
    ensures
        blanked_pair(b, only_spaces) matches Some((v, n)) ==> n <= 2 && v <= 99,
{
    lemma_single_digit(b[0]);
    lemma_two_bytes(b[0], b[1]);
}

/// The number that one or two digits spell.
pub proof fn lemma_digits_value_short(c: u8, d: u8)
    ensures
        digits_value(seq![c]) == (c - 48) as nat,
        digits_value(seq![c, d]) == (c - 48) as nat * 10 + (d - 48) as nat,
{
    let one = seq![c];
    let two = seq![c, d];
    assert(one.drop_last() =~= Seq::<u8>::empty());
    assert(two.drop_last() =~= one);
    assert(digits_value(one) == digits_value(one.drop_last()) * 10 + (one.last() - 48) as nat);
    assert(digits_value(two) == digits_value(two.drop_last()) * 10 + (two.last() - 48) as nat);
}

/// A single byte is a decimal exactly when it is a digit, and then spells
/// that digit.
pub proof fn lemma_single_digit(c: u8)
    ensures
        parse_decimal(seq![c], 4294967295) == if is_digit(c) {
            Some((c - 48) as nat)
        } else {
            None
        },
{
    let s = seq![c];
    lemma_digits_value_short(c, c);
    if c == 43 {
        assert(strip_plus(s).len() == 0);
    } else {
        assert(strip_plus(s) =~= s);
        if !is_digit(c) {
            assert(!is_digit(s[0]));
        }
    }
}

/// Two bytes are a decimal exactly when both are digits, or the first is a
/// plus sign and the second a digit.
pub proof fn lemma_two_bytes(c: u8, d: u8)
    ensures
        parse_decimal(seq![c, d], 4294967295) == if c == 43 && is_digit(d) {
            Some((d - 48) as nat)
        } else if is_digit(c) && is_digit(d) {
            Some(((c - 48) * 10 + (d - 48)) as nat)
        } else {
            None
        },
        parse_decimal(seq![c, d], 255) == parse_decimal(seq![c, d], 4294967295),
{
    let s = seq![c, d];
    lemma_digits_value_short(c, d);
    lemma_digits_value_short(d, d);
    if c == 43 {
        assert(strip_plus(s) =~= seq![d]);
        if !is_digit(d) {
            assert(!is_digit(seq![d][0]));
        }
    } else {
        assert(strip_plus(s) =~= s);
        if !is_digit(c) {
            assert(!is_digit(s[0]));
        } else if !is_digit(d) {
            assert(!is_digit(s[1]));
        }
    }
}

/// The decimal digits of `n`, without leading zeros; `0` for zero.
pub open spec fn decimal_digits(n: nat) -> Seq<u8>
    decreases n,
{
    if n < 10 {
        seq![(48 + n) as u8]
    } else {
        decimal_digits(n / 10).push((48 + n % 10) as u8)
    }
}

/// The last `width` decimal digits of `n`, with leading zeros.
pub open spec fn fixed_digits(n: nat, width: nat) -> Seq<u8>
    decreases width,
{
    if width == 0 {
        Seq::<u8>::empty()
    } else {
        fixed_digits(n / 10, (width - 1) as nat).push((48 + n % 10) as u8)
    }
}

/// Ten to the power `e`.
pub open spec fn pow10(e: nat) -> nat
    decreases e,
{
    if e == 0 {
        1
    } else {
        10 * pow10((e - 1) as nat)
    }
}

/// `fixed_digits` gives `width` digits that spell `n` modulo ten to the `width`.
pub proof fn lemma_fixed_digits(n: nat, width: nat)
    ensures
        fixed_digits(n, width).len() == width,
        all_digits(fixed_digits(n, width)),
        digits_value(fixed_digits(n, width)) == n % pow10(width),
    decreases width,
{
    if width == 0 {
        assert(pow10(0) == 1);
    } else {
        let w = (width - 1) as nat;
        lemma_fixed_digits(n / 10, w);
        let f = fixed_digits(n, width);
        let g = fixed_digits(n / 10, w);
        assert(f == g.push((48 + n % 10) as u8));
        assert(f.drop_last() =~= g);
        assert(all_digits(f)) by {
            assert forall|k: int| 0 <= k < f.len() implies is_digit(#[trigger] f[k]) by {
                if k < g.len() {
                    assert(f[k] == g[k]);
                }
            }
        }
        assert(pow10(width) == 10 * pow10(w));
        lemma_pow10_positive(w);
        assert(digits_value(f) == digits_value(g) * 10 + (n % 10));
        lemma_mod_step(n, pow10(w));
    }
}

/// A power of ten is positive.
pub proof fn lemma_pow10_positive(e: nat)
    ensures
        pow10(e) > 0,
    decreases e,
{
    if e > 0 {
        lemma_pow10_positive((e - 1) as nat);
    }
}

/// Taking a number modulo `10 * p` digit by digit.
pub proof fn lemma_mod_step(n: nat, p: nat)
    requires
        p > 0,
    ensures
        n % (10 * p) == ((n / 10) % p) * 10 + n % 10,
{
    let q = n / 10;
    let r = n % 10;
    let a = q / p;
    let b = q % p;
    assert(n == q * 10 + r);
    assert(q == a * p + b) by {
        vstd::arithmetic::div_mod::lemma_fundamental_div_mod(q as int, p as int);
        assert(p * a == a * p) by (nonlinear_arith);
    }
    assert(n == a * (10 * p) + (b * 10 + r)) by (nonlinear_arith)
        requires
            n == q * 10 + r,
            q == a * p + b,
    ;
    assert(0 <= b * 10 + r < 10 * p) by (nonlinear_arith)
        requires
            0 <= b < p,
            0 <= r < 10,
    ;
    vstd::arithmetic::div_mod::lemma_fundamental_div_mod_converse(
        n as int,
        (10 * p) as int,
        a as int,
        (b * 10 + r) as int,
    );
}

/// Appends the last `width` decimal digits of `n`, with leading zeros.
pub fn push_fixed(buf: &mut Vec<u8>, n: u32, width: usize)
    requires
        width <= 10,
    ensures
        final(buf)@ == old(buf)@ + fixed_digits(n as nat, width as nat),
{
    let mut digits: [u8; 10] = [48; 10];
    let mut rest: u32 = n;
    let mut k: usize = 0;
    // digits[10 - k ..] holds the last k digits of n
    while k < width
        invariant
            k <= width <= 10,
            forall|w: nat| #![trigger fixed_digits(n as nat, k as nat + w)]
                fixed_digits(n as nat, k as nat + w) == fixed_digits(rest as nat, w)
                    + digits@.subrange(10 - k, 10),
        decreases width - k,
    {
        let d: u8 = (rest % 10) as u8 + 48;
        let ghost before = digits@;
        let ghost old_rest = rest;
        digits[9 - k] = d;
        rest = rest / 10;
        k += 1;
        proof {
            assert forall|w: nat| #![trigger fixed_digits(n as nat, k as nat + w)]
                fixed_digits(n as nat, k as nat + w) == fixed_digits(rest as nat, w)
                    + digits@.subrange(10 - k, 10) by {
                assert(fixed_digits(n as nat, (k - 1) as nat + (w + 1)) == fixed_digits(
                    old_rest as nat,
                    w + 1,
                ) + before.subrange(10 - (k - 1), 10));
                assert((k - 1) as nat + (w + 1) == k as nat + w);
                assert(fixed_digits(old_rest as nat, w + 1) == fixed_digits(rest as nat, w).push(
                    d,
                ));
                assert(fixed_digits(rest as nat, w).push(d) + before.subrange(10 - (k - 1), 10)
                    =~= fixed_digits(rest as nat, w) + digits@.subrange(10 - k, 10));
            }
        }
    }
    proof {
        assert(fixed_digits(n as nat, k as nat + 0) == fixed_digits(rest as nat, 0)
            + digits@.subrange(10 - k, 10));
        assert(fixed_digits(rest as nat, 0) + digits@.subrange(10 - k, 10) =~= digits@.subrange(
            10 - k,
            10,
        ));
    }
    let tail = vstd::slice::slice_subrange(digits.as_slice(), 10 - width, 10);
    crate::utils::append(buf, tail);
}

/// A number written with `width` digits, which it fits, reads back as
/// itself.
pub proof fn lemma_parse_fixed_digits(n: nat, width: nat, limit: nat)
    requires
        width > 0,
        n < pow10(width),
        n <= limit,
    ensures
        parse_decimal(fixed_digits(n, width), limit) == Some(n),
{
    lemma_fixed_digits(n, width);
    let f = fixed_digits(n, width);
    assert(is_digit(f[0]));
    assert(strip_plus(f) == f);
    vstd::arithmetic::div_mod::lemma_small_mod(n, pow10(width));
}

/// The values of the first powers of ten.
pub proof fn lemma_pow10_values()
    ensures
        pow10(0) == 1,
        pow10(1) == 10,
        pow10(2) == 100,
        pow10(3) == 1000,
        pow10(4) == 10000,
{
    reveal_with_fuel(pow10, 5);
}

/// Digits are the digits, in their number, of the number that they spell.
pub proof fn lemma_fixed_digits_of_value(s: Seq<u8>)
    requires
        all_digits(s),
    ensures
        fixed_digits(digits_value(s), s.len()) == s,
    decreases s.len(),
{
    if s.len() == 0 {
        assert(fixed_digits(digits_value(s), 0) =~= s);
    } else {
        let t = s.drop_last();
        assert(all_digits(t)) by {
            assert forall|i: int| 0 <= i < t.len() implies is_digit(#[trigger] t[i]) by {
                assert(t[i] == s[i]);
            }
        }
        lemma_fixed_digits_of_value(t);
        let n = digits_value(s);
        assert(is_digit(s[s.len() - 1]));
        assert(n == digits_value(t) * 10 + (s.last() - 48));
        assert(n / 10 == digits_value(t));
        assert(n % 10 == s.last() - 48);
        assert(fixed_digits(n, s.len()) =~= s);
    }
}

/// Digits spell a number below ten to their number.
pub proof fn lemma_digits_value_bound(s: Seq<u8>)
    requires
        all_digits(s),
    ensures
        digits_value(s) < pow10(s.len()),
    decreases s.len(),
{
    if s.len() > 0 {
        let t = s.drop_last();
        assert(all_digits(t)) by {
            assert forall|i: int| 0 <= i < t.len() implies is_digit(#[trigger] t[i]) by {
                assert(t[i] == s[i]);
            }
        }
        lemma_digits_value_bound(t);
        assert(is_digit(s[s.len() - 1]));
        assert(pow10(s.len()) == 10 * pow10(t.len()));
    }
}

/// One or more digits that spell a number within the limit are a decimal
/// with that number for its value.
pub proof fn lemma_parse_digits(s: Seq<u8>, limit: nat)
    requires
        s.len() > 0,
        all_digits(s),
        digits_value(s) <= limit,
    ensures
        parse_decimal(s, limit) == Some(digits_value(s)),
{
    assert(is_digit(s[0]));
    assert(strip_plus(s) == s);
}

/// The two digits of a number below a hundred.
pub proof fn lemma_fixed_two(n: nat)
    requires
        n < 100,
    ensures
        fixed_digits(n, 2) == seq![(48 + n / 10) as u8, (48 + n % 10) as u8],
{
    reveal_with_fuel(fixed_digits, 3);
    assert(fixed_digits(n, 2) =~= seq![(48 + n / 10) as u8, (48 + n % 10) as u8]);
}

/// What a field of two digits, of a digit and a blank, and of two blanks
/// holds.
pub proof fn lemma_blanked_pair(c: u8, d: u8, only_spaces: bool)
    ensures
        c == 32 && d == 32 ==> blanked_pair(seq![c, d], only_spaces) == Some((0u32, 2u8)),
        is_digit(c) && d == 32 && !only_spaces ==> blanked_pair(seq![c, d], only_spaces) == Some(
            ((10 * (c - 48)) as u32, 1u8),
        ),
        is_digit(c) && is_digit(d) && !only_spaces ==> blanked_pair(seq![c, d], only_spaces)
            == Some(((10 * (c - 48) + (d - 48)) as u32, 0u8)),
{
    lemma_single_digit(c);
    lemma_two_bytes(c, d);
}

/// What a field of two bytes holds has at most two blanks and a number of
/// at most 99; a blank makes the last digit zero, two blanks the number,
/// and a field that has to be blank holds two.
pub proof fn lemma_blanked_pair_shape(c: u8, d: u8, only_spaces: bool)
    ensures
        blanked_pair(seq![c, d], only_spaces) matches Some((v, n)) ==> {
            &&& n <= 2
            &&& v <= 99
            &&& (n == 2 ==> v == 0 && c == 32 && d == 32)
            &&& (n == 1 ==> v % 10 == 0 && is_digit(c) && d == 32)
            &&& (n == 0 ==> d != 32 && c != 32)
            &&& (only_spaces ==> n == 2)
        },
{
    lemma_single_digit(c);
    lemma_two_bytes(c, d);
}

/// A decimal that ends in the digit zero is a multiple of ten, and one of
/// two zeros is zero.
pub proof fn lemma_parse_trailing_zero(s: Seq<u8>, limit: nat)
    requires
        s.len() >= 2,
        s.last() == 48,
        parse_decimal(s, limit).is_some(),
    ensures
        parse_decimal(s, limit).unwrap() % 10 == 0,
        s.len() == 2 && s[0] == 48 ==> parse_decimal(s, limit).unwrap() == 0,
{
    let d = strip_plus(s);
    assert(d.last() == 48);
    assert(digits_value(d) == digits_value(d.drop_last()) * 10 + (d.last() - 48));
    if s.len() == 2 && s[0] == 48 {
        lemma_digits_value_short(48, 48);
        assert(d =~= seq![48u8, 48u8]);
    }
}

/// Powers of ten grow with the exponent.
pub proof fn lemma_pow10_monotonic(a: nat, b: nat)
    requires
        a <= b,
    ensures
        pow10(a) <= pow10(b),
    decreases b,
{
    if a < b {
        lemma_pow10_monotonic(a, (b - 1) as nat);
        lemma_pow10_positive((b - 1) as nat);
    }
}

/// A decimal is below ten to the number of its bytes.
pub proof fn lemma_parse_bound(s: Seq<u8>, limit: nat)
    requires
        parse_decimal(s, limit).is_some(),
    ensures
        parse_decimal(s, limit).unwrap() < pow10(s.len()),
{
    let d = strip_plus(s);
    lemma_digits_value_bound(d);
    lemma_pow10_monotonic(d.len(), s.len());
}

} // verus!
