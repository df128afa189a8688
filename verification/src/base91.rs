//! APRS base-91 numbers: printable digits, most significant first.

use vstd::prelude::*;

use crate::utils::{append, append_fill};

verus! {

/// The printable byte of a digit: the digit plus 33.
pub fn digit_to_ascii(digit: u8) -> (r: u8)
    requires
        digit <= 222,
    ensures
        r == digit + 33,
{
    digit + 33
}

/// The digit of a printable byte, or `None` for a byte below 33.
pub fn digit_from_ascii(ascii: u8) -> (r: Option<u8>)
    ensures
        r == if ascii >= 33 {
            Some((ascii - 33) as u8)
        } else {
            None
        },
{
    ascii.checked_sub(33)
}

/// Whether every byte of `s` can be a base-91 digit: none is below 33.
pub open spec fn all_printable(s: Seq<u8>) -> bool {
    forall|i: int| 0 <= i < s.len() ==> #[trigger] s[i] >= 33
}

/// The number that the bytes of `s` spell in base 91.
pub open spec fn value91(s: Seq<u8>) -> nat
    decreases s.len(),
{
    if s.len() == 0 {
        0
    } else {
        value91(s.drop_last()) * 91 + (s.last() - 33) as nat
    }
}

/// The base-91 digits of `n` without leading zeros; no digit at all for zero.
pub open spec fn digits91(n: nat) -> Seq<u8>
    decreases n,
{
    if n == 0 {
        Seq::<u8>::empty()
    } else {
        digits91(n / 91).push((33 + n % 91) as u8)
    }
}

/// The digits of `n`, filled with zero digits on the left to `width` bytes if
/// they are fewer.
pub open spec fn encode91(n: nat, width: nat) -> Seq<u8> {
    if digits91(n).len() >= width {
        digits91(n)
    } else {
        Seq::new((width - digits91(n).len()) as nat, |i: int| 33u8) + digits91(n)
    }
}

/// 91 to the power `e`.
pub open spec fn pow91(e: nat) -> nat
    decreases e,
{
    if e == 0 {
        1
    } else {
        91 * pow91((e - 1) as nat)
    }
}

/// With digits up to 222, ninety times the value of a digit string is at
/// most 222 * (91^len - 1).
proof fn lemma_value91_bound(s: Seq<u8>)
    requires
        all_printable(s),
    ensures
        90 * value91(s) <= 222 * (pow91(s.len()) - 1),
    decreases s.len(),
{
    if s.len() > 0 {
        let t = s.drop_last();
        assert(all_printable(t)) by {
            assert forall|i: int| 0 <= i < t.len() implies #[trigger] t[i] >= 33 by {
                assert(t[i] == s[i]);
            }
        }
        lemma_value91_bound(t);
        assert(s.last() == s[s.len() - 1]);
        assert(pow91(s.len()) == 91 * pow91(t.len()));
    }
}

/// Powers of 91 are positive and grow with the exponent.
proof fn lemma_pow91_monotonic(a: nat, b: nat)
    requires
        a <= b,
    ensures
        0 < pow91(a) <= pow91(b),
    decreases b,
{
    if b == 0 {
    } else if a == b {
        lemma_pow91_monotonic((a - 1) as nat, (b - 1) as nat);
    } else {
        lemma_pow91_monotonic(a, (b - 1) as nat);
    }
}

/// The value of 91 to the ninth.
proof fn lemma_pow91_nine()
    ensures
        pow91(9) == 427929800129788411,
{
    assert(pow91(1) == 91) by {
        assert(pow91(0) == 1);
    }
    assert(pow91(2) == 8281);
    assert(pow91(3) == 753571);
    assert(pow91(4) == 68574961);
    assert(pow91(5) == 6240321451);
    assert(pow91(6) == 567869252041);
    assert(pow91(7) == 51676101935731);
    assert(pow91(8) == 4702525276151521);
    assert(pow91(9) == 91 * pow91(8));
}

/// Reads a base-91 number. Returns `None` if a byte is below 33.
pub fn decode_ascii(bytes: &[u8]) -> (r: Option<u64>)
    requires
        bytes.len() <= 9,
    ensures
        r == if all_printable(bytes@) {
            Some(value91(bytes@) as u64)
        } else {
            None
        },
        all_printable(bytes@) ==> value91(bytes@) <= u64::MAX,
{
    let mut val: u64 = 0;
    let mut i: usize = 0;
    while i < bytes.len()
        invariant
            i <= bytes.len() <= 9,
            all_printable(bytes@.subrange(0, i as int)),
            val == value91(bytes@.subrange(0, i as int)),
        decreases bytes.len() - i,
    {
        let b = bytes[i];
        if b < 33 {
            assert(bytes@[i as int] < 33);
            return None;
        }
        let ghost prev = bytes@.subrange(0, i as int);
        let ghost next = bytes@.subrange(0, i + 1);
        proof {
            assert(next.drop_last() =~= prev);
            assert(next.last() == b);
            assert(all_printable(next)) by {
                assert forall|k: int| 0 <= k < next.len() implies #[trigger] next[k] >= 33 by {
                    if k < prev.len() {
                        assert(next[k] == prev[k]);
                    }
                }
            }
            lemma_value91_bound(next);
            lemma_pow91_monotonic(next.len(), 9);
            lemma_pow91_nine();
        }
        val = val * 91 + (b - 33) as u64;
        i += 1;
    }
    proof {
        assert(bytes@.subrange(0, i as int) =~= bytes@);
    }
    Some(val)
}

/// The digits of `n` are all printable and spell `n`.
pub proof fn lemma_digits91(n: nat)
    ensures
        all_printable(digits91(n)),
        value91(digits91(n)) == n,
        forall|i: int| 0 <= i < digits91(n).len() ==> #[trigger] digits91(n)[i] <= 123,
    decreases n,
{
    if n > 0 {
        lemma_digits91(n / 91);
        let t = digits91(n / 91);
        let s = digits91(n);
        assert(s == t.push((33 + n % 91) as u8));
        assert(s.drop_last() =~= t);
        assert forall|i: int| 0 <= i < s.len() implies 33 <= #[trigger] s[i] <= 123 by {
            if i < t.len() {
                assert(s[i] == t[i]);
            }
        }
    }
}

/// Zero digits in front do not change the value.
pub proof fn lemma_value91_leading_zeros(k: nat, s: Seq<u8>)
    ensures
        value91(Seq::new(k, |i: int| 33u8) + s) == value91(s),
    decreases s.len(), k,
{
    let z = Seq::new(k, |i: int| 33u8);
    if s.len() == 0 {
        assert(z + s =~= z);
        if k > 0 {
            let y = Seq::new((k - 1) as nat, |i: int| 33u8);
            assert(z.drop_last() =~= y + Seq::<u8>::empty());
            lemma_value91_leading_zeros((k - 1) as nat, Seq::<u8>::empty());
        }
    } else {
        assert((z + s).drop_last() =~= z + s.drop_last());
        lemma_value91_leading_zeros(k, s.drop_last());
    }
}

/// A number has at most `k` base-91 digits exactly when it is below 91 to
/// the power `k`.
pub proof fn lemma_digits91_len(n: nat, k: nat)
    ensures
        (digits91(n).len() <= k) == (n < pow91(k)),
    decreases n,
{
    if n == 0 {
        lemma_pow91_monotonic(0, k);
    } else {
        assert(digits91(n).len() == digits91(n / 91).len() + 1);
        if k == 0 {
            assert(pow91(0) == 1);
        } else {
            lemma_digits91_len(n / 91, (k - 1) as nat);
            assert(pow91(k) == 91 * pow91((k - 1) as nat));
        }
    }
}

/// What comes of encoding a number reads back as the number, whatever the
/// width. The length is the width, or the number of digits if that is
/// greater.
pub proof fn lemma_base91_round_trip(n: nat, width: nat)
    ensures
        all_printable(encode91(n, width)),
        value91(encode91(n, width)) == n,
        encode91(n, width).len() == if digits91(n).len() >= width {
            digits91(n).len()
        } else {
            width
        },
{
    lemma_digits91(n);
    if digits91(n).len() < width {
        lemma_value91_leading_zeros((width - digits91(n).len()) as nat, digits91(n));
    }
}

/// A number below 91 to the fourth, encoded with width four, gives four
/// bytes that read back as the number.
pub proof fn lemma_base91_round_trip_four(n: nat)
    requires
        n < 68_574_961,
    ensures
        encode91(n, 4).len() == 4,
        all_printable(encode91(n, 4)),
        value91(encode91(n, 4)) == n,
{
    lemma_base91_round_trip(n, 4);
    lemma_digits91_len(n, 4);
    lemma_pow91_nine();
    assert(pow91(4) == 68_574_961) by {
        reveal_with_fuel(pow91, 5);
    }
}

/// Appends `val` in base 91: as few digits as it takes, with zero digits in
/// front of them up to `padding` bytes.
pub fn encode_ascii(val: u64, buf: &mut Vec<u8>, padding: usize)
    ensures
        final(buf)@ == old(buf)@ + encode91(val as nat, padding as nat),
{
    let mut digits: [u8; 10] = [33; 10];
    let mut rest: u64 = val;
    let mut k: usize = 0;
    assert(pow91(0) == 1);
    // digits[10 - k ..] holds the last k digits of val
    while rest > 0
        invariant
            k <= 10,
            rest > 0 ==> k < 10,
            rest * pow91(k as nat) <= val,
            digits91(val as nat) == digits91(rest as nat) + digits@.subrange(10 - k, 10),
        decreases rest,
    {
        let d: u8 = (rest % 91) as u8 + 33;
        let ghost before = digits@;
        let ghost old_rest = rest;
        digits[9 - k] = d;
        rest = rest / 91;
        k += 1;
        proof {
            assert(digits91(old_rest as nat) == digits91(rest as nat).push(d));
            assert(digits91(rest as nat).push(d) + before.subrange(10 - (k - 1), 10)
                =~= digits91(rest as nat) + digits@.subrange(10 - k, 10));
            assert(pow91(k as nat) == 91 * pow91((k - 1) as nat));
            assert(rest * pow91(k as nat) <= old_rest * pow91((k - 1) as nat)) by (nonlinear_arith)
                requires
                    rest * 91 <= old_rest,
                    pow91(k as nat) == 91 * pow91((k - 1) as nat),
                    pow91((k - 1) as nat) >= 0,
            ;
            if rest > 0 && k >= 10 {
                lemma_pow91_monotonic(9, k as nat);
                lemma_pow91_nine();
                assert(pow91(10) == 91 * pow91(9));
                assert(rest * pow91(k as nat) >= pow91(10)) by (nonlinear_arith)
                    requires
                        rest >= 1,
                        k == 10,
                        pow91(k as nat) == pow91(10),
                        pow91(10) >= 0,
                ;
            }
        }
    }
    proof {
        assert(digits91(0) + digits@.subrange(10 - k, 10) =~= digits@.subrange(10 - k, 10));
    }
    if k < padding {
        append_fill(buf, 33, padding - k);
    }
    let tail = vstd::slice::slice_subrange(digits.as_slice(), 10 - k, 10);
    append(buf, tail);
    proof {
        assert(final(buf)@ =~= old(buf)@ + encode91(val as nat, padding as nat)) by {
            if k < padding {
                assert(Seq::new((padding - k) as nat, |i: int| 33u8) =~= Seq::new(
                    (padding as nat - digits91(val as nat).len()) as nat,
                    |i: int| 33u8,
                ));
            }
        }
    }
}

/// Whether every byte of `s` is a base-91 digit: from `!` to `{`.
pub open spec fn all_digits91(s: Seq<u8>) -> bool {
    forall|i: int| 0 <= i < s.len() ==> 33 <= #[trigger] s[i] <= 123
}

/// Base-91 digits spell a number below 91 to their number.
pub proof fn lemma_value91_below_power(s: Seq<u8>)
    requires
        all_digits91(s),
    ensures
        value91(s) < pow91(s.len()),
    decreases s.len(),
{
    if s.len() > 0 {
        let t = s.drop_last();
        assert(all_digits91(t)) by {
            assert forall|i: int| 0 <= i < t.len() implies 33 <= #[trigger] t[i] <= 123 by {
                assert(t[i] == s[i]);
            }
        }
        lemma_value91_below_power(t);
        assert(33 <= s[s.len() - 1] <= 123);
        assert(pow91(s.len()) == 91 * pow91(t.len()));
    }
}

/// Base-91 digits are what encoding their number with their width gives.
pub proof fn lemma_encode91_of_value(s: Seq<u8>)
    requires
        all_digits91(s),
    ensures
        encode91(value91(s), s.len()) == s,
    decreases s.len(),
{
    if s.len() == 0 {
        assert(encode91(0, 0) =~= s);
    } else {
        let t = s.drop_last();
        let c = s.last();
        assert(33 <= s[s.len() - 1] <= 123);
        assert(all_digits91(t)) by {
            assert forall|i: int| 0 <= i < t.len() implies 33 <= #[trigger] t[i] <= 123 by {
                assert(t[i] == s[i]);
            }
        }
        lemma_encode91_of_value(t);
        lemma_value91_below_power(t);
        let vt = value91(t);
        let v = value91(s);
        lemma_digits91_len(vt, t.len());
        assert(v == vt * 91 + (c - 33));
        assert(v / 91 == vt && v % 91 == c - 33);
        if v == 0 {
            assert(vt == 0 && c == 33);
            assert(encode91(0, s.len()) =~= encode91(0, t.len()).push(33u8));
            assert(t.push(c) =~= s);
        } else {
            assert(digits91(v) == digits91(vt).push(c));
            assert(encode91(v, s.len()) =~= encode91(vt, t.len()).push(c));
            assert(t.push(c) =~= s);
        }
    }
}

/// What comes of encoding a number holds base-91 digits only.
pub proof fn lemma_encode91_digits(n: nat, width: nat)
    ensures
        all_digits91(encode91(n, width)),
{
    lemma_digits91(n);
    let e = encode91(n, width);
    let d = digits91(n);
    assert forall|i: int| 0 <= i < e.len() implies 33 <= #[trigger] e[i] <= 123 by {
        if d.len() >= width {
            assert(33 <= d[i] <= 123);
            assert(all_printable(d));
        } else {
            let pad = width - d.len();
            if i >= pad {
                assert(e[i] == d[i - pad]);
                assert(33 <= d[i - pad] <= 123);
                assert(all_printable(d));
            }
        }
    }
}

} // verus!
