//! Timestamps of seven bytes.

use vstd::prelude::*;

use crate::bytes::{all_digits, fixed_digits, is_digit, parse_bytes, parse_decimal, push_fixed};
use crate::error::{DecodeError, DecodeErrorView};
use crate::utils::{append, copy_all};

verus! {

/// Day of month, hour and minute in UTC, each at most 99.
#[derive(Eq, PartialEq, Debug, Copy, Clone)]
pub struct DhmTimestamp(u8, u8, u8);

impl View for DhmTimestamp {
    type V = (u8, u8, u8);

    /// Day, hour and minute.
    closed spec fn view(&self) -> (u8, u8, u8) {
        (self.0, self.1, self.2)
    }
}

impl DhmTimestamp {
    #[verifier::type_invariant]
    closed spec fn inv(self) -> bool {
        self.0 <= 99 && self.1 <= 99 && self.2 <= 99
    }

    /// Creates a timestamp; `None` if a part is above 99.
    pub fn new(d: u8, h: u8, m: u8) -> (r: Option<Self>)
        ensures
            r.is_some() == (d <= 99 && h <= 99 && m <= 99),
            r matches Some(t) ==> t@ == (d, h, m),
    {
        if d <= 99 && h <= 99 && m <= 99 {
            Some(Self(d, h, m))
        } else {
            None
        }
    }

    /// The timestamp `t` if it is one of day, hour and minute.
    pub fn from_timestamp(t: &Timestamp) -> (r: Option<Self>)
        ensures
            r.is_some() == (t@ matches TimestampView::DDHHMM(d, h, m) && d <= 99 && h <= 99 && m
                <= 99),
            r matches Some(x) ==> t@ == TimestampView::DDHHMM(x@.0, x@.1, x@.2),
    {
        match t {
            Timestamp::DDHHMM(d, h, m) => Self::new(*d, *h, *m),
            _ => None,
        }
    }

    /// This timestamp as a `Timestamp`.
    pub fn to_timestamp(&self) -> (r: Timestamp)
        ensures
            r@ == TimestampView::DDHHMM(self@.0, self@.1, self@.2),
            self@.0 <= 99 && self@.1 <= 99 && self@.2 <= 99,
    {
        proof {
            use_type_invariant(self);
        }
        Timestamp::DDHHMM(self.0, self.1, self.2)
    }
}

/// The time that a report was made.
#[derive(Eq, PartialEq, Debug)]
pub enum Timestamp {
    /// Day of month, hour and minute in UTC.
    DDHHMM(u8, u8, u8),
    /// Hour, minute and second in UTC.
    HHMMSS(u8, u8, u8),
    /// A format that is not interpreted: the seven bytes as they came.
    Unsupported(Vec<u8>),
}

/// The mathematical value of a `Timestamp`.
pub enum TimestampView {
    DDHHMM(u8, u8, u8),
    HHMMSS(u8, u8, u8),
    Unsupported(Seq<u8>),
}

impl View for Timestamp {
    type V = TimestampView;

    open spec fn view(&self) -> TimestampView {
        match *self {
            Timestamp::DDHHMM(d, h, m) => TimestampView::DDHHMM(d, h, m),
            Timestamp::HHMMSS(h, m, s) => TimestampView::HHMMSS(h, m, s),
            Timestamp::Unsupported(b) => TimestampView::Unsupported(b@),
        }
    }
}

impl Clone for Timestamp {
    fn clone(&self) -> (r: Self)
        ensures
            r@ == self@,
    {
        match self {
            Timestamp::DDHHMM(d, h, m) => Timestamp::DDHHMM(*d, *h, *m),
            Timestamp::HHMMSS(h, m, s) => Timestamp::HHMMSS(*h, *m, *s),
            Timestamp::Unsupported(b) => Timestamp::Unsupported(copy_all(b.as_slice())),
        }
    }
}

/// A part of a timestamp in decimal: two digits, or three from 100 on.
pub open spec fn at_least_two_digits(n: u8) -> Seq<u8> {
    if n < 100 {
        fixed_digits(n as nat, 2)
    } else {
        fixed_digits(n as nat, 3)
    }
}

/// The bytes of a timestamp: three numbers and `z` or `h`, or the bytes it
/// holds.
pub open spec fn timestamp_bytes(t: TimestampView) -> Seq<u8> {
    match t {
        TimestampView::DDHHMM(d, h, m) => at_least_two_digits(d) + at_least_two_digits(h)
            + at_least_two_digits(m) + seq![122u8],
        TimestampView::HHMMSS(h, m, s) => at_least_two_digits(h) + at_least_two_digits(m)
            + at_least_two_digits(s) + seq![104u8],
        TimestampView::Unsupported(b) => b,
    }
}

/// The timestamp that seven bytes spell.
///
/// Bytes that end in `/` are kept as they are. Else the bytes are three
/// numbers of two bytes and `z` or `Z` for day, hour and minute, `h` or `H`
/// for hour, minute and second. `None` for anything else.
pub open spec fn decode_timestamp(b: Seq<u8>) -> Option<TimestampView> {
    if b.len() != 7 {
        None
    } else if b[6] == 47 {
        Some(TimestampView::Unsupported(b))
    } else {
        match (
            parse_decimal(b.subrange(0, 2), 255),
            parse_decimal(b.subrange(2, 4), 255),
            parse_decimal(b.subrange(4, 6), 255),
        ) {
            (Some(one), Some(two), Some(three)) => if b[6] == 122 || b[6] == 90 {
                Some(TimestampView::DDHHMM(one as u8, two as u8, three as u8))
            } else if b[6] == 104 || b[6] == 72 {
                Some(TimestampView::HHMMSS(one as u8, two as u8, three as u8))
            } else {
                None
            },
            _ => None,
        }
    }
}

/// Whether seven bytes are a timestamp as `encode` writes it: six digits and
/// `z` or `h`, or anything that ends in `/`.
pub open spec fn canonical_timestamp(b: Seq<u8>) -> bool {
    b.len() == 7 && (b[6] == 47 || ((b[6] == 122 || b[6] == 104) && all_digits(b.subrange(0, 6))))
}

/// A timestamp written as `encode` writes it decodes to a timestamp that is
/// written the same.
pub proof fn lemma_timestamp_round_trip(b: Seq<u8>)
    requires
        canonical_timestamp(b),
    ensures
        decode_timestamp(b) matches Some(t) && timestamp_bytes(t) == b,
{
    if b[6] != 47 {
        let six = b.subrange(0, 6);
        let one = b.subrange(0, 2);
        let two = b.subrange(2, 4);
        let three = b.subrange(4, 6);
        assert(all_digits(one) && all_digits(two) && all_digits(three)) by {
            assert forall|i: int| 0 <= i < 2 implies is_digit(#[trigger] one[i]) && is_digit(
                two[i],
            ) && is_digit(three[i]) by {
                assert(one[i] == six[i]);
                assert(two[i] == six[i + 2]);
                assert(three[i] == six[i + 4]);
            }
        }
        crate::bytes::lemma_pow10_values();
        crate::bytes::lemma_digits_value_bound(one);
        crate::bytes::lemma_digits_value_bound(two);
        crate::bytes::lemma_digits_value_bound(three);
        crate::bytes::lemma_parse_digits(one, 255);
        crate::bytes::lemma_parse_digits(two, 255);
        crate::bytes::lemma_parse_digits(three, 255);
        crate::bytes::lemma_fixed_digits_of_value(one);
        crate::bytes::lemma_fixed_digits_of_value(two);
        crate::bytes::lemma_fixed_digits_of_value(three);
        let t = decode_timestamp(b).unwrap();
        assert(timestamp_bytes(t) =~= b);
    }
}

/// Whether a timestamp is one that `decode` gives: with no part above 99,
/// or seven bytes that end in `/`.
pub open spec fn decoded_timestamp(t: TimestampView) -> bool {
    match t {
        TimestampView::DDHHMM(a, b, c) => a <= 99 && b <= 99 && c <= 99,
        TimestampView::HHMMSS(a, b, c) => a <= 99 && b <= 99 && c <= 99,
        TimestampView::Unsupported(s) => s.len() == 7 && s[6] == 47,
    }
}

/// What `decode` gives is a timestamp with no part above 99, or seven bytes
/// that end in `/`.
pub proof fn lemma_decoded_timestamp(b: Seq<u8>)
    requires
        decode_timestamp(b).is_some(),
    ensures
        decoded_timestamp(decode_timestamp(b).unwrap()),
{
    if b[6] != 47 {
        let one = b.subrange(0, 2);
        let two = b.subrange(2, 4);
        let three = b.subrange(4, 6);
        assert(one =~= seq![b[0], b[1]]);
        assert(two =~= seq![b[2], b[3]]);
        assert(three =~= seq![b[4], b[5]]);
        crate::bytes::lemma_two_bytes(b[0], b[1]);
        crate::bytes::lemma_two_bytes(b[2], b[3]);
        crate::bytes::lemma_two_bytes(b[4], b[5]);
    }
}

/// A timestamp that `decode` gives is written as seven bytes in the written
/// form, which read back as the timestamp.
pub proof fn lemma_timestamp_decodes(t: TimestampView)
    requires
        decoded_timestamp(t),
    ensures
        canonical_timestamp(timestamp_bytes(t)),
        decode_timestamp(timestamp_bytes(t)) == Some(t),
{
    let b = timestamp_bytes(t);
    match t {
        TimestampView::Unsupported(s) => {},
        TimestampView::DDHHMM(x, y, z) => {
            lemma_three_numbers(x, y, z, 122);
        },
        TimestampView::HHMMSS(x, y, z) => {
            lemma_three_numbers(x, y, z, 104);
        },
    }
}

/// Three numbers up to 99, written with two digits each and a letter behind
/// them, are six digits that read back as the numbers.
proof fn lemma_three_numbers(x: u8, y: u8, z: u8, letter: u8)
    requires
        x <= 99,
        y <= 99,
        z <= 99,
    ensures
        ({
            let b = fixed_digits(x as nat, 2) + fixed_digits(y as nat, 2) + fixed_digits(
                z as nat,
                2,
            ) + seq![letter];
            &&& b.len() == 7
            &&& b[6] == letter
            &&& all_digits(b.subrange(0, 6))
            &&& parse_decimal(b.subrange(0, 2), 255) == Some(x as nat)
            &&& parse_decimal(b.subrange(2, 4), 255) == Some(y as nat)
            &&& parse_decimal(b.subrange(4, 6), 255) == Some(z as nat)
        }),
{
    let fx = fixed_digits(x as nat, 2);
    let fy = fixed_digits(y as nat, 2);
    let fz = fixed_digits(z as nat, 2);
    let b = fx + fy + fz + seq![letter];
    crate::bytes::lemma_pow10_values();
    crate::bytes::lemma_fixed_digits(x as nat, 2);
    crate::bytes::lemma_fixed_digits(y as nat, 2);
    crate::bytes::lemma_fixed_digits(z as nat, 2);
    crate::bytes::lemma_parse_fixed_digits(x as nat, 2, 255);
    crate::bytes::lemma_parse_fixed_digits(y as nat, 2, 255);
    crate::bytes::lemma_parse_fixed_digits(z as nat, 2, 255);
    assert(b.subrange(0, 2) =~= fx);
    assert(b.subrange(2, 4) =~= fy);
    assert(b.subrange(4, 6) =~= fz);
    let six = b.subrange(0, 6);
    assert forall|i: int| 0 <= i < 6 implies is_digit(#[trigger] six[i]) by {
        if i < 2 {
            assert(six[i] == fx[i]);
        } else if i < 4 {
            assert(six[i] == fy[i - 2]);
        } else {
            assert(six[i] == fz[i - 4]);
        }
    }
}

/// Appends `n` in decimal with at least two digits.
fn push_two_digits(buf: &mut Vec<u8>, n: u8)
    ensures
        final(buf)@ == old(buf)@ + at_least_two_digits(n),
{
    if n < 100 {
        push_fixed(buf, n as u32, 2);
    } else {
        push_fixed(buf, n as u32, 3);
    }
}

impl Timestamp {
    /// Day of month, hour and minute in UTC; `None` if a part is above 99.
    pub fn new_dhm(d: u8, h: u8, m: u8) -> (r: Option<Self>)
        ensures
            r.is_some() == (d <= 99 && h <= 99 && m <= 99),
            r matches Some(t) ==> t@ == TimestampView::DDHHMM(d, h, m),
    {
        if d <= 99 && h <= 99 && m <= 99 {
            Some(Self::DDHHMM(d, h, m))
        } else {
            None
        }
    }

    /// Hour, minute and second in UTC; `None` if a part is above 99.
    pub fn new_hms(h: u8, m: u8, s: u8) -> (r: Option<Self>)
        ensures
            r.is_some() == (h <= 99 && m <= 99 && s <= 99),
            r matches Some(t) ==> t@ == TimestampView::HHMMSS(h, m, s),
    {
        if h <= 99 && m <= 99 && s <= 99 {
            Some(Self::HHMMSS(h, m, s))
        } else {
            None
        }
    }

    /// Appends the timestamp.
    pub fn encode(&self, buf: &mut Vec<u8>)
        ensures
            final(buf)@ == old(buf)@ + timestamp_bytes(self@),
    {
        match self {
            Self::DDHHMM(d, h, m) => {
                push_two_digits(buf, *d);
                push_two_digits(buf, *h);
                push_two_digits(buf, *m);
                buf.push(122);
                assert(final(buf)@ =~= old(buf)@ + timestamp_bytes(self@));
            },
            Self::HHMMSS(h, m, s) => {
                push_two_digits(buf, *h);
                push_two_digits(buf, *m);
                push_two_digits(buf, *s);
                buf.push(104);
                assert(final(buf)@ =~= old(buf)@ + timestamp_bytes(self@));
            },
            Self::Unsupported(s) => {
                append(buf, s.as_slice());
            },
        }
    }

    /// Reads a timestamp of seven bytes.
    pub fn decode(b: &[u8]) -> (r: Result<Self, DecodeError>)
        ensures
            match r {
                Ok(t) => decode_timestamp(b@) == Some(t@),
                Err(e) => decode_timestamp(b@).is_none() && e@ == DecodeErrorView::InvalidTimestamp(
                    b@,
                ),
            },
    {
        if b.len() != 7 {
            return Err(DecodeError::InvalidTimestamp(copy_all(b)));
        }
        if b[6] == 47 {
            return Ok(Timestamp::Unsupported(copy_all(b)));
        }
        let one = parse_bytes::<u8>(vstd::slice::slice_subrange(b, 0, 2));
        let two = parse_bytes::<u8>(vstd::slice::slice_subrange(b, 2, 4));
        let three = parse_bytes::<u8>(vstd::slice::slice_subrange(b, 4, 6));
        match (one, two, three) {
            (Some(x), Some(y), Some(z)) => {
                if b[6] == 122 || b[6] == 90 {
                    Ok(Timestamp::DDHHMM(x, y, z))
                } else if b[6] == 104 || b[6] == 72 {
                    Ok(Timestamp::HHMMSS(x, y, z))
                } else {
                    Err(DecodeError::InvalidTimestamp(copy_all(b)))
                }
            },
            _ => Err(DecodeError::InvalidTimestamp(copy_all(b))),
        }
    }
}

impl TryFrom<&[u8]> for Timestamp {
    type Error = DecodeError;

    /// Reads a timestamp of seven bytes, as `decode` does.
    fn try_from(b: &[u8]) -> (r: Result<Self, DecodeError>)
        ensures
            match r {
                Ok(t) => decode_timestamp(b@) == Some(t@),
                Err(e) => decode_timestamp(b@).is_none() && e@ == DecodeErrorView::InvalidTimestamp(
                    b@,
                ),
            },
    {
        Timestamp::decode(b)
    }
}

impl vstd::std_specs::convert::TryFromSpecImpl<&[u8]> for Timestamp {
    /// The result holds bytes, of which only the values are specified: see
    /// the contract of `try_from`.
    open spec fn obeys_try_from_spec() -> bool {
        false
    }

    open spec fn try_from_spec(b: &[u8]) -> Result<Self, DecodeError> {
        arbitrary()
    }
}

impl From<DhmTimestamp> for Timestamp {
    fn from(t: DhmTimestamp) -> (r: Self) {
        t.to_timestamp()
    }
}

impl vstd::std_specs::convert::FromSpecImpl<DhmTimestamp> for Timestamp {
    open spec fn obeys_from_spec() -> bool {
        true
    }

    open spec fn from_spec(t: DhmTimestamp) -> Self {
        Timestamp::DDHHMM(t@.0, t@.1, t@.2)
    }
}

impl TryFrom<Timestamp> for DhmTimestamp {
    type Error = ();

    /// The timestamp if it is one of day, hour and minute with no part above
    /// 99.
    fn try_from(t: Timestamp) -> (r: Result<Self, ()>)
        ensures
            r.is_ok() == (t@ matches TimestampView::DDHHMM(d, h, m) && d <= 99 && h <= 99 && m
                <= 99),
            r matches Ok(x) ==> t@ == TimestampView::DDHHMM(x@.0, x@.1, x@.2),
    {
        match DhmTimestamp::from_timestamp(&t) {
            Some(x) => Ok(x),
            None => Err(()),
        }
    }
}

impl vstd::std_specs::convert::TryFromSpecImpl<Timestamp> for DhmTimestamp {
    /// See the contract of `try_from`.
    open spec fn obeys_try_from_spec() -> bool {
        false
    }

    open spec fn try_from_spec(t: Timestamp) -> Result<Self, ()> {
        arbitrary()
    }
}

} // verus!
