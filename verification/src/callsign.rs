//! Station callsigns, in text and in AX.25 address fields.

use vstd::prelude::*;
use vstd::string::StringSliceAdditionalSpecFns;

use crate::bytes::{decimal_digits, parse_bytes, parse_decimal};
use crate::error::EncodeError;
use crate::utils::{append, copy_all, copy_range, find_byte, first_index};

verus! {

/// The role of a callsign in an AX.25 address.
#[derive(Debug, Clone, Copy, PartialEq, Eq)]
pub enum CallsignField {
    Destination,
    Source,
    /// A digipeater, with its "has been repeated" flag.
    Via(bool),
}

/// A callsign with an optional SSID.
#[derive(Debug, PartialEq, Eq)]
pub struct Callsign {
    call: Vec<u8>,
    ssid: Option<Vec<u8>>,
}

/// The mathematical value of a `Callsign`: the bytes of its two parts.
pub struct CallsignView {
    pub call: Seq<u8>,
    pub ssid: Option<Seq<u8>>,
}

impl View for Callsign {
    type V = CallsignView;

    closed spec fn view(&self) -> CallsignView {
        CallsignView {
            call: self.call@,
            ssid: match self.ssid {
                Some(s) => Some(s@),
                None => None,
            },
        }
    }
}

impl Clone for Callsign {
    fn clone(&self) -> (r: Self)
        ensures
            r@ == self@,
    {
        let ssid = match &self.ssid {
            Some(s) => Some(copy_all(s.as_slice())),
            None => None,
        };
        Callsign { call: copy_all(self.call.as_slice()), ssid }
    }
}

/// Whether `b` is an ASCII letter or digit.
pub open spec fn is_alnum(b: u8) -> bool {
    48 <= b <= 57 || 65 <= b <= 90 || 97 <= b <= 122
}

/// `b` with a lower-case ASCII letter made upper case.
pub open spec fn upper(b: u8) -> u8 {
    if 97 <= b <= 122 {
        (b - 32) as u8
    } else {
        b
    }
}

/// Whether an SSID is written: one that is neither empty nor `0`.
pub open spec fn ssid_shown(s: Seq<u8>) -> bool {
    s.len() > 0 && s != seq![48u8]
}

/// The text of a callsign that has the parts `call` and `ssid`: `BASE` or
/// `BASE-SSID`.
///
/// An SSID that is empty or `0` is left out.
pub open spec fn display_bytes(c: CallsignView) -> Seq<u8> {
    match c.ssid {
        Some(s) if ssid_shown(s) => c.call + seq![45u8] + s,
        _ => c.call,
    }
}

/// The text of a hop: the callsign, and `*` if it was heard.
pub open spec fn textual_bytes(c: CallsignView, heard: bool) -> Seq<u8> {
    if heard {
        display_bytes(c) + seq![42u8]
    } else {
        display_bytes(c)
    }
}

/// Splits text at its first hyphen into base and SSID.
///
/// Text without a hyphen is a base alone. `None` if either side of the hyphen
/// is empty.
pub open spec fn split_callsign(b: Seq<u8>) -> Option<CallsignView> {
    let i = first_index(b, 45);
    if i == b.len() {
        Some(CallsignView { call: b, ssid: None })
    } else if i == 0 || i + 1 == b.len() {
        None
    } else {
        Some(CallsignView { call: b.subrange(0, i), ssid: Some(b.subrange(i + 1, b.len() as int)) })
    }
}

/// The hop that `b` spells: a callsign and whether a `*` follows it.
///
/// `None` if the callsign is not UTF-8 or either of its sides is empty.
pub open spec fn decode_textual_spec(b: Seq<u8>) -> Option<(CallsignView, bool)> {
    let heard = b.len() > 0 && b.last() == 42;
    let body = if heard {
        b.drop_last()
    } else {
        b
    };
    if !vstd::utf8::valid_utf8(body) {
        None
    } else {
        match split_callsign(body) {
            Some(c) => Some((c, heard)),
            None => None,
        }
    }
}

/// The text of a callsign that was split from text is that text, unless its
/// SSID is `0`.
pub proof fn lemma_callsign_round_trip(b: Seq<u8>)
    requires
        split_callsign(b) matches Some(c) && (c.ssid matches Some(s) ==> s != seq![48u8]),
    ensures
        display_bytes(split_callsign(b).unwrap()) == b,
{
    let i = first_index(b, 45);
    crate::utils::lemma_first_index_bounds(b, 45);
    let c = split_callsign(b).unwrap();
    if i < b.len() {
        assert(c.call + seq![45u8] + c.ssid.unwrap() =~= b);
    }
}

/// A hop written as `encode_textual` writes it decodes to a callsign and a
/// flag that are written the same.
pub proof fn lemma_hop_round_trip(b: Seq<u8>)
    requires
        decode_textual_spec(b) matches Some((c, _)) && (c.ssid matches Some(s) ==> s != seq![48u8]),
    ensures
        textual_bytes(decode_textual_spec(b).unwrap().0, decode_textual_spec(b).unwrap().1) == b,
{
    let heard = b.len() > 0 && b.last() == 42;
    if heard {
        lemma_callsign_round_trip(b.drop_last());
        assert(b.drop_last() + seq![42u8] =~= b);
    } else {
        lemma_callsign_round_trip(b);
    }
}

/// The text that a callsign was split from: base, and hyphen and SSID if
/// there is one.
pub open spec fn full_text(c: CallsignView) -> Seq<u8> {
    match c.ssid {
        Some(s) => c.call + seq![45u8] + s,
        None => c.call,
    }
}

/// Whether a callsign is as `decode_textual` gives it: its base holds no
/// hyphen, base and SSID are not empty where there is an SSID, and its text
/// is UTF-8.
pub open spec fn decoded_callsign(c: CallsignView) -> bool {
    &&& crate::utils::no_byte(c.call, 45)
    &&& c.ssid matches Some(s) ==> s.len() > 0 && c.call.len() > 0
    &&& vstd::utf8::valid_utf8(full_text(c))
}

/// Whether a callsign is written in full and read back whole: its SSID is
/// not `0`, which is left out, and its text does not end in `*`, which
/// would be read as a mark.
pub open spec fn written_whole(c: CallsignView) -> bool {
    &&& c.ssid matches Some(s) ==> s != seq![48u8]
    &&& !(display_bytes(c).len() > 0 && display_bytes(c).last() == 42)
}

/// What `decode_textual` gives is as `decoded_callsign` says; and the text
/// of the callsign is the text it was read from, without the mark.
pub proof fn lemma_decoded_callsign(b: Seq<u8>)
    requires
        decode_textual_spec(b).is_some(),
    ensures
        decoded_callsign(decode_textual_spec(b).unwrap().0),
        full_text(decode_textual_spec(b).unwrap().0) + (if decode_textual_spec(b).unwrap().1 {
            seq![42u8]
        } else {
            Seq::<u8>::empty()
        }) == b,
{
    let (c, heard) = decode_textual_spec(b).unwrap();
    let body = if heard {
        b.drop_last()
    } else {
        b
    };
    let i = first_index(body, 45);
    crate::utils::lemma_first_index_bounds(body, 45);
    assert forall|j: int| 0 <= j < c.call.len() implies #[trigger] c.call[j] != 45 by {
        assert(c.call[j] == body[j]);
    }
    assert(full_text(c) =~= body);
    if heard {
        assert(body + seq![42u8] =~= b);
    } else {
        assert(body + Seq::<u8>::empty() =~= b);
    }
}

/// A callsign as `decode_textual` gives it that is written whole reads back
/// from its text as itself, with the mark that it was written with.
#[verifier::rlimit(30)]
pub proof fn lemma_callsign_decodes(c: CallsignView, heard: bool)
    requires
        decoded_callsign(c),
        written_whole(c),
    ensures
        display_bytes(c) == full_text(c),
        decode_textual_spec(textual_bytes(c, heard)) == Some((c, heard)),
{
    let d = display_bytes(c);
    assert(d == full_text(c));
    let t = textual_bytes(c, heard);
    if heard {
        assert(t.drop_last() =~= d);
    }
    match c.ssid {
        Some(s) => {
            crate::utils::lemma_first_index_after(c.call, seq![45u8] + s, 45);
            assert(c.call + (seq![45u8] + s) =~= d);
            assert(first_index(seq![45u8] + s, 45) == 0);
            assert(d.subrange(0, c.call.len() as int) =~= c.call);
            assert(d.subrange(c.call.len() as int + 1, d.len() as int) =~= s);
        },
        None => {
            crate::utils::lemma_no_byte(c.call, 45);
        },
    }
}

/// Bytes below 128 are UTF-8.
pub proof fn lemma_ascii_is_utf8(s: Seq<u8>)
    requires
        forall|i: int| 0 <= i < s.len() ==> #[trigger] s[i] < 128,
    ensures
        vstd::utf8::valid_utf8(s),
{
    assert(s.subrange(0, 0) =~= Seq::<u8>::empty());
    assert(vstd::utf8::partial_valid_utf8(s, 0));
    assert forall|i: int| 0 <= 0 <= i < s.len() <= s.len() implies #[trigger] vstd::utf8::is_leading_byte_width_1(
        s[i],
    ) by {
        assert(s[i] < 128);
    }
    vstd::utf8::partial_valid_utf8_extend_ascii_block(s, 0, s.len() as int);
    assert(s.subrange(0, s.len() as int) =~= s);
}

/// The number of an SSID for AX.25: zero when absent, else its decimal value.
pub open spec fn ssid_number(ssid: Option<Seq<u8>>) -> Option<nat> {
    match ssid {
        None => Some(0nat),
        Some(s) => parse_decimal(s, 255),
    }
}

/// Whether a callsign fits an AX.25 address field: at most six letters or
/// digits, and an SSID that is absent or a number up to 15.
pub open spec fn ax25_encodable(c: CallsignView) -> bool {
    &&& c.call.len() <= 6
    &&& forall|i: int| 0 <= i < c.call.len() ==> is_alnum(#[trigger] c.call[i])
    &&& ssid_number(c.ssid) matches Some(n) && n <= 15
}

/// The seventh byte of an address field.
pub open spec fn ax25_flags(field: CallsignField, ssid: nat, has_more: bool) -> u8 {
    let role: nat = match field {
        CallsignField::Destination => 224,
        CallsignField::Source => 96,
        CallsignField::Via(heard) => if heard {
            224
        } else {
            96
        },
    };
    let last: nat = if has_more {
        0
    } else {
        1
    };
    (role + 2 * ssid + last) as u8
}

/// The seven bytes of the address field of an encodable callsign.
pub open spec fn ax25_bytes(c: CallsignView, field: CallsignField, has_more: bool) -> Seq<u8> {
    Seq::new(
        7,
        |i: int|
            if i < c.call.len() {
                (2 * upper(c.call[i])) as u8
            } else if i < 6 {
                64u8
            } else {
                ax25_flags(field, ssid_number(c.ssid).unwrap(), has_more)
            },
    )
}

/// Whether the six shifted bytes of an address field spell a callsign: low bits
/// clear, letters and digits first, then only blanks.
pub open spec fn ax25_call_ok(d: Seq<u8>) -> bool
    recommends
        d.len() == 7,
{
    let n = ax25_call_len(d);
    &&& forall|i: int| 0 <= i < 6 ==> #[trigger] d[i] % 2 == 0
    &&& forall|i: int| 0 <= i < n ==> is_alnum(#[trigger] d[i] / 2)
    &&& forall|i: int| n <= i < 6 ==> #[trigger] d[i] / 2 == 32
}

/// The number of bytes before the first blank among the six of the callsign.
pub open spec fn ax25_call_len(d: Seq<u8>) -> int
    recommends
        d.len() == 7,
{
    first_index(Seq::new(6, |i: int| d[i] / 2), 32)
}

/// What an address field of seven bytes holds: the callsign, the heard flag,
/// and whether another address follows. `None` for a malformed field.
pub open spec fn decode_ax25_spec(d: Seq<u8>) -> Option<(CallsignView, bool, bool)> {
    if d.len() != 7 || !ax25_call_ok(d) {
        None
    } else {
        let n = ax25_call_len(d);
        let ssid = (d[6] / 2) % 16;
        Some(
            (
                CallsignView {
                    call: Seq::new(n as nat, |i: int| upper(d[i] / 2)),
                    ssid: if ssid == 0 {
                        None
                    } else {
                        Some(decimal_digits(ssid as nat))
                    },
                },
                d[6] >= 128,
                d[6] % 2 == 0,
            ),
        )
    }
}

/// The digits of a number from 1 to 15 are a decimal with that number for
/// its value.
pub proof fn lemma_ssid_digits(n: nat)
    requires
        1 <= n <= 15,
    ensures
        parse_decimal(decimal_digits(n), 255) == Some(n),
{
    if n < 10 {
        crate::bytes::lemma_single_digit((48 + n) as u8);
    } else {
        assert(decimal_digits(n) == decimal_digits(n / 10).push((48 + n % 10) as u8));
        assert(decimal_digits(n / 10) == seq![49u8]);
        assert(decimal_digits(n) =~= seq![49u8, (48 + n % 10) as u8]);
        crate::bytes::lemma_two_bytes(49, (48 + n % 10) as u8);
    }
}

/// Whether an address field is as `encode_ax25` writes it in a given role:
/// it holds no lower-case letter, and the three high bits of its last byte
/// are those of the role.
pub open spec fn canonical_ax25_field(f: Seq<u8>, field: CallsignField) -> bool {
    &&& f.len() == 7
    &&& forall|i: int| 0 <= i < 6 ==> !(97 <= #[trigger] f[i] / 2 <= 122)
    &&& match field {
        CallsignField::Destination => f[6] / 32 == 7,
        CallsignField::Source => f[6] / 32 == 3,
        CallsignField::Via(heard) => f[6] / 32 == if heard {
            7int
        } else {
            3int
        },
    }
}

/// An address field as `encode_ax25` writes it, read and written again in
/// the same role, is the same seven bytes.
#[verifier::rlimit(30)]
pub proof fn lemma_ax25_field_round_trip(f: Seq<u8>, field: CallsignField)
    requires
        canonical_ax25_field(f, field),
        decode_ax25_spec(f).is_some(),
    ensures
        ax25_encodable(decode_ax25_spec(f).unwrap().0),
        ax25_bytes(decode_ax25_spec(f).unwrap().0, field, decode_ax25_spec(f).unwrap().2) == f,
{
    let (c, heard, more) = decode_ax25_spec(f).unwrap();
    let n = ax25_call_len(f);
    let shifted = Seq::new(6, |i: int| f[i] / 2);
    crate::utils::lemma_first_index_bounds(shifted, 32);
    let ssid = ((f[6] / 2) % 16) as nat;
    if ssid != 0 {
        lemma_ssid_digits(ssid);
    }
    assert(ssid_number(c.ssid) == Some(ssid));
    assert forall|i: int| 0 <= i < c.call.len() implies is_alnum(#[trigger] c.call[i]) by {
        assert(is_alnum(f[i] / 2));
    }
    let out = ax25_bytes(c, field, more);
    assert forall|i: int| 0 <= i < 7 implies out[i] == f[i] by {
        if i < n {
            assert(is_alnum(f[i] / 2));
            assert(f[i] % 2 == 0);
            assert(!(97 <= f[i] / 2 <= 122));
        } else if i < 6 {
            assert(f[i] / 2 == 32);
            assert(f[i] % 2 == 0);
        } else {
            let x: u8 = f[6];
            assert(x == 32 * (x / 32) + 2 * ((x / 2) % 16) + x % 2) by (bit_vector);
        }
    }
    assert(out =~= f);
}

/// The last byte of an address field marks the end of the addresses exactly
/// when no address follows; the sender's has its high bit clear, and the
/// destination's its three high bits set.
pub proof fn lemma_ax25_flags(field: CallsignField, ssid: nat, has_more: bool)
    requires
        ssid <= 15,
    ensures
        (ax25_flags(field, ssid, has_more) % 2 == 1) == !has_more,
        field == CallsignField::Source ==> ax25_flags(field, ssid, has_more) < 128,
        field == CallsignField::Destination ==> ax25_flags(field, ssid, has_more) >= 224,
{
}

/// A callsign as it comes back from the air: in upper case, with the SSID
/// as a plain number, or without one if the number is zero.
pub open spec fn air_callsign(c: CallsignView) -> CallsignView
    recommends
        ax25_encodable(c),
{
    CallsignView {
        call: Seq::new(c.call.len(), |i: int| upper(c.call[i])),
        ssid: if ssid_number(c.ssid).unwrap() == 0 {
            None
        } else {
            Some(decimal_digits(ssid_number(c.ssid).unwrap()))
        },
    }
}

/// The heard flag that an address field in a role shows.
pub open spec fn field_heard(field: CallsignField) -> bool {
    match field {
        CallsignField::Destination => true,
        CallsignField::Source => false,
        CallsignField::Via(heard) => heard,
    }
}

/// The address field that a callsign is written as reads back as the
/// callsign in upper case, with the flags that it was written with.
#[verifier::rlimit(30)]
pub proof fn lemma_ax25_field_decodes(c: CallsignView, field: CallsignField, has_more: bool)
    requires
        ax25_encodable(c),
    ensures
        decode_ax25_spec(ax25_bytes(c, field, has_more)) == Some(
            (air_callsign(c), field_heard(field), has_more),
        ),
        canonical_ax25_field(ax25_bytes(c, field, has_more), field),
{
    let f = ax25_bytes(c, field, has_more);
    let n = c.call.len() as int;
    let ssid = ssid_number(c.ssid).unwrap();
    assert forall|i: int| 0 <= i < 6 implies #[trigger] f[i] % 2 == 0 && f[i] / 2 == (if i < n {
        upper(c.call[i])
    } else {
        32u8
    }) by {
        if i < n {
            assert(is_alnum(c.call[i]));
        }
    }
    let shifted = Seq::new(6, |i: int| f[i] / 2);
    assert forall|j: int| 0 <= j < n implies shifted[j] != 32 by {
        assert(is_alnum(c.call[j]));
        assert(f[j] / 2 == upper(c.call[j]));
    }
    if n < 6 {
        assert(shifted[n] == 32) by {
            assert(f[n] / 2 == 32);
        }
    }
    crate::utils::lemma_first_index(shifted, 32, n);
    assert(ax25_call_len(f) == n);
    assert forall|i: int| 0 <= i < n implies is_alnum(#[trigger] f[i] / 2) by {
        assert(is_alnum(c.call[i]));
        assert(f[i] / 2 == upper(c.call[i]));
    }
    assert forall|i: int| n <= i < 6 implies #[trigger] f[i] / 2 == 32 by {}
    assert forall|i: int| 0 <= i < 6 implies !(97 <= #[trigger] f[i] / 2 <= 122) by {
        if i < n {
            assert(is_alnum(c.call[i]));
        }
    }
    let x: u8 = f[6];
    assert(x == ax25_flags(field, ssid, has_more));
    let decoded = decode_ax25_spec(f).unwrap().0;
    assert(decoded.call =~= air_callsign(c).call) by {
        assert forall|i: int| 0 <= i < n implies upper(f[i] / 2) == upper(c.call[i]) by {
            assert(is_alnum(c.call[i]));
            assert(f[i] / 2 == upper(c.call[i]));
        }
    }
}

/// A callsign that came back from the air comes back from it as itself,
/// and is written to it as the callsign that it came from.
pub proof fn lemma_air_callsign(c: CallsignView)
    requires
        ax25_encodable(c),
    ensures
        ax25_encodable(air_callsign(c)),
        air_callsign(air_callsign(c)) == air_callsign(c),
        forall|field: CallsignField, has_more: bool|
            #[trigger] ax25_bytes(air_callsign(c), field, has_more) == ax25_bytes(c, field, has_more),
{
    let a = air_callsign(c);
    let ssid = ssid_number(c.ssid).unwrap();
    if ssid != 0 {
        lemma_ssid_digits(ssid);
    }
    assert(ssid_number(a.ssid) == Some(ssid));
    assert forall|i: int| 0 <= i < a.call.len() implies is_alnum(#[trigger] a.call[i]) && upper(
        a.call[i],
    ) == a.call[i] by {
        assert(is_alnum(c.call[i]));
    }
    assert(air_callsign(a).call =~= a.call);
    assert forall|field: CallsignField, has_more: bool|
        #[trigger] ax25_bytes(a, field, has_more) == ax25_bytes(c, field, has_more) by {
        assert(ax25_bytes(a, field, has_more) =~= ax25_bytes(c, field, has_more));
    }
}

/// A callsign that came back from the air is as `decode_textual` gives it,
/// is written whole, holds none of the bytes that part a header, and is not
/// spelt as a q-construct; if it has an SSID, the callsign it came from had
/// one.
pub proof fn lemma_air_callsign_text(c: CallsignView)
    requires
        ax25_encodable(c),
        c.ssid is Some ==> c.call.len() > 0,
    ensures
        decoded_callsign(air_callsign(c)),
        written_whole(air_callsign(c)),
        crate::utils::no_byte(full_text(air_callsign(c)), 44),
        crate::utils::no_byte(full_text(air_callsign(c)), 58),
        crate::utils::no_byte(full_text(air_callsign(c)), 62),
        display_bytes(air_callsign(c)) == full_text(air_callsign(c)),
        display_bytes(air_callsign(c)).len() > 0 ==> display_bytes(air_callsign(c))[0] != 113,
{
    let a = air_callsign(c);
    let t = full_text(a);
    let ssid = ssid_number(c.ssid).unwrap();
    assert forall|i: int| 0 <= i < a.call.len() implies 48 <= #[trigger] a.call[i] <= 57 || 65
        <= a.call[i] <= 90 by {
        assert(is_alnum(c.call[i]));
    }
    if ssid != 0 {
        let d = decimal_digits(ssid);
        assert(d.len() >= 1 && d.len() <= 2 && (forall|i: int|
            0 <= i < d.len() ==> 48 <= #[trigger] d[i] <= 57) && d != seq![48u8]) by {
            if ssid < 10 {
                assert(d == seq![(48 + ssid) as u8]);
                assert(d[0] != 48);
            } else {
                assert(d == decimal_digits(ssid / 10).push((48 + ssid % 10) as u8));
                assert(decimal_digits(ssid / 10) == seq![49u8]);
                assert(d.len() == 2);
            }
        }
        assert forall|i: int| 0 <= i < t.len() implies 45 <= #[trigger] t[i] <= 57 || 65 <= t[i]
            <= 90 by {
            if i < a.call.len() {
                assert(t[i] == a.call[i]);
            } else if i == a.call.len() {
            } else {
                assert(t[i] == d[i - a.call.len() - 1]);
            }
        }
        assert(t.last() == d.last());
        assert(t[0] == a.call[0]);
    } else {
        assert(t == a.call);
    }
    assert forall|i: int| 0 <= i < t.len() implies #[trigger] t[i] < 128 by {
        assert(45 <= t[i] <= 57 || 65 <= t[i] <= 90);
    }
    lemma_ascii_is_utf8(t);
    assert forall|i: int| 0 <= i < a.call.len() implies #[trigger] a.call[i] != 45 by {
        assert(48 <= a.call[i] <= 57 || 65 <= a.call[i] <= 90);
    }
    if t.len() > 0 {
        assert(45 <= t[t.len() - 1] <= 57 || 65 <= t[t.len() - 1] <= 90);
        assert(45 <= t[0] <= 57 || 65 <= t[0] <= 90);
    }
}

/// The text that `String::from_utf8_lossy` makes of bytes.
pub uninterp spec fn lossy_text(b: Seq<u8>) -> Seq<char>;

/// Calls `std::str::from_utf8` and reports whether it accepted the bytes:
/// that is, whether they are well-formed UTF-8.
#[verifier::external_body]
fn is_utf8(b: &[u8]) -> (r: bool)
    ensures
        r == vstd::utf8::valid_utf8(b@),
{
    std::str::from_utf8(b).is_ok()
}

/// Calls `String::from_utf8_lossy`, which turns bytes into text and puts the
/// replacement character in place of what is not UTF-8. Of bytes that are
/// UTF-8 it gives the text that they encode.
#[verifier::external_body]
fn text_of(b: &[u8]) -> (r: String)
    ensures
        r@ == lossy_text(b@),
        vstd::utf8::valid_utf8(b@) ==> r@ == vstd::utf8::decode_utf8(b@),
{
    String::from_utf8_lossy(b).into_owned()
}

impl Callsign {
    /// The base callsign.
    pub fn call(&self) -> (r: &[u8])
        ensures
            r@ == self@.call,
    {
        self.call.as_slice()
    }

    /// The SSID, if there is one.
    pub fn ssid(&self) -> (r: Option<&[u8]>)
        ensures
            match r {
                Some(s) => self@.ssid == Some(s@),
                None => self@.ssid.is_none(),
            },
    {
        match &self.ssid {
            Some(s) => Some(s.as_slice()),
            None => None,
        }
    }

    /// A callsign from the bytes of its parts.
    pub(crate) fn from_bytes(call: Vec<u8>, ssid: Option<Vec<u8>>) -> (r: Self)
        ensures
            r@.call == call@,
            match ssid {
                Some(s) => r@.ssid == Some(s@),
                None => r@.ssid.is_none(),
            },
    {
        Callsign { call, ssid }
    }

    /// Creates a callsign from text; what follows the first hyphen is the SSID.
    ///
    /// Returns `None` if either side of the hyphen is empty.
    pub fn new(s: &str) -> (r: Option<Self>)
        ensures
            match r {
                Some(c) => split_callsign(s.spec_bytes()) == Some(c@),
                None => split_callsign(s.spec_bytes()).is_none(),
            },
    {
        Self::split(s.as_bytes())
    }

    /// Splits the bytes of a callsign at the first hyphen.
    fn split(b: &[u8]) -> (r: Option<Self>)
        ensures
            match r {
                Some(c) => split_callsign(b@) == Some(c@),
                None => split_callsign(b@).is_none(),
            },
    {
        let i = find_byte(b, 45);
        if i == b.len() {
            Some(Callsign { call: copy_all(b), ssid: None })
        } else if i == 0 || i + 1 == b.len() {
            None
        } else {
            Some(Callsign { call: copy_range(b, 0, i), ssid: Some(copy_range(b, i + 1, b.len())) })
        }
    }

    /// Creates a callsign without an SSID.
    pub fn new_no_ssid(call: &str) -> (r: Callsign)
        ensures
            r@ == (CallsignView { call: call.spec_bytes(), ssid: None }),
    {
        Callsign { call: copy_all(call.as_bytes()), ssid: None }
    }

    /// Creates a callsign with an SSID.
    pub fn new_with_ssid(call: &str, ssid: &str) -> (r: Callsign)
        ensures
            r@ == (CallsignView { call: call.spec_bytes(), ssid: Some(ssid.spec_bytes()) }),
    {
        Callsign { call: copy_all(call.as_bytes()), ssid: Some(copy_all(ssid.as_bytes())) }
    }

    /// Appends the callsign, and a hyphen and the SSID if there is one that is
    /// neither empty nor `0`.
    fn push_display(&self, buf: &mut Vec<u8>)
        ensures
            final(buf)@ == old(buf)@ + display_bytes(self@),
    {
        append(buf, self.call.as_slice());
        match &self.ssid {
            Some(s) => {
                let zero = s.len() == 1 && s[0] == 48;
                assert(zero == (s@ =~= seq![48u8]));
                if s.len() > 0 && !zero {
                    buf.push(45);
                    append(buf, s.as_slice());
                    assert(buf@ =~= old(buf)@ + (self@.call + seq![45u8] + s@));
                }
            },
            None => {},
        }
    }

    /// The callsign as text: `BASE` or `BASE-SSID`.
    pub fn to_string(&self) -> (r: String)
        ensures
            r@ == lossy_text(display_bytes(self@)),
            vstd::utf8::valid_utf8(display_bytes(self@)) ==> r@ == vstd::utf8::decode_utf8(
                display_bytes(self@),
            ),
    {
        let mut buf: Vec<u8> = Vec::new();
        self.push_display(&mut buf);
        assert(buf@ =~= display_bytes(self@));
        text_of(buf.as_slice())
    }

    /// Appends the callsign as text, with `*` behind it if `heard`.
    pub fn encode_textual(&self, heard: bool, buf: &mut Vec<u8>)
        ensures
            final(buf)@ == old(buf)@ + textual_bytes(self@, heard),
    {
        self.push_display(buf);
        if heard {
            buf.push(42);
            assert(buf@ =~= old(buf)@ + (display_bytes(self@) + seq![42u8]));
        }
    }

    /// Reads a callsign from text. A `*` at the end marks it as heard and is no
    /// part of the callsign.
    pub fn decode_textual(bytes: &[u8]) -> (r: Option<(Self, bool)>)
        ensures
            match r {
                Some((c, heard)) => decode_textual_spec(bytes@) == Some((c@, heard)),
                None => decode_textual_spec(bytes@).is_none(),
            },
    {
        let heard = bytes.len() > 0 && bytes[bytes.len() - 1] == 42;
        let body = if heard {
            vstd::slice::slice_subrange(bytes, 0, bytes.len() - 1)
        } else {
            bytes
        };
        if !is_utf8(body) {
            return None;
        }
        match Self::split(body) {
            Some(c) => Some((c, heard)),
            None => None,
        }
    }

    /// The number of the SSID, if the callsign can go into an AX.25 address.
    fn ax25_ssid(&self) -> (r: Option<u8>)
        ensures
            match r {
                Some(n) => ax25_encodable(self@) && ssid_number(self@.ssid) == Some(n as nat),
                None => !ax25_encodable(self@),
            },
    {
        if self.call.len() > 6 {
            return None;
        }
        let ssid: u8 = match &self.ssid {
            Some(s) => match parse_bytes::<u8>(s.as_slice()) {
                Some(n) => n,
                None => {
                    return None;
                },
            },
            None => 0,
        };
        if ssid > 15 {
            return None;
        }
        let mut i: usize = 0;
        while i < self.call.len()
            invariant
                i <= self.call.len(),
                forall|j: int| 0 <= j < i ==> is_alnum(#[trigger] self.call@[j]),
            decreases self.call.len() - i,
        {
            let c = self.call[i];
            if !((48 <= c && c <= 57) || (65 <= c && c <= 90) || (97 <= c && c <= 122)) {
                assert(!is_alnum(self@.call[i as int]));
                return None;
            }
            i += 1;
        }
        Some(ssid)
    }

    /// Appends the callsign as an AX.25 address field of seven bytes.
    ///
    /// `has_more` says whether another address follows. Fails, and appends
    /// nothing, if the callsign does not fit such a field.
    pub fn encode_ax25(&self, buf: &mut Vec<u8>, field: CallsignField, has_more: bool) -> (r:
        Result<(), EncodeError>)
        ensures
            match r {
                Ok(()) => ax25_encodable(self@) && final(buf)@ == old(buf)@ + ax25_bytes(
                    self@,
                    field,
                    has_more,
                ),
                Err(e) => !ax25_encodable(self@) && e@ == crate::error::EncodeErrorView::InvalidCallsign(
                    self@,
                ) && final(buf)@ == old(buf)@,
            },
    {
        let ssid: u8 = match self.ax25_ssid() {
            Some(n) => n,
            None => {
                return Err(EncodeError::InvalidCallsign(self.clone()));
            },
        };
        let mut i: usize = 0;
        while i < 6
            invariant
                i <= 6,
                self.call.len() <= 6,
                forall|j: int| 0 <= j < self.call.len() ==> is_alnum(#[trigger] self.call@[j]),
                buf@ == old(buf)@ + ax25_bytes(self@, field, has_more).subrange(0, i as int),
            decreases 6 - i,
        {
            if i < self.call.len() {
                let c = self.call[i];
                assert(is_alnum(self.call@[i as int]));
                let u: u8 = if 97 <= c && c <= 122 {
                    c - 32
                } else {
                    c
                };
                buf.push(2 * u);
            } else {
                buf.push(64);
            }
            i += 1;
            assert(buf@ =~= old(buf)@ + ax25_bytes(self@, field, has_more).subrange(0, i as int));
        }
        let role: u8 = match field {
            CallsignField::Destination => 224,
            CallsignField::Source => 96,
            CallsignField::Via(heard) => if heard {
                224
            } else {
                96
            },
        };
        let last: u8 = if has_more {
            0
        } else {
            1
        };
        buf.push(role + 2 * ssid + last);
        assert(buf@ =~= old(buf)@ + ax25_bytes(self@, field, has_more));
        Ok(())
    }

    /// Reads an AX.25 address field. Returns the callsign, its heard flag, and
    /// whether another address follows.
    #[verifier::rlimit(30)]
    pub fn decode_ax25(data: &[u8]) -> (r: Option<(Self, bool, bool)>)
        ensures
            match r {
                Some((c, heard, has_more)) => decode_ax25_spec(data@) == Some(
                    (c@, heard, has_more),
                ),
                None => decode_ax25_spec(data@).is_none(),
            },
    {
        if data.len() != 7 {
            return None;
        }
        let ghost shifted = Seq::new(6, |i: int| data@[i] / 2);
        let mut call: Vec<u8> = Vec::new();
        let mut i: usize = 0;
        // the letters and digits
        while i < 6 && data[i] / 2 != 32
            invariant
                i <= 6,
                data.len() == 7,
                shifted == Seq::new(6, |i: int| data@[i] / 2),
                forall|j: int| 0 <= j < i ==> #[trigger] data@[j] % 2 == 0,
                forall|j: int| 0 <= j < i ==> is_alnum(#[trigger] data@[j] / 2),
                forall|j: int| 0 <= j < i ==> shifted[j] != 32,
                call@ == Seq::new(i as nat, |k: int| upper(data@[k] / 2)),
            decreases 6 - i,
        {
            let d = data[i];
            let c = d / 2;
            let ghost n = first_index(shifted, 32);
            proof {
                crate::utils::lemma_first_index_bounds(shifted, 32);
                if n < i {
                    assert(shifted[n] == 32);
                }
                assert(shifted[i as int] != 32);
                assert(n > i);
            }
            if d % 2 != 0 {
                assert(!ax25_call_ok(data@));
                return None;
            }
            if !((48 <= c && c <= 57) || (65 <= c && c <= 90) || (97 <= c && c <= 122)) {
                assert(!is_alnum(data@[i as int] / 2));
                assert(!ax25_call_ok(data@));
                return None;
            }
            let u: u8 = if 97 <= c && c <= 122 {
                c - 32
            } else {
                c
            };
            call.push(u);
            i += 1;
            assert(call@ =~= Seq::new(i as nat, |k: int| upper(data@[k] / 2)));
        }
        let n: usize = i;
        proof {
            if n < 6 {
                assert(shifted[n as int] == 32);
            }
            crate::utils::lemma_first_index(shifted, 32, n as int);
        }
        // the blanks behind them
        while i < 6
            invariant
                n <= i <= 6,
                data.len() == 7,
                forall|j: int| 0 <= j < i ==> #[trigger] data@[j] % 2 == 0,
                forall|j: int| n <= j < i ==> #[trigger] data@[j] / 2 == 32,
                ax25_call_len(data@) == n,
            decreases 6 - i,
        {
            let d = data[i];
            if d % 2 != 0 {
                assert(!ax25_call_ok(data@));
                return None;
            }
            if d / 2 != 32 {
                assert(!ax25_call_ok(data@));
                return None;
            }
            i += 1;
        }
        let s = data[6];
        let heard = s >= 128;
        let has_more = s % 2 == 0;
        let number: u8 = (s / 2) % 16;
        let ssid = if number == 0 {
            None
        } else {
            let mut digits: Vec<u8> = Vec::new();
            if number >= 10 {
                digits.push(49);
                digits.push(48 + (number - 10));
                proof {
                    let m = number as nat;
                    assert(decimal_digits(m) == decimal_digits(m / 10).push((48 + m % 10) as u8));
                    assert(decimal_digits(m / 10) == seq![(48 + m / 10) as u8]);
                    assert(digits@ =~= decimal_digits(m));
                }
            } else {
                digits.push(48 + number);
                assert(digits@ =~= decimal_digits(number as nat));
            }
            Some(digits)
        };
        Some((Callsign { call, ssid }, heard, has_more))
    }
}

} // verus!
