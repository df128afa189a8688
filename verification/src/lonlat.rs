//! Latitudes and longitudes, held exactly.
//!
//! Both are whole numbers of a unit so small that every coordinate of either
//! wire format is a whole number of it: a degree has 1 142 778 000 units. A
//! hundredth of a minute is 190 463 units, a step of a compressed latitude
//! 3 000 and a step of a compressed longitude 6 000.

use vstd::prelude::*;

use crate::base91::{all_printable, decode_ascii, encode91, encode_ascii, value91};
use crate::bytes::{
    blanked_pair, fixed_digits, parse_bytes, parse_bytes_trailing_spaces, parse_decimal,
    push_fixed,
};
use crate::error::{DecodeError, DecodeErrorView};
use crate::utils::{append, copy_all};

verus! {

/// Units in one degree.
pub const UNITS_PER_DEGREE: i64 = 1_142_778_000;

/// Units in one minute.
pub const UNITS_PER_MINUTE: i64 = 19_046_300;

/// Units in one hundredth of a minute.
pub const UNITS_PER_HUNDREDTH: i64 = 190_463;

/// Units in one step of a compressed latitude.
pub const LATITUDE_STEP: i64 = 3_000;

/// Units in one step of a compressed longitude.
pub const LONGITUDE_STEP: i64 = 6_000;

/// The greatest latitude, in units: ninety degrees.
pub const MAX_LATITUDE: i64 = 102_850_020_000;

/// The greatest longitude, in units: 180 degrees.
pub const MAX_LONGITUDE: i64 = 205_700_040_000;

/// The greatest number of a compressed coordinate.
pub const MAX_COMPRESSED: u64 = 68_566_680;

/// How exactly an uncompressed position is given: the place of its last
/// digit that is not blank.
#[derive(Debug, Copy, Clone, PartialOrd, PartialEq, Ord, Eq)]
pub enum Precision {
    TenDegree,
    OneDegree,
    TenMinute,
    OneMinute,
    TenthMinute,
    HundredthMinute,
}

impl Precision {
    /// The width of the precision, in units.
    pub fn width_units(&self) -> (r: i64)
        ensures
            r == self.spec_width_units(),
    {
        match self {
            Precision::HundredthMinute => UNITS_PER_HUNDREDTH,
            Precision::TenthMinute => 10 * UNITS_PER_HUNDREDTH,
            Precision::OneMinute => UNITS_PER_MINUTE,
            Precision::TenMinute => 10 * UNITS_PER_MINUTE,
            Precision::OneDegree => UNITS_PER_DEGREE,
            Precision::TenDegree => 10 * UNITS_PER_DEGREE,
        }
    }

    /// The width of the precision, in units.
    pub open spec fn spec_width_units(&self) -> int {
        match self {
            Precision::HundredthMinute => 190_463,
            Precision::TenthMinute => 1_904_630,
            Precision::OneMinute => 19_046_300,
            Precision::TenMinute => 190_463_000,
            Precision::OneDegree => 1_142_778_000,
            Precision::TenDegree => 11_427_780_000,
        }
    }

    /// The number of blank digits of the precision.
    pub open spec fn spec_num_digits(&self) -> u8 {
        match self {
            Precision::HundredthMinute => 0,
            Precision::TenthMinute => 1,
            Precision::OneMinute => 2,
            Precision::TenMinute => 3,
            Precision::OneDegree => 4,
            Precision::TenDegree => 5,
        }
    }

    /// The precision that leaves `digits` digits blank.
    pub open spec fn spec_from_num_digits(digits: u8) -> Option<Precision> {
        match digits {
            0 => Some(Precision::HundredthMinute),
            1 => Some(Precision::TenthMinute),
            2 => Some(Precision::OneMinute),
            3 => Some(Precision::TenMinute),
            4 => Some(Precision::OneDegree),
            5 => Some(Precision::TenDegree),
            _ => None,
        }
    }

    /// The number of digits that the precision leaves blank, from 0 to 5.
    #[verifier::when_used_as_spec(spec_num_digits)]
    pub fn num_digits(&self) -> (r: u8)
        ensures
            r == self.spec_num_digits(),
            r <= 5,
    {
        match self {
            Precision::HundredthMinute => 0,
            Precision::TenthMinute => 1,
            Precision::OneMinute => 2,
            Precision::TenMinute => 3,
            Precision::OneDegree => 4,
            Precision::TenDegree => 5,
        }
    }

    /// The precision that leaves `digits` digits blank; `None` above 5.
    #[verifier::when_used_as_spec(spec_from_num_digits)]
    pub fn from_num_digits(digits: u8) -> (r: Option<Self>)
        ensures
            r == Self::spec_from_num_digits(digits),
            r.is_some() == (digits <= 5),
    {
        match digits {
            0 => Some(Precision::HundredthMinute),
            1 => Some(Precision::TenthMinute),
            2 => Some(Precision::OneMinute),
            3 => Some(Precision::TenMinute),
            4 => Some(Precision::OneDegree),
            5 => Some(Precision::TenDegree),
            _ => None,
        }
    }
}

impl Default for Precision {
    fn default() -> (r: Self)
        ensures
            r == Precision::HundredthMinute,
    {
        Precision::HundredthMinute
    }
}

/// Going from a number of blank digits to a precision and back gives the
/// number again.
pub proof fn lemma_precision_round_trip(n: u8)
    requires
        n <= 5,
    ensures
        Precision::spec_from_num_digits(n) matches Some(p) && p.spec_num_digits() == n,
{
}

/// Going from a precision to its number of blank digits and back gives the
/// precision again.
pub proof fn lemma_num_digits_round_trip(p: Precision)
    ensures
        Precision::spec_from_num_digits(p.spec_num_digits()) == Some(p),
{
}

/// The units of `deg` degrees, `min` minutes and `hundredths` hundredths of a
/// minute.
pub open spec fn dmh_units(deg: int, min: int, hundredths: int) -> int {
    deg * 1_142_778_000 + min * 19_046_300 + hundredths * 190_463
}

/// The degrees, minutes and hundredths of a minute of a coordinate, and
/// whether it is not negative.
///
/// Degrees and minutes are cut off, the hundredths rounded to the nearest;
/// hundredths that round to 100 are carried into the minutes, and 60 minutes
/// into the degrees.
pub open spec fn dmh_spec(units: int) -> (int, int, int, bool) {
    let a = if units >= 0 {
        units
    } else {
        -units
    };
    let deg = a / 1_142_778_000;
    let rest = a % 1_142_778_000;
    let min = rest / 19_046_300;
    let hundredths = (rest % 19_046_300 + 95_231) / 190_463;
    let min_carried = if hundredths == 100 {
        min + 1
    } else {
        min
    };
    (
        if min_carried == 60 {
            deg + 1
        } else {
            deg
        },
        if min_carried == 60 {
            0
        } else {
            min_carried
        },
        if hundredths == 100 {
            0
        } else {
            hundredths
        },
        units >= 0,
    )
}

/// Degrees, minutes below 60 and hundredths below 100 are what their units
/// split into again. The sign comes back too, but for zero, which is never
/// negative.
pub proof fn lemma_dmh_round_trip(deg: int, min: int, hundredths: int, positive: bool)
    requires
        0 <= deg,
        0 <= min < 60,
        0 <= hundredths < 100,
        positive || dmh_units(deg, min, hundredths) != 0,
    ensures
        dmh_spec(
            if positive {
                dmh_units(deg, min, hundredths)
            } else {
                -dmh_units(deg, min, hundredths)
            },
        ) == (deg, min, hundredths, positive),
{
    let a = dmh_units(deg, min, hundredths);
    let rest = min * 19_046_300 + hundredths * 190_463;
    assert(0 <= rest < 1_142_778_000);
    assert(a == deg * 1_142_778_000 + rest);
    vstd::arithmetic::div_mod::lemma_fundamental_div_mod_converse(a, 1_142_778_000, deg, rest);
    vstd::arithmetic::div_mod::lemma_fundamental_div_mod_converse(
        rest,
        19_046_300,
        min,
        hundredths * 190_463,
    );
    vstd::arithmetic::div_mod::lemma_fundamental_div_mod_converse(
        hundredths * 190_463 + 95_231,
        190_463,
        hundredths,
        95_231,
    );
}

/// The digits of a coordinate, degrees first, with `deg_width` digits for the
/// degrees: what an uncompressed position shows of it.
pub open spec fn dmh_digits(units: int, deg_width: nat) -> Seq<u8> {
    let (deg, min, hundredths, _) = dmh_spec(units);
    fixed_digits(deg as nat, deg_width) + fixed_digits(min as nat, 2) + fixed_digits(
        hundredths as nat,
        2,
    )
}

/// `digits` with the last `n` of them replaced by `fill`.
pub open spec fn overwrite_tail(digits: Seq<u8>, n: int, fill: u8) -> Seq<u8> {
    Seq::new(
        digits.len(),
        |i: int|
            if i < digits.len() - n {
                digits[i]
            } else {
                fill
            },
    )
}

/// The eight bytes of an uncompressed latitude: `DDMM.MMH`, with the last
/// digits blank as the precision says.
pub open spec fn uncompressed_latitude(units: int, precision: Precision) -> Seq<u8> {
    let shown = overwrite_tail(dmh_digits(units, 2), precision.spec_num_digits() as int, 32);
    shown.subrange(0, 4) + seq![46u8] + shown.subrange(4, 6) + seq![
        if units >= 0 {
            78u8
        } else {
            83u8
        },
    ]
}

/// The nine bytes of an uncompressed longitude: `DDDMM.MMH`.
pub open spec fn uncompressed_longitude(units: int) -> Seq<u8> {
    let digits = dmh_digits(units, 3);
    digits.subrange(0, 5) + seq![46u8] + digits.subrange(5, 7) + seq![
        if units >= 0 {
            69u8
        } else {
            87u8
        },
    ]
}

/// The latitude, in units, and the precision that eight bytes spell.
///
/// The bytes are `DDMM.MMH` with `N` or `S` for `H`. Digits may be blank from
/// the right; once one is blank, all that follow are. `None` for anything
/// else, for a latitude all blank, and for one beyond ninety degrees.
pub open spec fn parse_uncompressed_latitude(b: Seq<u8>) -> Option<(int, Precision)> {
    if b.len() != 8 || b[4] != 46 || (b[7] != 78 && b[7] != 83) {
        None
    } else {
        match blanked_pair(seq![b[0], b[1]], false) {
            None => None,
            Some((deg, n1)) => match blanked_pair(seq![b[2], b[3]], n1 > 0) {
                None => None,
                Some((min, n2)) => match blanked_pair(seq![b[5], b[6]], n2 > 0) {
                    None => None,
                    Some((hundredths, n3)) => {
                        let units = dmh_units(deg as int, min as int, hundredths as int);
                        if n1 + n2 + n3 > 5 || units > 102_850_020_000 {
                            None
                        } else {
                            Some(
                                (
                                    if b[7] == 78 {
                                        units
                                    } else {
                                        -units
                                    },
                                    Precision::spec_from_num_digits((n1 + n2 + n3) as u8).unwrap(),
                                ),
                            )
                        }
                    },
                },
            },
        }
    }
}

/// The seven digits of an uncompressed longitude, with the last ones set to
/// zero as the precision of the latitude says.
pub open spec fn longitude_digits(b: Seq<u8>, precision: Precision) -> Seq<u8>
    recommends
        b.len() == 9,
{
    overwrite_tail(b.subrange(0, 5) + b.subrange(6, 8), precision.spec_num_digits() as int, 48)
}

/// The longitude, in units, that nine bytes spell at a given precision.
///
/// The bytes are `DDDMM.MMH` with `E` or `W` for `H`. `None` for anything
/// else and for a longitude beyond 180 degrees.
pub open spec fn parse_uncompressed_longitude(b: Seq<u8>, precision: Precision) -> Option<int> {
    if b.len() != 9 || b[5] != 46 || (b[8] != 69 && b[8] != 87) {
        None
    } else {
        let digits = longitude_digits(b, precision);
        match (
            parse_decimal(digits.subrange(0, 3), 4294967295),
            parse_decimal(digits.subrange(3, 5), 4294967295),
            parse_decimal(digits.subrange(5, 7), 4294967295),
        ) {
            (Some(deg), Some(min), Some(hundredths)) => {
                let units = dmh_units(deg as int, min as int, hundredths as int);
                if units > 205_700_040_000 {
                    None
                } else {
                    Some(
                        if b[8] == 69 {
                            units
                        } else {
                            -units
                        },
                    )
                }
            },
            _ => None,
        }
    }
}

/// The latitude, in units, that four base-91 digits spell: ninety degrees
/// less the number's steps. `None` if a byte is no digit or the latitude
/// lies beyond the south pole.
pub open spec fn parse_compressed_latitude(b: Seq<u8>) -> Option<int> {
    if b.len() != 4 || !all_printable(b) || value91(b) > 68_566_680 {
        None
    } else {
        Some(102_850_020_000 - 3_000 * value91(b))
    }
}

/// The longitude, in units, that four base-91 digits spell: the number's
/// steps east of 180 degrees west. `None` if a byte is no digit or the
/// longitude lies beyond 180 degrees east.
pub open spec fn parse_compressed_longitude(b: Seq<u8>) -> Option<int> {
    if b.len() != 4 || !all_printable(b) || value91(b) > 68_566_680 {
        None
    } else {
        Some(6_000 * value91(b) - 205_700_040_000)
    }
}

/// The number of a compressed latitude: its distance from the north pole in
/// steps, rounded to the nearest.
pub open spec fn compressed_latitude_number(units: int) -> int {
    (102_850_020_000 - units + 1_500) / 3_000
}

/// The number of a compressed longitude: its distance from 180 degrees west
/// in steps, rounded to the nearest.
pub open spec fn compressed_longitude_number(units: int) -> int {
    (205_700_040_000 + units + 3_000) / 6_000
}

/// The digit that a byte of a latitude stands for: a blank stands for zero.
pub open spec fn digit_or_zero(c: u8) -> int {
    if c == 32 {
        0
    } else {
        c - 48
    }
}

/// The six bytes of an uncompressed latitude that hold its digits.
pub open spec fn latitude_field(b: Seq<u8>) -> Seq<u8>
    recommends
        b.len() == 8,
{
    seq![b[0], b[1], b[2], b[3], b[5], b[6]]
}

/// Whether eight bytes are a latitude as `encode_uncompressed` writes it:
/// `DDMM.MMH` with digits, then at most five blanks, with minutes below 60
/// and `N` or `S`.
pub open spec fn canonical_latitude(b: Seq<u8>) -> bool {
    let field = latitude_field(b);
    let blanks = crate::utils::trailing_spaces(field);
    &&& b.len() == 8
    &&& b[4] == 46
    &&& (b[7] == 78 || b[7] == 83)
    &&& blanks <= 5
    &&& crate::bytes::all_digits(field.subrange(0, 6 - blanks))
    &&& (field[2] == 32 || field[2] <= 53)
}

/// What the three fields of a latitude with `blanks` blanks at the end
/// hold.
#[verifier::rlimit(30)]
proof fn lemma_latitude_fields(b: Seq<u8>, blanks: int)
    requires
        b.len() == 8,
        0 <= blanks <= 5,
        forall|i: int| 0 <= i < 6 - blanks ==> crate::bytes::is_digit(#[trigger] latitude_field(b)[i]),
        forall|i: int| 6 - blanks <= i < 6 ==> #[trigger] latitude_field(b)[i] == 32,
    ensures
        blanked_pair(seq![b[0], b[1]], false) == Some(
            (
                (10 * digit_or_zero(b[0]) + digit_or_zero(b[1])) as u32,
                if blanks == 5 {
                    1u8
                } else {
                    0u8
                },
            ),
        ),
        blanked_pair(seq![b[2], b[3]], blanks == 5) == Some(
            (
                (10 * digit_or_zero(b[2]) + digit_or_zero(b[3])) as u32,
                if blanks >= 4 {
                    2u8
                } else if blanks == 3 {
                    1u8
                } else {
                    0u8
                },
            ),
        ),
        blanked_pair(seq![b[5], b[6]], blanks >= 3) == Some(
            (
                (10 * digit_or_zero(b[5]) + digit_or_zero(b[6])) as u32,
                if blanks >= 2 {
                    2u8
                } else if blanks == 1 {
                    1u8
                } else {
                    0u8
                },
            ),
        ),
{
    let f = latitude_field(b);
    assert(f[0] == b[0] && f[1] == b[1] && f[2] == b[2] && f[3] == b[3] && f[4] == b[5] && f[5]
        == b[6]);
    assert(crate::bytes::is_digit(f[0]));
    crate::bytes::lemma_blanked_pair(b[0], b[1], false);
    crate::bytes::lemma_blanked_pair(b[2], b[3], blanks == 5);
    crate::bytes::lemma_blanked_pair(b[5], b[6], blanks >= 3);
    if blanks <= 4 {
        assert(crate::bytes::is_digit(f[1]));
    } else {
        assert(f[1] == 32);
    }
    if blanks <= 2 {
        assert(crate::bytes::is_digit(f[2]) && crate::bytes::is_digit(f[3]));
    } else if blanks == 3 {
        assert(crate::bytes::is_digit(f[2]) && f[3] == 32);
    } else {
        assert(f[2] == 32 && f[3] == 32);
    }
    if blanks == 0 {
        assert(crate::bytes::is_digit(f[4]) && crate::bytes::is_digit(f[5]));
    } else if blanks == 1 {
        assert(crate::bytes::is_digit(f[4]) && f[5] == 32);
    } else {
        assert(f[4] == 32 && f[5] == 32);
    }
}

/// The six digits of a latitude of degrees below 100, minutes below 60 and
/// hundredths below 100.
#[verifier::rlimit(30)]
proof fn lemma_latitude_digits_of(deg: int, min: int, hundredths: int, positive: bool)
    requires
        0 <= deg < 100,
        0 <= min < 60,
        0 <= hundredths < 100,
        positive || dmh_units(deg, min, hundredths) != 0,
    ensures
        dmh_digits(
            if positive {
                dmh_units(deg, min, hundredths)
            } else {
                -dmh_units(deg, min, hundredths)
            },
            2,
        ) == seq![
            (48 + deg / 10) as u8,
            (48 + deg % 10) as u8,
            (48 + min / 10) as u8,
            (48 + min % 10) as u8,
            (48 + hundredths / 10) as u8,
            (48 + hundredths % 10) as u8,
        ],
{
    lemma_dmh_round_trip(deg, min, hundredths, positive);
    crate::bytes::lemma_fixed_two(deg as nat);
    crate::bytes::lemma_fixed_two(min as nat);
    crate::bytes::lemma_fixed_two(hundredths as nat);
    let units = if positive {
        dmh_units(deg, min, hundredths)
    } else {
        -dmh_units(deg, min, hundredths)
    };
    assert(dmh_digits(units, 2) =~= seq![
        (48 + deg / 10) as u8,
        (48 + deg % 10) as u8,
        (48 + min / 10) as u8,
        (48 + min % 10) as u8,
        (48 + hundredths / 10) as u8,
        (48 + hundredths % 10) as u8,
    ]);
}

/// The number that the two bytes of a field of a latitude stand for.
pub open spec fn field_value(c: u8, d: u8) -> int {
    10 * digit_or_zero(c) + digit_or_zero(d)
}

/// What a latitude with `blanks` blanks at the end reads as.
#[verifier::rlimit(30)]
proof fn lemma_latitude_parse(b: Seq<u8>, blanks: int)
    requires
        b.len() == 8,
        b[4] == 46,
        b[7] == 78 || b[7] == 83,
        0 <= blanks <= 5,
        forall|i: int| 0 <= i < 6 - blanks ==> crate::bytes::is_digit(#[trigger] latitude_field(b)[i]),
        forall|i: int| 6 - blanks <= i < 6 ==> #[trigger] latitude_field(b)[i] == 32,
    ensures
        0 <= field_value(b[0], b[1]) < 100,
        0 <= field_value(b[2], b[3]) < 100,
        0 <= field_value(b[5], b[6]) < 100,
        parse_uncompressed_latitude(b) == if dmh_units(
            field_value(b[0], b[1]),
            field_value(b[2], b[3]),
            field_value(b[5], b[6]),
        ) > 102_850_020_000 {
            None
        } else {
            Some(
                (
                    if b[7] == 78 {
                        dmh_units(
                            field_value(b[0], b[1]),
                            field_value(b[2], b[3]),
                            field_value(b[5], b[6]),
                        )
                    } else {
                        -dmh_units(
                            field_value(b[0], b[1]),
                            field_value(b[2], b[3]),
                            field_value(b[5], b[6]),
                        )
                    },
                    Precision::spec_from_num_digits(blanks as u8).unwrap(),
                ),
            )
        },
{
    lemma_latitude_fields(b, blanks);
    let f = latitude_field(b);
    assert(f[0] == b[0] && f[1] == b[1] && f[2] == b[2] && f[3] == b[3] && f[4] == b[5] && f[5]
        == b[6]);
    assert(crate::bytes::is_digit(f[0]) || f[0] == 32);
    assert(crate::bytes::is_digit(f[1]) || f[1] == 32);
    assert(crate::bytes::is_digit(f[2]) || f[2] == 32);
    assert(crate::bytes::is_digit(f[3]) || f[3] == 32);
    assert(crate::bytes::is_digit(f[4]) || f[4] == 32);
    assert(crate::bytes::is_digit(f[5]) || f[5] == 32);
}

/// Six digits with the last `blanks` of them made blank are the six bytes
/// of a field that holds those digits and then blanks.
proof fn lemma_overwrite_tail_is_field(digits: Seq<u8>, f: Seq<u8>, blanks: int)
    requires
        digits.len() == 6,
        f.len() == 6,
        0 <= blanks <= 5,
        forall|i: int| 0 <= i < 6 - blanks ==> #[trigger] f[i] == digits[i],
        forall|i: int| 6 - blanks <= i < 6 ==> #[trigger] f[i] == 32,
    ensures
        overwrite_tail(digits, blanks, 32) == f,
{
    assert(overwrite_tail(digits, blanks, 32) =~= f);
}

/// The eight bytes of a latitude are its six shown digits with a point
/// after the fourth and the letter of the hemisphere at the end.
proof fn lemma_latitude_assembled(b: Seq<u8>, units: int, precision: Precision)
    requires
        b.len() == 8,
        b[4] == 46,
        b[7] == if units >= 0 {
            78u8
        } else {
            83u8
        },
        overwrite_tail(dmh_digits(units, 2), precision.spec_num_digits() as int, 32)
            == latitude_field(b),
    ensures
        uncompressed_latitude(units, precision) == b,
{
    assert(uncompressed_latitude(units, precision) =~= b);
}

/// The two digits of the number of a field are what its bytes stand for.
proof fn lemma_field_value(c: u8, d: u8)
    requires
        crate::bytes::is_digit(c) || c == 32,
        crate::bytes::is_digit(d) || d == 32,
    ensures
        0 <= field_value(c, d) < 100,
        field_value(c, d) / 10 == digit_or_zero(c),
        field_value(c, d) % 10 == digit_or_zero(d),
{
}

/// The six digits of three fields, where the first bytes of the fields are
/// digits and the rest blanks, are those bytes where they are digits.
#[verifier::rlimit(30)]
proof fn lemma_digits_match_field(b: Seq<u8>, digits: Seq<u8>, blanks: int)
    requires
        b.len() == 8,
        0 <= blanks <= 5,
        forall|i: int| 0 <= i < 6 - blanks ==> crate::bytes::is_digit(#[trigger] latitude_field(b)[i]),
        forall|i: int| 6 - blanks <= i < 6 ==> #[trigger] latitude_field(b)[i] == 32,
        digits == seq![
            (48 + field_value(b[0], b[1]) / 10) as u8,
            (48 + field_value(b[0], b[1]) % 10) as u8,
            (48 + field_value(b[2], b[3]) / 10) as u8,
            (48 + field_value(b[2], b[3]) % 10) as u8,
            (48 + field_value(b[5], b[6]) / 10) as u8,
            (48 + field_value(b[5], b[6]) % 10) as u8,
        ],
    ensures
        overwrite_tail(digits, blanks, 32) == latitude_field(b),
{
    let f = latitude_field(b);
    assert(f[0] == b[0] && f[1] == b[1] && f[2] == b[2] && f[3] == b[3] && f[4] == b[5] && f[5]
        == b[6]);
    assert(crate::bytes::is_digit(f[0]) || f[0] == 32);
    assert(crate::bytes::is_digit(f[1]) || f[1] == 32);
    assert(crate::bytes::is_digit(f[2]) || f[2] == 32);
    assert(crate::bytes::is_digit(f[3]) || f[3] == 32);
    assert(crate::bytes::is_digit(f[4]) || f[4] == 32);
    assert(crate::bytes::is_digit(f[5]) || f[5] == 32);
    lemma_field_value(b[0], b[1]);
    lemma_field_value(b[2], b[3]);
    lemma_field_value(b[5], b[6]);
    assert forall|i: int| 0 <= i < 6 - blanks implies #[trigger] f[i] == digits[i] by {
        assert(crate::bytes::is_digit(f[i]));
    }
    lemma_overwrite_tail_is_field(digits, f, blanks);
}

/// What a latitude of degrees, minutes and hundredths is written as with
/// `blanks` blanks: the six bytes it was read from, if those held the
/// digits and the blanks.
#[verifier::rlimit(30)]
proof fn lemma_latitude_shown(b: Seq<u8>, blanks: int)
    requires
        b.len() == 8,
        b[4] == 46,
        b[7] == 78 || b[7] == 83,
        0 <= blanks <= 5,
        forall|i: int| 0 <= i < 6 - blanks ==> crate::bytes::is_digit(#[trigger] latitude_field(b)[i]),
        forall|i: int| 6 - blanks <= i < 6 ==> #[trigger] latitude_field(b)[i] == 32,
        0 <= field_value(b[0], b[1]) < 100,
        0 <= field_value(b[2], b[3]) < 60,
        0 <= field_value(b[5], b[6]) < 100,
        b[7] == 78 || dmh_units(
            field_value(b[0], b[1]),
            field_value(b[2], b[3]),
            field_value(b[5], b[6]),
        ) != 0,
    ensures
        uncompressed_latitude(
            if b[7] == 78 {
                dmh_units(
                    field_value(b[0], b[1]),
                    field_value(b[2], b[3]),
                    field_value(b[5], b[6]),
                )
            } else {
                -dmh_units(
                    field_value(b[0], b[1]),
                    field_value(b[2], b[3]),
                    field_value(b[5], b[6]),
                )
            },
            Precision::spec_from_num_digits(blanks as u8).unwrap(),
        ) == b,
{
    let deg = field_value(b[0], b[1]);
    let min = field_value(b[2], b[3]);
    let hundredths = field_value(b[5], b[6]);
    let north = b[7] == 78;
    lemma_latitude_digits_of(deg, min, hundredths, north);
    let units = if north {
        dmh_units(deg, min, hundredths)
    } else {
        -dmh_units(deg, min, hundredths)
    };
    let precision = Precision::spec_from_num_digits(blanks as u8).unwrap();
    assert(precision.spec_num_digits() == blanks);
    lemma_digits_match_field(b, dmh_digits(units, 2), blanks);
    assert(dmh_units(deg, min, hundredths) >= 0);
    lemma_latitude_assembled(b, units, precision);
}

/// A latitude written as `encode_uncompressed` writes it, and read, is
/// written the same, unless it is the equator marked as south.
#[verifier::rlimit(30)]
pub proof fn lemma_latitude_round_trip(b: Seq<u8>)
    requires
        canonical_latitude(b),
        parse_uncompressed_latitude(b) matches Some((units, _)) && (units != 0 || b[7] == 78),
    ensures
        uncompressed_latitude(
            parse_uncompressed_latitude(b).unwrap().0,
            parse_uncompressed_latitude(b).unwrap().1,
        ) == b,
{
    let f = latitude_field(b);
    let k = crate::utils::trailing_spaces(f) as int;
    crate::utils::lemma_trailing_spaces(f);
    let digits = f.subrange(0, 6 - k);
    assert forall|i: int| 0 <= i < 6 - k implies crate::bytes::is_digit(#[trigger] f[i]) by {
        assert(digits[i] == f[i]);
    }
    lemma_latitude_parse(b, k);
    assert(field_value(b[2], b[3]) < 60) by {
        assert(f[2] == b[2] && f[3] == b[3]);
        assert(crate::bytes::is_digit(f[3]) || f[3] == 32);
    }
    lemma_latitude_shown(b, k);
}

/// The seven bytes of an uncompressed longitude that hold its digits.
pub open spec fn longitude_field(b: Seq<u8>) -> Seq<u8>
    recommends
        b.len() == 9,
{
    b.subrange(0, 5) + b.subrange(6, 8)
}

/// Whether nine bytes are a longitude as `encode_uncompressed` writes it
/// beside a latitude of the given precision: `DDDMM.MMH` with digits, of
/// which those that the precision leaves out are zero, with minutes below 60
/// and `E` or `W`.
pub open spec fn canonical_longitude(b: Seq<u8>, precision: Precision) -> bool {
    let field = longitude_field(b);
    &&& b.len() == 9
    &&& b[5] == 46
    &&& (b[8] == 69 || b[8] == 87)
    &&& crate::bytes::all_digits(field)
    &&& forall|i: int| 7 - precision.spec_num_digits() <= i < 7 ==> #[trigger] field[i] == 48
    &&& field[3] <= 53
}

/// A longitude written as `encode_uncompressed` writes it, and read, is
/// written the same, unless it is the prime meridian marked as west.
#[verifier::rlimit(30)]
pub proof fn lemma_longitude_round_trip(b: Seq<u8>, precision: Precision)
    requires
        canonical_longitude(b, precision),
        parse_uncompressed_longitude(b, precision) matches Some(units) && (units != 0 || b[8]
            == 69),
    ensures
        uncompressed_longitude(parse_uncompressed_longitude(b, precision).unwrap()) == b,
{
    let g = longitude_field(b);
    assert(longitude_digits(b, precision) =~= g);
    let d = g.subrange(0, 3);
    let m = g.subrange(3, 5);
    let h = g.subrange(5, 7);
    assert(crate::bytes::all_digits(d) && crate::bytes::all_digits(m) && crate::bytes::all_digits(
        h,
    )) by {
        assert forall|i: int| 0 <= i < 3 implies crate::bytes::is_digit(#[trigger] d[i]) by {
            assert(d[i] == g[i]);
        }
        assert forall|i: int| 0 <= i < 2 implies crate::bytes::is_digit(#[trigger] m[i])
            && crate::bytes::is_digit(h[i]) by {
            assert(m[i] == g[i + 3]);
            assert(h[i] == g[i + 5]);
        }
    }
    crate::bytes::lemma_pow10_values();
    crate::bytes::lemma_digits_value_bound(d);
    crate::bytes::lemma_digits_value_bound(m);
    crate::bytes::lemma_digits_value_bound(h);
    crate::bytes::lemma_parse_digits(d, 4294967295);
    crate::bytes::lemma_parse_digits(m, 4294967295);
    crate::bytes::lemma_parse_digits(h, 4294967295);
    crate::bytes::lemma_fixed_digits_of_value(d);
    crate::bytes::lemma_fixed_digits_of_value(m);
    crate::bytes::lemma_fixed_digits_of_value(h);
    let deg = crate::bytes::digits_value(d);
    let min = crate::bytes::digits_value(m);
    let hundredths = crate::bytes::digits_value(h);
    assert(m =~= seq![g[3], g[4]]);
    crate::bytes::lemma_digits_value_short(g[3], g[4]);
    assert(crate::bytes::is_digit(g[3]) && crate::bytes::is_digit(g[4]));
    assert(min < 60);
    lemma_dmh_round_trip(deg as int, min as int, hundredths as int, b[8] == 69);
    let units = parse_uncompressed_longitude(b, precision).unwrap();
    assert(dmh_digits(units, 3) =~= g);
    assert(uncompressed_longitude(units) =~= b);
}

/// Four base-91 digits that spell a compressed latitude are what the
/// latitude is written as.
pub proof fn lemma_compressed_latitude_round_trip(b: Seq<u8>)
    requires
        b.len() == 4,
        crate::base91::all_digits91(b),
        value91(b) <= 68_566_680,
    ensures
        parse_compressed_latitude(b) matches Some(units) && encode91(
            compressed_latitude_number(units) as nat,
            4,
        ) == b,
{
    crate::base91::lemma_encode91_of_value(b);
    assert(all_printable(b));
}

/// Four base-91 digits that spell a compressed longitude are what the
/// longitude is written as.
pub proof fn lemma_compressed_longitude_round_trip(b: Seq<u8>)
    requires
        b.len() == 4,
        crate::base91::all_digits91(b),
        value91(b) <= 68_566_680,
    ensures
        parse_compressed_longitude(b) matches Some(units) && encode91(
            compressed_longitude_number(units) as nat,
            4,
        ) == b,
{
    crate::base91::lemma_encode91_of_value(b);
    assert(all_printable(b));
}

/// What is read as a latitude or a longitude is in range.
pub proof fn lemma_parsed_in_range(lat_bytes: Seq<u8>, lon_bytes: Seq<u8>, precision: Precision)
    ensures
        parse_uncompressed_latitude(lat_bytes) matches Some((units, _)) ==> is_latitude(units),
        parse_uncompressed_longitude(lon_bytes, precision) matches Some(units) ==> is_longitude(
            units,
        ),
        parse_compressed_latitude(lat_bytes) matches Some(units) ==> is_latitude(units),
        parse_compressed_longitude(lon_bytes) matches Some(units) ==> is_longitude(units),
{
    if lat_bytes.len() == 8 {
        crate::bytes::lemma_blanked_pair_bounds(seq![lat_bytes[0], lat_bytes[1]], false);
        crate::bytes::lemma_blanked_pair_bounds(seq![lat_bytes[2], lat_bytes[3]], false);
        crate::bytes::lemma_blanked_pair_bounds(seq![lat_bytes[2], lat_bytes[3]], true);
        crate::bytes::lemma_blanked_pair_bounds(seq![lat_bytes[5], lat_bytes[6]], false);
        crate::bytes::lemma_blanked_pair_bounds(seq![lat_bytes[5], lat_bytes[6]], true);
    }
}

/// Whether a coordinate and a precision go together as `parse_uncompressed`
/// gives them: the coordinate is a whole number of widths of the precision.
pub open spec fn aligned(units: int, precision: Precision) -> bool {
    units % precision.spec_width_units() == 0
}

/// A latitude that is read has the precision that it is read with.
#[verifier::rlimit(30)]
pub proof fn lemma_parsed_latitude_aligned(b: Seq<u8>)
    requires
        parse_uncompressed_latitude(b).is_some(),
    ensures
        aligned(parse_uncompressed_latitude(b).unwrap().0, parse_uncompressed_latitude(b).unwrap().1),
        is_latitude(parse_uncompressed_latitude(b).unwrap().0),
{
    crate::bytes::lemma_blanked_pair_shape(b[0], b[1], false);
    let (deg, n1) = blanked_pair(seq![b[0], b[1]], false).unwrap();
    crate::bytes::lemma_blanked_pair_shape(b[2], b[3], n1 > 0);
    let (min, n2) = blanked_pair(seq![b[2], b[3]], n1 > 0).unwrap();
    crate::bytes::lemma_blanked_pair_shape(b[5], b[6], n2 > 0);
    let (hundredths, n3) = blanked_pair(seq![b[5], b[6]], n2 > 0).unwrap();
    let units = dmh_units(deg as int, min as int, hundredths as int);
    let (parsed, precision) = parse_uncompressed_latitude(b).unwrap();
    let k = n1 + n2 + n3;
    assert(precision.spec_num_digits() == k);
    assert(parsed == units || parsed == -units);
    assert(units % precision.spec_width_units() == 0);
}

/// The degrees, minutes and hundredths of a coordinate that is a whole
/// number of hundredths of a minute are exact: nothing is rounded.
#[verifier::rlimit(30)]
pub proof fn lemma_dmh_exact(units: int)
    requires
        units % 190_463 == 0,
    ensures
        ({
            let count = (if units >= 0 {
                units
            } else {
                -units
            }) / 190_463;
            dmh_spec(units) == (count / 6000, (count % 6000) / 100, count % 100, units >= 0)
        }),
{
    let a = if units >= 0 {
        units
    } else {
        -units
    };
    let count = a / 190_463;
    assert(a % 190_463 == 0);
    assert(a == 190_463 * count);
    vstd::arithmetic::div_mod::lemma_truncate_middle(count, 190_463, 6000);
    assert(1_142_778_000 == 190_463 * 6000);
    let r = count % 6000;
    assert(a % 1_142_778_000 == 190_463 * r);
    vstd::arithmetic::div_mod::lemma_div_multiples_vanish_quotient(190_463, count, 6000);
    assert(a / 1_142_778_000 == count / 6000);
    vstd::arithmetic::div_mod::lemma_truncate_middle(r, 190_463, 100);
    assert(19_046_300 == 190_463 * 100);
    assert((190_463 * r) % 19_046_300 == 190_463 * (r % 100));
    vstd::arithmetic::div_mod::lemma_div_multiples_vanish_quotient(190_463, r, 100);
    assert((190_463 * r) / 19_046_300 == r / 100);
    let h = r % 100;
    vstd::arithmetic::div_mod::lemma_fundamental_div_mod_converse(
        190_463 * h + 95_231,
        190_463,
        h,
        95_231,
    );
    assert(r % 100 == count % 100);
}

/// The number of hundredths of a minute in the width of a precision.
pub open spec fn width_count(precision: Precision) -> int {
    match precision {
        Precision::HundredthMinute => 1,
        Precision::TenthMinute => 10,
        Precision::OneMinute => 100,
        Precision::TenMinute => 1000,
        Precision::OneDegree => 6000,
        Precision::TenDegree => 60000,
    }
}

/// A multiple of a product is a multiple of its first factor, and the
/// quotient a multiple of the second.
proof fn lemma_multiple_of_product(x: int, a: int, b: int)
    requires
        a > 0,
        b > 0,
        x % (a * b) == 0,
    ensures
        x % a == 0,
        (x / a) % b == 0,
        x == a * (x / a),
{
    assert(a * b > 0) by (nonlinear_arith)
        requires
            a > 0,
            b > 0,
    ;
    vstd::arithmetic::div_mod::lemma_fundamental_div_mod(x, a * b);
    let t = x / (a * b);
    assert(x == a * (b * t)) by (nonlinear_arith)
        requires
            x == (a * b) * t + 0,
    ;
    vstd::arithmetic::div_mod::lemma_fundamental_div_mod_converse(x, a, b * t, 0);
    vstd::arithmetic::div_mod::lemma_mod_multiples_basic(t, b);
    assert(t * b == b * t) by (nonlinear_arith);
}

/// The negative of a multiple is a multiple.
proof fn lemma_multiple_negated(x: int, a: int)
    requires
        a > 0,
        x % a == 0,
    ensures
        (-x) % a == 0,
{
    vstd::arithmetic::div_mod::lemma_fundamental_div_mod(x, a);
    let t = x / a;
    assert(-x == a * (-t)) by (nonlinear_arith)
        requires
            x == a * t + 0,
    ;
    vstd::arithmetic::div_mod::lemma_fundamental_div_mod_converse(-x, a, -t, 0);
}

/// A coordinate that is a whole number of widths of a precision is a whole
/// number of hundredths of a minute, and that number a whole number of the
/// hundredths in the width.
proof fn lemma_aligned_count(units: int, precision: Precision)
    requires
        aligned(units, precision),
    ensures
        units % 190_463 == 0,
        ((if units >= 0 {
            units
        } else {
            -units
        }) / 190_463) % width_count(precision) == 0,
        (if units >= 0 {
            units
        } else {
            -units
        }) == 190_463 * ((if units >= 0 {
            units
        } else {
            -units
        }) / 190_463),
{
    let w = precision.spec_width_units();
    let q = width_count(precision);
    assert(w == 190_463 * q);
    if units < 0 {
        lemma_multiple_negated(units, w);
    }
    let a = if units >= 0 {
        units
    } else {
        -units
    };
    lemma_multiple_of_product(a, 190_463, q);
    lemma_multiple_of_product(units, 190_463, q);
}

/// Which digits of degrees, minutes and hundredths are zero where their
/// number is a whole number of the hundredths in a width.
#[verifier::rlimit(30)]
proof fn lemma_count_digits(count: int, precision: Precision)
    requires
        0 <= count,
        count % width_count(precision) == 0,
    ensures
        ({
            let k = precision.spec_num_digits();
            let d = count / 6000;
            let m = (count % 6000) / 100;
            let h = count % 100;
            &&& 0 <= m < 60
            &&& 0 <= h < 100
            &&& (k >= 1 ==> h % 10 == 0)
            &&& (k >= 2 ==> h == 0)
            &&& (k >= 3 ==> m % 10 == 0)
            &&& (k >= 4 ==> m == 0)
            &&& (k >= 5 ==> d % 10 == 0)
        }),
{
    let k = precision.spec_num_digits();
    let r = count % 6000;
    assert(0 <= r < 6000);
    assert(0 <= r / 100 < 60);
    if k >= 1 {
        // a whole number of tens
        assert(count % 10 == 0) by {
            match precision {
                Precision::TenthMinute => {},
                Precision::OneMinute => {
                    lemma_multiple_of_product(count, 10, 10);
                },
                Precision::TenMinute => {
                    lemma_multiple_of_product(count, 10, 100);
                },
                Precision::OneDegree => {
                    lemma_multiple_of_product(count, 10, 600);
                },
                _ => {
                    lemma_multiple_of_product(count, 10, 6000);
                },
            }
        }
        vstd::arithmetic::div_mod::lemma_mod_mod(count, 10, 10);
    }
    if k >= 2 {
        assert(count % 100 == 0) by {
            match precision {
                Precision::OneMinute => {},
                Precision::TenMinute => {
                    lemma_multiple_of_product(count, 100, 10);
                },
                Precision::OneDegree => {
                    lemma_multiple_of_product(count, 100, 60);
                },
                _ => {
                    lemma_multiple_of_product(count, 100, 600);
                },
            }
        }
    }
    if k >= 3 {
        assert(count % 1000 == 0) by {
            match precision {
                Precision::TenMinute => {},
                Precision::OneDegree => {
                    lemma_multiple_of_product(count, 1000, 6);
                },
                _ => {
                    lemma_multiple_of_product(count, 1000, 60);
                },
            }
        }
        vstd::arithmetic::div_mod::lemma_mod_mod(count, 1000, 6);
        assert(r % 1000 == 0);
        lemma_multiple_of_product(r, 100, 10);
    }
    if k >= 4 {
        assert(count % 6000 == 0) by {
            match precision {
                Precision::OneDegree => {},
                _ => {
                    lemma_multiple_of_product(count, 6000, 10);
                },
            }
        }
    }
    if k >= 5 {
        lemma_multiple_of_product(count, 6000, 10);
    }
}

/// The number of a field of which the bytes are the two digits of a number
/// below 100, or blanks where those digits are zero.
proof fn lemma_field_value_of(x: int, c: u8, d: u8)
    requires
        0 <= x < 100,
        c == 48 + x / 10 || (c == 32 && x / 10 == 0),
        d == 48 + x % 10 || (d == 32 && x % 10 == 0),
    ensures
        field_value(c, d) == x,
{
}

/// The six shown digits of a latitude that is a whole number of widths of
/// its precision: the digits of degrees, minutes and hundredths, of which
/// those that the precision leaves out are zero and shown blank.
#[verifier::rlimit(30)]
proof fn lemma_aligned_latitude_shown(units: int, precision: Precision)
    requires
        is_latitude(units),
        units % 190_463 == 0,
    ensures
        ({
            let b = uncompressed_latitude(units, precision);
            let k = precision.spec_num_digits() as int;
            let count = (if units >= 0 {
                units
            } else {
                -units
            }) / 190_463;
            let d = count / 6000;
            let m = (count % 6000) / 100;
            let h = count % 100;
            &&& b.len() == 8
            &&& b[4] == 46
            &&& b[7] == if units >= 0 {
                78u8
            } else {
                83u8
            }
            &&& latitude_field(b) == overwrite_tail(
                seq![
                    (48 + d / 10) as u8,
                    (48 + d % 10) as u8,
                    (48 + m / 10) as u8,
                    (48 + m % 10) as u8,
                    (48 + h / 10) as u8,
                    (48 + h % 10) as u8,
                ],
                k,
                32,
            )
        }),
{
    lemma_dmh_exact(units);
    let a = if units >= 0 {
        units
    } else {
        -units
    };
    let count = a / 190_463;
    let d = count / 6000;
    let m = (count % 6000) / 100;
    let h = count % 100;
    assert(0 <= d <= 90);
    crate::bytes::lemma_fixed_two(d as nat);
    crate::bytes::lemma_fixed_two(m as nat);
    crate::bytes::lemma_fixed_two(h as nat);
    let digits = dmh_digits(units, 2);
    assert(digits =~= seq![
        (48 + d / 10) as u8,
        (48 + d % 10) as u8,
        (48 + m / 10) as u8,
        (48 + m % 10) as u8,
        (48 + h / 10) as u8,
        (48 + h % 10) as u8,
    ]);
    let b = uncompressed_latitude(units, precision);
    let k = precision.spec_num_digits() as int;
    assert(latitude_field(b) =~= overwrite_tail(digits, k, 32));
}

/// A number of hundredths of a minute is its degrees, minutes and
/// hundredths.
proof fn lemma_count_units(count: int)
    requires
        0 <= count,
    ensures
        190_463 * count == dmh_units(count / 6000, (count % 6000) / 100, count % 100),
        0 <= (count % 6000) / 100 < 60,
        0 <= count % 100 < 100,
{
    let r = count % 6000;
    vstd::arithmetic::div_mod::lemma_mod_mod(count, 100, 60);
    assert(r % 100 == count % 100);
    assert(count == 6000 * (count / 6000) + r);
    assert(r == 100 * (r / 100) + r % 100);
}

/// The six shown digits of a latitude that is a whole number of widths of
/// its precision hold digits first and then blanks, and stand for its
/// degrees, minutes and hundredths.
#[verifier::rlimit(30)]
proof fn lemma_aligned_latitude_field(units: int, precision: Precision)
    requires
        is_latitude(units),
        aligned(units, precision),
    ensures
        ({
            let b = uncompressed_latitude(units, precision);
            let f = latitude_field(b);
            let k = precision.spec_num_digits() as int;
            let count = (if units >= 0 {
                units
            } else {
                -units
            }) / 190_463;
            &&& b.len() == 8
            &&& b[4] == 46
            &&& b[7] == if units >= 0 {
                78u8
            } else {
                83u8
            }
            &&& forall|i: int| 0 <= i < 6 - k ==> crate::bytes::is_digit(#[trigger] f[i])
            &&& forall|i: int| 6 - k <= i < 6 ==> #[trigger] f[i] == 32
            &&& field_value(b[0], b[1]) == count / 6000
            &&& field_value(b[2], b[3]) == (count % 6000) / 100
            &&& field_value(b[5], b[6]) == count % 100
            &&& (count % 6000) / 100 < 60
            &&& units % 190_463 == 0
            &&& (if units >= 0 {
                units
            } else {
                -units
            }) == dmh_units(count / 6000, (count % 6000) / 100, count % 100)
        }),
{
    lemma_aligned_count(units, precision);
    let a = if units >= 0 {
        units
    } else {
        -units
    };
    let count = a / 190_463;
    lemma_count_digits(count, precision);
    lemma_count_units(count);
    lemma_aligned_latitude_shown(units, precision);
    let d = count / 6000;
    let m = (count % 6000) / 100;
    let h = count % 100;
    let k = precision.spec_num_digits() as int;
    let digits = seq![
        (48 + d / 10) as u8,
        (48 + d % 10) as u8,
        (48 + m / 10) as u8,
        (48 + m % 10) as u8,
        (48 + h / 10) as u8,
        (48 + h % 10) as u8,
    ];
    let b = uncompressed_latitude(units, precision);
    let f = latitude_field(b);
    assert(f == overwrite_tail(digits, k, 32));
    assert(0 <= d <= 90);
    assert(f[0] == b[0] && f[1] == b[1] && f[2] == b[2] && f[3] == b[3] && f[4] == b[5] && f[5]
        == b[6]);
    assert(digits[0] == 48 + d / 10 && digits[1] == 48 + d % 10);
    assert(digits[2] == 48 + m / 10 && digits[3] == 48 + m % 10);
    assert(digits[4] == 48 + h / 10 && digits[5] == 48 + h % 10);
    lemma_pair_of_field(f, digits, k, 0, d, b[0], b[1]);
    lemma_pair_of_field(f, digits, k, 2, m, b[2], b[3]);
    lemma_pair_of_field(f, digits, k, 4, h, b[5], b[6]);
    lemma_shown_digits(f, digits, k);
}

/// Of six shown digits, the first are digits and the rest blanks.
proof fn lemma_shown_digits(f: Seq<u8>, digits: Seq<u8>, k: int)
    requires
        digits.len() == 6,
        0 <= k <= 5,
        f == overwrite_tail(digits, k, 32),
        forall|i: int| 0 <= i < 6 ==> crate::bytes::is_digit(#[trigger] digits[i]),
    ensures
        forall|i: int| 0 <= i < 6 - k ==> crate::bytes::is_digit(#[trigger] f[i]),
        forall|i: int| 6 - k <= i < 6 ==> #[trigger] f[i] == 32,
{
    assert forall|i: int| 0 <= i < 6 - k implies crate::bytes::is_digit(#[trigger] f[i]) by {
        assert(f[i] == digits[i]);
    }
}

/// The number of one of the three fields of a shown latitude, where the
/// digits that are shown blank are zero.
proof fn lemma_pair_of_field(f: Seq<u8>, digits: Seq<u8>, k: int, at: int, x: int, c: u8, d: u8)
    requires
        digits.len() == 6,
        0 <= k <= 5,
        f == overwrite_tail(digits, k, 32),
        at == 0 || at == 2 || at == 4,
        0 <= x < 100,
        digits[at] == 48 + x / 10,
        digits[at + 1] == 48 + x % 10,
        at >= 6 - k ==> x / 10 == 0,
        at + 1 >= 6 - k ==> x % 10 == 0,
        c == f[at],
        d == f[at + 1],
    ensures
        field_value(c, d) == x,
{
    assert(f[at] == if at < 6 - k {
        digits[at]
    } else {
        32u8
    });
    assert(f[at + 1] == if at + 1 < 6 - k {
        digits[at + 1]
    } else {
        32u8
    });
    lemma_field_value_of(x, c, d);
}

/// A latitude that is a whole number of widths of a precision is written
/// in the written form and reads back as itself with that precision.
#[verifier::rlimit(30)]
pub proof fn lemma_latitude_decodes(units: int, precision: Precision)
    requires
        is_latitude(units),
        aligned(units, precision),
    ensures
        canonical_latitude(uncompressed_latitude(units, precision)),
        parse_uncompressed_latitude(uncompressed_latitude(units, precision)) == Some(
            (units, precision),
        ),
        units != 0 || uncompressed_latitude(units, precision)[7] == 78,
{
    let b = uncompressed_latitude(units, precision);
    let k = precision.spec_num_digits() as int;
    lemma_aligned_latitude_field(units, precision);
    lemma_latitude_parse(b, k);
    lemma_latitude_is_canonical(b, k);
}

/// Eight bytes with a point, a hemisphere, and digits and then `blanks`
/// blanks in their field, with minutes below 60, are a latitude in the
/// written form.
proof fn lemma_latitude_is_canonical(b: Seq<u8>, blanks: int)
    requires
        b.len() == 8,
        b[4] == 46,
        b[7] == 78 || b[7] == 83,
        0 <= blanks <= 5,
        forall|i: int| 0 <= i < 6 - blanks ==> crate::bytes::is_digit(#[trigger] latitude_field(b)[i]),
        forall|i: int| 6 - blanks <= i < 6 ==> #[trigger] latitude_field(b)[i] == 32,
        field_value(b[2], b[3]) < 60,
    ensures
        canonical_latitude(b),
{
    let f = latitude_field(b);
    assert(crate::bytes::is_digit(f[5 - blanks]));
    crate::utils::lemma_trim_end(f, 6 - blanks);
    let g = f.subrange(0, 6 - blanks);
    assert forall|i: int| 0 <= i < g.len() implies crate::bytes::is_digit(#[trigger] g[i]) by {
        assert(g[i] == f[i]);
    }
    assert(f[2] == b[2] && f[3] == b[3]);
    if blanks < 4 {
        assert(crate::bytes::is_digit(f[2]));
        if blanks < 3 {
            assert(crate::bytes::is_digit(f[3]));
        } else {
            assert(f[3] == 32);
        }
    } else {
        assert(f[2] == 32);
    }
}

/// A longitude that is read has the precision that it is read with.
#[verifier::rlimit(30)]
pub proof fn lemma_parsed_longitude_aligned(b: Seq<u8>, precision: Precision)
    requires
        parse_uncompressed_longitude(b, precision).is_some(),
    ensures
        aligned(parse_uncompressed_longitude(b, precision).unwrap(), precision),
        is_longitude(parse_uncompressed_longitude(b, precision).unwrap()),
{
    let g = longitude_digits(b, precision);
    let k = precision.spec_num_digits() as int;
    let d = g.subrange(0, 3);
    let m = g.subrange(3, 5);
    let h = g.subrange(5, 7);
    let deg = parse_decimal(d, 4294967295).unwrap() as int;
    let min = parse_decimal(m, 4294967295).unwrap() as int;
    let hundredths = parse_decimal(h, 4294967295).unwrap() as int;
    let units = dmh_units(deg, min, hundredths);
    if k >= 1 {
        assert(h.last() == g[6]);
        crate::bytes::lemma_parse_trailing_zero(h, 4294967295);
    }
    if k >= 2 {
        assert(h[0] == g[5]);
        assert(hundredths == 0);
    }
    if k >= 3 {
        assert(m.last() == g[4]);
        crate::bytes::lemma_parse_trailing_zero(m, 4294967295);
    }
    if k >= 4 {
        assert(m[0] == g[3]);
        assert(min == 0);
    }
    if k >= 5 {
        assert(d.last() == g[2]);
        crate::bytes::lemma_parse_trailing_zero(d, 4294967295);
    }
    lemma_units_aligned(deg, min, hundredths, precision);
    let parsed = parse_uncompressed_longitude(b, precision).unwrap();
    assert(parsed == units || parsed == -units);
    if parsed == -units {
        lemma_multiple_negated(units, precision.spec_width_units());
    }
}

/// Degrees, minutes and hundredths of which the digits that a precision
/// leaves out are zero make a whole number of widths of the precision.
proof fn lemma_units_aligned(deg: int, min: int, hundredths: int, precision: Precision)
    requires
        precision.spec_num_digits() >= 1 ==> hundredths % 10 == 0,
        precision.spec_num_digits() >= 2 ==> hundredths == 0,
        precision.spec_num_digits() >= 3 ==> min % 10 == 0,
        precision.spec_num_digits() >= 4 ==> min == 0,
        precision.spec_num_digits() >= 5 ==> deg % 10 == 0,
    ensures
        aligned(dmh_units(deg, min, hundredths), precision),
{
    let units = dmh_units(deg, min, hundredths);
    match precision {
        Precision::HundredthMinute => {
            vstd::arithmetic::div_mod::lemma_fundamental_div_mod_converse(
                units,
                190_463,
                deg * 6000 + min * 100 + hundredths,
                0,
            );
        },
        Precision::TenthMinute => {
            let t = hundredths / 10;
            vstd::arithmetic::div_mod::lemma_fundamental_div_mod_converse(
                units,
                1_904_630,
                deg * 600 + min * 10 + t,
                0,
            );
        },
        Precision::OneMinute => {
            vstd::arithmetic::div_mod::lemma_fundamental_div_mod_converse(
                units,
                19_046_300,
                deg * 60 + min,
                0,
            );
        },
        Precision::TenMinute => {
            let t = min / 10;
            vstd::arithmetic::div_mod::lemma_fundamental_div_mod_converse(
                units,
                190_463_000,
                deg * 6 + t,
                0,
            );
        },
        Precision::OneDegree => {
            vstd::arithmetic::div_mod::lemma_fundamental_div_mod_converse(
                units,
                1_142_778_000,
                deg,
                0,
            );
        },
        Precision::TenDegree => {
            let t = deg / 10;
            vstd::arithmetic::div_mod::lemma_fundamental_div_mod_converse(
                units,
                11_427_780_000,
                t,
                0,
            );
        },
    }
}

/// The seven digits of a longitude that is a whole number of widths of a
/// precision: those that the precision leaves out are zero, the minutes are
/// below 60, and the digits read as degrees, minutes and hundredths that
/// make the longitude.
#[verifier::rlimit(30)]
proof fn lemma_aligned_longitude_digits(units: int, precision: Precision)
    requires
        is_longitude(units),
        aligned(units, precision),
    ensures
        ({
            let g = dmh_digits(units, 3);
            let k = precision.spec_num_digits() as int;
            let a = if units >= 0 {
                units
            } else {
                -units
            };
            &&& g.len() == 7
            &&& crate::bytes::all_digits(g)
            &&& forall|i: int| 7 - k <= i < 7 ==> #[trigger] g[i] == 48
            &&& g[3] <= 53
            &&& parse_decimal(g.subrange(0, 3), 4294967295) matches Some(d) && parse_decimal(
                g.subrange(3, 5),
                4294967295,
            ) matches Some(m) && parse_decimal(g.subrange(5, 7), 4294967295) matches Some(h)
                && dmh_units(d as int, m as int, h as int) == a
        }),
{
    lemma_aligned_count(units, precision);
    let a = if units >= 0 {
        units
    } else {
        -units
    };
    let count = a / 190_463;
    lemma_count_digits(count, precision);
    lemma_count_units(count);
    lemma_dmh_exact(units);
    let d = count / 6000;
    let m = (count % 6000) / 100;
    let h = count % 100;
    assert(0 <= d <= 180);
    lemma_three_fields(d, m, h, precision.spec_num_digits() as int);
    assert(dmh_digits(units, 3) == fixed_digits(d as nat, 3) + fixed_digits(m as nat, 2)
        + fixed_digits(h as nat, 2));
}

/// The seven digits of degrees below 1000, minutes below 60 and hundredths
/// below 100, of which the last `k` are zero.
#[verifier::rlimit(30)]
proof fn lemma_three_fields(d: int, m: int, h: int, k: int)
    requires
        0 <= d < 1000,
        0 <= m < 60,
        0 <= h < 100,
        0 <= k <= 5,
        k >= 1 ==> h % 10 == 0,
        k >= 2 ==> h == 0,
        k >= 3 ==> m % 10 == 0,
        k >= 4 ==> m == 0,
        k >= 5 ==> d % 10 == 0,
    ensures
        ({
            let g = fixed_digits(d as nat, 3) + fixed_digits(m as nat, 2) + fixed_digits(
                h as nat,
                2,
            );
            &&& g.len() == 7
            &&& crate::bytes::all_digits(g)
            &&& forall|i: int| 7 - k <= i < 7 ==> #[trigger] g[i] == 48
            &&& g[3] <= 53
            &&& parse_decimal(g.subrange(0, 3), 4294967295) == Some(d as nat)
            &&& parse_decimal(g.subrange(3, 5), 4294967295) == Some(m as nat)
            &&& parse_decimal(g.subrange(5, 7), 4294967295) == Some(h as nat)
        }),
{
    let fd = fixed_digits(d as nat, 3);
    let fm = fixed_digits(m as nat, 2);
    let fh = fixed_digits(h as nat, 2);
    crate::bytes::lemma_pow10_values();
    crate::bytes::lemma_fixed_digits(d as nat, 3);
    crate::bytes::lemma_fixed_digits(m as nat, 2);
    crate::bytes::lemma_fixed_digits(h as nat, 2);
    crate::bytes::lemma_parse_fixed_digits(d as nat, 3, 4294967295);
    crate::bytes::lemma_parse_fixed_digits(m as nat, 2, 4294967295);
    crate::bytes::lemma_parse_fixed_digits(h as nat, 2, 4294967295);
    crate::bytes::lemma_fixed_two(m as nat);
    crate::bytes::lemma_fixed_two(h as nat);
    assert(fd[2] == 48 + d % 10) by {
        assert(fd == fixed_digits((d / 10) as nat, 2).push((48 + d % 10) as u8));
    }
    let g = fd + fm + fh;
    assert(g.subrange(0, 3) =~= fd);
    assert(g.subrange(3, 5) =~= fm);
    assert(g.subrange(5, 7) =~= fh);
    assert(g[2] == fd[2] && g[3] == fm[0] && g[4] == fm[1] && g[5] == fh[0] && g[6] == fh[1]);
    assert forall|i: int| 0 <= i < 7 implies crate::bytes::is_digit(#[trigger] g[i]) by {
        if i < 3 {
            assert(g[i] == fd[i]);
        } else if i < 5 {
            assert(g[i] == fm[i - 3]);
        } else {
            assert(g[i] == fh[i - 5]);
        }
    }
}

/// Where the digits of a longitude stand in its nine bytes.
proof fn lemma_longitude_layout(g: Seq<u8>, dir: u8)
    requires
        g.len() == 7,
    ensures
        ({
            let b = g.subrange(0, 5) + seq![46u8] + g.subrange(5, 7) + seq![dir];
            &&& b.len() == 9
            &&& b[5] == 46
            &&& b[8] == dir
            &&& longitude_field(b) == g
        }),
{
    let b = g.subrange(0, 5) + seq![46u8] + g.subrange(5, 7) + seq![dir];
    assert(longitude_field(b) =~= g);
}

/// Digits of which the last `k` are zero stay as they are when the last
/// `k` are set to zero.
proof fn lemma_overwrite_zeros(g: Seq<u8>, k: int)
    requires
        0 <= k <= g.len(),
        forall|i: int| g.len() - k <= i < g.len() ==> #[trigger] g[i] == 48,
    ensures
        overwrite_tail(g, k, 48) == g,
{
    assert(overwrite_tail(g, k, 48) =~= g);
}

/// A longitude that is a whole number of widths of a precision is written
/// in the written form and reads back as itself at that precision.
#[verifier::rlimit(30)]
pub proof fn lemma_longitude_decodes(units: int, precision: Precision)
    requires
        is_longitude(units),
        aligned(units, precision),
    ensures
        canonical_longitude(uncompressed_longitude(units), precision),
        parse_uncompressed_longitude(uncompressed_longitude(units), precision) == Some(units),
        units != 0 || uncompressed_longitude(units)[8] == 69,
{
    lemma_aligned_longitude_digits(units, precision);
    let g = dmh_digits(units, 3);
    let dir: u8 = if units >= 0 {
        69
    } else {
        87
    };
    lemma_longitude_layout(g, dir);
    let b = uncompressed_longitude(units);
    assert(b == g.subrange(0, 5) + seq![46u8] + g.subrange(5, 7) + seq![dir]);
    lemma_overwrite_zeros(g, precision.spec_num_digits() as int);
    assert(longitude_digits(b, precision) == g);
}

/// A number of hundredths of a minute is its degrees, minutes and
/// hundredths, with minutes below 60 and hundredths below 100.
pub proof fn lemma_count_units_of(count: int)
    requires
        0 <= count,
    ensures
        190_463 * count == dmh_units(count / 6000, (count % 6000) / 100, count % 100),
        0 <= (count % 6000) / 100 < 60,
        0 <= count % 100 < 100,
{
    lemma_count_units(count);
}

/// The eight bytes of a latitude have a point for the fifth and the letter
/// of the hemisphere for the last.
pub proof fn lemma_latitude_hemisphere(units: int, precision: Precision)
    ensures
        uncompressed_latitude(units, precision).len() == 8,
        uncompressed_latitude(units, precision)[4] == 46,
        uncompressed_latitude(units, precision)[7] == if units >= 0 {
            78u8
        } else {
            83u8
        },
{
    let (deg, min, hundredths, _) = dmh_spec(units);
    crate::bytes::lemma_fixed_digits(deg as nat, 2);
    crate::bytes::lemma_fixed_digits(min as nat, 2);
    crate::bytes::lemma_fixed_digits(hundredths as nat, 2);
}

/// A latitude in the written form begins with a digit.
pub proof fn lemma_first_digit(b: Seq<u8>)
    requires
        canonical_latitude(b),
    ensures
        crate::bytes::is_digit(b[0]),
{
    let f = latitude_field(b);
    let k = crate::utils::trailing_spaces(f) as int;
    let g = f.subrange(0, 6 - k);
    assert(g[0] == f[0]);
}

/// Whether a latitude is one that a compressed position can hold: a whole
/// number of steps south of the north pole.
pub open spec fn on_latitude_grid(units: int) -> bool {
    is_latitude(units) && (102_850_020_000 - units) % 3_000 == 0
}

/// Whether a longitude is one that a compressed position can hold: a whole
/// number of steps east of 180 degrees west.
pub open spec fn on_longitude_grid(units: int) -> bool {
    is_longitude(units) && (205_700_040_000 + units) % 6_000 == 0
}

/// What is read as a compressed latitude or longitude is one that a
/// compressed position can hold.
pub proof fn lemma_parsed_on_grid(b: Seq<u8>)
    ensures
        parse_compressed_latitude(b) matches Some(units) ==> on_latitude_grid(units),
        parse_compressed_longitude(b) matches Some(units) ==> on_longitude_grid(units),
{
    let v = value91(b) as int;
    if parse_compressed_latitude(b).is_some() {
        vstd::arithmetic::div_mod::lemma_fundamental_div_mod_converse(3_000 * v, 3_000, v, 0);
        vstd::arithmetic::div_mod::lemma_fundamental_div_mod_converse(6_000 * v, 6_000, v, 0);
    }
}

/// A latitude that a compressed position can hold is written as four
/// base-91 digits that read back as the latitude.
pub proof fn lemma_compressed_latitude_decodes(units: int)
    requires
        on_latitude_grid(units),
    ensures
        encode91(compressed_latitude_number(units) as nat, 4).len() == 4,
        crate::base91::all_digits91(encode91(compressed_latitude_number(units) as nat, 4)),
        parse_compressed_latitude(encode91(compressed_latitude_number(units) as nat, 4)) == Some(
            units,
        ),
{
    let x = 102_850_020_000 - units;
    vstd::arithmetic::div_mod::lemma_fundamental_div_mod(x, 3_000);
    let v = x / 3_000;
    vstd::arithmetic::div_mod::lemma_fundamental_div_mod_converse(x + 1_500, 3_000, v, 1_500);
    assert(compressed_latitude_number(units) == v);
    crate::base91::lemma_base91_round_trip_four(v as nat);
    crate::base91::lemma_encode91_digits(v as nat, 4);
}

/// A longitude that a compressed position can hold is written as four
/// base-91 digits that read back as the longitude.
pub proof fn lemma_compressed_longitude_decodes(units: int)
    requires
        on_longitude_grid(units),
    ensures
        encode91(compressed_longitude_number(units) as nat, 4).len() == 4,
        crate::base91::all_digits91(encode91(compressed_longitude_number(units) as nat, 4)),
        parse_compressed_longitude(encode91(compressed_longitude_number(units) as nat, 4)) == Some(
            units,
        ),
{
    let x = 205_700_040_000 + units;
    vstd::arithmetic::div_mod::lemma_fundamental_div_mod(x, 6_000);
    let v = x / 6_000;
    vstd::arithmetic::div_mod::lemma_fundamental_div_mod_converse(x + 3_000, 6_000, v, 3_000);
    assert(compressed_longitude_number(units) == v);
    crate::base91::lemma_base91_round_trip_four(v as nat);
    crate::base91::lemma_encode91_digits(v as nat, 4);
}

/// A latitude between ninety degrees south and ninety degrees north.
#[derive(Debug, Copy, Clone, PartialOrd, PartialEq, Ord, Eq)]
pub struct Latitude {
    units: i64,
}

impl View for Latitude {
    type V = int;

    /// The latitude in units, north positive.
    closed spec fn view(&self) -> int {
        self.units as int
    }
}

/// A longitude between 180 degrees west and 180 degrees east.
#[derive(Debug, Copy, Clone, PartialOrd, PartialEq, Ord, Eq)]
pub struct Longitude {
    units: i64,
}

impl View for Longitude {
    type V = int;

    /// The longitude in units, east positive.
    closed spec fn view(&self) -> int {
        self.units as int
    }
}

/// Whether `units` is a latitude.
pub open spec fn is_latitude(units: int) -> bool {
    -102_850_020_000 <= units <= 102_850_020_000
}

/// Whether `units` is a longitude.
pub open spec fn is_longitude(units: int) -> bool {
    -205_700_040_000 <= units <= 205_700_040_000
}

/// The parts that `dmh_spec` gives are in range.
pub proof fn lemma_dmh_bounds(units: int, limit: int)
    requires
        -limit * 1_142_778_000 <= units <= limit * 1_142_778_000,
        0 <= limit,
    ensures
        0 <= dmh_spec(units).0 <= limit,
        0 <= dmh_spec(units).1 < 60,
        0 <= dmh_spec(units).2 < 100,
        dmh_spec(units).0 == limit ==> dmh_spec(units).1 == 0 && dmh_spec(units).2 == 0,
{
    let a = if units >= 0 {
        units
    } else {
        -units
    };
    let deg = a / 1_142_778_000;
    let rest = a % 1_142_778_000;
    let min = rest / 19_046_300;
    let hundredths = (rest % 19_046_300 + 95_231) / 190_463;
    assert(0 <= deg <= limit);
    assert(0 <= min < 60);
    assert(0 <= hundredths <= 100);
    if deg == limit {
        assert(rest == 0);
    }
    if min == 59 && hundredths == 100 {
        assert(rest >= 59 * 19_046_300 + 99 * 190_463);
        assert(deg < limit);
    }
}

impl Latitude {
    /// Whether the value is in range; it always is.
    #[verifier::type_invariant]
    pub closed spec fn inv(self) -> bool {
        is_latitude(self.units as int)
    }

    /// What the invariant of the type says.
    pub proof fn lemma_inv(self)
        requires
            self.inv(),
        ensures
            is_latitude(self@),
            Self::from_units(self@) == self,
    {
    }

    /// The latitude of `units` units.
    pub closed spec fn from_units(units: int) -> Latitude {
        Latitude { units: units as i64 }
    }

    /// `from_units` and the view undo each other.
    pub broadcast proof fn lemma_from_units(units: int)
        requires
            is_latitude(units),
        ensures
            (#[trigger] Self::from_units(units))@ == units,
    {
    }

    /// A latitude is the one of its number of units.
    pub proof fn lemma_from_units_view(self)
        ensures
            Self::from_units(self@) == self,
    {
    }

    /// A latitude is its number of units.
    pub proof fn lemma_view_injective(a: Latitude, b: Latitude)
        requires
            a@ == b@,
        ensures
            a == b,
    {
    }

    /// Creates a latitude from units, north positive.
    ///
    /// Returns `None` beyond ninety degrees.
    pub fn new(units: i64) -> (r: Option<Self>)
        ensures
            r.is_some() == is_latitude(units as int),
            r matches Some(l) ==> l@ == units && l == Self::from_units(units as int),
    {
        if units > MAX_LATITUDE || units < -MAX_LATITUDE {
            None
        } else {
            Some(Latitude { units })
        }
    }

    /// Creates a latitude from degrees, minutes and hundredths of a minute.
    ///
    /// Returns `None` beyond ninety degrees.
    pub fn from_dmh(deg: u32, min: u32, hundredths: u32, north: bool) -> (r: Option<Self>)
        ensures
            r.is_some() == (dmh_units(deg as int, min as int, hundredths as int)
                <= 102_850_020_000),
            r matches Some(l) ==> l@ == if north {
                dmh_units(deg as int, min as int, hundredths as int)
            } else {
                -dmh_units(deg as int, min as int, hundredths as int)
            },
    {
        let value: i64 = (deg as i64) * UNITS_PER_DEGREE + (min as i64) * UNITS_PER_MINUTE + (
        hundredths as i64) * UNITS_PER_HUNDREDTH;
        Self::new(
            if north {
                value
            } else {
                -value
            },
        )
    }

    /// The degrees, minutes and hundredths of a minute, and whether the
    /// latitude is north. The equator is north.
    pub fn dmh(&self) -> (r: (u32, u32, u32, bool))
        ensures
            (r.0 as int, r.1 as int, r.2 as int, r.3) == dmh_spec(self@),
            r.0 <= 90,
            r.1 < 60,
            r.2 < 100,
    {
        proof {
            use_type_invariant(self);
            lemma_dmh_bounds(self@, 90);
        }
        split_dmh(self.units)
    }

    /// The latitude in units, north positive.
    pub fn units(&self) -> (r: i64)
        ensures
            r == self@,
            is_latitude(r as int),
    {
        proof {
            use_type_invariant(self);
        }
        self.units
    }

    /// Reads an uncompressed latitude, `DDMM.MMH`, and its precision.
    pub fn parse_uncompressed(b: &[u8]) -> (r: Result<(Self, Precision), DecodeError>)
        ensures
            match r {
                Ok((l, p)) => parse_uncompressed_latitude(b@) == Some((l@, p)),
                Err(e) => parse_uncompressed_latitude(b@).is_none() && e@
                    == DecodeErrorView::InvalidLatitude(b@),
            },
    {
        if b.len() != 8 || b[4] != 46 {
            return Err(DecodeError::InvalidLatitude(copy_all(b)));
        }
        let north = if b[7] == 78 {
            true
        } else if b[7] == 83 {
            false
        } else {
            return Err(DecodeError::InvalidLatitude(copy_all(b)));
        };
        let first: [u8; 2] = [b[0], b[1]];
        let second: [u8; 2] = [b[2], b[3]];
        let third: [u8; 2] = [b[5], b[6]];
        assert(first@ =~= seq![b@[0], b@[1]]);
        assert(second@ =~= seq![b@[2], b@[3]]);
        assert(third@ =~= seq![b@[5], b@[6]]);
        let (deg, n1) = match parse_bytes_trailing_spaces(&first, false) {
            Some(x) => x,
            None => {
                return Err(DecodeError::InvalidLatitude(copy_all(b)));
            },
        };
        let (min, n2) = match parse_bytes_trailing_spaces(&second, n1 > 0) {
            Some(x) => x,
            None => {
                return Err(DecodeError::InvalidLatitude(copy_all(b)));
            },
        };
        let (hundredths, n3) = match parse_bytes_trailing_spaces(&third, n2 > 0) {
            Some(x) => x,
            None => {
                return Err(DecodeError::InvalidLatitude(copy_all(b)));
            },
        };
        proof {
            crate::bytes::lemma_blanked_pair_bounds(first@, false);
            crate::bytes::lemma_blanked_pair_bounds(second@, n1 > 0);
            crate::bytes::lemma_blanked_pair_bounds(third@, n2 > 0);
        }
        let precision = match Precision::from_num_digits(n1 + n2 + n3) {
            Some(p) => p,
            None => {
                return Err(DecodeError::InvalidLatitude(copy_all(b)));
            },
        };
        match Self::from_dmh(deg, min, hundredths, north) {
            Some(l) => Ok((l, precision)),
            None => Err(DecodeError::InvalidLatitude(copy_all(b))),
        }
    }

    /// Reads a compressed latitude: four base-91 digits.
    pub fn parse_compressed(b: &[u8]) -> (r: Result<Self, DecodeError>)
        ensures
            match r {
                Ok(l) => parse_compressed_latitude(b@) == Some(l@),
                Err(e) => parse_compressed_latitude(b@).is_none() && e@
                    == DecodeErrorView::InvalidLatitude(b@),
            },
    {
        if b.len() != 4 {
            return Err(DecodeError::InvalidLatitude(copy_all(b)));
        }
        match decode_ascii(b) {
            Some(v) => {
                if v > MAX_COMPRESSED {
                    Err(DecodeError::InvalidLatitude(copy_all(b)))
                } else {
                    Ok(Latitude { units: MAX_LATITUDE - LATITUDE_STEP * (v as i64) })
                }
            },
            None => Err(DecodeError::InvalidLatitude(copy_all(b))),
        }
    }

    /// Appends the latitude as four base-91 digits.
    pub fn encode_compressed(&self, buf: &mut Vec<u8>)
        ensures
            final(buf)@ == old(buf)@ + encode91(compressed_latitude_number(self@) as nat, 4),
            0 <= compressed_latitude_number(self@) <= 68_566_680,
    {
        proof {
            use_type_invariant(self);
        }
        let number: i64 = (MAX_LATITUDE - self.units + 1_500) / LATITUDE_STEP;
        encode_ascii(number as u64, buf, 4);
    }

    /// Appends the latitude as `DDMM.MMH`, with the last digits blank as
    /// `precision` says.
    pub fn encode_uncompressed(&self, buf: &mut Vec<u8>, precision: Precision)
        ensures
            final(buf)@ == old(buf)@ + uncompressed_latitude(self@, precision),
    {
        let (deg, min, hundredths, north) = self.dmh();
        let mut digits: Vec<u8> = Vec::new();
        push_fixed(&mut digits, deg, 2);
        push_fixed(&mut digits, min, 2);
        push_fixed(&mut digits, hundredths, 2);
        proof {
            crate::bytes::lemma_fixed_digits(deg as nat, 2);
            crate::bytes::lemma_fixed_digits(min as nat, 2);
            crate::bytes::lemma_fixed_digits(hundredths as nat, 2);
            assert(digits@ =~= dmh_digits(self@, 2));
        }
        let blank: usize = precision.num_digits() as usize;
        let mut i: usize = 6 - blank;
        while i < 6
            invariant
                6 - blank <= i <= 6,
                blank <= 5,
                digits@.len() == 6,
                forall|j: int| 0 <= j < 6 - blank ==> digits@[j] == dmh_digits(self@, 2)[j],
                forall|j: int| 6 - blank <= j < i ==> digits@[j] == 32,
            decreases 6 - i,
        {
            digits[i] = 32;
            i += 1;
        }
        assert(digits@ =~= overwrite_tail(dmh_digits(self@, 2), blank as int, 32));
        append(buf, vstd::slice::slice_subrange(digits.as_slice(), 0, 4));
        buf.push(46);
        append(buf, vstd::slice::slice_subrange(digits.as_slice(), 4, 6));
        buf.push(
            if north {
                78
            } else {
                83
            },
        );
        assert(final(buf)@ =~= old(buf)@ + uncompressed_latitude(self@, precision));
    }
}

impl Default for Latitude {
    fn default() -> (r: Self)
        ensures
            r@ == 0,
    {
        Latitude { units: 0 }
    }
}

/// Splits the units of a coordinate of at most 180 degrees into degrees,
/// minutes and hundredths of a minute.
fn split_dmh(units: i64) -> (r: (u32, u32, u32, bool))
    requires
        is_longitude(units as int),
    ensures
        (r.0 as int, r.1 as int, r.2 as int, r.3) == dmh_spec(units as int),
{
    let north = units >= 0;
    let a: i64 = if north {
        units
    } else {
        -units
    };
    let mut deg: i64 = a / UNITS_PER_DEGREE;
    let rest: i64 = a % UNITS_PER_DEGREE;
    let mut min: i64 = rest / UNITS_PER_MINUTE;
    let mut hundredths: i64 = (rest % UNITS_PER_MINUTE + 95_231) / UNITS_PER_HUNDREDTH;
    if hundredths == 100 {
        hundredths = 0;
        min += 1;
    }
    if min == 60 {
        min = 0;
        deg += 1;
    }
    (deg as u32, min as u32, hundredths as u32, north)
}

impl Longitude {
    /// Whether the value is in range; it always is.
    #[verifier::type_invariant]
    pub closed spec fn inv(self) -> bool {
        is_longitude(self.units as int)
    }

    /// What the invariant of the type says.
    pub proof fn lemma_inv(self)
        requires
            self.inv(),
        ensures
            is_longitude(self@),
            Self::from_units(self@) == self,
    {
    }

    /// The longitude of `units` units.
    pub closed spec fn from_units(units: int) -> Longitude {
        Longitude { units: units as i64 }
    }

    /// `from_units` and the view undo each other.
    pub broadcast proof fn lemma_from_units(units: int)
        requires
            is_longitude(units),
        ensures
            (#[trigger] Self::from_units(units))@ == units,
    {
    }

    /// A longitude is the one of its number of units.
    pub proof fn lemma_from_units_view(self)
        ensures
            Self::from_units(self@) == self,
    {
    }

    /// A longitude is its number of units.
    pub proof fn lemma_view_injective(a: Longitude, b: Longitude)
        requires
            a@ == b@,
        ensures
            a == b,
    {
    }

    /// Creates a longitude from units, east positive.
    ///
    /// Returns `None` beyond 180 degrees.
    pub fn new(units: i64) -> (r: Option<Self>)
        ensures
            r.is_some() == is_longitude(units as int),
            r matches Some(l) ==> l@ == units && l == Self::from_units(units as int),
    {
        if units > MAX_LONGITUDE || units < -MAX_LONGITUDE {
            None
        } else {
            Some(Longitude { units })
        }
    }

    /// Creates a longitude from degrees, minutes and hundredths of a minute.
    ///
    /// Returns `None` beyond 180 degrees.
    pub fn from_dmh(deg: u32, min: u32, hundredths: u32, east: bool) -> (r: Option<Self>)
        ensures
            r.is_some() == (dmh_units(deg as int, min as int, hundredths as int)
                <= 205_700_040_000),
            r matches Some(l) ==> l@ == if east {
                dmh_units(deg as int, min as int, hundredths as int)
            } else {
                -dmh_units(deg as int, min as int, hundredths as int)
            },
    {
        let value: i64 = (deg as i64) * UNITS_PER_DEGREE + (min as i64) * UNITS_PER_MINUTE + (
        hundredths as i64) * UNITS_PER_HUNDREDTH;
        Self::new(
            if east {
                value
            } else {
                -value
            },
        )
    }

    /// The degrees, minutes and hundredths of a minute, and whether the
    /// longitude is east. The prime meridian is east.
    pub fn dmh(&self) -> (r: (u32, u32, u32, bool))
        ensures
            (r.0 as int, r.1 as int, r.2 as int, r.3) == dmh_spec(self@),
            r.0 <= 180,
            r.1 < 60,
            r.2 < 100,
            r.0 == 180 ==> r.1 == 0 && r.2 == 0,
    {
        proof {
            use_type_invariant(self);
            lemma_dmh_bounds(self@, 180);
        }
        split_dmh(self.units)
    }

    /// The longitude in units, east positive.
    pub fn units(&self) -> (r: i64)
        ensures
            r == self@,
            is_longitude(r as int),
    {
        proof {
            use_type_invariant(self);
        }
        self.units
    }

    /// Reads an uncompressed longitude, `DDDMM.MMH`.
    ///
    /// The precision is that of the latitude beside it: so many of the last
    /// digits are taken as zero, whatever the bytes hold.
    pub fn parse_uncompressed(b: &[u8], precision: Precision) -> (r: Result<Self, DecodeError>)
        ensures
            match r {
                Ok(l) => parse_uncompressed_longitude(b@, precision) == Some(l@),
                Err(e) => parse_uncompressed_longitude(b@, precision).is_none() && e@
                    == DecodeErrorView::InvalidLongitude(b@),
            },
    {
        if b.len() != 9 || b[5] != 46 {
            return Err(DecodeError::InvalidLongitude(copy_all(b)));
        }
        let east = if b[8] == 69 {
            true
        } else if b[8] == 87 {
            false
        } else {
            return Err(DecodeError::InvalidLongitude(copy_all(b)));
        };
        let mut digits: [u8; 7] = [b[0], b[1], b[2], b[3], b[4], b[6], b[7]];
        assert(digits@ =~= b@.subrange(0, 5) + b@.subrange(6, 8));
        let blank: usize = precision.num_digits() as usize;
        let mut i: usize = 7 - blank;
        while i < 7
            invariant
                7 - blank <= i <= 7,
                blank <= 5,
                b@.len() == 9,
                forall|j: int| 0 <= j < 7 - blank ==> digits@[j] == (b@.subrange(0, 5) + b@.subrange(6, 8))[j],
                forall|j: int| 7 - blank <= j < i ==> digits@[j] == 48,
            decreases 7 - i,
        {
            digits[i] = 48;
            i += 1;
        }
        assert(digits@ =~= longitude_digits(b@, precision));
        let deg = parse_bytes::<u32>(vstd::slice::slice_subrange(digits.as_slice(), 0, 3));
        let min = parse_bytes::<u32>(vstd::slice::slice_subrange(digits.as_slice(), 3, 5));
        let hundredths = parse_bytes::<u32>(vstd::slice::slice_subrange(digits.as_slice(), 5, 7));
        match (deg, min, hundredths) {
            (Some(d), Some(m), Some(h)) => {
                match Self::from_dmh(d, m, h, east) {
                    Some(l) => Ok(l),
                    None => Err(DecodeError::InvalidLongitude(copy_all(b))),
                }
            },
            _ => Err(DecodeError::InvalidLongitude(copy_all(b))),
        }
    }

    /// Reads a compressed longitude: four base-91 digits.
    pub fn parse_compressed(b: &[u8]) -> (r: Result<Self, DecodeError>)
        ensures
            match r {
                Ok(l) => parse_compressed_longitude(b@) == Some(l@),
                Err(e) => parse_compressed_longitude(b@).is_none() && e@
                    == DecodeErrorView::InvalidLongitude(b@),
            },
    {
        if b.len() != 4 {
            return Err(DecodeError::InvalidLongitude(copy_all(b)));
        }
        match decode_ascii(b) {
            Some(v) => {
                if v > MAX_COMPRESSED {
                    Err(DecodeError::InvalidLongitude(copy_all(b)))
                } else {
                    Ok(Longitude { units: LONGITUDE_STEP * (v as i64) - MAX_LONGITUDE })
                }
            },
            None => Err(DecodeError::InvalidLongitude(copy_all(b))),
        }
    }

    /// Appends the longitude as four base-91 digits.
    pub fn encode_compressed(&self, buf: &mut Vec<u8>)
        ensures
            final(buf)@ == old(buf)@ + encode91(compressed_longitude_number(self@) as nat, 4),
            0 <= compressed_longitude_number(self@) <= 68_566_680,
    {
        proof {
            use_type_invariant(self);
        }
        let number: i64 = (MAX_LONGITUDE + self.units + 3_000) / LONGITUDE_STEP;
        encode_ascii(number as u64, buf, 4);
    }

    /// Appends the longitude as `DDDMM.MMH`.
    pub fn encode_uncompressed(&self, buf: &mut Vec<u8>)
        ensures
            final(buf)@ == old(buf)@ + uncompressed_longitude(self@),
    {
        let (deg, min, hundredths, east) = self.dmh();
        let mut digits: Vec<u8> = Vec::new();
        push_fixed(&mut digits, deg, 3);
        push_fixed(&mut digits, min, 2);
        push_fixed(&mut digits, hundredths, 2);
        proof {
            crate::bytes::lemma_fixed_digits(deg as nat, 3);
            crate::bytes::lemma_fixed_digits(min as nat, 2);
            crate::bytes::lemma_fixed_digits(hundredths as nat, 2);
            assert(digits@ =~= dmh_digits(self@, 3));
        }
        append(buf, vstd::slice::slice_subrange(digits.as_slice(), 0, 5));
        buf.push(46);
        append(buf, vstd::slice::slice_subrange(digits.as_slice(), 5, 7));
        buf.push(
            if east {
                69
            } else {
                87
            },
        );
        assert(final(buf)@ =~= old(buf)@ + uncompressed_longitude(self@));
    }
}

impl Default for Longitude {
    fn default() -> (r: Self)
        ensures
            r@ == 0,
    {
        Longitude { units: 0 }
    }
}

} // verus!
