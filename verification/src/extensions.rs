//! Data extensions of seven bytes that may follow a position.

use vstd::prelude::*;

use crate::bytes::{fixed_digits, is_digit, parse_bytes, parse_decimal, push_fixed};
use crate::error::{DecodeError, DecodeErrorView, EncodeError, EncodeErrorView};
use crate::utils::copy_all;

verus! {

/// Where an antenna points.
#[derive(Clone, Copy, Debug, PartialEq, Eq)]
pub enum Directivity {
    Omni,
    /// A direction in degrees: a multiple of 45 on the wire.
    DirectionDegrees(u16),
}

/// A data extension.
#[derive(Clone, Copy, Debug, PartialEq, Eq)]
pub enum Extension {
    /// A course, or the direction of the wind, and a speed.
    DirectionSpeed { direction_degrees: u16, speed_knots: u16 },
    /// Power, effective antenna height, gain and directivity of a station.
    PowerHeightGainDirectivity {
        power_watts: u16,
        antenna_height_feet: u32,
        antenna_gain_db: u8,
        antenna_directivity: Directivity,
    },
    /// The radio range that a station computed.
    RadioRange { radio_range_miles: u16 },
    /// Signal strength, effective antenna height, gain and directivity of a
    /// direction finder.
    DFStrengthHeightGainDirectivity {
        s_points: u8,
        antenna_height_feet: u32,
        antenna_gain_db: u8,
        antenna_directivity: Directivity,
    },
    /// The type and colour of an area object.
    AreaObjectDescriptor { object_type: u8, color: u8 },
}

/// Two to the power `e`.
pub open spec fn pow2(e: nat) -> nat
    decreases e,
{
    if e == 0 {
        1
    } else {
        2 * pow2((e - 1) as nat)
    }
}

/// The directivity of a code: none for 0, else 45 degrees for each step.
/// `None` above 9.
pub open spec fn directivity_of_code(code: u8) -> Option<Directivity> {
    if code == 0 {
        Some(Directivity::Omni)
    } else if code <= 9 {
        Some(Directivity::DirectionDegrees((45 * code) as u16))
    } else {
        None
    }
}

/// The code whose directivity is `d`, if there is one.
pub open spec fn code_of_directivity(d: Directivity) -> Option<u8> {
    match d {
        Directivity::Omni => Some(0u8),
        Directivity::DirectionDegrees(deg) => if 45 <= deg <= 405 && deg % 45 == 0 {
            Some((deg / 45) as u8)
        } else {
            None
        },
    }
}

/// The code of a power: the number up to 9 whose square it is, if any.
pub open spec fn code_of_power(watts: u16) -> Option<u8> {
    if watts == 0 {
        Some(0u8)
    } else if watts == 1 {
        Some(1u8)
    } else if watts == 4 {
        Some(2u8)
    } else if watts == 9 {
        Some(3u8)
    } else if watts == 16 {
        Some(4u8)
    } else if watts == 25 {
        Some(5u8)
    } else if watts == 36 {
        Some(6u8)
    } else if watts == 49 {
        Some(7u8)
    } else if watts == 64 {
        Some(8u8)
    } else if watts == 81 {
        Some(9u8)
    } else {
        None
    }
}

/// The least code from `from` to 28 whose height, ten feet times two to the
/// code, is `feet`.
pub open spec fn code_of_height_from(feet: u32, from: nat) -> Option<u8>
    decreases 29 - from,
{
    if from > 28 {
        None
    } else if 10 * pow2(from) == feet {
        Some(from as u8)
    } else {
        code_of_height_from(feet, from + 1)
    }
}

/// The code of a height: the exponent up to 28 with `feet == 10 * 2^code`,
/// if any.
pub open spec fn code_of_height(feet: u32) -> Option<u8> {
    code_of_height_from(feet, 0)
}

/// The four bytes behind `PHG` or `DFS` for the codes of strength or power,
/// height, gain and directivity.
pub open spec fn four_codes(first: u8, height: u8, gain: u8, directivity: u8) -> Seq<u8> {
    seq![(48 + first) as u8, (48 + height) as u8, (48 + gain) as u8, (48 + directivity) as u8]
}

/// The seven bytes of an extension, if it has any.
///
/// An extension has bytes if they decode to the same extension again: with
/// numbers that fit their digits, a power that is a square, a height of ten
/// feet times a power of two, and a direction that is a multiple of 45
/// degrees.
pub open spec fn extension_bytes(e: Extension) -> Option<Seq<u8>> {
    match e {
        Extension::DirectionSpeed { direction_degrees, speed_knots } => if direction_degrees <= 999
            && speed_knots <= 999 {
            Some(
                fixed_digits(direction_degrees as nat, 3) + seq![47u8] + fixed_digits(
                    speed_knots as nat,
                    3,
                ),
            )
        } else {
            None
        },
        Extension::PowerHeightGainDirectivity {
            power_watts,
            antenna_height_feet,
            antenna_gain_db,
            antenna_directivity,
        } => match (
            code_of_power(power_watts),
            code_of_height(antenna_height_feet),
            code_of_directivity(antenna_directivity),
        ) {
            (Some(p), Some(h), Some(d)) => if antenna_gain_db <= 9 {
                Some(seq![80u8, 72u8, 71u8] + four_codes(p, h, antenna_gain_db, d))
            } else {
                None
            },
            _ => None,
        },
        Extension::RadioRange { radio_range_miles } => if radio_range_miles <= 9999 {
            Some(seq![82u8, 78u8, 71u8] + fixed_digits(radio_range_miles as nat, 4))
        } else {
            None
        },
        Extension::DFStrengthHeightGainDirectivity {
            s_points,
            antenna_height_feet,
            antenna_gain_db,
            antenna_directivity,
        } => match (code_of_height(antenna_height_feet), code_of_directivity(antenna_directivity)) {
            (Some(h), Some(d)) => if s_points <= 9 && antenna_gain_db <= 9 {
                Some(seq![68u8, 70u8, 83u8] + four_codes(s_points, h, antenna_gain_db, d))
            } else {
                None
            },
            _ => None,
        },
        Extension::AreaObjectDescriptor { object_type, color } => if object_type <= 99 && color
            <= 99 {
            Some(
                seq![84u8] + fixed_digits(object_type as nat, 2) + seq![47u8, 67u8] + fixed_digits(
                    color as nat,
                    2,
                ),
            )
        } else {
            None
        },
    }
}

/// The codes that the four bytes behind `PHG` or `DFS` hold: digits for the
/// first, the gain and the directivity, a byte from `0` up to `L` for the
/// height.
pub open spec fn decode_four_codes(x: Seq<u8>) -> Option<(u8, u8, u8, Directivity)>
    recommends
        x.len() >= 7,
{
    if is_digit(x[3]) && 48 <= x[4] <= 76 && is_digit(x[5]) && is_digit(x[6]) {
        Some(
            (
                (x[3] - 48) as u8,
                (x[4] - 48) as u8,
                (x[5] - 48) as u8,
                directivity_of_code((x[6] - 48) as u8).unwrap(),
            ),
        )
    } else {
        None
    }
}

/// The radio range behind `RNG`: a number of four bytes.
pub open spec fn decode_range(b: Seq<u8>) -> Result<Extension, DecodeErrorView>
    recommends
        b.len() >= 7,
{
    match parse_decimal(b.subrange(3, 7), 65535) {
        Some(miles) => Ok(Extension::RadioRange { radio_range_miles: miles as u16 }),
        None => Err(DecodeErrorView::InvalidExtensionRange(b)),
    }
}

/// The data of a station behind `PHG`: the power is the square of its code,
/// the height ten feet times two to the power of its code.
pub open spec fn decode_phg(b: Seq<u8>) -> Result<Extension, DecodeErrorView>
    recommends
        b.len() >= 7,
{
    match decode_four_codes(b) {
        Some((p, h, g, d)) => Ok(
            Extension::PowerHeightGainDirectivity {
                power_watts: (p * p) as u16,
                antenna_height_feet: (10 * pow2(h as nat)) as u32,
                antenna_gain_db: g,
                antenna_directivity: d,
            },
        ),
        None => Err(DecodeErrorView::InvalidExtensionPhg(b)),
    }
}

/// The data of a direction finder behind `DFS`.
pub open spec fn decode_dfs(b: Seq<u8>) -> Result<Extension, DecodeErrorView>
    recommends
        b.len() >= 7,
{
    match decode_four_codes(b) {
        Some((s, h, g, d)) => Ok(
            Extension::DFStrengthHeightGainDirectivity {
                s_points: s,
                antenna_height_feet: (10 * pow2(h as nat)) as u32,
                antenna_gain_db: g,
                antenna_directivity: d,
            },
        ),
        None => Err(DecodeErrorView::InvalidExtensionDfs(b)),
    }
}

/// The area descriptor `Tnn/Cnn`: the two numbers are read, the two bytes
/// between them are not.
pub open spec fn decode_area(b: Seq<u8>) -> Result<Extension, DecodeErrorView>
    recommends
        b.len() >= 7,
{
    match (parse_decimal(b.subrange(1, 3), 255), parse_decimal(b.subrange(5, 7), 255)) {
        (Some(t), Some(c)) => Ok(
            Extension::AreaObjectDescriptor { object_type: t as u8, color: c as u8 },
        ),
        _ => Err(DecodeErrorView::InvalidExtensionArea(b)),
    }
}

/// The direction and speed `CCC/SSS`.
pub open spec fn decode_direction_speed(b: Seq<u8>) -> Result<Extension, DecodeErrorView>
    recommends
        b.len() >= 7,
{
    if b[3] != 47 {
        Err(DecodeErrorView::InvalidExtensionDirectionSpeed(b))
    } else {
        match (parse_decimal(b.subrange(0, 3), 65535), parse_decimal(b.subrange(4, 7), 65535)) {
            (Some(d), Some(s)) => Ok(
                Extension::DirectionSpeed { direction_degrees: d as u16, speed_knots: s as u16 },
            ),
            _ => Err(DecodeErrorView::InvalidExtensionDirectionSpeed(b)),
        }
    }
}

/// The extension that the first seven bytes of `b` spell, or why they spell
/// none.
///
/// `RNG`, `PHG` and `DFS` begin a range, a station's and a direction finder's
/// data; `T` an area descriptor; anything else is a direction and a speed.
pub open spec fn decode_extension(b: Seq<u8>) -> Result<Extension, DecodeErrorView> {
    if b.len() < 7 {
        Err(DecodeErrorView::InvalidExtension(b))
    } else if b[0] == 82 && b[1] == 78 && b[2] == 71 {
        decode_range(b)
    } else if b[0] == 80 && b[1] == 72 && b[2] == 71 {
        decode_phg(b)
    } else if b[0] == 68 && b[1] == 70 && b[2] == 83 {
        decode_dfs(b)
    } else if b[0] == 84 {
        decode_area(b)
    } else {
        decode_direction_speed(b)
    }
}

/// The values of the first powers of two.
pub proof fn lemma_pow2_values()
    ensures
        pow2(0) == 1,
        pow2(1) == 2,
        pow2(2) == 4,
        pow2(3) == 8,
        pow2(4) == 16,
        pow2(8) == 256,
        pow2(16) == 65536,
        pow2(24) == 16777216,
        pow2(28) == 268435456,
{
    reveal_with_fuel(pow2, 30);
}

/// Powers of two grow with the exponent.
pub proof fn lemma_pow2_strictly_monotonic(a: nat, b: nat)
    requires
        a < b,
    ensures
        0 < pow2(a) < pow2(b),
    decreases b,
{
    if a + 1 < b {
        lemma_pow2_strictly_monotonic(a, (b - 1) as nat);
    } else {
        lemma_pow2_positive(a);
    }
}

/// A power of two is positive.
pub proof fn lemma_pow2_positive(a: nat)
    ensures
        0 < pow2(a),
    decreases a,
{
    if a > 0 {
        lemma_pow2_positive((a - 1) as nat);
    }
}

/// Ten feet times two to the power `code`, for a code up to 28.
fn height_of_code(code: u8) -> (r: u32)
    requires
        code <= 28,
    ensures
        r == 10 * pow2(code as nat),
        r <= 2_684_354_560,
{
    let mut r: u32 = 10;
    let mut i: u8 = 0;
    proof {
        lemma_pow2_values();
    }
    while i < code
        invariant
            i <= code <= 28,
            r == 10 * pow2(i as nat),
        decreases code - i,
    {
        proof {
            lemma_pow2_values();
            if i < 27 {
                lemma_pow2_strictly_monotonic((i + 1) as nat, 28);
            }
            assert(pow2((i + 1) as nat) == 2 * pow2(i as nat));
        }
        r = r * 2;
        i += 1;
    }
    proof {
        lemma_pow2_values();
        if code < 28 {
            lemma_pow2_strictly_monotonic(code as nat, 28);
        }
    }
    r
}

/// Finds the code of a height.
fn find_height_code(feet: u32) -> (r: Option<u8>)
    ensures
        r == code_of_height(feet),
{
    let mut i: u8 = 0;
    while i <= 28
        invariant
            i <= 29,
            code_of_height(feet) == code_of_height_from(feet, i as nat),
        decreases 29 - i,
    {
        if height_of_code(i) == feet {
            return Some(i);
        }
        i += 1;
    }
    None
}

impl Directivity {
    /// The directivity of a code: none for 0, else 45 degrees for each step.
    /// `None` above 9.
    pub fn from_code(code: u8) -> (r: Option<Self>)
        ensures
            r == directivity_of_code(code),
    {
        if code == 0 {
            Some(Directivity::Omni)
        } else if code <= 9 {
            Some(Directivity::DirectionDegrees(45 * code as u16))
        } else {
            None
        }
    }

    /// The code of the directivity: `None` for a direction that is no
    /// multiple of 45 degrees from 45 to 405.
    pub fn code(&self) -> (r: Option<u8>)
        ensures
            r == code_of_directivity(*self),
    {
        match self {
            Directivity::Omni => Some(0),
            Directivity::DirectionDegrees(deg) => {
                if 45 <= *deg && *deg <= 405 && *deg % 45 == 0 {
                    Some((*deg / 45) as u8)
                } else {
                    None
                }
            },
        }
    }
}

/// Finds the code of a power.
fn find_power_code(watts: u16) -> (r: Option<u8>)
    ensures
        r == code_of_power(watts),
{
    match watts {
        0 => Some(0),
        1 => Some(1),
        4 => Some(2),
        9 => Some(3),
        16 => Some(4),
        25 => Some(5),
        36 => Some(6),
        49 => Some(7),
        64 => Some(8),
        81 => Some(9),
        _ => None,
    }
}

/// Reads the four codes behind `PHG` or `DFS`.
fn read_four_codes(x: &[u8]) -> (r: Option<(u8, u8, u8, Directivity)>)
    requires
        x.len() >= 7,
    ensures
        r == decode_four_codes(x@),
{
    if 48 <= x[3] && x[3] <= 57 && 48 <= x[4] && x[4] <= 76 && 48 <= x[5] && x[5] <= 57 && 48
        <= x[6] && x[6] <= 57 {
        match Directivity::from_code(x[6] - 48) {
            Some(d) => Some((x[3] - 48, x[4] - 48, x[5] - 48, d)),
            None => None,
        }
    } else {
        None
    }
}

impl Extension {
    /// Appends the seven bytes of the extension.
    ///
    /// Fails, and appends nothing, if the extension has no bytes that decode
    /// to it again.
    pub fn encode(&self, buf: &mut Vec<u8>) -> (r: Result<(), EncodeError>)
        ensures
            match r {
                Ok(()) => extension_bytes(*self) matches Some(b) && final(buf)@ == old(buf)@ + b,
                Err(e) => extension_bytes(*self).is_none() && e@ == EncodeErrorView::InvalidExtension(
                    *self,
                ) && final(buf)@ == old(buf)@,
            },
    {
        match *self {
            Extension::DirectionSpeed { direction_degrees, speed_knots } => {
                if direction_degrees > 999 || speed_knots > 999 {
                    return Err(EncodeError::InvalidExtension(*self));
                }
                push_fixed(buf, direction_degrees as u32, 3);
                buf.push(47);
                push_fixed(buf, speed_knots as u32, 3);
                assert(buf@ =~= old(buf)@ + extension_bytes(*self).unwrap());
            },
            Extension::PowerHeightGainDirectivity {
                power_watts,
                antenna_height_feet,
                antenna_gain_db,
                antenna_directivity,
            } => {
                let codes = (
                    find_power_code(power_watts),
                    find_height_code(antenna_height_feet),
                    antenna_directivity.code(),
                );
                match codes {
                    (Some(p), Some(h), Some(d)) => {
                        if antenna_gain_db > 9 {
                            return Err(EncodeError::InvalidExtension(*self));
                        }
                        proof {
                            lemma_code_bounds(power_watts, antenna_height_feet, antenna_directivity);
                        }
                        buf.push(80);
                        buf.push(72);
                        buf.push(71);
                        buf.push(48 + p);
                        buf.push(48 + h);
                        buf.push(48 + antenna_gain_db);
                        buf.push(48 + d);
                        assert(buf@ =~= old(buf)@ + extension_bytes(*self).unwrap());
                    },
                    _ => {
                        return Err(EncodeError::InvalidExtension(*self));
                    },
                }
            },
            Extension::RadioRange { radio_range_miles } => {
                if radio_range_miles > 9999 {
                    return Err(EncodeError::InvalidExtension(*self));
                }
                buf.push(82);
                buf.push(78);
                buf.push(71);
                push_fixed(buf, radio_range_miles as u32, 4);
                assert(buf@ =~= old(buf)@ + extension_bytes(*self).unwrap());
            },
            Extension::DFStrengthHeightGainDirectivity {
                s_points,
                antenna_height_feet,
                antenna_gain_db,
                antenna_directivity,
            } => {
                let codes = (find_height_code(antenna_height_feet), antenna_directivity.code());
                match codes {
                    (Some(h), Some(d)) => {
                        if s_points > 9 || antenna_gain_db > 9 {
                            return Err(EncodeError::InvalidExtension(*self));
                        }
                        proof {
                            lemma_code_bounds(0, antenna_height_feet, antenna_directivity);
                        }
                        buf.push(68);
                        buf.push(70);
                        buf.push(83);
                        buf.push(48 + s_points);
                        buf.push(48 + h);
                        buf.push(48 + antenna_gain_db);
                        buf.push(48 + d);
                        assert(buf@ =~= old(buf)@ + extension_bytes(*self).unwrap());
                    },
                    _ => {
                        return Err(EncodeError::InvalidExtension(*self));
                    },
                }
            },
            Extension::AreaObjectDescriptor { object_type, color } => {
                if object_type > 99 || color > 99 {
                    return Err(EncodeError::InvalidExtension(*self));
                }
                buf.push(84);
                push_fixed(buf, object_type as u32, 2);
                buf.push(47);
                buf.push(67);
                push_fixed(buf, color as u32, 2);
                assert(buf@ =~= old(buf)@ + extension_bytes(*self).unwrap());
            },
        }
        Ok(())
    }

    /// Reads the radio range behind `RNG`.
    fn decode_range(b: &[u8]) -> (r: Result<Self, DecodeError>)
        requires
            b.len() >= 7,
        ensures
            match r {
                Ok(e) => decode_range(b@) == Ok::<Extension, DecodeErrorView>(e),
                Err(e) => decode_range(b@) == Err::<Extension, DecodeErrorView>(e@),
            },
    {
        match parse_bytes::<u16>(vstd::slice::slice_subrange(b, 3, 7)) {
            Some(miles) => Ok(Extension::RadioRange { radio_range_miles: miles }),
            None => Err(DecodeError::InvalidExtensionRange(copy_all(b))),
        }
    }

    /// Reads the data of a station behind `PHG`.
    fn decode_phg(b: &[u8]) -> (r: Result<Self, DecodeError>)
        requires
            b.len() >= 7,
        ensures
            match r {
                Ok(e) => decode_phg(b@) == Ok::<Extension, DecodeErrorView>(e),
                Err(e) => decode_phg(b@) == Err::<Extension, DecodeErrorView>(e@),
            },
    {
        match read_four_codes(b) {
            Some((p, h, g, d)) => {
                assert(p * p <= 81) by (nonlinear_arith)
                    requires
                        0 <= p <= 9,
                ;
                Ok(
                    Extension::PowerHeightGainDirectivity {
                        power_watts: (p as u16) * (p as u16),
                        antenna_height_feet: height_of_code(h),
                        antenna_gain_db: g,
                        antenna_directivity: d,
                    },
                )
            },
            None => Err(DecodeError::InvalidExtensionPhg(copy_all(b))),
        }
    }

    /// Reads the data of a direction finder behind `DFS`.
    fn decode_dfs(b: &[u8]) -> (r: Result<Self, DecodeError>)
        requires
            b.len() >= 7,
        ensures
            match r {
                Ok(e) => decode_dfs(b@) == Ok::<Extension, DecodeErrorView>(e),
                Err(e) => decode_dfs(b@) == Err::<Extension, DecodeErrorView>(e@),
            },
    {
        match read_four_codes(b) {
            Some((s, h, g, d)) => Ok(
                Extension::DFStrengthHeightGainDirectivity {
                    s_points: s,
                    antenna_height_feet: height_of_code(h),
                    antenna_gain_db: g,
                    antenna_directivity: d,
                },
            ),
            None => Err(DecodeError::InvalidExtensionDfs(copy_all(b))),
        }
    }

    /// Reads an area descriptor.
    fn decode_area(b: &[u8]) -> (r: Result<Self, DecodeError>)
        requires
            b.len() >= 7,
        ensures
            match r {
                Ok(e) => decode_area(b@) == Ok::<Extension, DecodeErrorView>(e),
                Err(e) => decode_area(b@) == Err::<Extension, DecodeErrorView>(e@),
            },
    {
        let object_type = parse_bytes::<u8>(vstd::slice::slice_subrange(b, 1, 3));
        let color = parse_bytes::<u8>(vstd::slice::slice_subrange(b, 5, 7));
        match (object_type, color) {
            (Some(t), Some(c)) => Ok(Extension::AreaObjectDescriptor { object_type: t, color: c }),
            _ => Err(DecodeError::InvalidExtensionArea(copy_all(b))),
        }
    }

    /// Reads a direction and a speed.
    fn decode_direction_speed(b: &[u8]) -> (r: Result<Self, DecodeError>)
        requires
            b.len() >= 7,
        ensures
            match r {
                Ok(e) => decode_direction_speed(b@) == Ok::<Extension, DecodeErrorView>(e),
                Err(e) => decode_direction_speed(b@) == Err::<Extension, DecodeErrorView>(e@),
            },
    {
        if b[3] != 47 {
            return Err(DecodeError::InvalidExtensionDirectionSpeed(copy_all(b)));
        }
        let direction = parse_bytes::<u16>(vstd::slice::slice_subrange(b, 0, 3));
        let speed = parse_bytes::<u16>(vstd::slice::slice_subrange(b, 4, 7));
        match (direction, speed) {
            (Some(d), Some(s)) => Ok(
                Extension::DirectionSpeed { direction_degrees: d, speed_knots: s },
            ),
            _ => Err(DecodeError::InvalidExtensionDirectionSpeed(copy_all(b))),
        }
    }

    /// Reads an extension from the first seven bytes of `b`.
    pub fn decode(b: &[u8]) -> (r: Result<Self, DecodeError>)
        ensures
            match r {
                Ok(e) => decode_extension(b@) == Ok::<Extension, DecodeErrorView>(e),
                Err(e) => decode_extension(b@) == Err::<Extension, DecodeErrorView>(e@),
            },
    {
        if b.len() < 7 {
            Err(DecodeError::InvalidExtension(copy_all(b)))
        } else if b[0] == 82 && b[1] == 78 && b[2] == 71 {
            Self::decode_range(b)
        } else if b[0] == 80 && b[1] == 72 && b[2] == 71 {
            Self::decode_phg(b)
        } else if b[0] == 68 && b[1] == 70 && b[2] == 83 {
            Self::decode_dfs(b)
        } else if b[0] == 84 {
            Self::decode_area(b)
        } else {
            Self::decode_direction_speed(b)
        }
    }
}

/// The codes of power, height and directivity are at most 9, 28 and 9, and
/// the code of a height gives the height.
pub proof fn lemma_code_bounds(watts: u16, feet: u32, d: Directivity)
    ensures
        code_of_power(watts) matches Some(p) ==> p <= 9 && p * p == watts,
        code_of_height(feet) matches Some(h) ==> h <= 28 && 10 * pow2(h as nat) == feet,
        code_of_directivity(d) matches Some(c) ==> c <= 9 && directivity_of_code(c) == Some(d),
{
    lemma_code_of_height_from(feet, 0);
    assert(0 * 0 == 0 && 1 * 1 == 1 && 2 * 2 == 4 && 3 * 3 == 9 && 4 * 4 == 16 && 5 * 5 == 25 && 6
        * 6 == 36 && 7 * 7 == 49 && 8 * 8 == 64 && 9 * 9 == 81);
}

/// What `code_of_height_from` finds is a code for the height.
pub proof fn lemma_code_of_height_from(feet: u32, from: nat)
    ensures
        code_of_height_from(feet, from) matches Some(h) ==> from <= h <= 28 && 10 * pow2(h as nat)
            == feet,
    decreases 29 - from,
{
    if from <= 28 && 10 * pow2(from) != feet {
        lemma_code_of_height_from(feet, from + 1);
    }
}

/// A code up to 28 is the code of its height.
pub proof fn lemma_code_of_height(h: nat)
    requires
        h <= 28,
    ensures
        10 * pow2(h) <= u32::MAX,
        code_of_height((10 * pow2(h)) as u32) == Some(h as u8),
{
    lemma_pow2_values();
    if h < 28 {
        lemma_pow2_strictly_monotonic(h, 28);
    }
    lemma_code_of_height_search((10 * pow2(h)) as u32, h, 0);
}

/// The search for the code of the height of `h` from a place up to `h`
/// finds `h`.
proof fn lemma_code_of_height_search(feet: u32, h: nat, from: nat)
    requires
        from <= h <= 28,
        feet == 10 * pow2(h),
    ensures
        code_of_height_from(feet, from) == Some(h as u8),
    decreases h - from,
{
    if from < h {
        lemma_pow2_strictly_monotonic(from, h);
        lemma_code_of_height_search(feet, h, from + 1);
    }
}

/// Whether seven bytes are an extension as `encode` writes it: its numbers
/// are written in digits only, and an area descriptor has `/C` in its
/// middle.
pub open spec fn canonical_extension(x: Seq<u8>) -> bool {
    &&& x.len() == 7
    &&& if x[0] == 82 && x[1] == 78 && x[2] == 71 {
        crate::bytes::all_digits(x.subrange(3, 7))
    } else if (x[0] == 80 && x[1] == 72 && x[2] == 71) || (x[0] == 68 && x[1] == 70 && x[2]
        == 83) {
        true
    } else if x[0] == 84 {
        x[3] == 47 && x[4] == 67 && crate::bytes::all_digits(x.subrange(1, 3))
            && crate::bytes::all_digits(x.subrange(5, 7))
    } else {
        crate::bytes::all_digits(x.subrange(0, 3)) && crate::bytes::all_digits(x.subrange(4, 7))
    }
}

/// The codes that four bytes behind `PHG` or `DFS` hold are those of what
/// they stand for.
proof fn lemma_four_codes_round_trip(x: Seq<u8>)
    requires
        x.len() == 7,
        decode_four_codes(x).is_some(),
    ensures
        ({
            let (p, h, g, d) = decode_four_codes(x).unwrap();
            &&& p <= 9
            &&& g <= 9
            &&& code_of_power((p * p) as u16) == Some(p)
            &&& 10 * pow2(h as nat) <= u32::MAX
            &&& code_of_height((10 * pow2(h as nat)) as u32) == Some(h)
            &&& code_of_directivity(d) == Some((x[6] - 48) as u8)
            &&& four_codes(p, h, g, (x[6] - 48) as u8) == x.subrange(3, 7)
        }),
{
    let (p, h, g, d) = decode_four_codes(x).unwrap();
    lemma_code_of_height(h as nat);
    assert(0 * 0 == 0 && 1 * 1 == 1 && 2 * 2 == 4 && 3 * 3 == 9 && 4 * 4 == 16 && 5 * 5 == 25 && 6
        * 6 == 36 && 7 * 7 == 49 && 8 * 8 == 64 && 9 * 9 == 81);
    assert(four_codes(p, h, g, (x[6] - 48) as u8) =~= x.subrange(3, 7));
}

/// An extension in its written form, read and written again, is the same
/// seven bytes.
#[verifier::rlimit(30)]
pub proof fn lemma_extension_round_trip(x: Seq<u8>)
    requires
        canonical_extension(x),
        decode_extension(x) is Ok,
    ensures
        extension_bytes(decode_extension(x)->Ok_0) == Some(x),
{
    let e = decode_extension(x)->Ok_0;
    crate::bytes::lemma_pow10_values();
    if x[0] == 82 && x[1] == 78 && x[2] == 71 {
        let d = x.subrange(3, 7);
        crate::bytes::lemma_digits_value_bound(d);
        crate::bytes::lemma_parse_digits(d, 65535);
        crate::bytes::lemma_fixed_digits_of_value(d);
        assert(extension_bytes(e).unwrap() =~= x);
    } else if x[0] == 80 && x[1] == 72 && x[2] == 71 {
        lemma_four_codes_round_trip(x);
        assert(extension_bytes(e).unwrap() =~= x);
    } else if x[0] == 68 && x[1] == 70 && x[2] == 83 {
        lemma_four_codes_round_trip(x);
        assert(extension_bytes(e).unwrap() =~= x);
    } else if x[0] == 84 {
        let t = x.subrange(1, 3);
        let c = x.subrange(5, 7);
        crate::bytes::lemma_digits_value_bound(t);
        crate::bytes::lemma_digits_value_bound(c);
        crate::bytes::lemma_parse_digits(t, 255);
        crate::bytes::lemma_parse_digits(c, 255);
        crate::bytes::lemma_fixed_digits_of_value(t);
        crate::bytes::lemma_fixed_digits_of_value(c);
        assert(extension_bytes(e).unwrap() =~= x);
    } else {
        let d = x.subrange(0, 3);
        let v = x.subrange(4, 7);
        crate::bytes::lemma_digits_value_bound(d);
        crate::bytes::lemma_digits_value_bound(v);
        crate::bytes::lemma_parse_digits(d, 65535);
        crate::bytes::lemma_parse_digits(v, 65535);
        crate::bytes::lemma_fixed_digits_of_value(d);
        crate::bytes::lemma_fixed_digits_of_value(v);
        assert(extension_bytes(e).unwrap() =~= x);
    }
}

/// The bytes that an extension is written as read back as the extension:
/// what `encode` accepts, `decode` gives back.
#[verifier::rlimit(30)]
pub proof fn lemma_extension_decodes(e: Extension)
    requires
        extension_bytes(e).is_some(),
    ensures
        extension_bytes(e).unwrap().len() == 7,
        decode_extension(extension_bytes(e).unwrap()) == Ok::<Extension, DecodeErrorView>(e),
{
    let x = extension_bytes(e).unwrap();
    crate::bytes::lemma_pow10_values();
    match e {
        Extension::DirectionSpeed { direction_degrees, speed_knots } => {
            crate::bytes::lemma_fixed_digits(direction_degrees as nat, 3);
            crate::bytes::lemma_fixed_digits(speed_knots as nat, 3);
            crate::bytes::lemma_parse_fixed_digits(direction_degrees as nat, 3, 65535);
            crate::bytes::lemma_parse_fixed_digits(speed_knots as nat, 3, 65535);
            let d = crate::bytes::fixed_digits(direction_degrees as nat, 3);
            assert(crate::bytes::is_digit(d[0]));
            assert(x[0] == d[0]);
            assert(x.subrange(0, 3) =~= d);
            assert(x.subrange(4, 7) =~= crate::bytes::fixed_digits(speed_knots as nat, 3));
        },
        Extension::PowerHeightGainDirectivity {
            power_watts,
            antenna_height_feet,
            antenna_gain_db,
            antenna_directivity,
        } => {
            lemma_code_bounds(power_watts, antenna_height_feet, antenna_directivity);
            assert(0 * 0 == 0 && 1 * 1 == 1 && 2 * 2 == 4 && 3 * 3 == 9 && 4 * 4 == 16 && 5 * 5
                == 25 && 6 * 6 == 36 && 7 * 7 == 49 && 8 * 8 == 64 && 9 * 9 == 81);
        },
        Extension::RadioRange { radio_range_miles } => {
            crate::bytes::lemma_fixed_digits(radio_range_miles as nat, 4);
            crate::bytes::lemma_parse_fixed_digits(radio_range_miles as nat, 4, 65535);
            assert(x.subrange(3, 7) =~= crate::bytes::fixed_digits(radio_range_miles as nat, 4));
        },
        Extension::DFStrengthHeightGainDirectivity {
            s_points,
            antenna_height_feet,
            antenna_gain_db,
            antenna_directivity,
        } => {
            lemma_code_bounds(0, antenna_height_feet, antenna_directivity);
        },
        Extension::AreaObjectDescriptor { object_type, color } => {
            crate::bytes::lemma_fixed_digits(object_type as nat, 2);
            crate::bytes::lemma_fixed_digits(color as nat, 2);
            crate::bytes::lemma_parse_fixed_digits(object_type as nat, 2, 255);
            crate::bytes::lemma_parse_fixed_digits(color as nat, 2, 255);
            assert(x.subrange(1, 3) =~= crate::bytes::fixed_digits(object_type as nat, 2));
            assert(x.subrange(5, 7) =~= crate::bytes::fixed_digits(color as nat, 2));
        },
    }
}

/// What `decode` gives can be written.
#[verifier::rlimit(30)]
pub proof fn lemma_extension_encodable(x: Seq<u8>)
    requires
        x.len() == 7,
        decode_extension(x) is Ok,
    ensures
        extension_bytes(decode_extension(x)->Ok_0).is_some(),
{
    crate::bytes::lemma_pow10_values();
    if x[0] == 82 && x[1] == 78 && x[2] == 71 {
        crate::bytes::lemma_parse_bound(x.subrange(3, 7), 65535);
    } else if x[0] == 80 && x[1] == 72 && x[2] == 71 {
        lemma_four_codes_round_trip(x);
    } else if x[0] == 68 && x[1] == 70 && x[2] == 83 {
        lemma_four_codes_round_trip(x);
    } else if x[0] == 84 {
        crate::bytes::lemma_parse_bound(x.subrange(1, 3), 255);
        crate::bytes::lemma_parse_bound(x.subrange(5, 7), 255);
    } else {
        crate::bytes::lemma_parse_bound(x.subrange(0, 3), 65535);
        crate::bytes::lemma_parse_bound(x.subrange(4, 7), 65535);
    }
}

/// The bytes that an extension is written as are in the written form.
#[verifier::rlimit(30)]
pub proof fn lemma_extension_bytes_canonical(e: Extension)
    requires
        extension_bytes(e).is_some(),
    ensures
        canonical_extension(extension_bytes(e).unwrap()),
{
    let x = extension_bytes(e).unwrap();
    match e {
        Extension::DirectionSpeed { direction_degrees, speed_knots } => {
            crate::bytes::lemma_fixed_digits(direction_degrees as nat, 3);
            crate::bytes::lemma_fixed_digits(speed_knots as nat, 3);
            let d = crate::bytes::fixed_digits(direction_degrees as nat, 3);
            assert(crate::bytes::is_digit(d[0]));
            assert(x[0] == d[0]);
            assert(x.subrange(0, 3) =~= d);
            assert(x.subrange(4, 7) =~= crate::bytes::fixed_digits(speed_knots as nat, 3));
        },
        Extension::PowerHeightGainDirectivity { .. } => {},
        Extension::RadioRange { radio_range_miles } => {
            crate::bytes::lemma_fixed_digits(radio_range_miles as nat, 4);
            assert(x.subrange(3, 7) =~= crate::bytes::fixed_digits(radio_range_miles as nat, 4));
        },
        Extension::DFStrengthHeightGainDirectivity { .. } => {},
        Extension::AreaObjectDescriptor { object_type, color } => {
            crate::bytes::lemma_fixed_digits(object_type as nat, 2);
            crate::bytes::lemma_fixed_digits(color as nat, 2);
            assert(x.subrange(1, 3) =~= crate::bytes::fixed_digits(object_type as nat, 2));
            assert(x.subrange(5, 7) =~= crate::bytes::fixed_digits(color as nat, 2));
        },
    }
}

} // verus!
