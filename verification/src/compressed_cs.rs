//! The course and speed, radio range or altitude of a compressed position.
//!
//! The wire holds exponents: a speed is a power of 1.08 less one, a radio
//! range twice a power of 1.08, an altitude a power of 1.002. These types
//! hold the exponent, which is exact.

use vstd::prelude::*;

use crate::compression_type::{byte_of_type, AprsCompressionType, NmeaSource};
use crate::error::{DecodeError, DecodeErrorView, EncodeError, EncodeErrorView};

verus! {

/// A course in degrees and a speed of `1.08^e - 1` knots.
#[derive(PartialEq, Eq, Copy, Clone, Debug)]
pub struct AprsCourseSpeed {
    course_degrees: u16,
    speed_exponent: u8,
}

impl View for AprsCourseSpeed {
    type V = (u16, u8);

    /// The course in degrees and the exponent of the speed.
    closed spec fn view(&self) -> (u16, u8) {
        (self.course_degrees, self.speed_exponent)
    }
}

impl AprsCourseSpeed {
    #[verifier::type_invariant]
    closed spec fn inv(self) -> bool {
        self.course_degrees <= 360
    }

    /// The value with a given course and exponent.
    pub closed spec fn from_view(v: (u16, u8)) -> Self {
        AprsCourseSpeed { course_degrees: v.0, speed_exponent: v.1 }
    }

    /// A value is the one of its view.
    pub proof fn lemma_from_view_of(self)
        ensures
            Self::from_view(self@) == self,
    {
    }

    /// `from_view` and the view undo each other.
    pub broadcast proof fn lemma_from_view(v: (u16, u8))
        ensures
            (#[trigger] Self::from_view(v))@ == v,
    {
    }

    /// A value is its course and exponent.
    pub proof fn lemma_view_injective(a: Self, b: Self)
        requires
            a@ == b@,
        ensures
            a == b,
    {
    }

    /// Creates a course and speed from degrees and the exponent of the speed.
    pub fn new(course_degrees: u16, speed_exponent: u8) -> (r: Self)
        requires
            course_degrees <= 360,
        ensures
            r@ == (course_degrees, speed_exponent),
            r == Self::from_view((course_degrees, speed_exponent)),
    {
        Self { course_degrees, speed_exponent }
    }

    /// The course in degrees, at most 360.
    pub fn course_degrees(&self) -> (r: u16)
        ensures
            r == self@.0,
            r <= 360,
    {
        proof {
            use_type_invariant(self);
        }
        self.course_degrees
    }

    /// The exponent `e` of the speed of `1.08^e - 1` knots.
    pub fn speed_exponent(&self) -> (r: u8)
        ensures
            r == self@.1,
    {
        self.speed_exponent
    }

    /// The course and speed of the digits `c` and `s`: four degrees for each
    /// step of `c`.
    pub fn from_cs(c: u8, s: u8) -> (r: Self)
        requires
            c <= 90,
        ensures
            r@ == ((4 * c) as u16, s),
            r == Self::from_view(((4 * c) as u16, s)),
    {
        Self { course_degrees: c as u16 * 4, speed_exponent: s }
    }

    /// The digits of the course and speed.
    pub fn to_cs(self) -> (r: (u8, u8))
        ensures
            r == ((self@.0 / 4) as u8, self@.1),
            self@.0 <= 360,
    {
        proof {
            use_type_invariant(&self);
        }
        ((self.course_degrees / 4) as u8, self.speed_exponent)
    }
}

/// A radio range of `2 * 1.08^e` miles.
#[derive(PartialEq, Eq, Copy, Clone, Debug)]
pub struct AprsRadioRange {
    range_exponent: u8,
}

impl View for AprsRadioRange {
    type V = u8;

    /// The exponent of the range.
    closed spec fn view(&self) -> u8 {
        self.range_exponent
    }
}

impl AprsRadioRange {
    /// The range with a given exponent.
    pub closed spec fn from_view(v: u8) -> Self {
        AprsRadioRange { range_exponent: v }
    }

    /// A value is the one of its view.
    pub proof fn lemma_from_view_of(self)
        ensures
            Self::from_view(self@) == self,
    {
    }

    /// `from_view` and the view undo each other.
    pub broadcast proof fn lemma_from_view(v: u8)
        ensures
            (#[trigger] Self::from_view(v))@ == v,
    {
    }

    /// A range is its exponent.
    pub proof fn lemma_view_injective(a: Self, b: Self)
        requires
            a@ == b@,
        ensures
            a == b,
    {
    }

    /// Creates a radio range from its exponent.
    pub fn new(range_exponent: u8) -> (r: Self)
        ensures
            r@ == range_exponent,
            r == Self::from_view(range_exponent),
    {
        Self { range_exponent }
    }

    /// The exponent `e` of the range of `2 * 1.08^e` miles.
    pub fn range_exponent(&self) -> (r: u8)
        ensures
            r == self@,
    {
        self.range_exponent
    }

    /// The radio range of the digit `s`.
    pub fn from_s(s: u8) -> (r: Self)
        ensures
            r@ == s,
            r == Self::from_view(s),
    {
        Self { range_exponent: s }
    }

    /// The digit of the radio range.
    pub fn to_s(self) -> (r: u8)
        ensures
            r == self@,
    {
        self.range_exponent
    }
}

/// The greatest exponent of an altitude.
pub const MAX_ALTITUDE_EXPONENT: u16 = 23_460;

/// An altitude of `1.002^e` feet.
#[derive(PartialEq, Eq, Copy, Clone, Debug)]
pub struct AprsAltitude {
    altitude_exponent: u16,
}

impl View for AprsAltitude {
    type V = u16;

    /// The exponent of the altitude.
    closed spec fn view(&self) -> u16 {
        self.altitude_exponent
    }
}

impl AprsAltitude {
    #[verifier::type_invariant]
    closed spec fn inv(self) -> bool {
        self.altitude_exponent <= 23_460
    }

    /// The altitude with a given exponent.
    pub closed spec fn from_view(v: u16) -> Self {
        AprsAltitude { altitude_exponent: v }
    }

    /// A value is the one of its view.
    pub proof fn lemma_from_view_of(self)
        ensures
            Self::from_view(self@) == self,
    {
    }

    /// `from_view` and the view undo each other.
    pub broadcast proof fn lemma_from_view(v: u16)
        ensures
            (#[trigger] Self::from_view(v))@ == v,
    {
    }

    /// An altitude is its exponent.
    pub proof fn lemma_view_injective(a: Self, b: Self)
        requires
            a@ == b@,
        ensures
            a == b,
    {
    }

    /// Creates an altitude from its exponent.
    pub fn new(altitude_exponent: u16) -> (r: Self)
        requires
            altitude_exponent <= 23_460,
        ensures
            r@ == altitude_exponent,
            r == Self::from_view(altitude_exponent),
    {
        Self { altitude_exponent }
    }

    /// The exponent `e` of the altitude of `1.002^e` feet, at most 23 460.
    pub fn altitude_exponent(&self) -> (r: u16)
        ensures
            r == self@,
            r <= 23_460,
    {
        proof {
            use_type_invariant(self);
        }
        self.altitude_exponent
    }

    /// The altitude of the digits `c` and `s`: the exponent `91 * c + s`.
    pub fn from_cs(c: u8, s: u8) -> (r: Self)
        ensures
            r@ == 91 * c + s,
            r == Self::from_view((91 * c + s) as u16),
    {
        Self { altitude_exponent: c as u16 * 91 + s as u16 }
    }

    /// The digits of the altitude: the exponent divided by 91, cut to a byte,
    /// and the remainder.
    pub fn to_cs(self) -> (r: (u8, u8))
        ensures
            r == (((self@ / 91) % 256) as u8, (self@ % 91) as u8),
    {
        (((self.altitude_exponent / 91) % 256) as u8, (self.altitude_exponent % 91) as u8)
    }
}

/// What the two bytes before the type byte of a compressed position say.
#[derive(PartialEq, Eq, Copy, Clone, Debug)]
pub enum AprsCompressedCs {
    CourseSpeed(AprsCourseSpeed),
    RadioRange(AprsRadioRange),
    Altitude(AprsAltitude),
}

/// What the bytes `c` and `s` say beside the type `t`.
///
/// Each is a base-91 digit. With the NMEA source GGA they are an altitude.
/// Else `c` up to 89 is a course, with `s` for the speed, and `c` of 90 makes
/// `s` a radio range. `None` for a byte below 33 and for `c` above 90.
pub open spec fn parse_cs(c: u8, s: u8, t: AprsCompressionType) -> Option<AprsCompressedCs> {
    if c < 33 || s < 33 {
        None
    } else if t.nmea_source == NmeaSource::Gga {
        Some(AprsCompressedCs::Altitude(AprsAltitude::from_view((91 * (c - 33) + (s - 33)) as u16)))
    } else if c - 33 <= 89 {
        Some(
            AprsCompressedCs::CourseSpeed(
                AprsCourseSpeed::from_view(((4 * (c - 33)) as u16, (s - 33) as u8)),
            ),
        )
    } else if c - 33 == 90 {
        Some(AprsCompressedCs::RadioRange(AprsRadioRange::from_view((s - 33) as u8)))
    } else {
        None
    }
}

/// The three bytes that `cs` and the type `t` make, or why there are none.
///
/// An altitude needs the NMEA source GGA. A digit above 222 has no byte.
pub open spec fn cs_bytes(cs: AprsCompressedCs, t: AprsCompressionType) -> Result<
    Seq<u8>,
    EncodeErrorView,
> {
    match cs {
        AprsCompressedCs::CourseSpeed(x) => if x@.1 > 222 {
            Err(EncodeErrorView::InvalidData)
        } else {
            Ok(seq![(x@.0 / 4 + 33) as u8, (x@.1 + 33) as u8, (byte_of_type(t) + 33) as u8])
        },
        AprsCompressedCs::RadioRange(x) => if x@ > 222 {
            Err(EncodeErrorView::InvalidData)
        } else {
            Ok(seq![123u8, (x@ + 33) as u8, (byte_of_type(t) + 33) as u8])
        },
        AprsCompressedCs::Altitude(x) => if t.nmea_source != NmeaSource::Gga {
            Err(EncodeErrorView::NonGgaAltitude)
        } else if x@ / 91 > 222 {
            Err(EncodeErrorView::InvalidData)
        } else {
            Ok(seq![(x@ / 91 + 33) as u8, (x@ % 91 + 33) as u8, (byte_of_type(t) + 33) as u8])
        },
    }
}

impl AprsCompressedCs {
    /// Reads the bytes `c` and `s` of a compressed position of type `t`.
    pub fn parse(c: u8, s: u8, t: AprsCompressionType) -> (r: Result<Self, DecodeError>)
        ensures
            match r {
                Ok(cs) => parse_cs(c, s, t) == Some(cs),
                Err(e) => parse_cs(c, s, t).is_none() && e@ == DecodeErrorView::InvalidCs(
                    seq![c, s],
                ),
            },
    {
        if c < 33 || s < 33 {
            let pair: [u8; 2] = [c, s];
            assert(pair@ =~= seq![c, s]);
            return Err(DecodeError::InvalidCs(pair));
        }
        let c_lwr: u8 = c - 33;
        let s_lwr: u8 = s - 33;
        match t.nmea_source {
            NmeaSource::Gga => Ok(AprsCompressedCs::Altitude(AprsAltitude::from_cs(c_lwr, s_lwr))),
            _ => {
                if c_lwr <= 89 {
                    Ok(AprsCompressedCs::CourseSpeed(AprsCourseSpeed::from_cs(c_lwr, s_lwr)))
                } else if c_lwr == 90 {
                    Ok(AprsCompressedCs::RadioRange(AprsRadioRange::from_s(s_lwr)))
                } else {
                    let pair: [u8; 2] = [c, s];
                    assert(pair@ =~= seq![c, s]);
                    Err(DecodeError::InvalidCs(pair))
                }
            },
        }
    }

    /// Appends the two bytes of `self` and the type byte of `t`.
    ///
    /// Fails, and appends nothing, for an altitude without the NMEA source
    /// GGA and for a value whose digit has no byte.
    pub fn encode(self, buf: &mut Vec<u8>, t: AprsCompressionType) -> (r: Result<(), EncodeError>)
        ensures
            match r {
                Ok(()) => cs_bytes(self, t) matches Ok(b) && final(buf)@ == old(buf)@ + b,
                Err(e) => cs_bytes(self, t) == Err::<Seq<u8>, EncodeErrorView>(e@) && final(buf)@
                    == old(buf)@,
            },
    {
        let type_byte: u8 = t.to_byte() + 33;
        match self {
            AprsCompressedCs::CourseSpeed(cs) => {
                let (c, s) = cs.to_cs();
                if s > 222 {
                    return Err(EncodeError::InvalidData);
                }
                buf.push(c + 33);
                buf.push(s + 33);
                buf.push(type_byte);
                assert(buf@ =~= old(buf)@ + seq![(c + 33) as u8, (s + 33) as u8, type_byte]);
            },
            AprsCompressedCs::RadioRange(rr) => {
                let s = rr.to_s();
                if s > 222 {
                    return Err(EncodeError::InvalidData);
                }
                buf.push(123);
                buf.push(s + 33);
                buf.push(type_byte);
                assert(buf@ =~= old(buf)@ + seq![123u8, (s + 33) as u8, type_byte]);
            },
            AprsCompressedCs::Altitude(a) => {
                match t.nmea_source {
                    NmeaSource::Gga => {},
                    _ => {
                        return Err(EncodeError::NonGgaAltitude);
                    },
                }
                let e = a.altitude_exponent();
                if e / 91 > 222 {
                    return Err(EncodeError::InvalidData);
                }
                let (c, s) = a.to_cs();
                buf.push(c + 33);
                buf.push(s + 33);
                buf.push(type_byte);
                assert(buf@ =~= old(buf)@ + seq![(c + 33) as u8, (s + 33) as u8, type_byte]);
            },
        }
        Ok(())
    }
}

/// The bytes `c`, `s` and `type_byte` of a compressed position, read and
/// written again, are the same, if the type byte has its two high bits clear
/// and, for an altitude, `s` is a base-91 digit.
pub proof fn lemma_cs_round_trip(c: u8, s: u8, type_byte: u8)
    requires
        33 <= type_byte <= 96,
        parse_cs(c, s, crate::compression_type::type_of_byte((type_byte - 33) as u8)).is_some(),
        crate::compression_type::type_of_byte((type_byte - 33) as u8).nmea_source
            == NmeaSource::Gga ==> s <= 123,
    ensures
        cs_bytes(
            parse_cs(c, s, crate::compression_type::type_of_byte((type_byte - 33) as u8)).unwrap(),
            crate::compression_type::type_of_byte((type_byte - 33) as u8),
        ) == Ok::<Seq<u8>, EncodeErrorView>(seq![c, s, type_byte]),
{
    let t = crate::compression_type::type_of_byte((type_byte - 33) as u8);
    crate::compression_type::lemma_byte_of_type_of_byte((type_byte - 33) as u8);
    assert(byte_of_type(t) == type_byte - 33);
    AprsCourseSpeed::lemma_from_view(((4 * (c - 33)) as u16, (s - 33) as u8));
    AprsRadioRange::lemma_from_view((s - 33) as u8);
    AprsAltitude::lemma_from_view((91 * (c - 33) + (s - 33)) as u16);
    let cs = parse_cs(c, s, t).unwrap();
    assert(cs_bytes(cs, t)->Ok_0 =~= seq![c, s, type_byte]);
}

/// Whether course and speed, range or altitude are as `parse` gives them
/// beside the type `t`: a course that is a multiple of four degrees up to
/// 356, digits up to 222, and an altitude exactly with the NMEA source GGA.
pub open spec fn decoded_cs(cs: AprsCompressedCs, t: AprsCompressionType) -> bool {
    match cs {
        AprsCompressedCs::CourseSpeed(x) => x@.0 % 4 == 0 && x@.0 <= 356 && x@.1 <= 222
            && t.nmea_source != NmeaSource::Gga,
        AprsCompressedCs::RadioRange(x) => x@ <= 222 && t.nmea_source != NmeaSource::Gga,
        AprsCompressedCs::Altitude(x) => t.nmea_source == NmeaSource::Gga && x@ <= 20_424,
    }
}

/// What `parse` gives is as `decoded_cs` says.
pub proof fn lemma_decoded_cs(c: u8, s: u8, t: AprsCompressionType)
    requires
        parse_cs(c, s, t).is_some(),
    ensures
        decoded_cs(parse_cs(c, s, t).unwrap(), t),
{
    AprsCourseSpeed::lemma_from_view(((4 * (c - 33)) as u16, (s - 33) as u8));
    AprsRadioRange::lemma_from_view((s - 33) as u8);
    AprsAltitude::lemma_from_view((91 * (c - 33) + (s - 33)) as u16);
}

/// What `parse` gives, where it can be written, is written as three bytes
/// of which the first two read back as the same beside the same type.
pub proof fn lemma_cs_decodes(cs: AprsCompressedCs, t: AprsCompressionType)
    requires
        decoded_cs(cs, t),
        cs_bytes(cs, t) is Ok,
    ensures
        ({
            let b = cs_bytes(cs, t)->Ok_0;
            &&& b.len() == 3
            &&& b[0] != 32
            &&& 33 <= b[2] <= 96
            &&& crate::compression_type::type_of_byte((b[2] - 33) as u8) == t
            &&& parse_cs(b[0], b[1], t) == Some(cs)
            &&& t.nmea_source == NmeaSource::Gga ==> b[1] <= 123
        }),
{
    crate::compression_type::lemma_type_of_byte_of_type(t);
    match cs {
        AprsCompressedCs::CourseSpeed(x) => {
            x.lemma_from_view_of();
            assert(((4 * (x@.0 / 4)) as u16, x@.1) == x@);
        },
        AprsCompressedCs::RadioRange(x) => {
            x.lemma_from_view_of();
        },
        AprsCompressedCs::Altitude(x) => {
            x.lemma_from_view_of();
            assert((91 * (x@ / 91) + x@ % 91) as u16 == x@);
        },
    }
}

/// The digits of a course and speed made of the digits `c` and `s` are `c`
/// and `s` again.
pub proof fn lemma_course_speed_round_trip(c: u8, s: u8)
    requires
        c <= 90,
    ensures
        ({
            let x = AprsCourseSpeed::from_view(((4 * c) as u16, s));
            ((x@.0 / 4) as u8, x@.1) == (c, s)
        }),
{
    AprsCourseSpeed::lemma_from_view(((4 * c) as u16, s));
}

/// The digit of a radio range made of the digit `s` is `s` again.
pub proof fn lemma_radio_range_round_trip(s: u8)
    ensures
        AprsRadioRange::from_view(s)@ == s,
{
    AprsRadioRange::lemma_from_view(s);
}

/// The digits of an altitude made of the digits `c` and `s`, with `s` a
/// base-91 digit, are `c` and `s` again.
pub proof fn lemma_altitude_round_trip(c: u8, s: u8)
    requires
        s <= 90,
    ensures
        ({
            let x = AprsAltitude::from_view((91 * c + s) as u16);
            (((x@ / 91) % 256) as u8, (x@ % 91) as u8) == (c, s)
        }),
{
    AprsAltitude::lemma_from_view((91 * c + s) as u16);
}

} // verus!
