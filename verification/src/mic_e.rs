//! Mic-E reports: a position whose latitude, and more, travels in the
//! destination callsign.

use vstd::prelude::*;

use crate::callsign::{Callsign, CallsignView};
use crate::error::{DecodeError, DecodeErrorView, EncodeError, EncodeErrorView};
use crate::lonlat::{
    dmh_spec, dmh_units, lemma_dmh_round_trip, parse_uncompressed_latitude,
    uncompressed_latitude, Latitude, Longitude, Precision,
};
use crate::utils::{append, char_bytes, copy_all, copy_range, push_char};

verus! {

/// The message of a Mic-E report: one of seven standard ones, one of seven
/// custom ones, an emergency, or none that is known.
#[derive(Debug, Copy, Clone, PartialEq, Eq, Hash)]
pub enum Message {
    M0,
    M1,
    M2,
    M3,
    M4,
    M5,
    M6,
    C0,
    C1,
    C2,
    C3,
    C4,
    C5,
    C6,
    Emergency,
    Unknown,
}

/// One of the three message bits, as a byte of the destination shows it.
#[derive(Debug, Copy, Clone, PartialEq, Eq)]
pub enum MessageBit {
    Zero,
    CustomOne,
    StandardOne,
}

/// The hemisphere of the latitude.
#[derive(Debug, Copy, Clone, PartialEq, Eq)]
pub enum LatDir {
    North,
    South,
}

/// Whether a hundred degrees are added to the longitude.
#[derive(Debug, Copy, Clone, PartialEq, Eq)]
pub enum LongOffset {
    Zero,
    Hundred,
}

/// The hemisphere of the longitude.
#[derive(Debug, Copy, Clone, PartialEq, Eq)]
pub enum LongDir {
    East,
    West,
}

/// The message of three message bits.
pub open spec fn message_of_bits(a: MessageBit, b: MessageBit, c: MessageBit) -> Message {
    match (a, b, c) {
        (MessageBit::StandardOne, MessageBit::StandardOne, MessageBit::StandardOne) => Message::M0,
        (MessageBit::CustomOne, MessageBit::CustomOne, MessageBit::CustomOne) => Message::C0,
        (MessageBit::StandardOne, MessageBit::StandardOne, MessageBit::Zero) => Message::M1,
        (MessageBit::CustomOne, MessageBit::CustomOne, MessageBit::Zero) => Message::C1,
        (MessageBit::StandardOne, MessageBit::Zero, MessageBit::StandardOne) => Message::M2,
        (MessageBit::CustomOne, MessageBit::Zero, MessageBit::CustomOne) => Message::C2,
        (MessageBit::StandardOne, MessageBit::Zero, MessageBit::Zero) => Message::M3,
        (MessageBit::CustomOne, MessageBit::Zero, MessageBit::Zero) => Message::C3,
        (MessageBit::Zero, MessageBit::StandardOne, MessageBit::StandardOne) => Message::M4,
        (MessageBit::Zero, MessageBit::CustomOne, MessageBit::CustomOne) => Message::C4,
        (MessageBit::Zero, MessageBit::StandardOne, MessageBit::Zero) => Message::M5,
        (MessageBit::Zero, MessageBit::CustomOne, MessageBit::Zero) => Message::C5,
        (MessageBit::Zero, MessageBit::Zero, MessageBit::StandardOne) => Message::M6,
        (MessageBit::Zero, MessageBit::Zero, MessageBit::CustomOne) => Message::C6,
        (MessageBit::Zero, MessageBit::Zero, MessageBit::Zero) => Message::Emergency,
        _ => Message::Unknown,
    }
}

/// The three message bits of a message. An unknown message gets a mix of
/// standard and custom bits.
pub open spec fn bits_of_message(m: Message) -> (MessageBit, MessageBit, MessageBit) {
    match m {
        Message::M0 => (MessageBit::StandardOne, MessageBit::StandardOne, MessageBit::StandardOne),
        Message::C0 => (MessageBit::CustomOne, MessageBit::CustomOne, MessageBit::CustomOne),
        Message::M1 => (MessageBit::StandardOne, MessageBit::StandardOne, MessageBit::Zero),
        Message::C1 => (MessageBit::CustomOne, MessageBit::CustomOne, MessageBit::Zero),
        Message::M2 => (MessageBit::StandardOne, MessageBit::Zero, MessageBit::StandardOne),
        Message::C2 => (MessageBit::CustomOne, MessageBit::Zero, MessageBit::CustomOne),
        Message::M3 => (MessageBit::StandardOne, MessageBit::Zero, MessageBit::Zero),
        Message::C3 => (MessageBit::CustomOne, MessageBit::Zero, MessageBit::Zero),
        Message::M4 => (MessageBit::Zero, MessageBit::StandardOne, MessageBit::StandardOne),
        Message::C4 => (MessageBit::Zero, MessageBit::CustomOne, MessageBit::CustomOne),
        Message::M5 => (MessageBit::Zero, MessageBit::StandardOne, MessageBit::Zero),
        Message::C5 => (MessageBit::Zero, MessageBit::CustomOne, MessageBit::Zero),
        Message::M6 => (MessageBit::Zero, MessageBit::Zero, MessageBit::StandardOne),
        Message::C6 => (MessageBit::Zero, MessageBit::Zero, MessageBit::CustomOne),
        Message::Emergency => (MessageBit::Zero, MessageBit::Zero, MessageBit::Zero),
        Message::Unknown => (MessageBit::StandardOne, MessageBit::CustomOne, MessageBit::StandardOne),
    }
}

/// The bits of a message give the message again.
pub proof fn lemma_message_round_trip(m: Message)
    ensures
        ({
            let (a, b, c) = bits_of_message(m);
            message_of_bits(a, b, c) == m
        }),
{
}

impl Message {
    /// The message of three message bits.
    pub fn decode(a: MessageBit, b: MessageBit, c: MessageBit) -> (r: Self)
        ensures
            r == message_of_bits(a, b, c),
    {
        match (a, b, c) {
            (MessageBit::StandardOne, MessageBit::StandardOne, MessageBit::StandardOne) => Message::M0,
            (MessageBit::CustomOne, MessageBit::CustomOne, MessageBit::CustomOne) => Message::C0,
            (MessageBit::StandardOne, MessageBit::StandardOne, MessageBit::Zero) => Message::M1,
            (MessageBit::CustomOne, MessageBit::CustomOne, MessageBit::Zero) => Message::C1,
            (MessageBit::StandardOne, MessageBit::Zero, MessageBit::StandardOne) => Message::M2,
            (MessageBit::CustomOne, MessageBit::Zero, MessageBit::CustomOne) => Message::C2,
            (MessageBit::StandardOne, MessageBit::Zero, MessageBit::Zero) => Message::M3,
            (MessageBit::CustomOne, MessageBit::Zero, MessageBit::Zero) => Message::C3,
            (MessageBit::Zero, MessageBit::StandardOne, MessageBit::StandardOne) => Message::M4,
            (MessageBit::Zero, MessageBit::CustomOne, MessageBit::CustomOne) => Message::C4,
            (MessageBit::Zero, MessageBit::StandardOne, MessageBit::Zero) => Message::M5,
            (MessageBit::Zero, MessageBit::CustomOne, MessageBit::Zero) => Message::C5,
            (MessageBit::Zero, MessageBit::Zero, MessageBit::StandardOne) => Message::M6,
            (MessageBit::Zero, MessageBit::Zero, MessageBit::CustomOne) => Message::C6,
            (MessageBit::Zero, MessageBit::Zero, MessageBit::Zero) => Message::Emergency,
            _ => Message::Unknown,
        }
    }

    /// The three message bits of the message.
    pub fn encode(&self) -> (r: (MessageBit, MessageBit, MessageBit))
        ensures
            r == bits_of_message(*self),
    {
        match self {
            Message::M0 => (MessageBit::StandardOne, MessageBit::StandardOne, MessageBit::StandardOne),
            Message::C0 => (MessageBit::CustomOne, MessageBit::CustomOne, MessageBit::CustomOne),
            Message::M1 => (MessageBit::StandardOne, MessageBit::StandardOne, MessageBit::Zero),
            Message::C1 => (MessageBit::CustomOne, MessageBit::CustomOne, MessageBit::Zero),
            Message::M2 => (MessageBit::StandardOne, MessageBit::Zero, MessageBit::StandardOne),
            Message::C2 => (MessageBit::CustomOne, MessageBit::Zero, MessageBit::CustomOne),
            Message::M3 => (MessageBit::StandardOne, MessageBit::Zero, MessageBit::Zero),
            Message::C3 => (MessageBit::CustomOne, MessageBit::Zero, MessageBit::Zero),
            Message::M4 => (MessageBit::Zero, MessageBit::StandardOne, MessageBit::StandardOne),
            Message::C4 => (MessageBit::Zero, MessageBit::CustomOne, MessageBit::CustomOne),
            Message::M5 => (MessageBit::Zero, MessageBit::StandardOne, MessageBit::Zero),
            Message::C5 => (MessageBit::Zero, MessageBit::CustomOne, MessageBit::Zero),
            Message::M6 => (MessageBit::Zero, MessageBit::Zero, MessageBit::StandardOne),
            Message::C6 => (MessageBit::Zero, MessageBit::Zero, MessageBit::CustomOne),
            Message::Emergency => (MessageBit::Zero, MessageBit::Zero, MessageBit::Zero),
            Message::Unknown => (
                MessageBit::StandardOne,
                MessageBit::CustomOne,
                MessageBit::StandardOne,
            ),
        }
    }
}

/// A speed from 0 to 799 knots.
#[derive(Copy, Clone, Debug, PartialEq, Eq)]
pub struct Speed(u32);

impl View for Speed {
    type V = u32;

    /// The speed in knots.
    closed spec fn view(&self) -> u32 {
        self.0
    }
}

impl Speed {
    /// Whether the speed is in range; it always is.
    #[verifier::type_invariant]
    pub closed spec fn inv(self) -> bool {
        self.0 <= 799
    }

    /// The speed of `knots` knots.
    pub closed spec fn from_view(knots: u32) -> Self {
        Speed(knots)
    }

    /// What the invariant of the type says.
    pub proof fn lemma_inv(self)
        requires
            self.inv(),
        ensures
            self@ <= 799,
            Self::from_view(self@) == self,
    {
    }

    /// A value is the one of its view.
    pub proof fn lemma_from_view_of(self)
        ensures
            Self::from_view(self@) == self,
    {
    }

    /// `from_view` and the view undo each other.
    pub broadcast proof fn lemma_from_view(knots: u32)
        ensures
            (#[trigger] Self::from_view(knots))@ == knots,
    {
    }

    /// Creates a speed from knots; `None` above 799.
    pub fn new(knots: u32) -> (r: Option<Self>)
        ensures
            r.is_some() == (knots <= 799),
            r matches Some(s) ==> s@ == knots && s == Self::from_view(knots),
    {
        if knots > 799 {
            return None;
        }
        Some(Self(knots))
    }

    /// The speed in knots.
    pub fn knots(&self) -> (r: u32)
        ensures
            r == self@,
            r <= 799,
    {
        proof {
            use_type_invariant(self);
        }
        self.0
    }
}

/// A course from 0 to 360 degrees. 0 stands for an unknown course, 360 for
/// north.
#[derive(Copy, Clone, Debug, PartialEq, Eq)]
pub struct Course(u32);

impl View for Course {
    type V = u32;

    /// The course in degrees.
    closed spec fn view(&self) -> u32 {
        self.0
    }
}

impl Course {
    /// The unknown course: 0 degrees.
    pub fn unknown() -> (r: Self)
        ensures
            r@ == 0,
    {
        Self(0)
    }

    /// Whether the course is in range; it always is.
    #[verifier::type_invariant]
    pub closed spec fn inv(self) -> bool {
        self.0 <= 360
    }

    /// The course of `degrees` degrees.
    pub closed spec fn from_view(degrees: u32) -> Self {
        Course(degrees)
    }

    /// What the invariant of the type says.
    pub proof fn lemma_inv(self)
        requires
            self.inv(),
        ensures
            self@ <= 360,
            Self::from_view(self@) == self,
    {
    }

    /// A value is the one of its view.
    pub proof fn lemma_from_view_of(self)
        ensures
            Self::from_view(self@) == self,
    {
    }

    /// `from_view` and the view undo each other.
    pub broadcast proof fn lemma_from_view(degrees: u32)
        ensures
            (#[trigger] Self::from_view(degrees))@ == degrees,
    {
    }

    /// Creates a course from degrees; `None` above 360.
    pub fn new(degrees: u32) -> (r: Option<Self>)
        ensures
            r.is_some() == (degrees <= 360),
            r matches Some(c) ==> c@ == degrees && c == Self::from_view(degrees),
    {
        if degrees > 360 {
            return None;
        }
        Some(Self(degrees))
    }

    /// The course in degrees.
    pub fn degrees(&self) -> (r: u32)
        ensures
            r == self@,
            r <= 360,
    {
        proof {
            use_type_invariant(self);
        }
        self.0
    }
}

/// Whether `c` is a digit, or `L`, which stands for a blank.
pub open spec fn is_low(c: u8) -> bool {
    48 <= c <= 57 || c == 76
}

/// Whether `c` is one of `P` to `Z`.
pub open spec fn is_high(c: u8) -> bool {
    80 <= c <= 90
}

/// The message bit that a byte of the destination shows.
pub open spec fn message_bit_of(c: u8) -> Option<MessageBit> {
    if is_low(c) {
        Some(MessageBit::Zero)
    } else if 65 <= c <= 75 {
        Some(MessageBit::CustomOne)
    } else if is_high(c) {
        Some(MessageBit::StandardOne)
    } else {
        None
    }
}

/// The digit of the latitude that a byte of the destination shows, as the
/// byte of the digit; a blank for `K`, `L` and `Z`.
pub open spec fn latitude_digit_of(c: u8) -> Option<u8> {
    if 48 <= c <= 57 {
        Some(c)
    } else if 65 <= c <= 74 {
        Some((c - 17) as u8)
    } else if c == 75 || c == 76 || c == 90 {
        Some(32u8)
    } else if 80 <= c <= 89 {
        Some((c - 32) as u8)
    } else {
        None
    }
}

impl MessageBit {
    /// The message bit that a byte of the destination shows.
    pub fn decode(c: u8) -> (r: Option<Self>)
        ensures
            r == message_bit_of(c),
    {
        if (48 <= c && c <= 57) || c == 76 {
            Some(MessageBit::Zero)
        } else if 65 <= c && c <= 75 {
            Some(MessageBit::CustomOne)
        } else if 80 <= c && c <= 90 {
            Some(MessageBit::StandardOne)
        } else {
            None
        }
    }
}

impl LatDir {
    /// The hemisphere that the fourth byte of the destination shows.
    pub fn decode(c: u8) -> (r: Option<Self>)
        ensures
            r == if is_low(c) {
                Some(LatDir::South)
            } else if is_high(c) {
                Some(LatDir::North)
            } else {
                None
            },
    {
        if (48 <= c && c <= 57) || c == 76 {
            Some(LatDir::South)
        } else if 80 <= c && c <= 90 {
            Some(LatDir::North)
        } else {
            None
        }
    }

    /// The letter of the hemisphere: `N` or `S`.
    pub fn byte(self) -> (r: u8)
        ensures
            r == if self == LatDir::North {
                78u8
            } else {
                83u8
            },
    {
        match self {
            Self::North => 78,
            Self::South => 83,
        }
    }
}

impl LongOffset {
    /// The offset that the fifth byte of the destination shows.
    pub fn decode(c: u8) -> (r: Option<Self>)
        ensures
            r == if is_low(c) {
                Some(LongOffset::Zero)
            } else if is_high(c) {
                Some(LongOffset::Hundred)
            } else {
                None
            },
    {
        if (48 <= c && c <= 57) || c == 76 {
            Some(LongOffset::Zero)
        } else if 80 <= c && c <= 90 {
            Some(LongOffset::Hundred)
        } else {
            None
        }
    }
}

impl LongDir {
    /// The hemisphere that the sixth byte of the destination shows.
    pub fn decode(c: u8) -> (r: Option<Self>)
        ensures
            r == if is_low(c) {
                Some(LongDir::East)
            } else if is_high(c) {
                Some(LongDir::West)
            } else {
                None
            },
    {
        if (48 <= c && c <= 57) || c == 76 {
            Some(LongDir::East)
        } else if 80 <= c && c <= 90 {
            Some(LongDir::West)
        } else {
            None
        }
    }
}

/// The digit of the latitude that a byte of the destination shows, as the
/// byte of the digit; a blank for `K`, `L` and `Z`.
pub fn decode_latitude_digit(c: u8) -> (r: Option<u8>)
    ensures
        r == latitude_digit_of(c),
{
    if 48 <= c && c <= 57 {
        Some(c)
    } else if 65 <= c && c <= 74 {
        Some(c - 17)
    } else if c == 75 || c == 76 || c == 90 {
        Some(32)
    } else if 80 <= c && c <= 89 {
        Some(c - 32)
    } else {
        None
    }
}

/// The eight bytes of the latitude that the six bytes of a destination show.
pub open spec fn destination_latitude(d: Seq<u8>) -> Seq<u8>
    recommends
        d.len() == 6,
{
    seq![
        latitude_digit_of(d[0]).unwrap(),
        latitude_digit_of(d[1]).unwrap(),
        latitude_digit_of(d[2]).unwrap(),
        latitude_digit_of(d[3]).unwrap(),
        46u8,
        latitude_digit_of(d[4]).unwrap(),
        latitude_digit_of(d[5]).unwrap(),
        if is_high(d[3]) {
            78u8
        } else {
            83u8
        },
    ]
}

/// Whether each of the six bytes of a destination shows what its place asks
/// for: a digit of the latitude, and a message bit in the first three.
pub open spec fn destination_bytes_ok(d: Seq<u8>) -> bool
    recommends
        d.len() == 6,
{
    &&& latitude_digit_of(d[0]).is_some()
    &&& latitude_digit_of(d[1]).is_some()
    &&& latitude_digit_of(d[2]).is_some()
    &&& (is_low(d[3]) || is_high(d[3]))
    &&& (is_low(d[4]) || is_high(d[4]))
    &&& (is_low(d[5]) || is_high(d[5]))
    &&& latitude_digit_of(d[3]).is_some()
    &&& latitude_digit_of(d[4]).is_some()
    &&& latitude_digit_of(d[5]).is_some()
}

/// What the base of a destination callsign says: latitude in units,
/// precision, message, offset and hemisphere of the longitude.
pub open spec fn decode_destination(d: Seq<u8>) -> Option<
    (int, Precision, Message, LongOffset, LongDir),
> {
    if d.len() != 6 || !destination_bytes_ok(d) {
        None
    } else {
        match parse_uncompressed_latitude(destination_latitude(d)) {
            None => None,
            Some((lat, precision)) => Some(
                (
                    lat,
                    precision,
                    message_of_bits(
                        message_bit_of(d[0]).unwrap(),
                        message_bit_of(d[1]).unwrap(),
                        message_bit_of(d[2]).unwrap(),
                    ),
                    if is_high(d[4]) {
                        LongOffset::Hundred
                    } else {
                        LongOffset::Zero
                    },
                    if is_high(d[5]) {
                        LongDir::West
                    } else {
                        LongDir::East
                    },
                ),
            ),
        }
    }
}

/// Reads what the base of a destination callsign says.
pub fn decode_callsign(c: &Callsign) -> (r: Option<
    (Latitude, Precision, Message, LongOffset, LongDir),
>)
    ensures
        match r {
            Some((lat, precision, message, offset, dir)) => decode_destination(c@.call) == Some(
                (lat@, precision, message, offset, dir),
            ) && lat == Latitude::from_units(lat@),
            None => decode_destination(c@.call).is_none(),
        },
{
    let data = c.call();
    if data.len() != 6 {
        return None;
    }
    let digits = (
        decode_latitude_digit(data[0]),
        decode_latitude_digit(data[1]),
        decode_latitude_digit(data[2]),
        decode_latitude_digit(data[3]),
        decode_latitude_digit(data[4]),
        decode_latitude_digit(data[5]),
    );
    let lat_dir = LatDir::decode(data[3]);
    let bits = (MessageBit::decode(data[0]), MessageBit::decode(data[1]), MessageBit::decode(data[2]));
    let long_offset = LongOffset::decode(data[4]);
    let long_dir = LongDir::decode(data[5]);
    match (digits, lat_dir, bits, long_offset, long_dir) {
        (
            (Some(d0), Some(d1), Some(d2), Some(d3), Some(d4), Some(d5)),
            Some(lat_dir),
            (Some(a), Some(b), Some(c)),
            Some(long_offset),
            Some(long_dir),
        ) => {
            let lat_bytes: [u8; 8] = [d0, d1, d2, d3, 46, d4, d5, lat_dir.byte()];
            assert(lat_bytes@ =~= destination_latitude(data@));
            match Latitude::parse_uncompressed(lat_bytes.as_slice()) {
                Ok((lat, precision)) => {
                    proof {
                        use_type_invariant(&lat);
                        lat.lemma_inv();
                    }
                    Some((lat, precision, Message::decode(a, b, c), long_offset, long_dir))
                },
                Err(_) => None,
            }
        },
        _ => None,
    }
}

/// The longitude, in units, that three bytes of a Mic-E information field
/// spell.
///
/// Each byte is a number plus 28. The degrees get a hundred more if the
/// offset says so; then 180 to 189 stand for 100 to 109, and 190 to 199 for
/// 0 to 9. Minutes from 60 on stand for 60 less.
pub open spec fn mic_e_longitude(b: Seq<u8>, offset: LongOffset, dir: LongDir) -> Option<int>
    recommends
        b.len() == 3,
{
    if b.len() != 3 || b[0] < 28 || b[1] < 28 || b[2] < 28 {
        None
    } else {
        let raw = b[0] - 28 + if offset == LongOffset::Hundred {
            100int
        } else {
            0int
        };
        let deg = if 180 <= raw <= 189 {
            raw - 80
        } else if 190 <= raw <= 199 {
            raw - 190
        } else {
            raw
        };
        let min = if b[1] - 28 >= 60 {
            b[1] - 28 - 60
        } else {
            b[1] - 28
        };
        let units = dmh_units(deg, min, b[2] - 28);
        if units > 205_700_040_000 {
            None
        } else if dir == LongDir::East {
            Some(units)
        } else {
            Some(-units)
        }
    }
}

/// Reads the longitude from three bytes of a Mic-E information field.
pub fn decode_longitude(b: &[u8], offset: LongOffset, dir: LongDir) -> (r: Option<Longitude>)
    ensures
        match r {
            Some(l) => mic_e_longitude(b@, offset, dir) == Some(l@) && l == Longitude::from_units(
                l@,
            ),
            None => mic_e_longitude(b@, offset, dir).is_none(),
        },
{
    if b.len() != 3 || b[0] < 28 || b[1] < 28 || b[2] < 28 {
        return None;
    }
    let mut d: u32 = (b[0] - 28) as u32;
    match offset {
        LongOffset::Hundred => {
            d += 100;
        },
        LongOffset::Zero => {},
    }
    if d >= 180 && d <= 189 {
        d -= 80;
    } else if d >= 190 && d <= 199 {
        d -= 190;
    }
    let mut m: u32 = (b[1] - 28) as u32;
    if m >= 60 {
        m -= 60;
    }
    let h: u32 = (b[2] - 28) as u32;
    let east = match dir {
        LongDir::East => true,
        LongDir::West => false,
    };
    match Longitude::from_dmh(d, m, h, east) {
        Some(l) => {
            proof {
                use_type_invariant(&l);
                l.lemma_inv();
            }
            Some(l)
        },
        None => None,
    }
}

/// The speed in knots and the course in degrees that three bytes of a Mic-E
/// information field spell.
///
/// Each byte is a number plus 28: tens of knots; knots times ten plus
/// hundreds of degrees; degrees. A speed from 800 on stands for 800 less, a
/// course from 400 on for 400 less.
pub open spec fn mic_e_speed_course(b: Seq<u8>) -> Option<(u32, u32)>
    recommends
        b.len() == 3,
{
    if b.len() != 3 || b[0] < 28 || b[1] < 28 || b[2] < 28 {
        None
    } else {
        let raw_speed = (b[0] - 28) * 10 + (b[1] - 28) / 10;
        let raw_course = ((b[1] - 28) % 10) * 100 + (b[2] - 28);
        let speed = if raw_speed >= 800 {
            raw_speed - 800
        } else {
            raw_speed
        };
        let course = if raw_course >= 400 {
            raw_course - 400
        } else {
            raw_course
        };
        if speed > 799 || course > 360 {
            None
        } else {
            Some((speed as u32, course as u32))
        }
    }
}

/// Reads speed and course from three bytes of a Mic-E information field.
pub fn decode_speed_and_course(b: &[u8]) -> (r: Option<(Speed, Course)>)
    ensures
        match r {
            Some((s, c)) => mic_e_speed_course(b@) == Some((s@, c@)) && s == Speed::from_view(s@)
                && c == Course::from_view(c@),
            None => mic_e_speed_course(b@).is_none(),
        },
{
    if b.len() != 3 || b[0] < 28 || b[1] < 28 || b[2] < 28 {
        return None;
    }
    let sp: u32 = (b[0] - 28) as u32;
    let dc: u32 = (b[1] - 28) as u32;
    let se: u32 = (b[2] - 28) as u32;
    let mut speed_knots: u32 = sp * 10 + dc / 10;
    if speed_knots >= 800 {
        speed_knots -= 800;
    }
    let mut course_degrees: u32 = (dc % 10) * 100 + se;
    if course_degrees >= 400 {
        course_degrees -= 400;
    }
    match (Speed::new(speed_knots), Course::new(course_degrees)) {
        (Some(s), Some(c)) => Some((s, c)),
        _ => None,
    }
}

/// Whether `d` is the byte of a digit or a blank.
pub open spec fn is_digit_or_blank(d: u8) -> bool {
    48 <= d <= 57 || d == 32
}

/// One of the first three bytes of a destination: a digit of the latitude
/// and a message bit.
pub open spec fn bits_012(lat_digit: u8, bit: MessageBit) -> u8 {
    match bit {
        MessageBit::Zero => if lat_digit == 32 {
            76u8
        } else {
            lat_digit
        },
        MessageBit::CustomOne => if lat_digit == 32 {
            75u8
        } else {
            (lat_digit + 17) as u8
        },
        MessageBit::StandardOne => if lat_digit == 32 {
            90u8
        } else {
            (lat_digit + 32) as u8
        },
    }
}

/// One of the last three bytes of a destination: a digit of the latitude,
/// and whether the byte is raised to the letters `P` to `Z`.
pub open spec fn raised(lat_digit: u8, high: bool) -> u8 {
    if high {
        if lat_digit == 32 {
            90u8
        } else {
            (lat_digit + 32) as u8
        }
    } else {
        if lat_digit == 32 {
            76u8
        } else {
            lat_digit
        }
    }
}

/// One of the first three bytes of a destination.
pub fn encode_bits_012(lat_digit: u8, message_bit: MessageBit) -> (r: u8)
    requires
        is_digit_or_blank(lat_digit),
    ensures
        r == bits_012(lat_digit, message_bit),
{
    match (message_bit, lat_digit == 32) {
        (MessageBit::Zero, false) => lat_digit,
        (MessageBit::Zero, true) => 76,
        (MessageBit::CustomOne, false) => lat_digit + 17,
        (MessageBit::CustomOne, true) => 75,
        (MessageBit::StandardOne, false) => lat_digit + 32,
        (MessageBit::StandardOne, true) => 90,
    }
}

/// The fourth byte of a destination: raised in the north.
pub fn encode_bit_3(lat_digit: u8, lat_dir: LatDir) -> (r: u8)
    requires
        is_digit_or_blank(lat_digit),
    ensures
        r == raised(lat_digit, lat_dir == LatDir::North),
{
    match (lat_dir, lat_digit == 32) {
        (LatDir::North, false) => lat_digit + 32,
        (LatDir::North, true) => 90,
        (LatDir::South, false) => lat_digit,
        (LatDir::South, true) => 76,
    }
}

/// The fifth byte of a destination: raised if a hundred degrees are added
/// to the longitude.
pub fn encode_bit_4(lat_digit: u8, long_offset: LongOffset) -> (r: u8)
    requires
        is_digit_or_blank(lat_digit),
    ensures
        r == raised(lat_digit, long_offset == LongOffset::Hundred),
{
    match (long_offset, lat_digit == 32) {
        (LongOffset::Zero, false) => lat_digit,
        (LongOffset::Zero, true) => 76,
        (LongOffset::Hundred, false) => lat_digit + 32,
        (LongOffset::Hundred, true) => 90,
    }
}

/// The sixth byte of a destination: raised in the west.
pub fn encode_bit_5(lat_digit: u8, long_dir: LongDir) -> (r: u8)
    requires
        is_digit_or_blank(lat_digit),
    ensures
        r == raised(lat_digit, long_dir == LongDir::West),
{
    match (long_dir, lat_digit == 32) {
        (LongDir::East, false) => lat_digit,
        (LongDir::East, true) => 76,
        (LongDir::West, false) => lat_digit + 32,
        (LongDir::West, true) => 90,
    }
}

/// A Mic-E report.
#[derive(PartialEq, Eq, Debug, Clone)]
pub struct AprsMicE {
    pub latitude: Latitude,
    pub longitude: Longitude,
    pub precision: Precision,
    pub message: Message,
    pub speed: Speed,
    pub course: Course,
    pub symbol_table: char,
    pub symbol_code: char,
    pub comment: Vec<u8>,
    /// Whether the report is a current one, not an old one.
    pub current: bool,
}

/// The mathematical value of an `AprsMicE`.
pub struct AprsMicEView {
    pub latitude: Latitude,
    pub longitude: Longitude,
    pub precision: Precision,
    pub message: Message,
    pub speed: Speed,
    pub course: Course,
    pub symbol_table: char,
    pub symbol_code: char,
    pub comment: Seq<u8>,
    pub current: bool,
}

impl View for AprsMicE {
    type V = AprsMicEView;

    open spec fn view(&self) -> AprsMicEView {
        AprsMicEView {
            latitude: self.latitude,
            longitude: self.longitude,
            precision: self.precision,
            message: self.message,
            speed: self.speed,
            course: self.course,
            symbol_table: self.symbol_table,
            symbol_code: self.symbol_code,
            comment: self.comment@,
            current: self.current,
        }
    }
}

/// The Mic-E report that a destination and the bytes behind the type byte
/// spell.
pub open spec fn decode_mic_e(b: Seq<u8>, to: CallsignView, current: bool) -> Result<
    AprsMicEView,
    DecodeErrorView,
> {
    match decode_destination(to.call) {
        None => Err(DecodeErrorView::InvalidMicEDestination(to)),
        Some((lat, precision, message, offset, dir)) => if b.len() < 8 {
            Err(DecodeErrorView::InvalidMicEInformation(b))
        } else {
            match (mic_e_longitude(b.subrange(0, 3), offset, dir), mic_e_speed_course(b.subrange(3, 6))) {
                (Some(lon), Some((speed, course))) => Ok(
                    AprsMicEView {
                        latitude: Latitude::from_units(lat),
                        longitude: Longitude::from_units(lon),
                        precision,
                        message,
                        speed: Speed::from_view(speed),
                        course: Course::from_view(course),
                        symbol_table: b[7] as char,
                        symbol_code: b[6] as char,
                        comment: b.subrange(8, b.len() as int),
                        current,
                    },
                ),
                _ => Err(DecodeErrorView::InvalidMicEInformation(b)),
            }
        },
    }
}

/// Whether a hundred degrees are added to a longitude of `deg` degrees.
pub open spec fn offset_of_degrees(deg: int) -> bool {
    deg <= 9 || deg >= 100
}

/// The byte that stands for `deg` degrees of longitude, up to 179.
pub open spec fn degrees_byte(deg: int) -> u8 {
    if deg <= 9 {
        (deg + 118) as u8
    } else if deg <= 99 {
        (deg + 28) as u8
    } else if deg <= 109 {
        (deg + 8) as u8
    } else {
        (deg - 72) as u8
    }
}

/// The six bytes of longitude, speed and course in a Mic-E information
/// field.
///
/// Minutes below ten are written with 60 more, a speed below 200 knots with
/// 800 more, and the course with 400 more.
pub open spec fn mic_e_numbers(lon: int, speed: u32, course: u32) -> Seq<u8> {
    let (deg, min, hundredths, _) = dmh_spec(lon);
    seq![
        degrees_byte(deg),
        (if min <= 9 {
            min + 88
        } else {
            min + 28
        }) as u8,
        (hundredths + 28) as u8,
        (speed / 10 + if speed < 200 {
            108int
        } else {
            28int
        }) as u8,
        ((speed % 10) * 10 + course / 100 + 32) as u8,
        (course % 100 + 28) as u8,
    ]
}

/// The information field of a Mic-E report: a grave accent for a current
/// report or an apostrophe for an old one, six bytes of longitude, speed and
/// course, symbol code, symbol table, comment. A longitude of 180 degrees has
/// none.
pub open spec fn mic_e_bytes(m: AprsMicEView) -> Result<Seq<u8>, EncodeErrorView> {
    if dmh_spec(m.longitude@).0 >= 180 {
        Err(EncodeErrorView::InvalidLongitude(m.longitude))
    } else {
        Ok(
            seq![
                if m.current {
                    96u8
                } else {
                    39u8
                },
            ] + mic_e_numbers(m.longitude@, m.speed@, m.course@) + char_bytes(m.symbol_code)
                + char_bytes(m.symbol_table) + m.comment,
        )
    }
}

/// The base of the destination callsign of a Mic-E report: the six digits
/// of the latitude, with the message in the first three, and in the last
/// three the hemisphere of the latitude, the offset and the hemisphere of
/// the longitude.
pub open spec fn mic_e_destination(m: AprsMicEView) -> Seq<u8> {
    let lat = uncompressed_latitude(m.latitude@, m.precision);
    let (a, b, c) = bits_of_message(m.message);
    seq![
        bits_012(lat[0], a),
        bits_012(lat[1], b),
        bits_012(lat[2], c),
        raised(lat[3], m.latitude@ >= 0),
        raised(lat[5], offset_of_degrees(dmh_spec(m.longitude@).0)),
        raised(lat[6], m.longitude@ < 0),
    ]
}

/// Whether six bytes are longitude, speed and course as `encode` writes
/// them: degrees from 10 to 99 before the offset, minutes below ten with 60
/// more, hundredths below 100; a speed below 200 knots with 800 more, and a
/// course with 400 more.
pub open spec fn canonical_numbers(b: Seq<u8>) -> bool {
    &&& b.len() == 6
    &&& 38 <= b[0] <= 127
    &&& 38 <= b[1] <= 97
    &&& 28 <= b[2] <= 127
    &&& 48 <= b[3] <= 127
    &&& 28 <= b[4] <= 127
    &&& 4 <= (b[4] - 28) % 10 <= 7
    &&& 28 <= b[5] <= 127
}

/// Longitude, speed and course in their written form, read and written
/// again, are the same bytes; and the offset and the hemisphere that they
/// were read with are those that the longitude is written with.
#[verifier::rlimit(30)]
pub proof fn lemma_numbers_round_trip(b: Seq<u8>, offset: LongOffset, dir: LongDir)
    requires
        canonical_numbers(b),
        mic_e_longitude(b.subrange(0, 3), offset, dir) matches Some(lon) && (lon != 0 || dir
            == LongDir::East),
        mic_e_speed_course(b.subrange(3, 6)).is_some(),
    ensures
        ({
            let lon = mic_e_longitude(b.subrange(0, 3), offset, dir).unwrap();
            let (speed, course) = mic_e_speed_course(b.subrange(3, 6)).unwrap();
            &&& mic_e_numbers(lon, speed, course) == b
            &&& dmh_spec(lon).0 < 180
            &&& offset_of_degrees(dmh_spec(lon).0) == (offset == LongOffset::Hundred)
            &&& (lon < 0) == (dir == LongDir::West)
        }),
{
    let x = b.subrange(0, 3);
    let y = b.subrange(3, 6);
    assert(x[0] == b[0] && x[1] == b[1] && x[2] == b[2]);
    assert(y[0] == b[3] && y[1] == b[4] && y[2] == b[5]);
    let raw = b[0] - 28 + if offset == LongOffset::Hundred {
        100int
    } else {
        0int
    };
    let deg = if 180 <= raw <= 189 {
        raw - 80
    } else if 190 <= raw <= 199 {
        raw - 190
    } else {
        raw
    };
    let min = if b[1] - 28 >= 60 {
        b[1] - 28 - 60
    } else {
        b[1] - 28
    };
    let hundredths = b[2] - 28;
    lemma_dmh_round_trip(deg, min, hundredths, dir == LongDir::East);
    let lon = mic_e_longitude(x, offset, dir).unwrap();
    let (speed, course) = mic_e_speed_course(y).unwrap();
    assert(dmh_spec(lon) == (deg, min, hundredths, dir == LongDir::East));
    assert(degrees_byte(deg) == b[0]);
    let sp = b[3] - 28;
    let dc = b[4] - 28;
    let se = b[5] - 28;
    assert((10 * sp + dc / 10) / 10 == sp);
    assert((10 * sp + dc / 10) % 10 == dc / 10);
    assert(((dc % 10) * 100 + se - 400) / 100 == dc % 10 - 4);
    assert(((dc % 10) * 100 + se - 400) % 100 == se);
    assert(mic_e_numbers(lon, speed, course) =~= b);
}

/// A byte of the destination holds the digit and the message bit that it
/// is made of; and one of its last three bytes the digit and the flag.
pub proof fn lemma_destination_byte(c: u8)
    ensures
        latitude_digit_of(c).is_some() && message_bit_of(c).is_some() ==> bits_012(
            latitude_digit_of(c).unwrap(),
            message_bit_of(c).unwrap(),
        ) == c,
        latitude_digit_of(c).is_some() && (is_low(c) || is_high(c)) ==> raised(
            latitude_digit_of(c).unwrap(),
            is_high(c),
        ) == c,
{
}

/// Whether a destination and what follows the type byte of a Mic-E report
/// are as `encode` and `encode_destination` write them.
///
/// The destination has no SSID; its latitude is in its written form, and
/// neither latitude nor longitude is zero in the south or west; an unknown
/// message has the bits that stand for it; the numbers are in their written
/// form; the symbols are ASCII.
pub open spec fn canonical_mic_e(to: CallsignView, b: Seq<u8>) -> bool {
    &&& to.ssid.is_none()
    &&& b.len() >= 8
    &&& b[6] < 128
    &&& b[7] < 128
    &&& canonical_numbers(b.subrange(0, 6))
    &&& crate::lonlat::canonical_latitude(destination_latitude(to.call))
    &&& decode_destination(to.call) matches Some((lat, _, message, offset, dir)) && (lat != 0
        || is_high(to.call[3])) && (message == Message::Unknown ==> (
        message_bit_of(to.call[0]).unwrap(),
        message_bit_of(to.call[1]).unwrap(),
        message_bit_of(to.call[2]).unwrap(),
    ) == bits_of_message(Message::Unknown)) && (mic_e_longitude(b.subrange(0, 3), offset, dir)
        matches Some(lon) ==> lon != 0 || dir == LongDir::East)
}

/// The destination of a report with the latitude, precision and message
/// that a destination in its written form was read as, and with the flags
/// that it showed, is that destination.
#[verifier::rlimit(30)]
proof fn lemma_destination_round_trip(d: Seq<u8>, m: AprsMicEView)
    requires
        d.len() == 6,
        crate::lonlat::canonical_latitude(destination_latitude(d)),
        decode_destination(d) matches Some((lat, precision, message, offset, dir)) && (lat != 0
            || is_high(d[3])) && (message == Message::Unknown ==> (
            message_bit_of(d[0]).unwrap(),
            message_bit_of(d[1]).unwrap(),
            message_bit_of(d[2]).unwrap(),
        ) == bits_of_message(Message::Unknown)) && m.latitude@ == lat && m.precision == precision
            && m.message == message && offset_of_degrees(dmh_spec(m.longitude@).0) == (offset
            == LongOffset::Hundred) && (m.longitude@ < 0) == (dir == LongDir::West),
    ensures
        mic_e_destination(m) == d,
{
    let (lat, precision, message, offset, dir) = decode_destination(d).unwrap();
    let lat_bytes = destination_latitude(d);
    assert(lat_bytes[7] == 78 <==> is_high(d[3]));
    crate::lonlat::lemma_latitude_round_trip(lat_bytes);
    assert(uncompressed_latitude(lat, precision) == lat_bytes);
    lemma_message_bits(
        message_bit_of(d[0]).unwrap(),
        message_bit_of(d[1]).unwrap(),
        message_bit_of(d[2]).unwrap(),
    );
    lemma_destination_byte(d[0]);
    lemma_destination_byte(d[1]);
    lemma_destination_byte(d[2]);
    lemma_destination_byte(d[3]);
    lemma_destination_byte(d[4]);
    lemma_destination_byte(d[5]);
    assert(lat >= 0 <==> is_high(d[3]));
    let (a, b, c) = bits_of_message(message);
    assert(a == message_bit_of(d[0]).unwrap());
    assert(b == message_bit_of(d[1]).unwrap());
    assert(c == message_bit_of(d[2]).unwrap());
    assert(lat_bytes[0] == latitude_digit_of(d[0]).unwrap());
    assert(lat_bytes[1] == latitude_digit_of(d[1]).unwrap());
    assert(lat_bytes[2] == latitude_digit_of(d[2]).unwrap());
    assert(lat_bytes[3] == latitude_digit_of(d[3]).unwrap());
    assert(lat_bytes[5] == latitude_digit_of(d[4]).unwrap());
    assert(lat_bytes[6] == latitude_digit_of(d[5]).unwrap());
    assert(mic_e_destination(m) =~= d);
}

/// The information field of a report of which the numbers are written as
/// six bytes and the symbols as two is those bytes and the comment behind
/// the type byte.
proof fn lemma_mic_e_assembled(b: Seq<u8>, m: AprsMicEView)
    requires
        b.len() >= 8,
        dmh_spec(m.longitude@).0 < 180,
        mic_e_numbers(m.longitude@, m.speed@, m.course@) == b.subrange(0, 6),
        char_bytes(m.symbol_code) == seq![b[6]],
        char_bytes(m.symbol_table) == seq![b[7]],
        m.comment == b.subrange(8, b.len() as int),
    ensures
        mic_e_bytes(m) == Ok::<Seq<u8>, EncodeErrorView>(
            seq![
                if m.current {
                    96u8
                } else {
                    39u8
                },
            ] + b,
        ),
{
    let first = seq![
        if m.current {
            96u8
        } else {
            39u8
        },
    ];
    assert(b.subrange(0, 6) + seq![b[6]] + seq![b[7]] + b.subrange(8, b.len() as int) =~= b);
    assert(first + b.subrange(0, 6) + seq![b[6]] + seq![b[7]] + b.subrange(8, b.len() as int)
        =~= first + b);
}

/// A Mic-E report in its written form, read and written again, is the same
/// bytes behind the type byte, with the same destination.
#[verifier::rlimit(30)]
pub proof fn lemma_mic_e_round_trip(b: Seq<u8>, to: CallsignView, current: bool)
    requires
        canonical_mic_e(to, b),
        decode_mic_e(b, to, current) is Ok,
    ensures
        mic_e_bytes(decode_mic_e(b, to, current)->Ok_0) == Ok::<Seq<u8>, EncodeErrorView>(
            seq![
                if current {
                    96u8
                } else {
                    39u8
                },
            ] + b,
        ),
        mic_e_destination(decode_mic_e(b, to, current)->Ok_0) == to.call,
{
    let m = decode_mic_e(b, to, current)->Ok_0;
    let d = to.call;
    let (lat, precision, message, offset, dir) = decode_destination(d).unwrap();
    let six = b.subrange(0, 6);
    assert(six.subrange(0, 3) =~= b.subrange(0, 3));
    assert(six.subrange(3, 6) =~= b.subrange(3, 6));
    lemma_numbers_round_trip(six, offset, dir);
    let lon = mic_e_longitude(b.subrange(0, 3), offset, dir).unwrap();
    let (speed, course) = mic_e_speed_course(b.subrange(3, 6)).unwrap();
    crate::lonlat::lemma_parsed_in_range(destination_latitude(d), Seq::<u8>::empty(), precision);
    Latitude::lemma_from_units(lat);
    assert(crate::lonlat::is_longitude(lon));
    Longitude::lemma_from_units(lon);
    Speed::lemma_from_view(speed);
    Course::lemma_from_view(course);
    crate::position::lemma_ascii_char(b[6]);
    crate::position::lemma_ascii_char(b[7]);
    assert(m.latitude@ == lat && m.longitude@ == lon && m.speed@ == speed && m.course@ == course);
    assert(m.current == current);
    lemma_mic_e_assembled(b, m);
    lemma_destination_round_trip(d, m);
}

/// The bits of the message of three bits are those bits, unless their
/// message is unknown.
pub proof fn lemma_message_bits(a: MessageBit, b: MessageBit, c: MessageBit)
    ensures
        message_of_bits(a, b, c) != Message::Unknown ==> bits_of_message(message_of_bits(a, b, c))
            == (a, b, c),
{
}

/// Whether a Mic-E report is as `decode` gives it: its latitude is a whole
/// number of widths of its precision, its longitude a whole number of
/// hundredths of a minute.
pub open spec fn decoded_mic_e(m: AprsMicEView) -> bool {
    &&& crate::lonlat::is_latitude(m.latitude@)
    &&& crate::lonlat::aligned(m.latitude@, m.precision)
    &&& crate::lonlat::is_longitude(m.longitude@)
    &&& m.longitude@ % 190_463 == 0
    &&& m.speed@ <= 799
    &&& m.course@ <= 360
}

/// The longitude that three bytes of a Mic-E report spell is a whole number
/// of hundredths of a minute within 180 degrees.
proof fn lemma_mic_e_longitude_exact(b: Seq<u8>, offset: LongOffset, dir: LongDir)
    requires
        mic_e_longitude(b, offset, dir).is_some(),
    ensures
        crate::lonlat::is_longitude(mic_e_longitude(b, offset, dir).unwrap()),
        mic_e_longitude(b, offset, dir).unwrap() % 190_463 == 0,
{
    let raw = b[0] - 28 + if offset == LongOffset::Hundred {
        100int
    } else {
        0int
    };
    let deg = if 180 <= raw <= 189 {
        raw - 80
    } else if 190 <= raw <= 199 {
        raw - 190
    } else {
        raw
    };
    let min = if b[1] - 28 >= 60 {
        b[1] - 28 - 60
    } else {
        b[1] - 28
    };
    let h = b[2] - 28;
    let units = dmh_units(deg, min, h);
    vstd::arithmetic::div_mod::lemma_fundamental_div_mod_converse(
        units,
        190_463,
        deg * 6000 + min * 100 + h,
        0,
    );
    vstd::arithmetic::div_mod::lemma_fundamental_div_mod_converse(
        -units,
        190_463,
        -(deg * 6000 + min * 100 + h),
        0,
    );
}

/// What `decode` gives is as `decoded_mic_e` says.
#[verifier::rlimit(30)]
pub proof fn lemma_decoded_mic_e(b: Seq<u8>, to: CallsignView, current: bool)
    requires
        decode_mic_e(b, to, current) is Ok,
    ensures
        decoded_mic_e(decode_mic_e(b, to, current)->Ok_0),
{
    let m = decode_mic_e(b, to, current)->Ok_0;
    let (lat, precision, message, offset, dir) = decode_destination(to.call).unwrap();
    crate::lonlat::lemma_parsed_latitude_aligned(destination_latitude(to.call));
    Latitude::lemma_from_units(lat);
    lemma_mic_e_longitude_exact(b.subrange(0, 3), offset, dir);
    let lon = mic_e_longitude(b.subrange(0, 3), offset, dir).unwrap();
    Longitude::lemma_from_units(lon);
    let (speed, course) = mic_e_speed_course(b.subrange(3, 6)).unwrap();
    Speed::lemma_from_view(speed);
    Course::lemma_from_view(course);
}

/// The digit and the flag that a byte of the destination is made of are
/// those that it holds.
pub proof fn lemma_byte_of_destination(c: u8, bit: MessageBit, high: bool)
    requires
        is_digit_or_blank(c),
    ensures
        latitude_digit_of(bits_012(c, bit)) == Some(c),
        message_bit_of(bits_012(c, bit)) == Some(bit),
        latitude_digit_of(raised(c, high)) == Some(c),
        is_high(raised(c, high)) == high,
        is_low(raised(c, high)) == !high,
{
}

/// The six bytes that longitude, speed and course of a Mic-E report are
/// written as are in the written form and read back as the same, with the
/// offset and the hemisphere that the destination shows.
#[verifier::rlimit(30)]
pub proof fn lemma_numbers_decode(lon: int, speed: u32, course: u32)
    requires
        crate::lonlat::is_longitude(lon),
        lon % 190_463 == 0,
        dmh_spec(lon).0 < 180,
        speed <= 799,
        course <= 360,
    ensures
        ({
            let b = mic_e_numbers(lon, speed, course);
            let offset = if offset_of_degrees(dmh_spec(lon).0) {
                LongOffset::Hundred
            } else {
                LongOffset::Zero
            };
            let dir = if lon < 0 {
                LongDir::West
            } else {
                LongDir::East
            };
            &&& canonical_numbers(b)
            &&& mic_e_longitude(b.subrange(0, 3), offset, dir) == Some(lon)
            &&& mic_e_speed_course(b.subrange(3, 6)) == Some((speed, course))
        }),
{
    crate::lonlat::lemma_dmh_exact(lon);
    let a = if lon >= 0 {
        lon
    } else {
        -lon
    };
    let count = a / 190_463;
    crate::lonlat::lemma_count_units_of(count);
    let deg = count / 6000;
    let min = (count % 6000) / 100;
    let h = count % 100;
    assert(a == 190_463 * count);
    let b = mic_e_numbers(lon, speed, course);
    let x = b.subrange(0, 3);
    let y = b.subrange(3, 6);
    assert(x[0] == b[0] && x[1] == b[1] && x[2] == b[2]);
    assert(y[0] == b[3] && y[1] == b[4] && y[2] == b[5]);
    assert(b[0] == degrees_byte(deg));
    let sp = speed / 10 + if speed < 200 {
        80int
    } else {
        0int
    };
    let dc = (speed % 10) * 10 + course / 100 + 4;
    let se = course % 100;
    assert(b[3] - 28 == sp && b[4] - 28 == dc && b[5] - 28 == se);
    assert(dc / 10 == speed % 10);
    assert(dc % 10 == course / 100 + 4);
}

/// The bytes of the destination of a Mic-E report are digits and capital
/// letters.
pub proof fn lemma_destination_ascii(m: AprsMicEView)
    ensures
        mic_e_destination(m).len() == 6,
        forall|i: int|
            0 <= i < 6 ==> 48 <= #[trigger] mic_e_destination(m)[i] <= 57 || 65
                <= mic_e_destination(m)[i] <= 90,
{
    lemma_latitude_digits(m.latitude@, m.precision);
    let lat = uncompressed_latitude(m.latitude@, m.precision);
    assert(is_digit_or_blank(lat[0]) && is_digit_or_blank(lat[1]) && is_digit_or_blank(lat[2])
        && is_digit_or_blank(lat[3]) && is_digit_or_blank(lat[5]) && is_digit_or_blank(lat[6]));
}

/// Whether both symbols of a Mic-E report are ASCII.
pub open spec fn ascii_symbols(m: AprsMicEView) -> bool {
    (m.symbol_table as u32) < 128 && (m.symbol_code as u32) < 128
}

/// What the six bytes of a destination hold that is made of the bytes of a
/// latitude, three message bits and three flags.
#[verifier::rlimit(30)]
proof fn lemma_destination_holds(
    lat: Seq<u8>,
    a: MessageBit,
    b: MessageBit,
    c: MessageBit,
    north: bool,
    hundred: bool,
    west: bool,
)
    requires
        lat.len() == 8,
        lat[4] == 46,
        lat[7] == if north {
            78u8
        } else {
            83u8
        },
        is_digit_or_blank(lat[0]),
        is_digit_or_blank(lat[1]),
        is_digit_or_blank(lat[2]),
        is_digit_or_blank(lat[3]),
        is_digit_or_blank(lat[5]),
        is_digit_or_blank(lat[6]),
    ensures
        ({
            let d = seq![
                bits_012(lat[0], a),
                bits_012(lat[1], b),
                bits_012(lat[2], c),
                raised(lat[3], north),
                raised(lat[5], hundred),
                raised(lat[6], west),
            ];
            &&& destination_bytes_ok(d)
            &&& destination_latitude(d) == lat
            &&& message_bit_of(d[0]) == Some(a)
            &&& message_bit_of(d[1]) == Some(b)
            &&& message_bit_of(d[2]) == Some(c)
            &&& is_high(d[3]) == north
            &&& is_high(d[4]) == hundred
            &&& is_high(d[5]) == west
        }),
{
    lemma_byte_of_destination(lat[0], a, true);
    lemma_byte_of_destination(lat[1], b, true);
    lemma_byte_of_destination(lat[2], c, true);
    lemma_byte_of_destination(lat[3], a, north);
    lemma_byte_of_destination(lat[5], a, hundred);
    lemma_byte_of_destination(lat[6], a, west);
    let d = seq![
        bits_012(lat[0], a),
        bits_012(lat[1], b),
        bits_012(lat[2], c),
        raised(lat[3], north),
        raised(lat[5], hundred),
        raised(lat[6], west),
    ];
    assert(destination_latitude(d) =~= lat);
}

/// The destination of a Mic-E report as `decode` gives it holds its
/// latitude, precision and message, and the flags of its longitude.
#[verifier::rlimit(30)]
pub proof fn lemma_destination_decodes(m: AprsMicEView)
    requires
        decoded_mic_e(m),
    ensures
        ({
            let d = mic_e_destination(m);
            &&& d.len() == 6
            &&& crate::lonlat::canonical_latitude(destination_latitude(d))
            &&& decode_destination(d) == Some(
                (
                    m.latitude@,
                    m.precision,
                    m.message,
                    if offset_of_degrees(dmh_spec(m.longitude@).0) {
                        LongOffset::Hundred
                    } else {
                        LongOffset::Zero
                    },
                    if m.longitude@ < 0 {
                        LongDir::West
                    } else {
                        LongDir::East
                    },
                ),
            )
            &&& (m.latitude@ != 0 || is_high(d[3]))
            &&& (
                message_bit_of(d[0]).unwrap(),
                message_bit_of(d[1]).unwrap(),
                message_bit_of(d[2]).unwrap(),
            ) == bits_of_message(m.message)
        }),
{
    let d = mic_e_destination(m);
    let lat = uncompressed_latitude(m.latitude@, m.precision);
    lemma_latitude_digits(m.latitude@, m.precision);
    crate::lonlat::lemma_latitude_decodes(m.latitude@, m.precision);
    crate::lonlat::lemma_latitude_hemisphere(m.latitude@, m.precision);
    let (a, b, c) = bits_of_message(m.message);
    lemma_message_round_trip(m.message);
    lemma_destination_holds(
        lat,
        a,
        b,
        c,
        m.latitude@ >= 0,
        offset_of_degrees(dmh_spec(m.longitude@).0),
        m.longitude@ < 0,
    );
}

/// A Mic-E report as `decode` gives it, with ASCII symbols and a longitude
/// that it can hold, is written in the written form, and what is written
/// reads back, with the destination that the report makes, as the report.
#[verifier::rlimit(30)]
pub proof fn lemma_mic_e_decodes(m: AprsMicEView)
    requires
        decoded_mic_e(m),
        ascii_symbols(m),
        mic_e_bytes(m) is Ok,
    ensures
        mic_e_bytes(m)->Ok_0.len() > 0,
        mic_e_bytes(m)->Ok_0[0] == if m.current {
            96u8
        } else {
            39u8
        },
        ({
            let b = mic_e_bytes(m)->Ok_0.subrange(1, mic_e_bytes(m)->Ok_0.len() as int);
            let to = CallsignView { call: mic_e_destination(m), ssid: None };
            &&& canonical_mic_e(to, b)
            &&& decode_mic_e(b, to, m.current) == Ok::<AprsMicEView, DecodeErrorView>(m)
        }),
{
    let x = mic_e_bytes(m)->Ok_0;
    let first: u8 = if m.current {
        96
    } else {
        39
    };
    let six = mic_e_numbers(m.longitude@, m.speed@, m.course@);
    m.latitude.lemma_from_units_view();
    m.longitude.lemma_from_units_view();
    m.speed.lemma_from_view_of();
    m.course.lemma_from_view_of();
    crate::position::lemma_ascii_byte(m.symbol_code);
    crate::position::lemma_ascii_byte(m.symbol_table);
    let b = six + seq![m.symbol_code as u8] + seq![m.symbol_table as u8] + m.comment;
    assert(x =~= seq![first] + b);
    assert(x.subrange(1, x.len() as int) =~= b);
    lemma_numbers_decode(m.longitude@, m.speed@, m.course@);
    lemma_destination_decodes(m);
    lemma_info_layout(six, m.symbol_code as u8, m.symbol_table as u8, m.comment);
    let to = CallsignView { call: mic_e_destination(m), ssid: None };
    assert(six.subrange(0, 3) =~= b.subrange(0, 3));
    assert(six.subrange(3, 6) =~= b.subrange(3, 6));
}

/// Where the parts of a Mic-E report stand behind its type byte.
proof fn lemma_info_layout(six: Seq<u8>, code: u8, table: u8, comment: Seq<u8>)
    requires
        six.len() == 6,
    ensures
        ({
            let b = six + seq![code] + seq![table] + comment;
            &&& b.len() >= 8
            &&& b.subrange(0, 6) == six
            &&& b[6] == code
            &&& b[7] == table
            &&& b.subrange(8, b.len() as int) == comment
        }),
{
    let b = six + seq![code] + seq![table] + comment;
    assert(b.subrange(0, 6) =~= six);
    assert(b.subrange(8, b.len() as int) =~= comment);
}

impl AprsMicE {
    /// Reads a Mic-E report from the destination callsign and what follows
    /// the type byte of the information field.
    pub fn decode(b: &[u8], to: Callsign, current: bool) -> (r: Result<Self, DecodeError>)
        ensures
            match r {
                Ok(m) => decode_mic_e(b@, to@, current) == Ok::<AprsMicEView, DecodeErrorView>(m@),
                Err(e) => decode_mic_e(b@, to@, current) == Err::<AprsMicEView, DecodeErrorView>(
                    e@,
                ),
            },
    {
        let (latitude, precision, message, long_offset, long_dir) = match decode_callsign(&to) {
            Some(x) => x,
            None => {
                return Err(DecodeError::InvalidMicEDestination(to));
            },
        };
        if b.len() < 8 {
            return Err(DecodeError::InvalidMicEInformation(copy_all(b)));
        }
        let longitude = match decode_longitude(
            vstd::slice::slice_subrange(b, 0, 3),
            long_offset,
            long_dir,
        ) {
            Some(l) => l,
            None => {
                return Err(DecodeError::InvalidMicEInformation(copy_all(b)));
            },
        };
        let (speed, course) = match decode_speed_and_course(vstd::slice::slice_subrange(b, 3, 6)) {
            Some(x) => x,
            None => {
                return Err(DecodeError::InvalidMicEInformation(copy_all(b)));
            },
        };
        let comment = copy_range(b, 8, b.len());
        Ok(
            Self {
                latitude,
                longitude,
                precision,
                message,
                speed,
                course,
                symbol_table: b[7] as char,
                symbol_code: b[6] as char,
                comment,
                current,
            },
        )
    }

    /// Appends the information field of the report.
    ///
    /// Fails, and appends nothing, for a longitude of 180 degrees, which a
    /// Mic-E report cannot hold.
    pub fn encode(&self, buf: &mut Vec<u8>) -> (r: Result<(), EncodeError>)
        ensures
            match r {
                Ok(()) => mic_e_bytes(self@) matches Ok(b) && final(buf)@ == old(buf)@ + b,
                Err(e) => mic_e_bytes(self@) == Err::<Seq<u8>, EncodeErrorView>(e@) && final(buf)@
                    == old(buf)@,
            },
    {
        let (deg, min, hundredths, _) = self.longitude.dmh();
        if deg >= 180 {
            return Err(EncodeError::InvalidLongitude(self.longitude));
        }
        let speed = self.speed.knots();
        let course = self.course.degrees();
        buf.push(
            if self.current {
                96
            } else {
                39
            },
        );
        let degrees_byte: u32 = if deg <= 9 {
            deg + 118
        } else if deg <= 99 {
            deg + 28
        } else if deg <= 109 {
            deg + 8
        } else {
            deg - 72
        };
        buf.push(degrees_byte as u8);
        buf.push(
            (if min <= 9 {
                min + 88
            } else {
                min + 28
            }) as u8,
        );
        buf.push((hundredths + 28) as u8);
        buf.push(
            (speed / 10 + if speed < 200 {
                108
            } else {
                28
            }) as u8,
        );
        buf.push(((speed % 10) * 10 + course / 100 + 32) as u8);
        buf.push((course % 100 + 28) as u8);
        push_char(buf, self.symbol_code);
        push_char(buf, self.symbol_table);
        append(buf, self.comment.as_slice());
        assert(buf@ =~= old(buf)@ + mic_e_bytes(self@)->Ok_0);
        Ok(())
    }

    /// The destination callsign of the report, which holds its latitude and
    /// message.
    pub fn encode_destination(&self) -> (r: Callsign)
        ensures
            r@ == (CallsignView { call: mic_e_destination(self@), ssid: None }),
    {
        let mut lat: Vec<u8> = Vec::new();
        self.latitude.encode_uncompressed(&mut lat, self.precision);
        proof {
            lemma_latitude_digits(self.latitude@, self.precision);
        }
        assert(lat@ =~= uncompressed_latitude(self.latitude@, self.precision));
        let lat_dir = if self.latitude.units() >= 0 {
            LatDir::North
        } else {
            LatDir::South
        };
        let long_dir = if self.longitude.units() >= 0 {
            LongDir::East
        } else {
            LongDir::West
        };
        let (deg, _, _, _) = self.longitude.dmh();
        let long_offset = if deg <= 9 || deg >= 100 {
            LongOffset::Hundred
        } else {
            LongOffset::Zero
        };
        let (a, b, c) = self.message.encode();
        let mut bytes: Vec<u8> = Vec::new();
        bytes.push(encode_bits_012(lat[0], a));
        bytes.push(encode_bits_012(lat[1], b));
        bytes.push(encode_bits_012(lat[2], c));
        bytes.push(encode_bit_3(lat[3], lat_dir));
        bytes.push(encode_bit_4(lat[5], long_offset));
        bytes.push(encode_bit_5(lat[6], long_dir));
        assert(bytes@ =~= mic_e_destination(self@));
        Callsign::from_bytes(bytes, None)
    }
}

/// The first seven bytes of an uncompressed latitude are digits or blanks,
/// but for the point.
pub proof fn lemma_latitude_digits(units: int, precision: Precision)
    ensures
        uncompressed_latitude(units, precision).len() == 8,
        forall|i: int|
            0 <= i < 7 && i != 4 ==> is_digit_or_blank(
                #[trigger] uncompressed_latitude(units, precision)[i],
            ),
{
    let (deg, min, hundredths, _) = dmh_spec(units);
    crate::bytes::lemma_fixed_digits(deg as nat, 2);
    crate::bytes::lemma_fixed_digits(min as nat, 2);
    crate::bytes::lemma_fixed_digits(hundredths as nat, 2);
    let digits = crate::lonlat::dmh_digits(units, 2);
    assert(digits.len() == 6);
    assert forall|i: int| 0 <= i < 6 implies crate::bytes::is_digit(#[trigger] digits[i]) by {
        if i < 2 {
            assert(digits[i] == crate::bytes::fixed_digits(deg as nat, 2)[i]);
        } else if i < 4 {
            assert(digits[i] == crate::bytes::fixed_digits(min as nat, 2)[i - 2]);
        } else {
            assert(digits[i] == crate::bytes::fixed_digits(hundredths as nat, 2)[i - 4]);
        }
    }
    let shown = crate::lonlat::overwrite_tail(digits, precision.spec_num_digits() as int, 32);
    let lat = uncompressed_latitude(units, precision);
    assert forall|i: int| 0 <= i < 7 && i != 4 implies is_digit_or_blank(#[trigger] lat[i]) by {
        if i < 4 {
            assert(lat[i] == shown[i]);
            assert(crate::bytes::is_digit(digits[i]));
        } else {
            assert(lat[i] == shown[i - 1]);
            assert(crate::bytes::is_digit(digits[i - 1]));
        }
    }
}

} // verus!
