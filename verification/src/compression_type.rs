//! The type byte of a compressed position.

use vstd::prelude::*;

verus! {

/// Whether the GPS fix is current.
#[derive(PartialEq, Eq, Copy, Clone, Debug)]
pub enum GpsFix {
    Old,
    Current,
}

/// The NMEA sentence that the position came from.
#[derive(PartialEq, Eq, Copy, Clone, Debug)]
pub enum NmeaSource {
    Other,
    Gll,
    Gga,
    Rmc,
}

/// What compressed the position.
#[derive(PartialEq, Eq, Copy, Clone, Debug)]
pub enum Origin {
    Compressed,
    TncBText,
    Software,
    Tbd,
    Kpc3,
    Pico,
    Other,
    Digipeater,
}

/// The three fields of the type byte of a compressed position.
#[derive(PartialEq, Eq, Copy, Clone, Debug)]
pub struct AprsCompressionType {
    pub gps_fix: GpsFix,
    pub nmea_source: NmeaSource,
    pub origin: Origin,
}

/// The GPS fix that bit 5 of the type byte stands for.
pub open spec fn gps_fix_of(bit: bool) -> GpsFix {
    if bit {
        GpsFix::Current
    } else {
        GpsFix::Old
    }
}

/// The NMEA source that bits 4 and 3 of the type byte stand for.
pub open spec fn nmea_source_of(code: int) -> NmeaSource {
    if code == 0 {
        NmeaSource::Other
    } else if code == 1 {
        NmeaSource::Gll
    } else if code == 2 {
        NmeaSource::Gga
    } else {
        NmeaSource::Rmc
    }
}

/// The origin that bits 2 to 0 of the type byte stand for.
pub open spec fn origin_of(code: int) -> Origin {
    if code == 0 {
        Origin::Compressed
    } else if code == 1 {
        Origin::TncBText
    } else if code == 2 {
        Origin::Software
    } else if code == 3 {
        Origin::Tbd
    } else if code == 4 {
        Origin::Kpc3
    } else if code == 5 {
        Origin::Pico
    } else if code == 6 {
        Origin::Other
    } else {
        Origin::Digipeater
    }
}

/// The number of a GPS fix: its bit.
pub open spec fn gps_fix_code(fix: GpsFix) -> int {
    match fix {
        GpsFix::Old => 0,
        GpsFix::Current => 1,
    }
}

/// The number of an NMEA source: its two bits.
pub open spec fn nmea_source_code(source: NmeaSource) -> int {
    match source {
        NmeaSource::Other => 0,
        NmeaSource::Gll => 1,
        NmeaSource::Gga => 2,
        NmeaSource::Rmc => 3,
    }
}

/// The number of an origin: its three bits.
pub open spec fn origin_code(origin: Origin) -> int {
    match origin {
        Origin::Compressed => 0,
        Origin::TncBText => 1,
        Origin::Software => 2,
        Origin::Tbd => 3,
        Origin::Kpc3 => 4,
        Origin::Pico => 5,
        Origin::Other => 6,
        Origin::Digipeater => 7,
    }
}

/// The fields that a type byte holds in its six low bits.
pub open spec fn type_of_byte(byte: u8) -> AprsCompressionType {
    AprsCompressionType {
        gps_fix: gps_fix_of((byte / 32) % 2 == 1),
        nmea_source: nmea_source_of(((byte / 8) % 4) as int),
        origin: origin_of((byte % 8) as int),
    }
}

/// The type byte of three fields: a number below 64.
pub open spec fn byte_of_type(t: AprsCompressionType) -> u8 {
    (32 * gps_fix_code(t.gps_fix) + 8 * nmea_source_code(t.nmea_source) + origin_code(
        t.origin,
    )) as u8
}

/// The fields of a type byte give back its six low bits.
pub proof fn lemma_byte_of_type_of_byte(byte: u8)
    ensures
        byte_of_type(type_of_byte(byte)) == byte % 64,
{
    let t = type_of_byte(byte);
    assert(gps_fix_code(t.gps_fix) == (byte / 32) % 2);
    assert(nmea_source_code(t.nmea_source) == (byte / 8) % 4);
    assert(origin_code(t.origin) == byte % 8);
    assert(byte % 64 == 32 * ((byte / 32) % 2) + 8 * ((byte / 8) % 4) + byte % 8) by (bit_vector);
}

/// A type byte made of three fields holds those fields.
pub proof fn lemma_type_of_byte_of_type(t: AprsCompressionType)
    ensures
        type_of_byte(byte_of_type(t)) == t,
        byte_of_type(t) < 64,
{
}

impl AprsCompressionType {
    /// The fields that a type byte holds in its six low bits.
    pub fn from_byte(byte: u8) -> (r: Self)
        ensures
            r == type_of_byte(byte),
    {
        let gps_fix = if (byte / 32) % 2 == 1 {
            GpsFix::Current
        } else {
            GpsFix::Old
        };
        let source: u8 = (byte / 8) % 4;
        let nmea_source = if source == 0 {
            NmeaSource::Other
        } else if source == 1 {
            NmeaSource::Gll
        } else if source == 2 {
            NmeaSource::Gga
        } else {
            NmeaSource::Rmc
        };
        let code: u8 = byte % 8;
        let origin = if code == 0 {
            Origin::Compressed
        } else if code == 1 {
            Origin::TncBText
        } else if code == 2 {
            Origin::Software
        } else if code == 3 {
            Origin::Tbd
        } else if code == 4 {
            Origin::Kpc3
        } else if code == 5 {
            Origin::Pico
        } else if code == 6 {
            Origin::Other
        } else {
            Origin::Digipeater
        };
        AprsCompressionType { gps_fix, nmea_source, origin }
    }

    /// The type byte of the fields: a number below 64.
    pub fn to_byte(&self) -> (r: u8)
        ensures
            r == byte_of_type(*self),
            r < 64,
    {
        let fix: u8 = match self.gps_fix {
            GpsFix::Old => 0,
            GpsFix::Current => 1,
        };
        let source: u8 = match self.nmea_source {
            NmeaSource::Other => 0,
            NmeaSource::Gll => 1,
            NmeaSource::Gga => 2,
            NmeaSource::Rmc => 3,
        };
        let origin: u8 = match self.origin {
            Origin::Compressed => 0,
            Origin::TncBText => 1,
            Origin::Software => 2,
            Origin::Tbd => 3,
            Origin::Kpc3 => 4,
            Origin::Pico => 5,
            Origin::Other => 6,
            Origin::Digipeater => 7,
        };
        32 * fix + 8 * source + origin
    }
}

impl From<u8> for AprsCompressionType {
    fn from(byte: u8) -> (r: Self) {
        AprsCompressionType::from_byte(byte)
    }
}

impl vstd::std_specs::convert::FromSpecImpl<u8> for AprsCompressionType {
    open spec fn obeys_from_spec() -> bool {
        true
    }

    open spec fn from_spec(byte: u8) -> Self {
        type_of_byte(byte)
    }
}

impl From<AprsCompressionType> for u8 {
    fn from(t: AprsCompressionType) -> (r: u8) {
        t.to_byte()
    }
}

impl vstd::std_specs::convert::FromSpecImpl<AprsCompressionType> for u8 {
    open spec fn obeys_from_spec() -> bool {
        true
    }

    open spec fn from_spec(t: AprsCompressionType) -> u8 {
        byte_of_type(t)
    }
}

impl From<bool> for GpsFix {
    fn from(v: bool) -> (r: Self) {
        if v {
            GpsFix::Current
        } else {
            GpsFix::Old
        }
    }
}

impl vstd::std_specs::convert::FromSpecImpl<bool> for GpsFix {
    open spec fn obeys_from_spec() -> bool {
        true
    }

    open spec fn from_spec(v: bool) -> Self {
        gps_fix_of(v)
    }
}

impl From<GpsFix> for bool {
    fn from(v: GpsFix) -> (r: Self) {
        match v {
            GpsFix::Old => false,
            GpsFix::Current => true,
        }
    }
}

impl vstd::std_specs::convert::FromSpecImpl<GpsFix> for bool {
    open spec fn obeys_from_spec() -> bool {
        true
    }

    open spec fn from_spec(v: GpsFix) -> Self {
        gps_fix_code(v) == 1
    }
}

impl From<(bool, bool)> for NmeaSource {
    fn from(v: (bool, bool)) -> (r: Self) {
        match v {
            (false, false) => NmeaSource::Other,
            (false, true) => NmeaSource::Gll,
            (true, false) => NmeaSource::Gga,
            (true, true) => NmeaSource::Rmc,
        }
    }
}

impl vstd::std_specs::convert::FromSpecImpl<(bool, bool)> for NmeaSource {
    open spec fn obeys_from_spec() -> bool {
        true
    }

    open spec fn from_spec(v: (bool, bool)) -> Self {
        nmea_source_of(
            if v.0 {
                2int
            } else {
                0int
            } + if v.1 {
                1int
            } else {
                0int
            },
        )
    }
}

impl From<NmeaSource> for (bool, bool) {
    fn from(v: NmeaSource) -> (r: Self) {
        match v {
            NmeaSource::Other => (false, false),
            NmeaSource::Gll => (false, true),
            NmeaSource::Gga => (true, false),
            NmeaSource::Rmc => (true, true),
        }
    }
}

impl vstd::std_specs::convert::FromSpecImpl<NmeaSource> for (bool, bool) {
    open spec fn obeys_from_spec() -> bool {
        true
    }

    open spec fn from_spec(v: NmeaSource) -> Self {
        (nmea_source_code(v) / 2 == 1, nmea_source_code(v) % 2 == 1)
    }
}

impl From<(bool, bool, bool)> for Origin {
    fn from(v: (bool, bool, bool)) -> (r: Self) {
        match v {
            (false, false, false) => Origin::Compressed,
            (false, false, true) => Origin::TncBText,
            (false, true, false) => Origin::Software,
            (false, true, true) => Origin::Tbd,
            (true, false, false) => Origin::Kpc3,
            (true, false, true) => Origin::Pico,
            (true, true, false) => Origin::Other,
            (true, true, true) => Origin::Digipeater,
        }
    }
}

impl vstd::std_specs::convert::FromSpecImpl<(bool, bool, bool)> for Origin {
    open spec fn obeys_from_spec() -> bool {
        true
    }

    open spec fn from_spec(v: (bool, bool, bool)) -> Self {
        origin_of(
            if v.0 {
                4int
            } else {
                0int
            } + if v.1 {
                2int
            } else {
                0int
            } + if v.2 {
                1int
            } else {
                0int
            },
        )
    }
}

impl From<Origin> for (bool, bool, bool) {
    fn from(v: Origin) -> (r: Self) {
        match v {
            Origin::Compressed => (false, false, false),
            Origin::TncBText => (false, false, true),
            Origin::Software => (false, true, false),
            Origin::Tbd => (false, true, true),
            Origin::Kpc3 => (true, false, false),
            Origin::Pico => (true, false, true),
            Origin::Other => (true, true, false),
            Origin::Digipeater => (true, true, true),
        }
    }
}

impl vstd::std_specs::convert::FromSpecImpl<Origin> for (bool, bool, bool) {
    open spec fn obeys_from_spec() -> bool {
        true
    }

    open spec fn from_spec(v: Origin) -> Self {
        (origin_code(v) / 4 == 1, (origin_code(v) / 2) % 2 == 1, origin_code(v) % 2 == 1)
    }
}

} // verus!
