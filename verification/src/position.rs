//! Positions, and position reports.

use vstd::prelude::*;

use crate::bytes::is_digit;
use crate::callsign::{Callsign, CallsignView};
use crate::compressed_cs::{cs_bytes, parse_cs, AprsCompressedCs};
use crate::compression_type::{type_of_byte, AprsCompressionType};
use crate::error::{DecodeError, DecodeErrorView, EncodeError, EncodeErrorView};
use crate::base91::encode91;
use crate::lonlat::{
    canonical_latitude, canonical_longitude, compressed_latitude_number,
    compressed_longitude_number, parse_compressed_latitude,
    parse_compressed_longitude, parse_uncompressed_latitude, parse_uncompressed_longitude,
    uncompressed_latitude, uncompressed_longitude, Latitude, Longitude, Precision,
};
use crate::timestamp::{decode_timestamp, timestamp_bytes, Timestamp, TimestampView};
use crate::utils::{append, char_bytes, copy_all, copy_range, push_char};

verus! {

/// The course, speed and type of a compressed position, or the lack of them.
#[derive(PartialEq, Eq, Debug, Clone, Copy)]
pub enum AprsCst {
    /// A compressed position with course and speed, range or altitude.
    CompressedSome { cs: AprsCompressedCs, t: AprsCompressionType },
    /// A compressed position without them.
    CompressedNone,
    /// An uncompressed position.
    Uncompressed,
}

/// A place, the symbol to show there, and how the place is written.
#[derive(PartialEq, Eq, Debug, Clone, Copy)]
pub struct Position {
    pub latitude: Latitude,
    pub longitude: Longitude,
    pub precision: Precision,
    pub symbol_table: char,
    pub symbol_code: char,
    pub cst: AprsCst,
}

/// The number of bytes that a position takes: 19 uncompressed, 13 compressed.
pub open spec fn position_len(cst: AprsCst) -> int {
    if cst == AprsCst::Uncompressed {
        19
    } else {
        13
    }
}

/// The bytes of a position in the uncompressed form: latitude, symbol table,
/// longitude, symbol code.
pub open spec fn uncompressed_position(p: Position) -> Seq<u8> {
    uncompressed_latitude(p.latitude@, p.precision) + char_bytes(p.symbol_table)
        + uncompressed_longitude(p.longitude@) + char_bytes(p.symbol_code)
}

/// The three bytes that close a compressed position, or why there are none.
pub open spec fn cst_bytes(cst: AprsCst) -> Result<Seq<u8>, EncodeErrorView> {
    match cst {
        AprsCst::CompressedSome { cs, t } => cs_bytes(cs, t),
        _ => Ok(seq![32u8, 115u8, 84u8]),
    }
}

/// The bytes of a position in the compressed form: symbol table, latitude,
/// longitude, symbol code, and three bytes of course, speed and type.
pub open spec fn compressed_position(p: Position) -> Result<Seq<u8>, EncodeErrorView> {
    match cst_bytes(p.cst) {
        Ok(tail) => Ok(
            char_bytes(p.symbol_table) + encode91(compressed_latitude_number(p.latitude@) as nat, 4)
                + encode91(compressed_longitude_number(p.longitude@) as nat, 4) + char_bytes(
                p.symbol_code,
            ) + tail,
        ),
        Err(e) => Err(e),
    }
}

/// The bytes of a position, in the form that its `cst` names.
pub open spec fn position_bytes(p: Position) -> Result<Seq<u8>, EncodeErrorView> {
    if p.cst == AprsCst::Uncompressed {
        Ok(uncompressed_position(p))
    } else {
        compressed_position(p)
    }
}

/// The uncompressed position at the head of `b`: 19 bytes.
pub open spec fn decode_uncompressed_position(b: Seq<u8>) -> Result<Position, DecodeErrorView> {
    if b.len() < 19 {
        Err(DecodeErrorView::InvalidPosition(b))
    } else {
        match parse_uncompressed_latitude(b.subrange(0, 8)) {
            None => Err(DecodeErrorView::InvalidLatitude(b.subrange(0, 8))),
            Some((lat, precision)) => match parse_uncompressed_longitude(
                b.subrange(9, 18),
                precision,
            ) {
                None => Err(DecodeErrorView::InvalidLongitude(b.subrange(9, 18))),
                Some(lon) => Ok(
                    Position {
                        latitude: Latitude::from_units(lat),
                        longitude: Longitude::from_units(lon),
                        precision,
                        symbol_table: b[8] as char,
                        symbol_code: b[18] as char,
                        cst: AprsCst::Uncompressed,
                    },
                ),
            },
        }
    }
}

/// What the last three bytes of a compressed position say.
///
/// A blank for the first means that they say nothing.
pub open spec fn decode_cst(b: Seq<u8>) -> Result<AprsCst, DecodeErrorView>
    recommends
        b.len() >= 13,
{
    if b[10] == 32 {
        Ok(AprsCst::CompressedNone)
    } else if b[12] < 33 {
        Err(DecodeErrorView::InvalidPosition(b))
    } else {
        let t = type_of_byte((b[12] - 33) as u8);
        match parse_cs(b[10], b[11], t) {
            Some(cs) => Ok(AprsCst::CompressedSome { cs, t }),
            None => Err(DecodeErrorView::InvalidCs(seq![b[10], b[11]])),
        }
    }
}

/// The compressed position at the head of `b`: 13 bytes.
pub open spec fn decode_compressed_position(b: Seq<u8>) -> Result<Position, DecodeErrorView> {
    if b.len() < 13 {
        Err(DecodeErrorView::InvalidPosition(b))
    } else {
        match parse_compressed_latitude(b.subrange(1, 5)) {
            None => Err(DecodeErrorView::InvalidLatitude(b.subrange(1, 5))),
            Some(lat) => match parse_compressed_longitude(b.subrange(5, 9)) {
                None => Err(DecodeErrorView::InvalidLongitude(b.subrange(5, 9))),
                Some(lon) => match decode_cst(b) {
                    Err(e) => Err(e),
                    Ok(cst) => Ok(
                        Position {
                            latitude: Latitude::from_units(lat),
                            longitude: Longitude::from_units(lon),
                            precision: Precision::HundredthMinute,
                            symbol_table: b[0] as char,
                            symbol_code: b[9] as char,
                            cst,
                        },
                    ),
                },
            },
        }
    }
}

/// The position at the head of `b`: uncompressed if `b` begins with a digit,
/// else compressed.
pub open spec fn decode_position(b: Seq<u8>) -> Result<Position, DecodeErrorView> {
    if b.len() > 0 && is_digit(b[0]) {
        decode_uncompressed_position(b)
    } else {
        decode_compressed_position(b)
    }
}

/// Whether `b` begins with an uncompressed position as `encode` writes it:
/// latitude and longitude in their written form, neither of them zero in
/// the south or west, and symbols that are ASCII.
pub open spec fn canonical_uncompressed_position(b: Seq<u8>) -> bool {
    &&& b.len() >= 19
    &&& b[8] < 128
    &&& b[18] < 128
    &&& canonical_latitude(b.subrange(0, 8))
    &&& parse_uncompressed_latitude(b.subrange(0, 8)) matches Some((lat, precision)) && (lat != 0
        || b[7] == 78) && canonical_longitude(b.subrange(9, 18), precision) && (
    parse_uncompressed_longitude(b.subrange(9, 18), precision) matches Some(lon) ==> lon != 0
        || b[17] == 69)
}

/// Whether `b` begins with a compressed position as `encode` writes it:
/// base-91 digits, symbols that are ASCII, and behind them ` sT` or a
/// course and speed, range or altitude in their written form.
pub open spec fn canonical_compressed_position(b: Seq<u8>) -> bool {
    &&& b.len() >= 13
    &&& b[0] < 128
    &&& b[9] < 128
    &&& crate::base91::all_digits91(b.subrange(1, 5))
    &&& crate::base91::all_digits91(b.subrange(5, 9))
    &&& if b[10] == 32 {
        b[11] == 115 && b[12] == 84
    } else {
        33 <= b[12] <= 96 && (type_of_byte((b[12] - 33) as u8).nmea_source
            == crate::compression_type::NmeaSource::Gga ==> b[11] <= 123)
    }
}

/// Whether `b` begins with a position as `encode` writes it.
pub open spec fn canonical_position(b: Seq<u8>) -> bool {
    if b.len() > 0 && is_digit(b[0]) {
        canonical_uncompressed_position(b)
    } else {
        canonical_compressed_position(b)
    }
}

/// An ASCII byte is the only byte of its character.
pub proof fn lemma_ascii_char(c: u8)
    requires
        c < 128,
    ensures
        char_bytes(c as char) == seq![c],
{
    assert(char_bytes(c as char) =~= seq![c]);
}

/// A position in its written form, read and written again, is the same
/// bytes.
#[verifier::rlimit(30)]
pub proof fn lemma_position_round_trip(b: Seq<u8>)
    requires
        canonical_position(b),
        decode_position(b) is Ok,
    ensures
        position_bytes(decode_position(b)->Ok_0) == Ok::<Seq<u8>, EncodeErrorView>(
            b.subrange(0, position_len(decode_position(b)->Ok_0.cst)),
        ),
{
    let p = decode_position(b)->Ok_0;
    if b.len() > 0 && is_digit(b[0]) {
        let lat_bytes = b.subrange(0, 8);
        let lon_bytes = b.subrange(9, 18);
        let (lat, precision) = parse_uncompressed_latitude(lat_bytes).unwrap();
        let lon = parse_uncompressed_longitude(lon_bytes, precision).unwrap();
        assert(lat_bytes[7] == b[7] && lon_bytes[8] == b[17]);
        crate::lonlat::lemma_latitude_round_trip(lat_bytes);
        crate::lonlat::lemma_longitude_round_trip(lon_bytes, precision);
        crate::lonlat::lemma_parsed_in_range(lat_bytes, lon_bytes, precision);
        Latitude::lemma_from_units(lat);
        Longitude::lemma_from_units(lon);
        lemma_ascii_char(b[8]);
        lemma_ascii_char(b[18]);
        assert(uncompressed_position(p) =~= b.subrange(0, 19));
    } else {
        let lat_bytes = b.subrange(1, 5);
        let lon_bytes = b.subrange(5, 9);
        crate::base91::lemma_value91_below_power(lat_bytes);
        crate::lonlat::lemma_compressed_latitude_round_trip(lat_bytes);
        crate::lonlat::lemma_compressed_longitude_round_trip(lon_bytes);
        let lat = parse_compressed_latitude(lat_bytes).unwrap();
        let lon = parse_compressed_longitude(lon_bytes).unwrap();
        Latitude::lemma_from_units(lat);
        Longitude::lemma_from_units(lon);
        lemma_ascii_char(b[0]);
        lemma_ascii_char(b[9]);
        if b[10] != 32 {
            crate::compressed_cs::lemma_cs_round_trip(b[10], b[11], b[12]);
        }
        assert(cst_bytes(p.cst)->Ok_0 =~= b.subrange(10, 13));
        assert(compressed_position(p)->Ok_0 =~= b.subrange(0, 13));
    }
}

/// Whether a position is as `decode` gives it.
///
/// An uncompressed position has coordinates that are whole numbers of
/// widths of its precision. A compressed one has coordinates that it can
/// hold, the finest precision, a symbol table that is no digit, and course
/// and speed as `parse` gives them.
pub open spec fn decoded_position(p: Position) -> bool {
    match p.cst {
        AprsCst::Uncompressed => {
            &&& crate::lonlat::is_latitude(p.latitude@)
            &&& crate::lonlat::is_longitude(p.longitude@)
            &&& crate::lonlat::aligned(p.latitude@, p.precision)
            &&& crate::lonlat::aligned(p.longitude@, p.precision)
        },
        _ => {
            &&& crate::lonlat::on_latitude_grid(p.latitude@)
            &&& crate::lonlat::on_longitude_grid(p.longitude@)
            &&& p.precision == Precision::HundredthMinute
            &&& !(48 <= p.symbol_table as u32 <= 57)
            &&& (p.cst matches AprsCst::CompressedSome { cs, t }
                ==> crate::compressed_cs::decoded_cs(cs, t))
        },
    }
}

/// What `decode` gives is as `decoded_position` says.
#[verifier::rlimit(30)]
pub proof fn lemma_decoded_position(b: Seq<u8>)
    requires
        decode_position(b) is Ok,
    ensures
        decoded_position(decode_position(b)->Ok_0),
{
    let p = decode_position(b)->Ok_0;
    if b.len() > 0 && is_digit(b[0]) {
        let lat_bytes = b.subrange(0, 8);
        let lon_bytes = b.subrange(9, 18);
        crate::lonlat::lemma_parsed_latitude_aligned(lat_bytes);
        let (lat, precision) = parse_uncompressed_latitude(lat_bytes).unwrap();
        crate::lonlat::lemma_parsed_longitude_aligned(lon_bytes, precision);
        let lon = parse_uncompressed_longitude(lon_bytes, precision).unwrap();
        Latitude::lemma_from_units(lat);
        Longitude::lemma_from_units(lon);
    } else {
        let lat_bytes = b.subrange(1, 5);
        let lon_bytes = b.subrange(5, 9);
        crate::lonlat::lemma_parsed_on_grid(lat_bytes);
        crate::lonlat::lemma_parsed_on_grid(lon_bytes);
        let lat = parse_compressed_latitude(lat_bytes).unwrap();
        let lon = parse_compressed_longitude(lon_bytes).unwrap();
        Latitude::lemma_from_units(lat);
        Longitude::lemma_from_units(lon);
        if b[10] != 32 {
            crate::compressed_cs::lemma_decoded_cs(b[10], b[11], type_of_byte((b[12] - 33) as u8));
        }
    }
}

/// Whether both symbols of a position are ASCII.
pub open spec fn ascii_symbols(p: Position) -> bool {
    (p.symbol_table as u32) < 128 && (p.symbol_code as u32) < 128
}

/// The only byte of an ASCII character.
pub proof fn lemma_ascii_byte(c: char)
    requires
        (c as u32) < 128,
    ensures
        char_bytes(c) == seq![c as u8],
        (c as u8) as char == c,
        (c as u8) < 128,
{
}

/// Where the parts of an uncompressed position stand in its bytes.
proof fn lemma_uncompressed_layout(lat: Seq<u8>, table: u8, lon: Seq<u8>, code: u8, rest: Seq<u8>)
    requires
        lat.len() == 8,
        lon.len() == 9,
    ensures
        ({
            let b = lat + seq![table] + lon + seq![code] + rest;
            &&& b.len() >= 19
            &&& b.subrange(0, 8) == lat
            &&& b.subrange(9, 18) == lon
            &&& b[8] == table
            &&& b[18] == code
            &&& b[0] == lat[0]
            &&& b[7] == lat[7]
            &&& b[17] == lon[8]
            &&& b.subrange(0, 19) == lat + seq![table] + lon + seq![code]
        }),
{
    let b = lat + seq![table] + lon + seq![code] + rest;
    assert(b.subrange(0, 8) =~= lat);
    assert(b.subrange(9, 18) =~= lon);
    assert(b.subrange(0, 19) =~= lat + seq![table] + lon + seq![code]);
}

/// Where the parts of a compressed position stand in its bytes.
proof fn lemma_compressed_layout(
    table: u8,
    lat: Seq<u8>,
    lon: Seq<u8>,
    code: u8,
    tail: Seq<u8>,
    rest: Seq<u8>,
)
    requires
        lat.len() == 4,
        lon.len() == 4,
        tail.len() == 3,
    ensures
        ({
            let b = seq![table] + lat + lon + seq![code] + tail + rest;
            &&& b.len() >= 13
            &&& b.subrange(1, 5) == lat
            &&& b.subrange(5, 9) == lon
            &&& b[0] == table
            &&& b[9] == code
            &&& b[10] == tail[0]
            &&& b[11] == tail[1]
            &&& b[12] == tail[2]
            &&& b.subrange(0, 13) == seq![table] + lat + lon + seq![code] + tail
        }),
{
    let b = seq![table] + lat + lon + seq![code] + tail + rest;
    assert(b.subrange(1, 5) =~= lat);
    assert(b.subrange(5, 9) =~= lon);
    assert(b.subrange(0, 13) =~= seq![table] + lat + lon + seq![code] + tail);
}

/// The law of `lemma_position_decodes` for an uncompressed position.
#[verifier::rlimit(30)]
proof fn lemma_uncompressed_position_decodes(p: Position, rest: Seq<u8>)
    requires
        decoded_position(p),
        ascii_symbols(p),
        p.cst == AprsCst::Uncompressed,
    ensures
        uncompressed_position(p).len() == 19,
        canonical_uncompressed_position(uncompressed_position(p) + rest),
        is_digit((uncompressed_position(p) + rest)[0]),
        decode_uncompressed_position(uncompressed_position(p) + rest) == Ok::<
            Position,
            DecodeErrorView,
        >(p),
{
    let x = uncompressed_position(p);
    let b = x + rest;
    lemma_ascii_byte(p.symbol_table);
    lemma_ascii_byte(p.symbol_code);
    p.latitude.lemma_from_units_view();
    p.longitude.lemma_from_units_view();
    let lat = uncompressed_latitude(p.latitude@, p.precision);
    let lon = uncompressed_longitude(p.longitude@);
    crate::lonlat::lemma_latitude_decodes(p.latitude@, p.precision);
    crate::lonlat::lemma_longitude_decodes(p.longitude@, p.precision);
    crate::lonlat::lemma_first_digit(lat);
    lemma_uncompressed_layout(lat, p.symbol_table as u8, lon, p.symbol_code as u8, rest);
    assert(x == lat + seq![p.symbol_table as u8] + lon + seq![p.symbol_code as u8]);
    assert(b == lat + seq![p.symbol_table as u8] + lon + seq![p.symbol_code as u8] + rest);
    assert(x.len() == 19) by {
        assert(x =~= b.subrange(0, 19));
    }
}

/// The law of `lemma_position_decodes` for a compressed position.
#[verifier::rlimit(30)]
proof fn lemma_compressed_position_decodes(p: Position, rest: Seq<u8>)
    requires
        decoded_position(p),
        ascii_symbols(p),
        p.cst != AprsCst::Uncompressed,
        compressed_position(p) is Ok,
    ensures
        compressed_position(p)->Ok_0.len() == 13,
        canonical_compressed_position(compressed_position(p)->Ok_0 + rest),
        !is_digit((compressed_position(p)->Ok_0 + rest)[0]),
        decode_compressed_position(compressed_position(p)->Ok_0 + rest) == Ok::<
            Position,
            DecodeErrorView,
        >(p),
{
    let x = compressed_position(p)->Ok_0;
    let b = x + rest;
    lemma_ascii_byte(p.symbol_table);
    lemma_ascii_byte(p.symbol_code);
    p.latitude.lemma_from_units_view();
    p.longitude.lemma_from_units_view();
    let la = encode91(compressed_latitude_number(p.latitude@) as nat, 4);
    let lo = encode91(compressed_longitude_number(p.longitude@) as nat, 4);
    crate::lonlat::lemma_compressed_latitude_decodes(p.latitude@);
    crate::lonlat::lemma_compressed_longitude_decodes(p.longitude@);
    let tail = cst_bytes(p.cst)->Ok_0;
    match p.cst {
        AprsCst::CompressedSome { cs, t } => {
            crate::compressed_cs::lemma_cs_decodes(cs, t);
        },
        _ => {},
    }
    assert(tail.len() == 3);
    lemma_compressed_layout(p.symbol_table as u8, la, lo, p.symbol_code as u8, tail, rest);
    assert(x == seq![p.symbol_table as u8] + la + lo + seq![p.symbol_code as u8] + tail);
    assert(b == seq![p.symbol_table as u8] + la + lo + seq![p.symbol_code as u8] + tail + rest);
    assert(x.len() == 13) by {
        assert(x =~= b.subrange(0, 13));
    }
    assert(decode_cst(b) == Ok::<AprsCst, DecodeErrorView>(p.cst));
}

/// A position as `decode` gives it, with ASCII symbols, is written in the
/// written form, and with anything behind it reads back as itself.
pub proof fn lemma_position_decodes(p: Position, rest: Seq<u8>)
    requires
        decoded_position(p),
        ascii_symbols(p),
        position_bytes(p) is Ok,
    ensures
        position_bytes(p)->Ok_0.len() == position_len(p.cst),
        canonical_position(position_bytes(p)->Ok_0 + rest),
        decode_position(position_bytes(p)->Ok_0 + rest) == Ok::<Position, DecodeErrorView>(p),
{
    if p.cst == AprsCst::Uncompressed {
        lemma_uncompressed_position_decodes(p, rest);
    } else {
        lemma_compressed_position_decodes(p, rest);
    }
}

impl Position {
    /// The number of bytes that the position takes on the wire.
    pub fn encoded_len(&self) -> (r: usize)
        ensures
            r == position_len(self.cst),
    {
        match self.cst {
            AprsCst::Uncompressed => 19,
            _ => 13,
        }
    }

    /// Appends the position in the uncompressed form.
    pub fn encode_uncompressed(&self, buf: &mut Vec<u8>)
        ensures
            final(buf)@ == old(buf)@ + uncompressed_position(*self),
    {
        self.latitude.encode_uncompressed(buf, self.precision);
        push_char(buf, self.symbol_table);
        self.longitude.encode_uncompressed(buf);
        push_char(buf, self.symbol_code);
        assert(buf@ =~= old(buf)@ + uncompressed_position(*self));
    }

    /// Appends the position in the compressed form.
    ///
    /// A position that is marked as uncompressed gets the three bytes of one
    /// without course and speed. Fails, and appends nothing, if course and
    /// speed have no bytes.
    pub fn encode_compressed(&self, buf: &mut Vec<u8>) -> (r: Result<(), EncodeError>)
        ensures
            match r {
                Ok(()) => compressed_position(*self) matches Ok(b) && final(buf)@ == old(buf)@ + b,
                Err(e) => compressed_position(*self) == Err::<Seq<u8>, EncodeErrorView>(e@)
                    && final(buf)@ == old(buf)@,
            },
    {
        let start: usize = buf.len();
        push_char(buf, self.symbol_table);
        self.latitude.encode_compressed(buf);
        self.longitude.encode_compressed(buf);
        push_char(buf, self.symbol_code);
        match self.cst {
            AprsCst::CompressedSome { cs, t } => {
                match cs.encode(buf, t) {
                    Ok(()) => {},
                    Err(e) => {
                        buf.truncate(start);
                        assert(buf@ =~= old(buf)@);
                        return Err(e);
                    },
                }
            },
            _ => {
                buf.push(32);
                buf.push(115);
                buf.push(84);
            },
        }
        assert(buf@ =~= old(buf)@ + compressed_position(*self)->Ok_0);
        Ok(())
    }

    /// Appends the position in the form that its `cst` names.
    pub fn encode(&self, buf: &mut Vec<u8>) -> (r: Result<(), EncodeError>)
        ensures
            match r {
                Ok(()) => position_bytes(*self) matches Ok(b) && final(buf)@ == old(buf)@ + b,
                Err(e) => position_bytes(*self) == Err::<Seq<u8>, EncodeErrorView>(e@) && final(buf)@ == old(buf)@,
            },
    {
        match self.cst {
            AprsCst::Uncompressed => {
                self.encode_uncompressed(buf);
                Ok(())
            },
            _ => self.encode_compressed(buf),
        }
    }

    /// Reads the uncompressed position at the head of `b`.
    fn decode_uncompressed(b: &[u8]) -> (r: Result<Self, DecodeError>)
        ensures
            match r {
                Ok(p) => decode_uncompressed_position(b@) == Ok::<Position, DecodeErrorView>(p),
                Err(e) => decode_uncompressed_position(b@) == Err::<Position, DecodeErrorView>(e@),
            },
    {
        if b.len() < 19 {
            return Err(DecodeError::InvalidPosition(copy_all(b)));
        }
        let (latitude, precision) = match Latitude::parse_uncompressed(
            vstd::slice::slice_subrange(b, 0, 8),
        ) {
            Ok(x) => x,
            Err(e) => {
                return Err(e);
            },
        };
        let longitude = match Longitude::parse_uncompressed(
            vstd::slice::slice_subrange(b, 9, 18),
            precision,
        ) {
            Ok(x) => x,
            Err(e) => {
                return Err(e);
            },
        };
        proof {
            use_type_invariant(&latitude);
            use_type_invariant(&longitude);
            latitude.lemma_inv();
            longitude.lemma_inv();
        }
        Ok(
            Self {
                latitude,
                longitude,
                precision,
                symbol_table: b[8] as char,
                symbol_code: b[18] as char,
                cst: AprsCst::Uncompressed,
            },
        )
    }

    /// Reads the last three bytes of the compressed position at the head of
    /// `b`.
    fn decode_cst(b: &[u8]) -> (r: Result<AprsCst, DecodeError>)
        requires
            b.len() >= 13,
        ensures
            match r {
                Ok(c) => decode_cst(b@) == Ok::<AprsCst, DecodeErrorView>(c),
                Err(e) => decode_cst(b@) == Err::<AprsCst, DecodeErrorView>(e@),
            },
    {
        if b[10] == 32 {
            return Ok(AprsCst::CompressedNone);
        }
        if b[12] < 33 {
            return Err(DecodeError::InvalidPosition(copy_all(b)));
        }
        let t = AprsCompressionType::from_byte(b[12] - 33);
        match AprsCompressedCs::parse(b[10], b[11], t) {
            Ok(cs) => Ok(AprsCst::CompressedSome { cs, t }),
            Err(e) => Err(e),
        }
    }

    /// Reads the compressed position at the head of `b`.
    fn decode_compressed(b: &[u8]) -> (r: Result<Self, DecodeError>)
        ensures
            match r {
                Ok(p) => decode_compressed_position(b@) == Ok::<Position, DecodeErrorView>(p),
                Err(e) => decode_compressed_position(b@) == Err::<Position, DecodeErrorView>(e@),
            },
    {
        if b.len() < 13 {
            return Err(DecodeError::InvalidPosition(copy_all(b)));
        }
        let latitude = match Latitude::parse_compressed(vstd::slice::slice_subrange(b, 1, 5)) {
            Ok(x) => x,
            Err(e) => {
                return Err(e);
            },
        };
        let longitude = match Longitude::parse_compressed(vstd::slice::slice_subrange(b, 5, 9)) {
            Ok(x) => x,
            Err(e) => {
                return Err(e);
            },
        };
        let cst = match Self::decode_cst(b) {
            Ok(x) => x,
            Err(e) => {
                return Err(e);
            },
        };
        proof {
            use_type_invariant(&latitude);
            use_type_invariant(&longitude);
            latitude.lemma_inv();
            longitude.lemma_inv();
        }
        Ok(
            Self {
                latitude,
                longitude,
                precision: Precision::HundredthMinute,
                symbol_table: b[0] as char,
                symbol_code: b[9] as char,
                cst,
            },
        )
    }

    /// Reads the position at the head of `b`; what follows it is not looked
    /// at.
    pub fn decode(b: &[u8]) -> (r: Result<Self, DecodeError>)
        ensures
            match r {
                Ok(p) => decode_position(b@) == Ok::<Position, DecodeErrorView>(p) && b.len()
                    >= position_len(p.cst),
                Err(e) => decode_position(b@) == Err::<Position, DecodeErrorView>(e@),
            },
    {
        if b.len() > 0 && 48 <= b[0] && b[0] <= 57 {
            Self::decode_uncompressed(b)
        } else {
            Self::decode_compressed(b)
        }
    }
}

/// A position report.
#[derive(PartialEq, Eq, Debug, Clone)]
pub struct AprsPosition {
    pub to: Callsign,
    pub timestamp: Option<Timestamp>,
    pub messaging_supported: bool,
    pub position: Position,
    pub comment: Vec<u8>,
}

/// The mathematical value of an `AprsPosition`.
pub struct AprsPositionView {
    pub to: CallsignView,
    pub timestamp: Option<TimestampView>,
    pub messaging_supported: bool,
    pub position: Position,
    pub comment: Seq<u8>,
}

/// The value of a timestamp that may be absent.
pub open spec fn timestamp_view(t: Option<Timestamp>) -> Option<TimestampView> {
    match t {
        Some(x) => Some(x@),
        None => None,
    }
}

impl View for AprsPosition {
    type V = AprsPositionView;

    open spec fn view(&self) -> AprsPositionView {
        AprsPositionView {
            to: self.to@,
            timestamp: timestamp_view(self.timestamp),
            messaging_supported: self.messaging_supported,
            position: self.position,
            comment: self.comment@,
        }
    }
}

/// The byte that begins a position report.
pub open spec fn position_type_byte(has_timestamp: bool, messaging_supported: bool) -> u8 {
    if has_timestamp {
        if messaging_supported {
            64u8
        } else {
            47u8
        }
    } else {
        if messaging_supported {
            61u8
        } else {
            33u8
        }
    }
}

/// The bytes of an optional timestamp.
pub open spec fn optional_timestamp_bytes(t: Option<TimestampView>) -> Seq<u8> {
    match t {
        Some(x) => timestamp_bytes(x),
        None => Seq::<u8>::empty(),
    }
}

/// The information field of a position report: the type byte, the timestamp
/// if there is one, the position, the comment.
pub open spec fn aprs_position_bytes(p: AprsPositionView) -> Result<Seq<u8>, EncodeErrorView> {
    match position_bytes(p.position) {
        Ok(b) => Ok(
            seq![position_type_byte(p.timestamp.is_some(), p.messaging_supported)]
                + optional_timestamp_bytes(p.timestamp) + b + p.comment,
        ),
        Err(e) => Err(e),
    }
}

/// The position report that the information field `b`, sent to `to`, spells.
///
/// The first byte says whether a timestamp follows and whether the station
/// takes messages. Behind the position, all is comment.
pub open spec fn decode_aprs_position(b: Seq<u8>, to: CallsignView) -> Result<
    AprsPositionView,
    DecodeErrorView,
> {
    if b.len() == 0 {
        Err(DecodeErrorView::InvalidPosition(b))
    } else {
        let has_timestamp = b[0] == 64 || b[0] == 47;
        if has_timestamp && b.len() < 8 {
            Err(DecodeErrorView::InvalidPosition(b))
        } else if has_timestamp && decode_timestamp(b.subrange(1, 8)).is_none() {
            Err(DecodeErrorView::InvalidTimestamp(b.subrange(1, 8)))
        } else {
            let rest = if has_timestamp {
                b.subrange(8, b.len() as int)
            } else {
                b.subrange(1, b.len() as int)
            };
            match decode_position(rest) {
                Err(e) => Err(e),
                Ok(position) => Ok(
                    AprsPositionView {
                        to,
                        timestamp: if has_timestamp {
                            decode_timestamp(b.subrange(1, 8))
                        } else {
                            None
                        },
                        messaging_supported: b[0] == 61 || b[0] == 64,
                        position,
                        comment: rest.subrange(position_len(position.cst), rest.len() as int),
                    },
                ),
            }
        }
    }
}

/// Whether an information field is a position report as `encode` writes
/// it: one of the four type bytes, a timestamp in its written form if the
/// type byte asks for one, and a position in its written form.
pub open spec fn canonical_aprs_position(b: Seq<u8>) -> bool {
    &&& b.len() > 0
    &&& (b[0] == 33 || b[0] == 47 || b[0] == 61 || b[0] == 64)
    &&& if b[0] == 64 || b[0] == 47 {
        b.len() >= 8 && crate::timestamp::canonical_timestamp(b.subrange(1, 8))
            && canonical_position(b.subrange(8, b.len() as int))
    } else {
        canonical_position(b.subrange(1, b.len() as int))
    }
}

/// A position in its written form and what follows it, read as a position
/// and a comment and written again, are the same bytes.
pub proof fn lemma_position_and_comment(rest: Seq<u8>)
    requires
        canonical_position(rest),
        decode_position(rest) is Ok,
    ensures
        position_bytes(decode_position(rest)->Ok_0) is Ok,
        position_bytes(decode_position(rest)->Ok_0)->Ok_0 + rest.subrange(
            position_len(decode_position(rest)->Ok_0.cst),
            rest.len() as int,
        ) == rest,
{
    lemma_position_round_trip(rest);
    lemma_position_fits(rest);
    let len = position_len(decode_position(rest)->Ok_0.cst);
    assert(rest.subrange(0, len) + rest.subrange(len, rest.len() as int) =~= rest);
}

/// A position report in its written form, read and written again, is the
/// same bytes.
#[verifier::rlimit(30)]
pub proof fn lemma_aprs_position_round_trip(b: Seq<u8>, to: CallsignView)
    requires
        canonical_aprs_position(b),
        decode_aprs_position(b, to) is Ok,
    ensures
        aprs_position_bytes(decode_aprs_position(b, to)->Ok_0) == Ok::<Seq<u8>, EncodeErrorView>(b),
{
    let p = decode_aprs_position(b, to)->Ok_0;
    let has_timestamp = b[0] == 64 || b[0] == 47;
    let rest = if has_timestamp {
        b.subrange(8, b.len() as int)
    } else {
        b.subrange(1, b.len() as int)
    };
    assert(decode_position(rest) is Ok);
    assert(p.position == decode_position(rest)->Ok_0);
    assert(p.comment == rest.subrange(position_len(p.position.cst), rest.len() as int));
    lemma_position_and_comment(rest);
    let body = position_bytes(p.position)->Ok_0 + p.comment;
    assert(body == rest);
    assert(position_type_byte(p.timestamp.is_some(), p.messaging_supported) == b[0]);
    if has_timestamp {
        crate::timestamp::lemma_timestamp_round_trip(b.subrange(1, 8));
        assert(optional_timestamp_bytes(p.timestamp) == b.subrange(1, 8));
        assert(seq![b[0]] + b.subrange(1, 8) + rest =~= b);
    } else {
        assert(optional_timestamp_bytes(p.timestamp) =~= Seq::<u8>::empty());
        assert(seq![b[0]] + Seq::<u8>::empty() + rest =~= b);
    }
    assert(aprs_position_bytes(p)->Ok_0 =~= seq![b[0]] + optional_timestamp_bytes(p.timestamp)
        + body);
}

/// Where a position is read, there are bytes enough for it.
pub proof fn lemma_position_fits(b: Seq<u8>)
    requires
        decode_position(b) is Ok,
    ensures
        b.len() >= position_len(decode_position(b)->Ok_0.cst),
{
}

/// Whether a position report is as `decode` gives it: its position and
/// its timestamp are.
pub open spec fn decoded_aprs_position(p: AprsPositionView) -> bool {
    &&& decoded_position(p.position)
    &&& p.timestamp matches Some(t) ==> crate::timestamp::decoded_timestamp(t)
}

/// What `decode` gives is as `decoded_aprs_position` says, and is sent to
/// the callsign that was given.
pub proof fn lemma_decoded_aprs_position(b: Seq<u8>, to: CallsignView)
    requires
        decode_aprs_position(b, to) is Ok,
    ensures
        decoded_aprs_position(decode_aprs_position(b, to)->Ok_0),
        decode_aprs_position(b, to)->Ok_0.to == to,
{
    let has_timestamp = b[0] == 64 || b[0] == 47;
    let rest = if has_timestamp {
        b.subrange(8, b.len() as int)
    } else {
        b.subrange(1, b.len() as int)
    };
    lemma_decoded_position(rest);
    if has_timestamp {
        crate::timestamp::lemma_decoded_timestamp(b.subrange(1, 8));
    }
}

/// A position report as `decode` gives it, with ASCII symbols, is written
/// in the written form and reads back as itself.
#[verifier::rlimit(30)]
pub proof fn lemma_aprs_position_decodes(p: AprsPositionView)
    requires
        decoded_aprs_position(p),
        ascii_symbols(p.position),
        aprs_position_bytes(p) is Ok,
    ensures
        canonical_aprs_position(aprs_position_bytes(p)->Ok_0),
        decode_aprs_position(aprs_position_bytes(p)->Ok_0, p.to) == Ok::<
            AprsPositionView,
            DecodeErrorView,
        >(p),
        aprs_position_bytes(p)->Ok_0.len() > 0,
        ({
            let first = aprs_position_bytes(p)->Ok_0[0];
            first == 33 || first == 47 || first == 61 || first == 64
        }),
{
    let x = aprs_position_bytes(p)->Ok_0;
    let first = position_type_byte(p.timestamp.is_some(), p.messaging_supported);
    let ts = optional_timestamp_bytes(p.timestamp);
    let pos = position_bytes(p.position)->Ok_0;
    lemma_position_decodes(p.position, p.comment);
    let rest = pos + p.comment;
    assert(rest.subrange(position_len(p.position.cst), rest.len() as int) =~= p.comment);
    match p.timestamp {
        Some(t) => {
            crate::timestamp::lemma_timestamp_decodes(t);
            assert(ts.len() == 7);
            assert(x =~= seq![first] + ts + rest);
            assert(x.subrange(1, 8) =~= ts);
            assert(x.subrange(8, x.len() as int) =~= rest);
            assert(x[0] == first);
        },
        None => {
            assert(x =~= seq![first] + rest);
            assert(x.subrange(1, x.len() as int) =~= rest);
            assert(x[0] == first);
        },
    }
}

impl AprsPosition {
    /// Reads a position report from an information field, type byte
    /// included.
    pub fn decode(b: &[u8], to: Callsign) -> (r: Result<Self, DecodeError>)
        ensures
            match r {
                Ok(p) => decode_aprs_position(b@, to@) == Ok::<AprsPositionView, DecodeErrorView>(
                    p@,
                ),
                Err(e) => decode_aprs_position(b@, to@) == Err::<AprsPositionView, DecodeErrorView>(
                    e@,
                ),
            },
    {
        if b.len() == 0 {
            return Err(DecodeError::InvalidPosition(copy_all(b)));
        }
        let first = b[0];
        let messaging_supported = first == 61 || first == 64;
        let has_timestamp = first == 64 || first == 47;
        let timestamp = if has_timestamp {
            if b.len() < 8 {
                return Err(DecodeError::InvalidPosition(copy_all(b)));
            }
            match Timestamp::decode(vstd::slice::slice_subrange(b, 1, 8)) {
                Ok(t) => Some(t),
                Err(e) => {
                    return Err(e);
                },
            }
        } else {
            None
        };
        let rest = if has_timestamp {
            vstd::slice::slice_subrange(b, 8, b.len())
        } else {
            vstd::slice::slice_subrange(b, 1, b.len())
        };
        let position = match Position::decode(rest) {
            Ok(p) => p,
            Err(e) => {
                return Err(e);
            },
        };
        let comment = copy_range(rest, position.encoded_len(), rest.len());
        Ok(Self { to, timestamp, messaging_supported, position, comment })
    }

    /// Appends the information field of the report.
    ///
    /// Fails, and appends nothing, if the position has no bytes.
    pub fn encode(&self, buf: &mut Vec<u8>) -> (r: Result<(), EncodeError>)
        ensures
            match r {
                Ok(()) => aprs_position_bytes(self@) matches Ok(b) && final(buf)@ == old(buf)@ + b,
                Err(e) => aprs_position_bytes(self@) == Err::<Seq<u8>, EncodeErrorView>(e@)
                    && final(buf)@ == old(buf)@,
            },
    {
        let start: usize = buf.len();
        let sym: u8 = match (self.timestamp.is_some(), self.messaging_supported) {
            (true, true) => 64,
            (true, false) => 47,
            (false, true) => 61,
            (false, false) => 33,
        };
        buf.push(sym);
        match &self.timestamp {
            Some(ts) => {
                ts.encode(buf);
            },
            None => {},
        }
        match self.position.encode(buf) {
            Ok(()) => {},
            Err(e) => {
                buf.truncate(start);
                assert(buf@ =~= old(buf)@);
                return Err(e);
            },
        }
        append(buf, self.comment.as_slice());
        assert(buf@ =~= old(buf)@ + aprs_position_bytes(self@)->Ok_0);
        Ok(())
    }
}

} // verus!
