use aprs_parser::compression_type::{GpsFix, NmeaSource, Origin};
use aprs_parser::{
    AprsAltitude, AprsCompressedCs, AprsCompressionType, AprsCourseSpeed, AprsRadioRange,
    DecodeError, EncodeError,
};

#[test]
fn compression_type_encode_works() {
    let byte: u8 = 0b00111010;
    let expected = AprsCompressionType {
        gps_fix: GpsFix::Current,
        nmea_source: NmeaSource::Rmc,
        origin: Origin::Software,
    };

    assert_eq!(expected, byte.into());
}

#[test]
fn compression_type_decode_works() {
    let expected: u8 = 0b00111010;
    let ctype = AprsCompressionType {
        gps_fix: GpsFix::Current,
        nmea_source: NmeaSource::Rmc,
        origin: Origin::Software,
    };

    assert_eq!(expected, ctype.into());
}

#[test]
fn compression_type_round_trip() {
    for byte in 0..=255u8 {
        let t = AprsCompressionType::from_byte(byte);
        assert_eq!(byte % 64, t.to_byte());
        assert_eq!(t, AprsCompressionType::from_byte(t.to_byte()));
    }
    let t = AprsCompressionType::from_byte(0b010_0101);
    assert_eq!(GpsFix::Current, t.gps_fix);
    assert_eq!(NmeaSource::Other, t.nmea_source);
    assert_eq!(Origin::Pico, t.origin);
    let t = AprsCompressionType::from_byte(0b001_0111);
    assert_eq!(GpsFix::Old, t.gps_fix);
    assert_eq!(NmeaSource::Gga, t.nmea_source);
    assert_eq!(Origin::Digipeater, t.origin);
    let t = AprsCompressionType::from_byte(0b000_1100);
    assert_eq!(NmeaSource::Gll, t.nmea_source);
    assert_eq!(Origin::Kpc3, t.origin);
}

#[test]
fn course_speed_exhaustive() {
    for c in 0..91 {
        for s in 0..91 {
            let val = AprsCourseSpeed::from_cs(c, s);

            assert_eq!((c, s), val.to_cs());
        }
    }
}

#[test]
fn radio_range_exhaustive() {
    for s in 0..91 {
        let val = AprsRadioRange::from_s(s);

        assert_eq!(s, val.to_s());
    }
}

#[test]
fn altitude_exhaustive() {
    for c in 0..91 {
        for s in 0..91 {
            let val = AprsAltitude::from_cs(c, s);

            assert_eq!((c, s), val.to_cs());
        }
    }
}

#[test]
fn exponents_are_what_the_wire_holds() {
    // 1.08^29 - 1 knots at 220 degrees
    let cs = AprsCourseSpeed::from_cs(55, 29);
    assert_eq!(220, cs.course_degrees());
    assert_eq!(29, cs.speed_exponent());
    let knots = 1.08_f64.powi(cs.speed_exponent() as i32) - 1.0;
    assert!(approx::Relative::default().max_relative(1e-12).eq(&knots, &8.317274897290226));

    // 2 * 1.08^30 miles
    let rr = AprsRadioRange::from_s(30);
    let miles = 2.0 * 1.08_f64.powi(rr.range_exponent() as i32);
    assert!(approx::Relative::default().max_relative(1e-12).eq(&miles, &20.12531377814689));

    // 1.002^(50 * 91 + 60) feet
    let a = AprsAltitude::from_cs(50, 60);
    assert_eq!(4610, a.altitude_exponent());
    let feet = 1.002_f64.powi(a.altitude_exponent() as i32);
    assert!(approx::Relative::default().max_relative(1e-12).eq(&feet, &10004.520050700292));
}

fn gga() -> AprsCompressionType {
    AprsCompressionType {
        gps_fix: GpsFix::Old,
        nmea_source: NmeaSource::Gga,
        origin: Origin::Compressed,
    }
}

fn other() -> AprsCompressionType {
    AprsCompressionType {
        gps_fix: GpsFix::Current,
        nmea_source: NmeaSource::Other,
        origin: Origin::Tbd,
    }
}

#[test]
fn cs_parse_picks_the_kind() {
    assert_eq!(
        Ok(AprsCompressedCs::CourseSpeed(AprsCourseSpeed::new(220, 29))),
        AprsCompressedCs::parse(b'X', b'>', other())
    );
    assert_eq!(
        Ok(AprsCompressedCs::RadioRange(AprsRadioRange::new(30))),
        AprsCompressedCs::parse(b'{', b'?', other())
    );
    assert_eq!(
        Ok(AprsCompressedCs::Altitude(AprsAltitude::new(4610))),
        AprsCompressedCs::parse(b'S', b']', gga())
    );
    assert_eq!(
        Err(DecodeError::InvalidCs([b'|', b'?'])),
        AprsCompressedCs::parse(b'|', b'?', other())
    );
    assert_eq!(
        Err(DecodeError::InvalidCs([b'X', 32])),
        AprsCompressedCs::parse(b'X', 32, other())
    );
    assert_eq!(
        Err(DecodeError::InvalidCs([10, b'X'])),
        AprsCompressedCs::parse(10, b'X', gga())
    );
}

#[test]
fn cs_encode_writes_three_bytes() {
    let mut buf = b"-".to_vec();
    AprsCompressedCs::CourseSpeed(AprsCourseSpeed::new(220, 29))
        .encode(&mut buf, other())
        .unwrap();
    assert_eq!(b"-X>D".to_vec(), buf);

    let mut buf = vec![];
    AprsCompressedCs::RadioRange(AprsRadioRange::new(30))
        .encode(&mut buf, other())
        .unwrap();
    assert_eq!(b"{?D".to_vec(), buf);

    let mut buf = vec![];
    AprsCompressedCs::Altitude(AprsAltitude::new(4610))
        .encode(&mut buf, gga())
        .unwrap();
    assert_eq!(b"S]1".to_vec(), buf);
}

#[test]
fn cs_encode_errors() {
    let mut buf = b"keep".to_vec();
    assert!(matches!(
        AprsCompressedCs::Altitude(AprsAltitude::new(4610)).encode(&mut buf, other()),
        Err(EncodeError::NonGgaAltitude)
    ));
    assert!(matches!(
        AprsCompressedCs::CourseSpeed(AprsCourseSpeed::new(0, 223)).encode(&mut buf, other()),
        Err(EncodeError::InvalidData)
    ));
    assert!(matches!(
        AprsCompressedCs::RadioRange(AprsRadioRange::new(255)).encode(&mut buf, gga()),
        Err(EncodeError::InvalidData)
    ));
    assert!(matches!(
        AprsCompressedCs::Altitude(AprsAltitude::new(223 * 91)).encode(&mut buf, gga()),
        Err(EncodeError::InvalidData)
    ));
    assert_eq!(b"keep".to_vec(), buf);
}

#[test]
fn fields_and_their_bits() {
    assert_eq!(GpsFix::Current, true.into());
    assert_eq!(GpsFix::Old, false.into());
    assert!(bool::from(GpsFix::Current));
    assert!(!bool::from(GpsFix::Old));
    let sources = [NmeaSource::Other, NmeaSource::Gll, NmeaSource::Gga, NmeaSource::Rmc];
    for (i, s) in sources.iter().enumerate() {
        let bits = (i & 2 != 0, i & 1 != 0);
        assert_eq!(*s, NmeaSource::from(bits));
        assert_eq!(bits, <(bool, bool)>::from(*s));
    }
    let origins = [
        Origin::Compressed, Origin::TncBText, Origin::Software, Origin::Tbd, Origin::Kpc3,
        Origin::Pico, Origin::Other, Origin::Digipeater,
    ];
    for (i, o) in origins.iter().enumerate() {
        let bits = (i & 4 != 0, i & 2 != 0, i & 1 != 0);
        assert_eq!(*o, Origin::from(bits));
        assert_eq!(bits, <(bool, bool, bool)>::from(*o));
    }
}

#[test]
fn exponents_and_floats_agree() {
    // the speed, range and altitude of every pair of digits, as floating-point
    // numbers, lead back to the exponent that the digits hold
    for c in 0..91u8 {
        for s in 0..91u8 {
            let cs = AprsCourseSpeed::from_cs(c, s);
            let knots = 1.08_f64.powi(cs.speed_exponent() as i32) - 1.0;
            assert_eq!(s, ((knots + 1.0).ln() / 1.08_f64.ln()).round() as u8);
            assert_eq!(c as u16 * 4, cs.course_degrees());

            let a = AprsAltitude::from_cs(c, s);
            let feet = 1.002_f64.powi(a.altitude_exponent() as i32);
            let exponent = (feet.ln() / 1.002_f64.ln()).round() as i32;
            assert_eq!((c, s), ((exponent / 91) as u8, (exponent % 91) as u8));
        }
    }
    for s in 0..91u8 {
        let rr = AprsRadioRange::from_s(s);
        let miles = 2.0 * 1.08_f64.powi(rr.range_exponent() as i32);
        assert_eq!(s, ((miles / 2.0).ln() / 1.08_f64.ln()).round() as u8);
    }
}
