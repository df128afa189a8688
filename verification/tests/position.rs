use aprs_parser::compression_type::{GpsFix, NmeaSource, Origin};
use aprs_parser::{
    AprsAltitude, AprsCompressedCs, AprsCompressionType, AprsCourseSpeed, AprsCst, AprsPosition,
    AprsRadioRange, Callsign, DecodeError, EncodeError, Latitude, Longitude, Position, Precision,
    Timestamp,
};

const UNITS_PER_DEGREE: f64 = 1_142_778_000.0;

fn latitude(p: &AprsPosition) -> f64 {
    p.position.latitude.units() as f64 / UNITS_PER_DEGREE
}

fn longitude(p: &AprsPosition) -> f64 {
    p.position.longitude.units() as f64 / UNITS_PER_DEGREE
}

fn close(a: f64, b: f64) -> bool {
    approx::Relative::default().eq(&a, &b)
}

// the course and speed with a speed in knots
fn course_speed(course_degrees: u16, speed_knots: f64) -> AprsCourseSpeed {
    AprsCourseSpeed::new(
        course_degrees,
        ((speed_knots + 1.0).ln() / 1.08_f64.ln()).round() as u8,
    )
}

// the radio range in miles
fn radio_range(range_miles: f64) -> AprsRadioRange {
    AprsRadioRange::new(((range_miles / 2.0).ln() / 1.08_f64.ln()).round() as u8)
}

// the altitude in feet
fn altitude(altitude_feet: f64) -> AprsAltitude {
    AprsAltitude::new((altitude_feet.ln() / 1.002_f64.ln()).round() as u16)
}

fn default_callsign() -> Callsign {
    Callsign::new_no_ssid("VE9")
}

#[test]
fn parse_compressed_without_timestamp_or_messaging() {
    let result = AprsPosition::decode(&b"!/ABCD#$%^- >C"[..], default_callsign()).unwrap();

    assert_eq!(result.to, default_callsign());
    assert_eq!(result.timestamp, None);
    assert!(!result.messaging_supported);
    assert!(close(latitude(&result), 25.97004667573229));
    assert!(close(longitude(&result), -171.95429033460567));
    assert_eq!(result.position.symbol_table, '/');
    assert_eq!(result.position.symbol_code, '-');
    assert_eq!(result.comment, []);
    assert_eq!(result.position.cst, AprsCst::CompressedNone);
}

#[test]
fn parse_compressed_with_comment() {
    let result =
        AprsPosition::decode(&b"!/ABCD#$%^-X>DHello/A=001000"[..], default_callsign()).unwrap();

    assert_eq!(result.to, default_callsign());
    assert_eq!(result.timestamp, None);
    assert!(close(latitude(&result), 25.97004667573229));
    assert!(close(longitude(&result), -171.95429033460567));
    assert_eq!(result.position.symbol_table, '/');
    assert_eq!(result.position.symbol_code, '-');
    assert_eq!(result.comment, b"Hello/A=001000");
    assert_eq!(
        result.position.cst,
        AprsCst::CompressedSome {
            cs: AprsCompressedCs::CourseSpeed(course_speed(220, 8.317274897290226,)),
            t: AprsCompressionType {
                gps_fix: GpsFix::Current,
                nmea_source: NmeaSource::Other,
                origin: Origin::Tbd,
            }
        }
    );
}

#[test]
fn parse_compressed_with_timestamp_without_messaging() {
    let result = AprsPosition::decode(
        &br"/074849h\ABCD#$%^^{?C322/103/A=003054"[..],
        default_callsign(),
    )
    .unwrap();

    assert_eq!(result.timestamp, Some(Timestamp::HHMMSS(7, 48, 49)));
    assert!(!result.messaging_supported);
    assert!(close(latitude(&result), 25.97004667573229));
    assert!(close(longitude(&result), -171.95429033460567));
    assert_eq!(result.position.symbol_table, '\\');
    assert_eq!(result.position.symbol_code, '^');
    assert_eq!(result.comment, b"322/103/A=003054");
    assert_eq!(
        result.position.cst,
        AprsCst::CompressedSome {
            cs: AprsCompressedCs::RadioRange(radio_range(20.12531377814689)),
            t: AprsCompressionType {
                gps_fix: GpsFix::Current,
                nmea_source: NmeaSource::Other,
                origin: Origin::Software,
            }
        }
    );
}

#[test]
fn parse_compressed_without_timestamp_with_messaging() {
    let result = AprsPosition::decode(&b"=/ABCD#$%^-S]1"[..], default_callsign()).unwrap();

    assert_eq!(result.to, default_callsign());
    assert_eq!(result.timestamp, None);
    assert!(result.messaging_supported);
    assert!(close(latitude(&result), 25.97004667573229));
    assert!(close(longitude(&result), -171.95429033460567));
    assert_eq!(result.position.symbol_table, '/');
    assert_eq!(result.position.symbol_code, '-');
    assert_eq!(result.comment, []);
    assert_eq!(
        result.position.cst,
        AprsCst::CompressedSome {
            cs: AprsCompressedCs::Altitude(altitude(10004.520050700292)),
            t: AprsCompressionType {
                gps_fix: GpsFix::Old,
                nmea_source: NmeaSource::Gga,
                origin: Origin::Compressed,
            }
        }
    );
}

#[test]
fn parse_compressed_with_timestamp_and_messaging() {
    let result = AprsPosition::decode(
        &br"@074849h\ABCD#$%^^ >C322/103/A=003054"[..],
        default_callsign(),
    )
    .unwrap();

    assert_eq!(result.to, default_callsign());
    assert_eq!(result.timestamp, Some(Timestamp::HHMMSS(7, 48, 49)));
    assert!(result.messaging_supported);
    assert!(close(latitude(&result), 25.97004667573229));
    assert!(close(longitude(&result), -171.95429033460567));
    assert_eq!(result.position.symbol_table, '\\');
    assert_eq!(result.position.symbol_code, '^');
    assert_eq!(result.comment, b"322/103/A=003054");
    assert_eq!(result.position.cst, AprsCst::CompressedNone);
}

#[test]
fn parse_without_timestamp_or_messaging() {
    let result =
        AprsPosition::decode(&b"!4903.50N/07201.75W-"[..], default_callsign()).unwrap();

    assert_eq!(result.to, default_callsign());
    assert_eq!(result.timestamp, None);
    assert!(!result.messaging_supported);
    assert!(close(latitude(&result), 49.05833333333333));
    assert!(close(longitude(&result), -72.02916666666667));
    assert_eq!(result.position.symbol_table, '/');
    assert_eq!(result.position.symbol_code, '-');
    assert_eq!(result.comment, []);
    assert_eq!(result.position.cst, AprsCst::Uncompressed);
}

#[test]
fn parse_with_comment() {
    let result = AprsPosition::decode(
        &b"!4903.5 N/07201.75W-Hello/A=001000"[..],
        default_callsign(),
    )
    .unwrap();

    assert_eq!(result.to, default_callsign());
    assert_eq!(result.timestamp, None);
    assert!(close(latitude(&result), 49.05833333333333));
    assert!(close(longitude(&result), -72.02833333333334));
    assert_eq!(Precision::TenthMinute, result.position.precision);
    // half the width of the precision to either side
    let half = result.position.precision.width_units() as f64 / UNITS_PER_DEGREE / 2.0;
    assert!(close(49.0575, latitude(&result) - half));
    assert!(close(49.05916666666666, latitude(&result) + half));
    assert!(close(-72.02916666666667, longitude(&result) - half));
    assert!(close(-72.0275, longitude(&result) + half));
    assert_eq!(result.position.symbol_table, '/');
    assert_eq!(result.position.symbol_code, '-');
    assert_eq!(result.comment, b"Hello/A=001000");
    assert_eq!(result.position.cst, AprsCst::Uncompressed);
}

#[test]
fn parse_with_timestamp_without_messaging() {
    let result = AprsPosition::decode(
        &br"/074849h4821.61N\01224.49E^322/103/A=003054"[..],
        default_callsign(),
    )
    .unwrap();

    assert_eq!(result.to, default_callsign());
    assert_eq!(result.timestamp, Some(Timestamp::HHMMSS(7, 48, 49)));
    assert!(!result.messaging_supported);
    assert!(close(latitude(&result), 48.36016666666667));
    assert!(close(longitude(&result), 12.408166666666666));
    assert_eq!(result.position.symbol_table, '\\');
    assert_eq!(result.position.symbol_code, '^');
    assert_eq!(result.comment, b"322/103/A=003054");
    assert_eq!(result.position.cst, AprsCst::Uncompressed);
}

#[test]
fn parse_without_timestamp_with_messaging() {
    let result =
        AprsPosition::decode(&b"=4903.50N/07201.75W-"[..], default_callsign()).unwrap();

    assert_eq!(result.to, default_callsign());
    assert_eq!(result.timestamp, None);
    assert!(result.messaging_supported);
    assert!(close(latitude(&result), 49.05833333333333));
    assert!(close(longitude(&result), -72.02916666666667));
    assert_eq!(result.position.symbol_table, '/');
    assert_eq!(result.position.symbol_code, '-');
    assert_eq!(result.comment, []);
    assert_eq!(result.position.cst, AprsCst::Uncompressed);
}

#[test]
fn parse_with_timestamp_and_messaging() {
    let result = AprsPosition::decode(
        &br"@074849h4821.61N\01224.49E^322/103/A=003054"[..],
        default_callsign(),
    )
    .unwrap();

    assert_eq!(result.to, default_callsign());
    assert_eq!(result.timestamp, Some(Timestamp::HHMMSS(7, 48, 49)));
    assert!(result.messaging_supported);
    assert!(close(latitude(&result), 48.36016666666667));
    assert!(close(longitude(&result), 12.408166666666666));
    assert_eq!(result.position.symbol_table, '\\');
    assert_eq!(result.position.symbol_code, '^');
    assert_eq!(result.comment, b"322/103/A=003054");
    assert_eq!(result.position.cst, AprsCst::Uncompressed);
}

#[test]
fn parse_and_reencode_positions() {
    let positions = vec![
        &b"!/ABCD#$%^- sT"[..],
        &b"!/ABCD#$%^-A>CHello/A=001000"[..],
        &b"/074849h/ABCD#$%^-{>C322/103/A=001000"[..],
        &b"=/ABCD#$%^-2>1"[..],
        &b"@074849h/ABCD#$%^- sT"[..],
        &b"!4903.50N/07201.75W-"[..],
        &b"!4903.50N/07201.75W-Hello/A=001000"[..],
        &br"/074849h4821.61N\01224.49E^322/103/A=003054"[..],
        &b"=4903.50N/07201.75W-"[..],
        &br"@074849h4821.61N\01224.49E^322/103/A=003054"[..],
        &br"@074849h4821.  N\01224.00E^322/103/A=003054"[..],
    ];

    for p in positions {
        let pos = AprsPosition::decode(p, default_callsign()).unwrap();
        let mut buf = vec![];
        pos.encode(&mut buf).unwrap();

        assert_eq!(
            p,
            buf,
            "Expected '{}', got '{}'",
            String::from_utf8_lossy(p),
            String::from_utf8_lossy(&buf)
        );
    }
}

#[test]
fn short_positions_are_refused() {
    assert_eq!(
        Err(DecodeError::InvalidPosition(vec![])),
        AprsPosition::decode(&b""[..], default_callsign())
    );
    assert_eq!(
        Err(DecodeError::InvalidPosition(b"/074849".to_vec())),
        AprsPosition::decode(&b"/074849"[..], default_callsign())
    );
    assert_eq!(
        Err(DecodeError::InvalidTimestamp(b"07a849h".to_vec())),
        AprsPosition::decode(&b"/07a849h4821.61N\\01224.49E^"[..], default_callsign())
    );
    assert_eq!(
        Err(DecodeError::InvalidPosition(b"4903.50N/07201.75W".to_vec())),
        AprsPosition::decode(&b"!4903.50N/07201.75W"[..], default_callsign())
    );
    assert_eq!(
        Err(DecodeError::InvalidPosition(b"/ABCD#$%^- >".to_vec())),
        AprsPosition::decode(&b"!/ABCD#$%^- >"[..], default_callsign())
    );
    assert_eq!(
        Err(DecodeError::InvalidPosition(vec![])),
        AprsPosition::decode(&b"!"[..], default_callsign())
    );
}

#[test]
fn position_errors_name_the_part() {
    assert_eq!(
        Err(DecodeError::InvalidLatitude(b"4903.50X".to_vec())),
        Position::decode(b"4903.50X/07201.75W-")
    );
    assert_eq!(
        Err(DecodeError::InvalidLongitude(b"07201.75X".to_vec())),
        Position::decode(b"4903.50N/07201.75X-")
    );
    assert_eq!(
        Err(DecodeError::InvalidLatitude(b"AB D".to_vec())),
        Position::decode(b"/AB D#$%^- >C")
    );
    assert_eq!(
        Err(DecodeError::InvalidLongitude(b"#$ ^".to_vec())),
        Position::decode(b"/ABCD#$ ^- >C")
    );
    assert_eq!(
        Err(DecodeError::InvalidCs([b'|', b'>'])),
        Position::decode(b"/ABCD#$%^-|>C")
    );
    assert_eq!(
        Err(DecodeError::InvalidPosition(b"/ABCD#$%^-A> ".to_vec())),
        Position::decode(b"/ABCD#$%^-A> ")
    );
}

#[test]
fn compressed_encoding_can_fail() {
    let mut p = Position::decode(b"/ABCD#$%^-S]1").unwrap();
    p.cst = AprsCst::CompressedSome {
        cs: AprsCompressedCs::Altitude(AprsAltitude::new(4610)),
        t: AprsCompressionType {
            gps_fix: GpsFix::Old,
            nmea_source: NmeaSource::Rmc,
            origin: Origin::Compressed,
        },
    };
    let report = AprsPosition {
        to: default_callsign(),
        timestamp: Some(Timestamp::DDHHMM(1, 2, 3)),
        messaging_supported: true,
        position: p,
        comment: b"c".to_vec(),
    };
    let mut buf = b"keep".to_vec();
    assert!(matches!(report.encode(&mut buf), Err(EncodeError::NonGgaAltitude)));
    assert_eq!(b"keep".to_vec(), buf);
}

#[test]
fn position_in_either_form() {
    let p = Position {
        latitude: Latitude::from_dmh(49, 30, 0, true).unwrap(),
        longitude: Longitude::from_dmh(72, 45, 0, false).unwrap(),
        precision: Precision::HundredthMinute,
        symbol_table: '/',
        symbol_code: '>',
        cst: AprsCst::Uncompressed,
    };
    let mut buf = vec![];
    p.encode(&mut buf).unwrap();
    assert_eq!(b"4930.00N/07245.00W>".to_vec(), buf);
    assert_eq!(19, p.encoded_len());
    let mut buf = vec![];
    p.encode_compressed(&mut buf).unwrap();
    // 107.25 degrees east of 180 west are 20427156.75 steps
    assert_eq!(b"/5L!!<*e8> sT".to_vec(), buf);
    let back = Position::decode(&buf).unwrap();
    assert_eq!(AprsCst::CompressedNone, back.cst);
    assert_eq!(p.latitude, back.latitude);
    assert_eq!(p.longitude.units() + 1_500, back.longitude.units());
}
