use aprs_parser::{AprsPacket, DecodeError, Directivity, EncodeError, Extension};

#[test]
fn test_parse_course_speed() {
    let cse_speed = b"080/043";

    let ext = Extension::decode(cse_speed).unwrap();

    assert!(matches!(
        ext,
        Extension::DirectionSpeed {
            direction_degrees: 80,
            speed_knots: 43
        }
    ));
}

#[test]
fn test_parse_phg() {
    let cse_speed = b"PHG5132";

    let ext = Extension::decode(cse_speed).unwrap();

    assert!(matches!(
        ext,
        Extension::PowerHeightGainDirectivity {
            power_watts: 25,
            antenna_height_feet: 20,
            antenna_gain_db: 3,
            antenna_directivity: Directivity::DirectionDegrees(90)
        }
    ));
    let mut buf = Vec::new();

    ext.encode(&mut buf).unwrap();

    assert_eq!(buf, cse_speed);
}

#[test]
fn test_parse_phg_extended_height() {
    let cse_speed = b"PHG5;32";

    let ext = Extension::decode(cse_speed).unwrap();

    assert!(matches!(
        ext,
        Extension::PowerHeightGainDirectivity {
            power_watts: 25,
            antenna_height_feet: 20480,
            antenna_gain_db: 3,
            antenna_directivity: Directivity::DirectionDegrees(90)
        }
    ));

    let mut buf = Vec::new();

    ext.encode(&mut buf).unwrap();

    assert_eq!(buf, cse_speed);
}

#[test]
fn test_parse_phg_absurd_height2() {
    let phg = br"PHG5L32";

    let phg = Extension::decode(phg).unwrap();
    assert!(matches!(
        phg,
        Extension::PowerHeightGainDirectivity {
            power_watts: 25,
            antenna_height_feet: 2684354560, // wow
            antenna_gain_db: 3,
            antenna_directivity: Directivity::DirectionDegrees(90)
        }
    ));
}

#[test]
fn test_parse_phg_absurd_height3() {
    let phg = br"DFS8L32";

    let phg = Extension::decode(phg).unwrap();
    assert!(matches!(
        phg,
        Extension::DFStrengthHeightGainDirectivity {
            s_points: 8,
            antenna_height_feet: 2684354560, // wow
            antenna_gain_db: 3,
            antenna_directivity: Directivity::DirectionDegrees(90)
        }
    ));
}

#[test]
fn test_parse_phg_max_height() {
    let phg = br"PHG5\xcb32";

    assert!(Extension::decode(phg).is_err());
}

#[test]
fn test_parse_rng() {
    let cse_speed = b"RNG2345";

    let ext = Extension::decode(cse_speed).unwrap();

    assert!(matches!(
        ext,
        Extension::RadioRange {
            radio_range_miles: 2345
        }
    ));

    let mut buf = Vec::new();

    ext.encode(&mut buf).unwrap();

    assert_eq!(buf, cse_speed);
}

#[test]
fn test_parse_bad_phg() {
    let ext = Extension::PowerHeightGainDirectivity {
        power_watts: 1000,
        antenna_height_feet: 0,
        antenna_gain_db: 255,
        antenna_directivity: Directivity::Omni,
    };
    let mut buf = Vec::new();

    assert!(ext.encode(&mut buf).is_err())
}

#[test]
fn test_absurd_values1() {
    let raw_packet = [
        125, 13, 0, 0, 0, 5, 0, 0, 0, 0, 0, 1, 104, 1, 0, 0, 62, 0, 1, 1, 10, 4, 6, 0, 0, 0, 0,
        0, 0, 0, 0, 0, 0, 0, 0, 0, 0, 50, 58, 59, 18, 74, 146, 36, 73, 146, 36, 73, 2, 42, 50,
        50, 50, 50, 50, 50, 72, 51, 32, 32, 32, 46, 32, 32, 78, 58, 49, 55, 177, 52, 50, 46,
        51, 48, 87, 148, 80, 72, 71, 52, 203, 52, 52, 52, 52, 52, 52, 52, 52, 52, 52, 52, 52,
        52, 52, 52, 52, 52, 52, 52, 52, 52, 52, 52, 52, 52, 52, 52, 52, 52, 52, 52, 52, 52, 52,
        52, 52, 52, 52, 52, 52, 52, 52, 52, 52, 52, 52, 52, 52, 52, 52, 52, 52, 52, 52, 52, 52,
        52, 52, 52, 52, 52, 52, 52, 52, 52, 52, 52, 52, 52, 52, 52, 52, 52, 52, 52, 52, 52, 52,
        52, 52, 52, 52, 52, 52, 52, 52, 52, 52, 52, 52, 52, 52, 52, 52, 52, 52, 52, 52, 52, 52,
        0, 0, 0, 0, 0, 0, 0, 6, 52, 52, 52, 52, 52, 52, 52, 52, 52, 52, 52,
    ];
    let _packet = AprsPacket::decode_textual(&raw_packet).unwrap();
}

fn encoded(e: Extension) -> Result<Vec<u8>, EncodeError> {
    let mut buf = b"<".to_vec();
    e.encode(&mut buf)?;
    Ok(buf)
}

#[test]
fn each_kind_is_written_with_leading_zeros() {
    assert_eq!(
        b"<007/012".to_vec(),
        encoded(Extension::DirectionSpeed { direction_degrees: 7, speed_knots: 12 }).unwrap()
    );
    assert_eq!(
        b"<RNG0050".to_vec(),
        encoded(Extension::RadioRange { radio_range_miles: 50 }).unwrap()
    );
    assert_eq!(
        b"<T05/C99".to_vec(),
        encoded(Extension::AreaObjectDescriptor { object_type: 5, color: 99 }).unwrap()
    );
    assert_eq!(
        b"<DFS2360".to_vec(),
        encoded(Extension::DFStrengthHeightGainDirectivity {
            s_points: 2,
            antenna_height_feet: 80,
            antenna_gain_db: 6,
            antenna_directivity: Directivity::Omni,
        })
        .unwrap()
    );
    assert_eq!(
        b"<PHG9L99".to_vec(),
        encoded(Extension::PowerHeightGainDirectivity {
            power_watts: 81,
            antenna_height_feet: 2684354560,
            antenna_gain_db: 9,
            antenna_directivity: Directivity::DirectionDegrees(405),
        })
        .unwrap()
    );
}

#[test]
fn what_would_not_come_back_is_refused() {
    let bad = [
        Extension::DirectionSpeed { direction_degrees: 1000, speed_knots: 0 },
        Extension::DirectionSpeed { direction_degrees: 0, speed_knots: 1000 },
        Extension::RadioRange { radio_range_miles: 10000 },
        Extension::AreaObjectDescriptor { object_type: 100, color: 0 },
        Extension::AreaObjectDescriptor { object_type: 0, color: 100 },
        Extension::PowerHeightGainDirectivity {
            power_watts: 26,
            antenna_height_feet: 20,
            antenna_gain_db: 3,
            antenna_directivity: Directivity::Omni,
        },
        Extension::PowerHeightGainDirectivity {
            power_watts: 25,
            antenna_height_feet: 30,
            antenna_gain_db: 3,
            antenna_directivity: Directivity::Omni,
        },
        Extension::PowerHeightGainDirectivity {
            power_watts: 25,
            antenna_height_feet: 20,
            antenna_gain_db: 10,
            antenna_directivity: Directivity::Omni,
        },
        Extension::PowerHeightGainDirectivity {
            power_watts: 25,
            antenna_height_feet: 20,
            antenna_gain_db: 3,
            antenna_directivity: Directivity::DirectionDegrees(50),
        },
        Extension::PowerHeightGainDirectivity {
            power_watts: 25,
            antenna_height_feet: 20,
            antenna_gain_db: 3,
            antenna_directivity: Directivity::DirectionDegrees(0),
        },
        Extension::DFStrengthHeightGainDirectivity {
            s_points: 10,
            antenna_height_feet: 20,
            antenna_gain_db: 3,
            antenna_directivity: Directivity::Omni,
        },
    ];
    for e in bad {
        let mut buf = b"keep".to_vec();
        assert!(matches!(e.encode(&mut buf), Err(EncodeError::InvalidExtension(x)) if x == e));
        assert_eq!(b"keep".to_vec(), buf);
    }
}

#[test]
fn what_is_written_comes_back() {
    for code in 0..10u8 {
        for h in [0u32, 1, 9, 10, 28] {
            let e = Extension::PowerHeightGainDirectivity {
                power_watts: (code as u16) * (code as u16),
                antenna_height_feet: 10 << h,
                antenna_gain_db: code,
                antenna_directivity: Directivity::from_code(code).unwrap(),
            };
            let bytes = encoded(e).unwrap();
            assert_eq!(Ok(e), Extension::decode(&bytes[1..]));
        }
    }
    for n in [0u16, 1, 9, 10, 99, 100, 999] {
        let e = Extension::DirectionSpeed { direction_degrees: n, speed_knots: 999 - n };
        assert_eq!(Ok(e), Extension::decode(&encoded(e).unwrap()[1..]));
    }
}

#[test]
fn each_kind_has_its_error() {
    assert_eq!(
        Err(DecodeError::InvalidExtension(b"RNG123".to_vec())),
        Extension::decode(b"RNG123")
    );
    assert_eq!(
        Err(DecodeError::InvalidExtensionRange(b"RNG12x4".to_vec())),
        Extension::decode(b"RNG12x4")
    );
    assert_eq!(
        Err(DecodeError::InvalidExtensionPhg(b"PHG51a2".to_vec())),
        Extension::decode(b"PHG51a2")
    );
    assert_eq!(
        Err(DecodeError::InvalidExtensionPhg(b"PHG5M32".to_vec())),
        Extension::decode(b"PHG5M32")
    );
    assert_eq!(
        Err(DecodeError::InvalidExtensionDfs(b"DFSx132".to_vec())),
        Extension::decode(b"DFSx132")
    );
    assert_eq!(
        Err(DecodeError::InvalidExtensionArea(b"T1x/C12".to_vec())),
        Extension::decode(b"T1x/C12")
    );
    assert_eq!(
        Err(DecodeError::InvalidExtensionDirectionSpeed(b"0801043".to_vec())),
        Extension::decode(b"0801043")
    );
    assert_eq!(
        Err(DecodeError::InvalidExtensionDirectionSpeed(b"08x/043".to_vec())),
        Extension::decode(b"08x/043")
    );
}

#[test]
fn speed_has_three_digits() {
    assert_eq!(
        Ok(Extension::DirectionSpeed { direction_degrees: 80, speed_knots: 143 }),
        Extension::decode(b"080/143rest")
    );
    assert_eq!(
        Ok(Extension::AreaObjectDescriptor { object_type: 12, color: 34 }),
        Extension::decode(b"T12/C34")
    );
}

#[test]
fn directivity_codes() {
    assert_eq!(Some(Directivity::Omni), Directivity::from_code(0));
    assert_eq!(Some(Directivity::DirectionDegrees(45)), Directivity::from_code(1));
    assert_eq!(Some(Directivity::DirectionDegrees(360)), Directivity::from_code(8));
    assert_eq!(Some(Directivity::DirectionDegrees(405)), Directivity::from_code(9));
    assert_eq!(None, Directivity::from_code(10));
    assert_eq!(Some(8), Directivity::DirectionDegrees(360).code());
    assert_eq!(Some(0), Directivity::Omni.code());
    assert_eq!(None, Directivity::DirectionDegrees(44).code());
    assert_eq!(None, Directivity::DirectionDegrees(450).code());
}
