use aprs_parser::{DecodeError, Latitude, Longitude, Precision};

const UNITS_PER_DEGREE: f64 = 1_142_778_000.0;

fn units(degrees: f64) -> i64 {
    (degrees * UNITS_PER_DEGREE).round() as i64
}

fn lat(degrees: f64) -> Latitude {
    Latitude::new(units(degrees)).unwrap()
}

fn lon(degrees: f64) -> Longitude {
    Longitude::new(units(degrees)).unwrap()
}

fn degrees(units: i64) -> f64 {
    units as f64 / UNITS_PER_DEGREE
}

fn close(a: f64, b: f64) -> bool {
    approx::Relative::default().eq(&a, &b)
}

#[test]
fn precision_e2e() {
    for i in 0..6 {
        assert_eq!(i, Precision::from_num_digits(i).unwrap().num_digits());
    }
}

#[test]
fn precision_has_six_steps() {
    assert_eq!(None, Precision::from_num_digits(6));
    assert_eq!(Some(Precision::HundredthMinute), Precision::from_num_digits(0));
    assert_eq!(Some(Precision::TenDegree), Precision::from_num_digits(5));
    assert_eq!(Precision::HundredthMinute, Precision::default());
    assert!(close(1.0 / 6000.0, degrees(Precision::HundredthMinute.width_units())));
    assert!(close(1.0 / 600.0, degrees(Precision::TenthMinute.width_units())));
    assert!(close(1.0 / 60.0, degrees(Precision::OneMinute.width_units())));
    assert!(close(1.0 / 6.0, degrees(Precision::TenMinute.width_units())));
    assert!(close(1.0, degrees(Precision::OneDegree.width_units())));
    assert!(close(10.0, degrees(Precision::TenDegree.width_units())));
}

#[test]
fn test_latitude_out_of_bounds() {
    assert_eq!(None, Latitude::new(units(90.1)));
    assert_eq!(None, Latitude::new(units(-90.1)));
}

#[test]
fn test_longitude_out_of_bounds() {
    assert_eq!(None, Latitude::new(units(180.1)));
    assert_eq!(None, Latitude::new(units(-180.1)));
    assert_eq!(None, Longitude::new(units(180.1)));
    assert_eq!(None, Longitude::new(units(-180.1)));
}

#[test]
fn bounds_are_allowed() {
    assert!(Latitude::new(units(90.0)).is_some());
    assert!(Latitude::new(units(-90.0)).is_some());
    assert!(Latitude::new(units(90.0) + 1).is_none());
    assert!(Longitude::new(units(180.0)).is_some());
    assert!(Longitude::new(units(-180.0)).is_some());
    assert!(Longitude::new(units(-180.0) - 1).is_none());
    assert_eq!(0, Latitude::default().units());
    assert_eq!(0, Longitude::default().units());
}

#[test]
fn lonlat_test_parse_uncompressed_latitude() {
    assert_eq!(
        Latitude::parse_uncompressed(&b"4903.50N"[..]).unwrap(),
        (lat(49.05833333333333), Precision::HundredthMinute)
    );
    assert_eq!(
        Latitude::parse_uncompressed(&b"4903.50S"[..]).unwrap(),
        (lat(-49.05833333333333), Precision::HundredthMinute)
    );
    assert_eq!(
        Latitude::parse_uncompressed(&b"4903.5 S"[..]).unwrap(),
        (lat(-49.05833333333333), Precision::TenthMinute)
    );
    assert_eq!(
        Latitude::parse_uncompressed(&b"4903.  S"[..]).unwrap(),
        (lat(-49.05), Precision::OneMinute)
    );
    assert_eq!(
        Latitude::parse_uncompressed(&b"490 .  S"[..]).unwrap(),
        (lat(-49.0), Precision::TenMinute)
    );
    assert_eq!(
        Latitude::parse_uncompressed(&b"4   .  S"[..]).unwrap(),
        (lat(-40.0), Precision::TenDegree)
    );
    assert_eq!(
        Latitude::parse_uncompressed(&b"    .  S"[..]),
        Err(DecodeError::InvalidLatitude(b"    .  S".to_vec()))
    );
    assert_eq!(
        Latitude::parse_uncompressed(&b"49 3.50W"[..]),
        Err(DecodeError::InvalidLatitude(b"49 3.50W".to_vec()))
    );
    assert_eq!(
        Latitude::parse_uncompressed(&b"490 .50W"[..]),
        Err(DecodeError::InvalidLatitude(b"490 .50W".to_vec()))
    );
    assert_eq!(
        Latitude::parse_uncompressed(&b"49  . 0W"[..]),
        Err(DecodeError::InvalidLatitude(b"49  . 0W".to_vec()))
    );
    assert_eq!(
        Latitude::parse_uncompressed(&b"4903.50W"[..]),
        Err(DecodeError::InvalidLatitude(b"4903.50W".to_vec()))
    );
    assert_eq!(
        Latitude::parse_uncompressed(&b"4903.50E"[..]),
        Err(DecodeError::InvalidLatitude(b"4903.50E".to_vec()))
    );
    assert_eq!(
        Latitude::parse_uncompressed(&b"9903.50N"[..]),
        Err(DecodeError::InvalidLatitude(b"9903.50N".to_vec()))
    );
    assert_eq!(
        Latitude::parse_uncompressed(&b"0000.00N"[..]).unwrap(),
        (lat(0.0), Precision::HundredthMinute)
    );
    assert_eq!(
        Latitude::parse_uncompressed(&b"0000.00S"[..]).unwrap(),
        (lat(0.0), Precision::HundredthMinute)
    );
}

#[test]
fn latitude_with_blanks_in_the_wrong_place() {
    for bad in ["49 3.  N", "4903. 0N", "490 .0 N", " 903.50N", "4903,50N", "4903.50n", "4903.50", "4903.500N"] {
        assert_eq!(
            Latitude::parse_uncompressed(bad.as_bytes()),
            Err(DecodeError::InvalidLatitude(bad.as_bytes().to_vec()))
        );
    }
    assert_eq!(
        Latitude::parse_uncompressed(&b"9000.00N"[..]).unwrap(),
        (lat(90.0), Precision::HundredthMinute)
    );
    assert_eq!(
        Latitude::parse_uncompressed(&b"9000.01N"[..]),
        Err(DecodeError::InvalidLatitude(b"9000.01N".to_vec()))
    );
}

#[test]
fn lonlat_test_parse_uncompressed_longitude() {
    assert!(close(
        degrees(Longitude::parse_uncompressed(&b"12903.50E"[..], Precision::default()).unwrap().units()),
        129.05833333333333
    ));
    assert!(close(
        degrees(Longitude::parse_uncompressed(&b"04903.50W"[..], Precision::default()).unwrap().units()),
        -49.05833333333333
    ));
    assert_eq!(
        Longitude::parse_uncompressed(&b"04903.50N"[..], Precision::default()),
        Err(DecodeError::InvalidLongitude(b"04903.50N".to_vec()))
    );
    assert_eq!(
        Longitude::parse_uncompressed(&b"04903.50S"[..], Precision::default()),
        Err(DecodeError::InvalidLongitude(b"04903.50S".to_vec()))
    );
    assert_eq!(
        Longitude::parse_uncompressed(&b"18903.50E"[..], Precision::default()),
        Err(DecodeError::InvalidLongitude(b"18903.50E".to_vec()))
    );
    assert!(close(
        degrees(Longitude::parse_uncompressed(&b"00000.00E"[..], Precision::default()).unwrap().units()),
        0.0
    ));
    assert!(close(
        degrees(Longitude::parse_uncompressed(&b"00000.00W"[..], Precision::default()).unwrap().units()),
        0.0
    ));
    assert!(close(
        degrees(Longitude::parse_uncompressed(&b"00000.ZZW"[..], Precision::OneMinute).unwrap().units()),
        0.0
    ));
    assert!(close(
        degrees(Longitude::parse_uncompressed(&b"00000.98W"[..], Precision::OneMinute).unwrap().units()),
        0.0
    ));
}

#[test]
fn longitude_takes_the_precision_of_the_latitude() {
    assert_eq!(
        Ok(lon(12.4)),
        Longitude::parse_uncompressed(&b"01224.49E"[..], Precision::OneMinute)
    );
    assert_eq!(
        Ok(Longitude::from_dmh(12, 20, 0, true).unwrap()),
        Longitude::parse_uncompressed(&b"01224.49E"[..], Precision::TenMinute)
    );
    assert_eq!(
        Ok(lon(12.0)),
        Longitude::parse_uncompressed(&b"01224.49E"[..], Precision::OneDegree)
    );
    assert_eq!(
        Ok(lon(-10.0)),
        Longitude::parse_uncompressed(&b"012  .  W"[..], Precision::TenDegree)
    );
    assert_eq!(
        Err(DecodeError::InvalidLongitude(b"012  .  W".to_vec())),
        Longitude::parse_uncompressed(&b"012  .  W"[..], Precision::TenMinute)
    );
    assert_eq!(
        Ok(lon(180.0)),
        Longitude::parse_uncompressed(&b"18000.00E"[..], Precision::HundredthMinute)
    );
}

#[test]
fn lonlat_test_encode_uncompressed_latitude() {
    let mut buf = vec![];
    lat(49.05833).encode_uncompressed(&mut buf, Precision::default());
    assert_eq!(buf, &b"4903.50N"[..]);

    let mut buf = vec![];
    lat(-49.05833).encode_uncompressed(&mut buf, Precision::default());
    assert_eq!(buf, &b"4903.50S"[..]);

    let mut buf = vec![];
    lat(0.0).encode_uncompressed(&mut buf, Precision::default());
    assert_eq!(buf, &b"0000.00N"[..]);

    let mut buf = vec![];
    lat(-49.05833).encode_uncompressed(&mut buf, Precision::OneMinute);
    assert_eq!(buf, &b"4903.  S"[..]);
}

#[test]
fn latitude_is_blanked_not_rounded() {
    let l = lat(49.0983);
    let expected = [
        (Precision::HundredthMinute, "4905.90N"),
        (Precision::TenthMinute, "4905.9 N"),
        (Precision::OneMinute, "4905.  N"),
        (Precision::TenMinute, "490 .  N"),
        (Precision::OneDegree, "49  .  N"),
        (Precision::TenDegree, "4   .  N"),
    ];
    for (p, text) in expected {
        let mut buf = vec![];
        l.encode_uncompressed(&mut buf, p);
        assert_eq!(text.as_bytes(), buf);
        assert_eq!(p, Latitude::parse_uncompressed(&buf).unwrap().1);
    }
}

#[test]
fn test_dmh_lat() {
    let lat = Latitude::new(units(11.99999999)).unwrap();
    assert_eq!((12, 0, 0, true), lat.dmh());

    let lat = Latitude::new(units(-11.99999999)).unwrap();
    assert_eq!((12, 0, 0, false), lat.dmh());

    let lat = Latitude::new(units(89.9999999)).unwrap();
    assert_eq!((90, 0, 0, true), lat.dmh());
}

#[test]
fn test_dmh_lon() {
    let lon = Longitude::new(units(33.9999999999)).unwrap();
    assert_eq!((34, 0, 0, true), lon.dmh());

    let lon = Longitude::new(units(-33.9999999999)).unwrap();
    assert_eq!((34, 0, 0, false), lon.dmh());

    let lon = Longitude::new(units(179.9999999)).unwrap();
    assert_eq!((180, 0, 0, true), lon.dmh());
}

#[test]
fn dmh_of_from_dmh() {
    for (d, m, h) in [(0, 0, 1), (0, 59, 99), (12, 0, 0), (48, 21, 61), (89, 59, 99), (90, 0, 0)] {
        for north in [true, false] {
            assert_eq!((d, m, h, north), Latitude::from_dmh(d, m, h, north).unwrap().dmh());
            assert_eq!((d, m, h, north), Longitude::from_dmh(d, m, h, north).unwrap().dmh());
        }
    }
    assert_eq!((180, 0, 0, false), Longitude::from_dmh(180, 0, 0, false).unwrap().dmh());
    // the equator and the prime meridian have one sign only
    assert_eq!((0, 0, 0, true), Latitude::from_dmh(0, 0, 0, false).unwrap().dmh());
    assert_eq!(None, Latitude::from_dmh(90, 0, 1, true));
    assert_eq!(None, Longitude::from_dmh(180, 0, 1, false));
    assert_eq!(None, Longitude::from_dmh(4294967295, 4294967295, 4294967295, false));
}

#[test]
fn dmh_rounds_to_the_nearest_hundredth() {
    // 190463 units are a hundredth of a minute
    assert_eq!((0, 0, 0, true), Latitude::new(95_231).unwrap().dmh());
    assert_eq!((0, 0, 1, true), Latitude::new(95_232).unwrap().dmh());
    assert_eq!((0, 0, 1, false), Latitude::new(-95_232).unwrap().dmh());
    assert_eq!((0, 1, 0, true), Latitude::new(19_046_300 - 95_231).unwrap().dmh());
    assert_eq!((0, 0, 99, true), Latitude::new(19_046_300 - 95_232).unwrap().dmh());
}

#[test]
fn lonlat_test_encode_uncompressed_longitude() {
    let mut buf = vec![];
    lon(129.05833).encode_uncompressed(&mut buf);
    assert_eq!(buf, &b"12903.50E"[..]);

    let mut buf = vec![];
    lon(-49.0583).encode_uncompressed(&mut buf);
    assert_eq!(buf, &b"04903.50W"[..]);

    let mut buf = vec![];
    lon(0.0).encode_uncompressed(&mut buf);
    assert_eq!(buf, &b"00000.00E"[..]);
}

#[test]
fn compressed_coordinates() {
    // 90 - 24390674 / 380926 and 1532410 / 190463 - 180
    let la = Latitude::parse_compressed(b"ABCD").unwrap();
    assert!(close(degrees(la.units()), 25.97004667573229));
    let lo = Longitude::parse_compressed(b"#$%^").unwrap();
    assert!(close(degrees(lo.units()), -171.95429033460567));
    let mut buf = vec![];
    la.encode_compressed(&mut buf);
    lo.encode_compressed(&mut buf);
    assert_eq!(b"ABCD#$%^".to_vec(), buf);

    assert_eq!(Ok(lat(90.0)), Latitude::parse_compressed(b"!!!!"));
    assert_eq!(Ok(lon(-180.0)), Longitude::parse_compressed(b"!!!!"));
    // 68566680 is the last step
    assert_eq!(Ok(lat(-90.0)), Latitude::parse_compressed(b"{{!!"));
    assert_eq!(Ok(lon(180.0)), Longitude::parse_compressed(b"{{!!"));
    assert_eq!(
        Err(DecodeError::InvalidLatitude(b"{{!\"".to_vec())),
        Latitude::parse_compressed(b"{{!\"")
    );
    assert_eq!(
        Err(DecodeError::InvalidLongitude(b"{{!\"".to_vec())),
        Longitude::parse_compressed(b"{{!\"")
    );
    assert_eq!(
        Err(DecodeError::InvalidLatitude(b"AB D".to_vec())),
        Latitude::parse_compressed(b"AB D")
    );
    assert_eq!(
        Err(DecodeError::InvalidLongitude(b"ABC".to_vec())),
        Longitude::parse_compressed(b"ABC")
    );
    assert_eq!(
        Err(DecodeError::InvalidLatitude(b"ABCDE".to_vec())),
        Latitude::parse_compressed(b"ABCDE")
    );
}

#[test]
fn compressed_encoding_rounds_to_the_nearest_step() {
    // a step of latitude is 3000 units, one of longitude 6000
    let mut buf = vec![];
    Latitude::new(units(90.0) - 1_499).unwrap().encode_compressed(&mut buf);
    assert_eq!(b"!!!!".to_vec(), buf);
    let mut buf = vec![];
    Latitude::new(units(90.0) - 1_500).unwrap().encode_compressed(&mut buf);
    assert_eq!(b"!!!\"".to_vec(), buf);
    let mut buf = vec![];
    Longitude::new(units(-180.0) + 2_999).unwrap().encode_compressed(&mut buf);
    assert_eq!(b"!!!!".to_vec(), buf);
    let mut buf = vec![];
    Longitude::new(units(-180.0) + 3_000).unwrap().encode_compressed(&mut buf);
    assert_eq!(b"!!!\"".to_vec(), buf);
    let mut buf = vec![];
    Latitude::new(units(-90.0)).unwrap().encode_compressed(&mut buf);
    Longitude::new(units(180.0)).unwrap().encode_compressed(&mut buf);
    assert_eq!(b"{{!!{{!!".to_vec(), buf);
}

// degrees, minutes and hundredths as floating-point arithmetic gives them
fn float_dmh(value: f64) -> (u32, u32, u32, bool) {
    let (dir, value) = if value >= 0.0 { (true, value) } else { (false, -value) };
    let mut deg = value as u32;
    let mut min = ((value - (deg as f64)) * 60.0) as u32;
    let mut hundredths = ((value - (deg as f64) - (min as f64 / 60.0)) * 6000.0).round() as u32;
    if hundredths == 100 {
        hundredths = 0;
        min += 1;
    }
    if min == 60 {
        min = 0;
        deg += 1;
    }
    (deg, min, hundredths, dir)
}

#[test]
fn exact_and_floating_point_agree() {
    // a sweep of coordinates that lie off the places where hundredths round
    let mut x = -89.9991234_f64;
    let mut n = 0;
    while x < 90.0 {
        let exact = lat(x).dmh();
        assert_eq!(float_dmh(x), exact, "{}", x);
        assert_eq!(exact, lon(x).dmh());
        let mut buf = vec![];
        lat(x).encode_uncompressed(&mut buf, Precision::default());
        let text = format!(
            "{:02}{:02}.{:02}{}",
            exact.0,
            exact.1,
            exact.2,
            if exact.3 { 'N' } else { 'S' }
        );
        assert_eq!(text.as_bytes(), buf);
        x += 0.7310117;
        n += 1;
    }
    assert_eq!(247, n);
    // compressed: 90 - v / 380926 and v / 190463 - 180
    for v in [0u64, 1, 380926, 20427156, 34283340, 68566679, 68566680] {
        let mut digits = vec![];
        aprs_parser::base91::encode_ascii(v, &mut digits, 4);
        let la = Latitude::parse_compressed(&digits).unwrap();
        assert!((degrees(la.units()) - (90.0 - v as f64 / 380926.0)).abs() < 1e-12);
        let lo = Longitude::parse_compressed(&digits).unwrap();
        assert!((degrees(lo.units()) - (v as f64 / 190463.0 - 180.0)).abs() < 1e-12);
    }
}
