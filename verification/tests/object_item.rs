use aprs_parser::{
    AprsCst, AprsData, AprsItem, AprsObject, AprsPacket, Callsign, DecodeError, Directivity,
    EncodeError, Extension, Timestamp,
};

const UNITS_PER_DEGREE: f64 = 1_142_778_000.0;

fn close(a: f64, b: f64) -> bool {
    approx::Relative::default().eq(&a, &b)
}

fn degrees(units: i64) -> f64 {
    units as f64 / UNITS_PER_DEGREE
}

fn default_callsign() -> Callsign {
    Callsign::new_no_ssid("VE9")
}

#[test]
fn object_parse_uncompressed_live_object() {
    let packet = AprsPacket::decode_textual(b"N8DEU-7>APZWX,WIDE2-2:;HFEST-18H*170403z3443.55N\\08635.47Wh146.940MHz T100 Huntsville Hamfest").unwrap();

    assert!(matches!(packet.data, AprsData::Object(_)));

    if let AprsData::Object(o) = packet.data {
        assert_eq!(o.name, b"HFEST-18H");
        assert!(o.live);
        assert_eq!(o.timestamp, Timestamp::DDHHMM(17, 4, 3));
        assert_eq!(o.position.symbol_table, '\\');
        assert_eq!(o.position.symbol_code, 'h');
        assert_eq!(o.comment, "146.940MHz T100 Huntsville Hamfest".as_bytes());
        assert_eq!(o.position.cst, AprsCst::Uncompressed);
        assert!(close(degrees(o.position.latitude.units()), 34.725833333333334));
        assert!(close(degrees(o.position.longitude.units()), -86.59116666666667));
    }
}

#[test]
fn object_parse_uncompressed_dead_object_short_name() {
    let packet = AprsPacket::decode_textual(b"N8DEU-7>APZWX,WIDE2-2:;HFEST     170403z3443.55N\\08635.47Wh146.940MHz T100 Huntsville Hamfest").unwrap();

    assert!(matches!(packet.data, AprsData::Object(_)));

    if let AprsData::Object(o) = packet.data {
        assert_eq!(o.name, b"HFEST");
        assert!(!o.live);
        assert_eq!(o.position.symbol_table, '\\');
    }
}

#[test]
fn parse_uncompressed_live_object_short_name_extensions() {
    let packet = AprsPacket::decode_textual(b"N8DEU-7>APZWX,WIDE2-2:;HFEST     170403z3443.55N\\08635.47WhPHG5132146.940MHz T100 Huntsville Hamfest").unwrap();

    assert!(matches!(packet.data, AprsData::Object(_)));

    if let AprsData::Object(o) = packet.data {
        assert_eq!(o.name, b"HFEST");
        assert!(!o.live);
        assert_eq!(o.position.symbol_table, '\\');
        assert!(matches!(
            o.extension,
            Some(Extension::PowerHeightGainDirectivity {
                power_watts: 25,
                antenna_height_feet: 20,
                antenna_gain_db: 3,
                antenna_directivity: Directivity::DirectionDegrees(90)
            })
        ));
        assert_eq!(o.comment, b"146.940MHz T100 Huntsville Hamfest");
    }
}

#[test]
fn parse_uncompressed_object_no_comment() {
    let packet = AprsPacket::decode_textual(
        b"N8DEU-7>APZWX,WIDE2-2:;HFEST-18H*170403z3443.55N\\08635.47Wh",
    )
    .unwrap();

    assert!(matches!(packet.data, AprsData::Object(_)));

    if let AprsData::Object(o) = packet.data {
        assert_eq!(o.name, b"HFEST-18H");
        assert!(o.live);
        assert_eq!(o.position.symbol_table, '\\');
        assert_eq!(o.position.symbol_code, 'h');
        assert_eq!(o.comment, []);
        assert_eq!(o.position.cst, AprsCst::Uncompressed);
        assert!(close(degrees(o.position.latitude.units()), 34.725833333333334));
        assert!(close(degrees(o.position.longitude.units()), -86.59116666666667));
    }
}

#[test]
fn parse_compressed_dead_object() {
    let packet = AprsPacket::decode_textual(
        b"N0CALL>APRS:;CAR       092345z/5L!!<*e7>7P[Moving to the north",
    )
    .unwrap();

    assert!(matches!(packet.data, AprsData::Object(_)));

    if let AprsData::Object(o) = packet.data {
        assert_eq!(o.name, b"CAR");
        assert!(!o.live);
        assert!(close(degrees(o.position.latitude.units()), 49.5));
        assert!(close(degrees(o.position.longitude.units()), -72.75000393777269));
        assert_eq!(o.position.symbol_code, '>');
        assert_eq!(o.comment, "Moving to the north".as_bytes());
    }
}

#[test]
fn object_decode_recode_uncompressed() {
    let textual_repr = br"N8DEU-7>APZWX,WIDE2-2:;HFEST-18H*170403z3443.55N\08635.47Wh146.940MHz T100 Huntsville Hamfest";
    let packet = AprsPacket::decode_textual(textual_repr).unwrap();

    let mut buf = Vec::new();

    packet.encode_textual(&mut buf).unwrap();
    assert_eq!(buf, textual_repr);
}

#[test]
fn object_decode_recode_compressed() {
    let textual_repr = b"N0CALL>APRS:;CAR       092345z/5L!!<*e7>7P[Moving to the north";
    let packet = AprsPacket::decode_textual(textual_repr).unwrap();

    let mut buf = Vec::new();

    packet.encode_textual(&mut buf).unwrap();
    assert_eq!(buf, textual_repr);
}

#[test]
fn object_errors() {
    assert_eq!(
        Err(DecodeError::InvalidObjectName(b"HFEST".to_vec())),
        AprsObject::decode(b"HFEST", default_callsign())
    );
    assert_eq!(
        Err(DecodeError::InvalidObjectName(b"HFEST-18H".to_vec())),
        AprsObject::decode(b"HFEST-18H", default_callsign())
    );
    assert_eq!(
        Err(DecodeError::InvalidObjectLiveness('!')),
        AprsObject::decode(b"HFEST-18H!170403z3443.55N\\08635.47Wh", default_callsign())
    );
    assert_eq!(
        Err(DecodeError::InvalidTimestamp(b"HFEST-18H*17040".to_vec())),
        AprsObject::decode(b"HFEST-18H*17040", default_callsign())
    );
    assert_eq!(
        Err(DecodeError::InvalidTimestamp(b"17x403z".to_vec())),
        AprsObject::decode(b"HFEST-18H*17x403z3443.55N\\08635.47Wh", default_callsign())
    );
    assert_eq!(
        Err(DecodeError::InvalidPosition(b"3443.55N".to_vec())),
        AprsObject::decode(b"HFEST-18H*170403z3443.55N", default_callsign())
    );
}

#[test]
fn object_with_extension_is_written_uncompressed() {
    let mut o = AprsObject::decode(
        b"CAR       092345z/5L!!<*e7>7P[comment",
        default_callsign(),
    )
    .unwrap();
    assert_eq!(None, o.extension);
    o.extension = Some(Extension::RadioRange { radio_range_miles: 12 });
    let mut buf = vec![];
    o.encode(&mut buf).unwrap();
    assert_eq!(b";CAR       092345z4930.00N/07245.00W>RNG0012comment".to_vec(), buf);

    o.extension = Some(Extension::RadioRange { radio_range_miles: 10000 });
    let mut buf = b"keep".to_vec();
    assert!(matches!(o.encode(&mut buf), Err(EncodeError::InvalidExtension(_))));
    assert_eq!(b"keep".to_vec(), buf);
}

#[test]
fn item_parse_uncompressed_live_object() {
    let packet =
        AprsPacket::decode_textual(b"N8DEU-7>APZWX,WIDE2-2:)AIDV#2!4903.50N/07201.75WA")
            .unwrap();

    assert!(matches!(packet.data, AprsData::Item(_)));

    if let AprsData::Item(o) = packet.data {
        assert_eq!(o.name, b"AIDV#2");
        assert!(o.live);
        assert_eq!(o.position.symbol_table, '/');
        assert_eq!(o.position.symbol_code, 'A');
        assert_eq!(o.comment, vec![]);
        assert_eq!(o.position.cst, AprsCst::Uncompressed);
        assert!(close(degrees(o.position.latitude.units()), 49.05833333333333));
        assert!(close(degrees(o.position.longitude.units()), -72.02916666666667));
    }
}

#[test]
fn item_parse_uncompressed_dead_object_short_name() {
    let packet =
        AprsPacket::decode_textual(b"N8DEU-7>APZWX,WIDE2-2:)AID 4903.50N/07201.75WA").unwrap();

    assert!(matches!(packet.data, AprsData::Item(_)));

    if let AprsData::Item(o) = packet.data {
        assert_eq!(o.name, b"AID");
        assert!(!o.live);
        assert_eq!(o.position.symbol_table, '/');
        assert_eq!(o.position.symbol_code, 'A');
        assert_eq!(o.comment, vec![]);
        assert_eq!(o.position.cst, AprsCst::Uncompressed);
        assert!(close(degrees(o.position.latitude.units()), 49.05833333333333));
        assert!(close(degrees(o.position.longitude.units()), -72.02916666666667));
    }
}

#[test]
fn parse_uncompressed_dead_object_short_name_extensions() {
    let packet =
        AprsPacket::decode_textual(b"N8DEU-7>APZWX,WIDE2-2:)AID 4903.50N/07201.75WAPHG5132")
            .unwrap();

    assert!(matches!(packet.data, AprsData::Item(_)));

    if let AprsData::Item(o) = packet.data {
        assert_eq!(o.name, b"AID");
        assert!(!o.live);
        assert_eq!(o.position.symbol_table, '/');
        assert_eq!(o.position.symbol_code, 'A');
        assert!(matches!(
            o.extension,
            Some(Extension::PowerHeightGainDirectivity {
                power_watts: 25,
                antenna_height_feet: 20,
                antenna_gain_db: 3,
                antenna_directivity: Directivity::DirectionDegrees(90)
            })
        ));
        assert!(o.comment.is_empty());
    }
}

#[test]
fn parse_compressed_live_object() {
    let packet = AprsPacket::decode_textual(br"N0CALL>APRS:)MOBIL!\5L!!<*e79 sT").unwrap();

    assert!(matches!(packet.data, AprsData::Item(_)));

    if let AprsData::Item(o) = packet.data {
        assert_eq!(o.name, b"MOBIL");
        assert!(o.live);
        assert!(close(degrees(o.position.latitude.units()), 49.5));
        assert!(close(degrees(o.position.longitude.units()), -72.75000393777269));
        assert_eq!(o.position.symbol_code, '9');
        assert_eq!(o.position.symbol_table, '\\');
        assert!(matches!(o.position.cst, AprsCst::CompressedNone))
    }
}

#[test]
fn item_decode_recode_uncompressed() {
    let textual_repr = b"N8DEU-7>APZWX,WIDE2-2:)AID 4903.50N/07201.75WAPHG5132";
    let packet = AprsPacket::decode_textual(textual_repr).unwrap();

    let mut buf = Vec::new();

    packet.encode_textual(&mut buf).unwrap();
    assert_eq!(buf, textual_repr);
}

#[test]
fn item_decode_recode_compressed() {
    let textual_repr = br"N0CALL>APRS:)MOBIL!\5L!!<*e79 sT";
    let packet = AprsPacket::decode_textual(textual_repr).unwrap();

    let mut buf = Vec::new();

    packet.encode_textual(&mut buf).unwrap();
    assert_eq!(buf, textual_repr);
}

#[test]
fn item_names_have_three_to_nine_bytes() {
    let nine = AprsItem::decode(b"NINEBYTES!4903.50N/07201.75WA", default_callsign()).unwrap();
    assert_eq!(b"NINEBYTES".to_vec(), nine.name);
    assert!(nine.live);
    let mut buf = vec![];
    nine.encode(&mut buf).unwrap();
    assert_eq!(b")NINEBYTES!4903.50N/07201.75WA".to_vec(), buf);

    assert_eq!(
        Err(DecodeError::InvalidItemLiveness('B')),
        AprsItem::decode(b"TENBYTESXX!4903.50N/07201.75WA", default_callsign())
    );
    assert_eq!(
        Err(DecodeError::InvalidItemName(b"AB!4903.50N/07201.75WA".to_vec())),
        AprsItem::decode(b"AB!4903.50N/07201.75WA", default_callsign())
    );
    assert_eq!(
        Err(DecodeError::InvalidItemName(b"A B!4903.50N/07201.75WA".to_vec())),
        AprsItem::decode(b"A B!4903.50N/07201.75WA", default_callsign())
    );
    assert_eq!(
        Err(DecodeError::InvalidItemName(b"AID".to_vec())),
        AprsItem::decode(b"AID", default_callsign())
    );
    assert_eq!(
        Err(DecodeError::InvalidItemName(b"AI".to_vec())),
        AprsItem::decode(b"AI", default_callsign())
    );
    assert_eq!(
        Err(DecodeError::InvalidPosition(vec![])),
        AprsItem::decode(b"AID!", default_callsign())
    );
}
