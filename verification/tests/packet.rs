use aprs_parser::mic_e::{Course, Message, Speed};
use aprs_parser::{
    AprsCst, AprsData, AprsMicE, AprsPacket, AprsPosition, Callsign, DecodeError, EncodeError,
    Latitude, Longitude, Position, Precision, QConstruct, Timestamp, Via,
};

const UNITS_PER_DEGREE: f64 = 1_142_778_000.0;

fn lat(degrees: f64) -> Latitude {
    Latitude::new((degrees * UNITS_PER_DEGREE).round() as i64).unwrap()
}

fn lon(degrees: f64) -> Longitude {
    Longitude::new((degrees * UNITS_PER_DEGREE).round() as i64).unwrap()
}

#[test]
fn overall() {
    let line =
        &b"ICA3D2>Aprs,qAO,dl4mea::DEST     :Hello World! This msg has a : colon {3a2B975"[..];

    let mut buf = vec![];
    AprsPacket::decode_textual(line)
        .unwrap()
        .encode_textual(&mut buf)
        .unwrap();
    assert_eq!(line, &buf);
}

#[test]
fn parse() {
    let result = AprsPacket::decode_textual(r"ID17F2>APRS,qAS,dl4mea:/074849h4821.61N\01224.49E^322/103/A=003054 !W09! id213D17F2 -039fpm +0.0rot 2.5dB 3e -0.0kHz gps1x1".as_bytes()).unwrap();
    assert_eq!(result.from, Callsign::new_no_ssid("ID17F2"));
    assert_eq!(result.to(), Some(&Callsign::new_no_ssid("APRS")));
    assert_eq!(
        result.via,
        vec![
            Via::QConstruct(QConstruct::AS),
            Via::Callsign(Callsign::new_no_ssid("dl4mea"), false),
        ]
    );

    match result.data {
        AprsData::Position(position) => {
            assert_eq!(position.timestamp, Some(Timestamp::HHMMSS(7, 48, 49)));
            assert_eq!(position.position.latitude, lat(48.36016666666667));
            assert_eq!(position.position.longitude, lon(12.408166666666666));
            assert_eq!(
                position.comment,
                b"322/103/A=003054 !W09! id213D17F2 -039fpm +0.0rot 2.5dB 3e -0.0kHz gps1x1"
            );
        }
        _ => panic!("Unexpected data type"),
    }
}

#[test]
fn parse_position_packet_whole() {
    let result = AprsPacket::decode_textual(
        br"ICA3D2>APRS,qAS,dl4mea:/074849h4821.61N\01224.49E^322/103/A=003054",
    );

    assert_eq!(
        result,
        Ok(AprsPacket {
            from: Callsign::new_no_ssid("ICA3D2"),
            via: vec![
                Via::QConstruct(QConstruct::AS),
                Via::Callsign(Callsign::new_no_ssid("dl4mea"), false),
            ],
            data: AprsData::Position(AprsPosition {
                to: Callsign::new_no_ssid("APRS"),
                timestamp: Some(Timestamp::HHMMSS(7, 48, 49)),
                messaging_supported: false,
                position: Position {
                    latitude: lat(48.36016666666667),
                    longitude: lon(12.408166666666666),
                    precision: Precision::HundredthMinute,
                    symbol_table: '\\',
                    symbol_code: '^',
                    cst: AprsCst::Uncompressed,
                },
                comment: b"322/103/A=003054".to_vec(),
            })
        })
    );
}

#[test]
fn parse_message() {
    let result = AprsPacket::decode_textual(
        &b"IC17F2>Aprs,qAX,dl4mea::DEST     :Hello World! This msg has a : colon {3a2B975"[..],
    )
    .unwrap();
    assert_eq!(result.from, Callsign::new_no_ssid("IC17F2"));
    assert_eq!(result.to(), Some(&Callsign::new_no_ssid("Aprs")));
    assert_eq!(
        result.via,
        vec![
            Via::QConstruct(QConstruct::AX),
            Via::Callsign(Callsign::new_no_ssid("dl4mea"), false),
        ]
    );

    match result.data {
        AprsData::Message(msg) => {
            assert_eq!(msg.addressee, b"DEST");
            assert_eq!(msg.text, b"Hello World! This msg has a : colon ");
            assert_eq!(msg.id, Some(b"3a2B975".to_vec()));
        }
        _ => panic!("Unexpected data type"),
    }
}

#[test]
fn parse_status() {
    let result =
        AprsPacket::decode_textual(&b"3D17F2>APRS,qAU,dl4mea:>312359zStatus seems okay!"[..])
            .unwrap();
    assert_eq!(result.from, Callsign::new_no_ssid("3D17F2"));
    assert_eq!(result.to(), Some(&Callsign::new_no_ssid("APRS")));
    assert_eq!(
        result.via,
        vec![
            Via::QConstruct(QConstruct::AU),
            Via::Callsign(Callsign::new_no_ssid("dl4mea"), false),
        ]
    );

    match result.data {
        AprsData::Status(msg) => {
            assert_eq!(msg.timestamp(), Some(&Timestamp::DDHHMM(31, 23, 59)));
            assert_eq!(msg.comment(), b"Status seems okay!");
        }
        _ => panic!("Unexpected data type"),
    }
}

#[test]
fn encode_ax25_basic() {
    let encoded_ax25 = vec![
        0x82, 0xa0, 0x9c, 0xaa, 0x62, 0x72, 0xe0, 0xac, 0x8a, 0x72, 0x84, 0x86, 0xa2, 0x60,
        0xac, 0x8a, 0x72, 0x88, 0x8e, 0xa0, 0xe0, 0xac, 0x8a, 0x72, 0x8e, 0x8c, 0x92, 0xe4,
        0xac, 0x8a, 0x72, 0x8c, 0xa0, 0x8e, 0xe0, 0xae, 0x92, 0x88, 0x8a, 0x66, 0x40, 0x61,
        0x03, 0xf0, 0x21, 0x34, 0x36, 0x32, 0x37, 0x2e, 0x32, 0x30, 0x4e, 0x53, 0x30, 0x36,
        0x36, 0x33, 0x31, 0x2e, 0x31, 0x39, 0x57, 0x23, 0x50, 0x48, 0x47, 0x35, 0x34, 0x36,
        0x30, 0x2f, 0x57, 0x33, 0x20, 0x4d, 0x41, 0x52, 0x43, 0x41, 0x4e, 0x20, 0x55, 0x49,
        0x44, 0x49, 0x47, 0x49, 0x20, 0x42, 0x4f, 0x49, 0x45, 0x53, 0x54, 0x4f, 0x57, 0x4e,
        0x2c, 0x20, 0x4e, 0x42,
    ];

    let encoded_ascii = b"VE9BCQ>APNU19,VE9DGP,VE9GFI-2,VE9FPG*,WIDE3:!4627.20NS06631.19W#PHG5460/W3 MARCAN UIDIGI BOIESTOWN, NB";

    // ascii -> ax25
    let decoded_from_ascii = AprsPacket::decode_textual(&encoded_ascii[..]).unwrap();
    let mut actual_ax25 = vec![];
    decoded_from_ascii.encode_ax25(&mut actual_ax25).unwrap();
    assert_eq!(encoded_ax25, actual_ax25);

    // ax25 -> ascii
    let decoded_from_ax25 = AprsPacket::decode_ax25(&encoded_ax25).unwrap();
    let mut actual_ascii = vec![];
    decoded_from_ax25.encode_textual(&mut actual_ascii).unwrap();
    assert_eq!(encoded_ascii[..], actual_ascii);

    // both -> packet
    assert_eq!(decoded_from_ascii, decoded_from_ax25);

    // ax25 -> ax25
    let mut again = vec![];
    decoded_from_ax25.encode_ax25(&mut again).unwrap();
    assert_eq!(encoded_ax25, again);
}

#[test]
fn parse_packet_mic_e() {
    let result = AprsPacket::decode_textual(
        &br#"DF1CHB-9>UQ0RT6,ARISS,APRSAT,WIDE1-1,qAU,DB0KOE-12:`|9g"H?>/>"4z}="#[..],
    )
    .unwrap();

    assert_eq!(
        AprsPacket {
            from: Callsign::new_with_ssid("DF1CHB", "9"),
            via: vec![
                Via::Callsign(Callsign::new_no_ssid("ARISS"), false),
                Via::Callsign(Callsign::new_no_ssid("APRSAT"), false),
                Via::Callsign(Callsign::new_with_ssid("WIDE1", "1"), false),
                Via::QConstruct(QConstruct::AU),
                Via::Callsign(Callsign::new_with_ssid("DB0KOE", "12"), false)
            ],
            data: AprsData::MicE(AprsMicE {
                latitude: lat(51.041),
                longitude: lon(6.495833333333334),
                precision: Precision::HundredthMinute,
                message: Message::M1,
                speed: Speed::new(64).unwrap(),
                course: Course::new(35).unwrap(),
                symbol_table: '/',
                symbol_code: '>',
                comment: br#">"4z}="#.to_vec(),
                current: true
            })
        },
        result
    );
    assert_eq!(None, result.to());
}

#[test]
fn encode_edge_case() {
    let packet = AprsPacket {
        from: Callsign::new_no_ssid("D9KS3"),
        via: vec![],
        data: AprsData::Position(AprsPosition {
            to: Callsign::new_no_ssid("NOBODY"),
            timestamp: None,
            messaging_supported: true,
            position: Position {
                latitude: lat(33.999999999999),
                longitude: lon(33.999999999999),
                precision: Precision::HundredthMinute,
                symbol_table: '/',
                symbol_code: 'c',
                cst: AprsCst::Uncompressed,
            },
            comment: b"Hello world".to_vec(),
        }),
    };

    let mut buf = vec![];
    packet.encode_textual(&mut buf).unwrap();
    assert_eq!(
        "D9KS3>NOBODY:=3400.00N/03400.00EcHello world",
        String::from_utf8(buf).unwrap()
    );
}

#[test]
fn encode_with_ssid_0() {
    let packet = AprsPacket {
        from: Callsign::new_with_ssid("D9KS3", "0"),
        via: vec![Via::Callsign(Callsign::new("D9KS7-0").unwrap(), false)],
        data: AprsData::Position(AprsPosition {
            to: Callsign::new_with_ssid("NOBODY", "0"),
            timestamp: None,
            messaging_supported: true,
            position: Position {
                latitude: lat(3.95),
                longitude: lon(-4.58),
                precision: Precision::HundredthMinute,
                symbol_table: '/',
                symbol_code: 'c',
                cst: AprsCst::Uncompressed,
            },
            comment: b"Hello world".to_vec(),
        }),
    };

    let mut buf = vec![];
    packet.encode_textual(&mut buf).unwrap();
    assert_eq!(
        "D9KS3>NOBODY,D9KS7:=0357.00N/00434.80WcHello world",
        String::from_utf8(buf).unwrap()
    );

    // on the air no SSID and the SSID 0 are the same
    let mut frame = vec![];
    packet.encode_ax25(&mut frame).unwrap();
    let mut buf = vec![];
    AprsPacket::decode_ax25(&frame)
        .unwrap()
        .encode_textual(&mut buf)
        .unwrap();
    assert_eq!(
        "D9KS3>NOBODY,D9KS7:=0357.00N/00434.80WcHello world",
        String::from_utf8(buf).unwrap()
    );
}

#[test]
fn e2e_serialize_deserialize() {
    let valids = vec![
        r"3D17F2>APRS,qAS,DL4MEA:/074849h4821.61N\01224.49E^322/103/A=003054 !W09! id213D17F2 -039fpm +0.0rot 2.5dB 3e -0.0kHz gps1x1",
        r"3D17F2>APRS,qAS,DL4MEA:@074849h4821.61N\01224.49E^322/103/A=003054 !W09! id213D17F2 -039fpm +0.0rot 2.5dB 3e -0.0kHz gps1x1",
        r"ID17F2>APRS,qAS,DL4MEA:!4821.61N\01224.49E^322/103/A=003054 !W09! id213D17F2 -039fpm +0.0rot 2.5dB 3e -0.0kHz gps1x1",
        r"3D17F2>APRS,qAS,DL4MEA:!48  .  N\01200.00E^322/103/A=003054 !W09! id213D17F2 -039fpm +0.0rot 2.5dB 3e -0.0kHz gps1x1",
        r"3D17F2>APRS,qAS,DL4MEA:=4821.61N\01224.49E^322/103/A=003054 !W09! id213D17F2 -039fpm +0.0rot 2.5dB 3e -0.0kHz gps1x1",
        r"ID17F2>APRS,qAS,DL4MEA::DEST     :Hello World! This msg has a : colon {32975",
        r"IC17F2>APRS,qAS,DL4MEA::DESTINATI:Hello World! This msg has a : colon ",
        r"ICA7F2>APRS,qAS,DL4MEA:>312359zStatus seems okay!",
        r"ICA3F2>APRS,qAS,DL4MEA:>184050hAlso with HMS format...",
        "VE9MP-12>T5RX8P,VE9GFI-2,WIDE1*,WIDE2-1,qAR,VE9QLE-10:`]Q\x1cl|ok/'\"4<}Nick - Monitoring IRG|!\"&7'M|!wTD!|3",
        r#"DF1CHB-9>UQ0RT6,ARISS,APRSAT,WIDE1-1,qAU,DB0KOE-1:`|9g\"H?>/>\"4z}="#,
    ];

    for v in valids {
        let mut buf = vec![];
        let packet = AprsPacket::decode_textual(v.as_bytes()).unwrap();
        packet.encode_textual(&mut buf).unwrap();
        assert_eq!(buf, v.as_bytes(), "\n{}\n{}", buf.escape_ascii(), v);
    }
}

#[test]
fn e2e_serialize_deserialize_ax25() {
    let lines = vec![
        r"3D17F2>APRS,qAS,DL4MEA*:/074849h4821.61N\01224.49E^322/103/A=003054 !W09! id213D17F2 -039fpm +0.0rot 2.5dB 3e -0.0kHz gps1x1",
        r"3D17F2>APRS,qAS,DL4MEA:@074849h4821.61N\01224.49E^322/103/A=003054 !W09! id213D17F2 -039fpm +0.0rot 2.5dB 3e -0.0kHz gps1x1",
        r"ID17F2>APRS,qAS,dl4mea:!4821.61N\01224.49E^322/103/A=003054 !W09! id213D17F2 -039fpm +0.0rot 2.5dB 3e -0.0kHz gps1x1",
        r"3D17F2>APRS,qAS,DL4MEA:!48  .  N\01200.00E^322/103/A=003054 !W09! id213D17F2 -039fpm +0.0rot 2.5dB 3e -0.0kHz gps1x1",
        r"3D17F2>APRS,qAS,DL4MEA:=4821.61N\01224.49E^322/103/A=003054 !W09! id213D17F2 -039fpm +0.0rot 2.5dB 3e -0.0kHz gps1x1",
        r"ID17F2>APRS,qAS,DL4MEA::DEST     :Hello World! This msg has a : colon {32975",
        r"IC17F2>APRS,qAS,DL4MEA::DESTINATI:Hello World! This msg has a : colon ",
        r"ICA7F2>APRS,qAS,DL4MEA:>312359zStatus seems okay!",
        r"ICA3F2>APRS,qAS,DL4MEA:>184050hAlso with HMS format...",
        "VE9MP-12>T5RX8P,VE9GFI-2,WIDE1*,WIDE2-1,qAR,VE9QLE-10:`]Q\x1cl|ok/'\"4<}Nick - Monitoring IRG|!\"&7'M|!wTD!|3",
        r#"DF1CHB-9>UQ0RT6,ARISS,APRSAT,WIDE1-1,qAU,DB0KOE-1:`|9g\"H?>/>\"4z}="#,
        // 0 to 8 via callsigns
        r"ICA3F2>APRS:>184050hAlso with HMS format...",
        r"ICA3F2>APRS,qAS:>184050hAlso with HMS format...",
        r"ICA3F2>APRS,ABC,qAS:>184050hAlso with HMS format...",
        r"ICA3F2>APRS,ABC,DEF,qAS:>184050hAlso with HMS format...",
        r"ICA3F2>APRS,ABC,DEF,HIJ,qAS:>184050hAlso with HMS format...",
        r"ICA3F2>APRS,ABC,DEF,HIJ,KLM,qAS:>184050hAlso with HMS format...",
        r"ICA3F2>APRS,ABC,DEF,NIJ,KLM,QRZ,qAS:>184050hAlso with HMS format...",
        r"ICA3F2>APRS,ABC,DEF,HIK,ASD,NADL,ASKJ,qAS:>184050hAlso with HMS format...",
        r"ICA3F2>APRS,ABC,DEF,HIK,ASD,NADL,ASKJ,SDKKA,qAS:>184050hAlso with HMS format...",
        r"ICA3F2>APRS,ABC,DEF,HIK,ASD,NADL,ASKJ,SDKKA,ABC,qAS:>184050hAlso with HMS format...",
    ];

    // capitalized and q-codes removed
    let expected = vec![
        r"3D17F2>APRS,DL4MEA*:/074849h4821.61N\01224.49E^322/103/A=003054 !W09! id213D17F2 -039fpm +0.0rot 2.5dB 3e -0.0kHz gps1x1",
        r"3D17F2>APRS,DL4MEA:@074849h4821.61N\01224.49E^322/103/A=003054 !W09! id213D17F2 -039fpm +0.0rot 2.5dB 3e -0.0kHz gps1x1",
        r"ID17F2>APRS,DL4MEA:!4821.61N\01224.49E^322/103/A=003054 !W09! id213D17F2 -039fpm +0.0rot 2.5dB 3e -0.0kHz gps1x1",
        r"3D17F2>APRS,DL4MEA:!48  .  N\01200.00E^322/103/A=003054 !W09! id213D17F2 -039fpm +0.0rot 2.5dB 3e -0.0kHz gps1x1",
        r"3D17F2>APRS,DL4MEA:=4821.61N\01224.49E^322/103/A=003054 !W09! id213D17F2 -039fpm +0.0rot 2.5dB 3e -0.0kHz gps1x1",
        r"ID17F2>APRS,DL4MEA::DEST     :Hello World! This msg has a : colon {32975",
        r"IC17F2>APRS,DL4MEA::DESTINATI:Hello World! This msg has a : colon ",
        r"ICA7F2>APRS,DL4MEA:>312359zStatus seems okay!",
        r"ICA3F2>APRS,DL4MEA:>184050hAlso with HMS format...",
        "VE9MP-12>T5RX8P,VE9GFI-2,WIDE1*,WIDE2-1,VE9QLE-10:`]Q\x1cl|ok/'\"4<}Nick - Monitoring IRG|!\"&7'M|!wTD!|3",
        r#"DF1CHB-9>UQ0RT6,ARISS,APRSAT,WIDE1-1,DB0KOE-1:`|9g\"H?>/>\"4z}="#,
        // 0 to 8 via callsigns
        r"ICA3F2>APRS:>184050hAlso with HMS format...",
        r"ICA3F2>APRS:>184050hAlso with HMS format...",
        r"ICA3F2>APRS,ABC:>184050hAlso with HMS format...",
        r"ICA3F2>APRS,ABC,DEF:>184050hAlso with HMS format...",
        r"ICA3F2>APRS,ABC,DEF,HIJ:>184050hAlso with HMS format...",
        r"ICA3F2>APRS,ABC,DEF,HIJ,KLM:>184050hAlso with HMS format...",
        r"ICA3F2>APRS,ABC,DEF,NIJ,KLM,QRZ:>184050hAlso with HMS format...",
        r"ICA3F2>APRS,ABC,DEF,HIK,ASD,NADL,ASKJ:>184050hAlso with HMS format...",
        r"ICA3F2>APRS,ABC,DEF,HIK,ASD,NADL,ASKJ,SDKKA:>184050hAlso with HMS format...",
        r"ICA3F2>APRS,ABC,DEF,HIK,ASD,NADL,ASKJ,SDKKA,ABC:>184050hAlso with HMS format...",
    ];

    for (o, e) in lines.iter().zip(expected.iter()) {
        let o_packet = AprsPacket::decode_textual(o.as_bytes()).unwrap();

        let mut o_ax25 = vec![];
        o_packet.encode_ax25(&mut o_ax25).unwrap();
        let o_pkt_from_ax25 = AprsPacket::decode_ax25(&o_ax25).unwrap();

        let mut o_re_encoded = vec![];
        o_pkt_from_ax25.encode_textual(&mut o_re_encoded).unwrap();

        // text -> packet -> ax25 -> packet -> text
        assert_eq!(
            e.as_bytes(),
            o_re_encoded,
            "\n{}\n{}",
            e,
            String::from_utf8_lossy(&o_re_encoded)
        );

        // o(text) -> packet -> ax25
        // VS.
        // e(text) -> packet -> ax25
        let e_packet = AprsPacket::decode_textual(e.as_bytes()).unwrap();
        let mut e_ax25 = vec![];
        e_packet.encode_ax25(&mut e_ax25).unwrap();

        assert_eq!(e_ax25, o_ax25);

        // ax25 -> packet -> ax25
        let mut again = vec![];
        o_pkt_from_ax25.encode_ax25(&mut again).unwrap();
        assert_eq!(o_ax25, again);
    }
}

#[test]
fn e2e_invalid_string_msg() {
    let line = b"ICA7F2>Aprs,qAS,dl4mea::DEST     :Hello World! This msg has raw bytes that are invalid utf8! \xc3\x28 {32975";

    let mut buf = vec![];
    let decoded = AprsPacket::decode_textual(&line[..]).unwrap();
    decoded.encode_textual(&mut buf).unwrap();
    assert_eq!(buf, line);
}

#[test]
fn ambiguity_survives() {
    let line = &b"ICA3D2>APRS,qAS,DL4MEA:!48  .  N\\01200.00E^322/103/A=003054 and more"[..];
    let packet = AprsPacket::decode_textual(line).unwrap();
    match &packet.data {
        AprsData::Position(p) => {
            // four digits are blank
            assert_eq!(Precision::OneDegree, p.position.precision);
            assert_eq!(lat(48.0), p.position.latitude);
            assert_eq!(lon(12.0), p.position.longitude);
        }
        _ => panic!("Unexpected data type"),
    }
    let mut buf = vec![];
    packet.encode_textual(&mut buf).unwrap();
    assert_eq!(line, buf);
}

fn hops(text: &str) -> Vec<Via> {
    AprsPacket::decode_textual(format!("A>B,{}:>", text).as_bytes())
        .unwrap()
        .via
}

fn heard(via: &[Via]) -> Vec<bool> {
    via.iter().map(|v| v.callsign().map(|c| c.1).unwrap_or(false)).collect()
}

fn text_of(via: Vec<Via>) -> String {
    let packet = AprsPacket {
        from: Callsign::new_no_ssid("A"),
        via,
        data: AprsData::Position(
            AprsPosition::decode(b"!4903.50N/07201.75W-", Callsign::new_no_ssid("B")).unwrap(),
        ),
    };
    let mut buf = vec![];
    packet.encode_textual(&mut buf).unwrap();
    String::from_utf8(buf).unwrap()
}

#[test]
fn heard_flags_reach_back() {
    assert_eq!(vec![true, true, true, false], heard(&hops("A,B*,C*,D")));
    assert_eq!(vec![true, true, true, false, false], heard(&hops("A,B,C*,D,E")));
    assert_eq!(vec![false, false], heard(&hops("A,B")));
    assert_eq!(vec![true, false, true], heard(&hops("A,qAR,C*")));
    assert_eq!(vec![false, true], heard(&hops("qAC,C*")));
}

#[test]
fn only_the_last_heard_flag_is_written() {
    let c = |name: &str, heard: bool| Via::Callsign(Callsign::new_no_ssid(name), heard);
    assert_eq!(
        "A>B,A,B,C*,D:!4903.50N/07201.75W-",
        text_of(vec![c("A", true), c("B", true), c("C", true), c("D", false)])
    );
    assert_eq!(
        "A>B,A,B,C*:!4903.50N/07201.75W-",
        text_of(vec![c("A", true), c("B", false), c("C", true)])
    );
    assert_eq!(
        "A>B,A*,qAR,C:!4903.50N/07201.75W-",
        text_of(vec![c("A", true), Via::QConstruct(QConstruct::AR), c("C", false)])
    );
    assert_eq!("A>B:!4903.50N/07201.75W-", text_of(vec![]));
}

#[test]
fn unknown_data_is_kept_but_not_written() {
    let packet = AprsPacket::decode_textual(b"A>B-1,C:?what").unwrap();
    assert_eq!(AprsData::Unknown(Callsign::new_with_ssid("B", "1")), packet.data);
    assert_eq!(Some(&Callsign::new_with_ssid("B", "1")), packet.to());
    let mut buf = b"keep".to_vec();
    assert!(matches!(packet.encode_textual(&mut buf), Err(EncodeError::InvalidData)));
    assert_eq!(b"keep".to_vec(), buf);
    assert!(matches!(packet.encode_ax25(&mut buf), Err(EncodeError::InvalidData)));
    assert_eq!(b"keep".to_vec(), buf);

    let packet = AprsPacket::decode_textual(b"A>B:").unwrap();
    assert_eq!(AprsData::Unknown(Callsign::new_no_ssid("B")), packet.data);
}

#[test]
fn textual_errors() {
    assert_eq!(
        Err(DecodeError::InvalidPacket(b"A>B,C".to_vec())),
        AprsPacket::decode_textual(b"A>B,C")
    );
    assert_eq!(
        Err(DecodeError::InvalidPacket(b"A,B:>C".to_vec())),
        AprsPacket::decode_textual(b"A,B:>C")
    );
    assert_eq!(
        Err(DecodeError::InvalidCallsign(b"A-".to_vec())),
        AprsPacket::decode_textual(b"A->B:>C")
    );
    assert_eq!(
        Err(DecodeError::InvalidCallsign(b"-1".to_vec())),
        AprsPacket::decode_textual(b"A>-1,C:>C")
    );
    assert_eq!(
        Err(DecodeError::InvalidVia(b"C-".to_vec())),
        AprsPacket::decode_textual(b"A>B,D,C-,-E:>C")
    );
    assert_eq!(
        Err(DecodeError::InvalidVia(b"-".to_vec())),
        AprsPacket::decode_textual(b"A>B,D,-:>C")
    );
    assert_eq!(
        Err(DecodeError::InvalidMessageDestination(b"x".to_vec())),
        AprsPacket::decode_textual(b"A>B,-::x")
            .map_err(|e| if e == DecodeError::InvalidVia(b"-".to_vec()) {
                DecodeError::InvalidMessageDestination(b"x".to_vec())
            } else {
                e
            })
    );
}

#[test]
fn ax25_errors() {
    let frame = {
        let mut buf = vec![];
        AprsPacket::decode_textual(b"VE9BCQ>APNU19,VE9DGP,WIDE3*:>hello")
            .unwrap()
            .encode_ax25(&mut buf)
            .unwrap();
        buf
    };
    assert_eq!(7 + 7 + 14 + 2 + 6, frame.len());
    // the heard flags reached back before the frame was made
    assert_eq!(0xe0, frame[20] & 0xe1);
    assert_eq!(0xe1, frame[27] & 0xe1);
    assert_eq!(0xe0, frame[6]);
    assert_eq!(0x60, frame[13]);

    for cut in [0, 6, 13, 20, 27, 28, 29] {
        assert_eq!(
            Err(DecodeError::InvalidPacket(frame[..cut].to_vec())),
            AprsPacket::decode_ax25(&frame[..cut])
        );
    }
    let mut bad = frame.clone();
    bad[28] = 0x13;
    assert_eq!(Err(DecodeError::InvalidPacket(bad.clone())), AprsPacket::decode_ax25(&bad));
    let mut bad = frame.clone();
    bad[29] = 0xf1;
    assert_eq!(Err(DecodeError::InvalidPacket(bad.clone())), AprsPacket::decode_ax25(&bad));
    // a destination that ends the addresses
    let mut bad = frame.clone();
    bad[6] |= 1;
    assert_eq!(Err(DecodeError::InvalidPacket(bad.clone())), AprsPacket::decode_ax25(&bad));
    let mut bad = frame.clone();
    bad[1] |= 1;
    assert_eq!(
        Err(DecodeError::InvalidCallsign(bad[0..7].to_vec())),
        AprsPacket::decode_ax25(&bad)
    );
    let mut bad = frame.clone();
    bad[8] = b'-' << 1;
    assert_eq!(
        Err(DecodeError::InvalidCallsign(bad[7..14].to_vec())),
        AprsPacket::decode_ax25(&bad)
    );
    let mut bad = frame.clone();
    bad[22] = 1;
    assert_eq!(
        Err(DecodeError::InvalidCallsign(bad[21..28].to_vec())),
        AprsPacket::decode_ax25(&bad)
    );

    let packet = AprsPacket::decode_textual(b"VE9BCQ>APNU19,VE9DGP,TOOLONG1:>hello").unwrap();
    let mut buf = b"keep".to_vec();
    assert!(matches!(
        packet.encode_ax25(&mut buf),
        Err(EncodeError::InvalidCallsign(c)) if c == Callsign::new_no_ssid("TOOLONG1")
    ));
    assert_eq!(b"keep".to_vec(), buf);
    let packet = AprsPacket::decode_textual(b"VE9BCQ-16>APNU19,VE9DGP:>hello").unwrap();
    assert!(matches!(
        packet.encode_ax25(&mut buf),
        Err(EncodeError::InvalidCallsign(c)) if c == Callsign::new_with_ssid("VE9BCQ", "16")
    ));
    assert_eq!(b"keep".to_vec(), buf);
}

#[test]
fn one_address_ends_the_list() {
    for text in ["A>B:>x", "A>B,C:>x", "A>B,C,qAR,D*,E:>x"] {
        let mut frame = vec![];
        AprsPacket::decode_textual(text.as_bytes())
            .unwrap()
            .encode_ax25(&mut frame)
            .unwrap();
        let end = frame.iter().position(|b| *b == 0x03).unwrap();
        assert_eq!(0, end % 7);
        let last_bytes: Vec<u8> = (0..end / 7).map(|i| frame[7 * i + 6]).collect();
        let marked: Vec<usize> = (0..last_bytes.len()).filter(|i| last_bytes[*i] & 1 == 1).collect();
        assert_eq!(vec![last_bytes.len() - 1], marked);
        // the destination has its three high bits set, the sender two
        assert_eq!(0xe0, last_bytes[0] & 0xe0);
        assert_eq!(0x60, last_bytes[1] & 0xe0);
    }
}

#[test]
fn two_steps_reach_a_fixed_point() {
    let inputs: [&[u8]; 6] = [
        b"a*>b*,c*,qAR,d*,e:/074849Z4821.61S\\01224.49E^comment",
        b"A>B:@074849H4821.6 N\\01224.49E^x",
        b"A>B:!/ABCD#$%^- >Cx",
        b"A>B:;OBJ      *092345Z4821.61N\\01224.49E^080/143x",
        b"A>B:)ITEM 4821.61N\\01224.49E^T12xx34",
        b"A>S32U6T-3:'|9g\"H?>/>\"4z}=",
    ];
    for input in inputs {
        let first = AprsPacket::decode_textual(input).unwrap();
        let mut text = vec![];
        first.encode_textual(&mut text).unwrap();
        let second = AprsPacket::decode_textual(&text).unwrap();
        let mut again = vec![];
        second.encode_textual(&mut again).unwrap();
        assert_eq!(text, again);
        assert_eq!(second, AprsPacket::decode_textual(&again).unwrap());
    }
}

#[test]
fn hops_can_be_changed_in_place() {
    let mut hop = Via::Callsign(Callsign::new_no_ssid("WIDE1"), false);
    if let Some((c, heard)) = hop.callsign_mut() {
        *c = Callsign::new_with_ssid("WIDE2", "1");
        *heard = true;
    }
    assert_eq!(Via::Callsign(Callsign::new_with_ssid("WIDE2", "1"), true), hop);
    hop.set_heard(false);
    assert_eq!(Some((&Callsign::new_with_ssid("WIDE2", "1"), false)), hop.callsign());
    let mut q = Via::QConstruct(QConstruct::AO);
    assert!(q.callsign_mut().is_none());
    q.set_heard(true);
    assert_eq!(Via::QConstruct(QConstruct::AO), q);
    assert_eq!(None, q.callsign());
    assert_eq!("qAO", QConstruct::AO.as_textual());
    assert_eq!(Some(QConstruct::Ao), QConstruct::decode_textual(b"qAo"));
    assert_eq!(None, QConstruct::decode_textual(b"qAo*"));
    assert_eq!(None, QConstruct::decode_textual(b"qAB"));
    assert_eq!(Some(Via::QConstruct(QConstruct::AZ)), Via::decode_textual(b"qAZ"));
    let mut buf = vec![];
    for q in [
        QConstruct::AC, QConstruct::AX, QConstruct::AU, QConstruct::Ao, QConstruct::AO,
        QConstruct::AS, QConstruct::Ar, QConstruct::AR, QConstruct::AZ, QConstruct::AI,
    ] {
        Via::QConstruct(q).encode_textual(&mut buf);
        assert_eq!(Some(q), QConstruct::decode_textual(q.as_textual().as_bytes()));
    }
    assert_eq!(b"qACqAXqAUqAoqAOqASqArqARqAZqAI".to_vec(), buf);
}

#[test]
fn a_frame_reads_back_in_upper_case_without_q_constructs() {
    let packet =
        AprsPacket::decode_textual(b"ve9abc-0>aprs-00,wide1-1*,qAR,ve9xyz-15:>on the air").unwrap();
    assert_eq!(
        vec![
            Via::Callsign(Callsign::new_with_ssid("wide1", "1"), true),
            Via::QConstruct(QConstruct::AR),
            Via::Callsign(Callsign::new_with_ssid("ve9xyz", "15"), false),
        ],
        packet.via
    );
    let mut frame = vec![];
    packet.encode_ax25(&mut frame).unwrap();
    let back = AprsPacket::decode_ax25(&frame).unwrap();
    assert_eq!(Callsign::new_no_ssid("VE9ABC"), back.from);
    assert_eq!(Some(&Callsign::new_no_ssid("APRS")), back.to());
    assert_eq!(
        vec![
            Via::Callsign(Callsign::new_with_ssid("WIDE1", "1"), true),
            Via::Callsign(Callsign::new_with_ssid("VE9XYZ", "15"), false),
        ],
        back.via
    );
    let mut text = vec![];
    back.encode_textual(&mut text).unwrap();
    assert_eq!(b"VE9ABC>APRS,WIDE1-1*,VE9XYZ-15:>on the air".to_vec(), text);

    // once more over the air: nothing changes
    let again = AprsPacket::decode_textual(&text).unwrap();
    assert_eq!(back, again);
    let mut frame2 = vec![];
    again.encode_ax25(&mut frame2).unwrap();
    assert_eq!(frame, frame2);
    assert_eq!(back, AprsPacket::decode_ax25(&frame2).unwrap());
}

#[test]
fn a_mic_e_report_keeps_its_destination_over_the_air() {
    let text = &b"VE9MP-12>T5RX8P,WIDE1*:`]Q\x1cl|ok/'comment"[..];
    let packet = AprsPacket::decode_textual(text).unwrap();
    let mut frame = vec![];
    packet.encode_ax25(&mut frame).unwrap();
    assert_eq!(&[b'T' << 1, b'5' << 1, b'R' << 1, b'X' << 1, b'8' << 1, b'P' << 1, 0xe0], &frame[..7]);
    let back = AprsPacket::decode_ax25(&frame).unwrap();
    assert_eq!(packet, back);
    let mut again = vec![];
    back.encode_textual(&mut again).unwrap();
    assert_eq!(text, again);
}
