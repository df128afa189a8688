use aprs_parser::mic_e::{
    decode_callsign, decode_latitude_digit, decode_longitude, decode_speed_and_course,
    encode_bit_3, encode_bit_4, encode_bit_5, encode_bits_012, Course, LatDir, LongDir,
    LongOffset, Message, MessageBit, Speed,
};
use aprs_parser::{AprsMicE, Callsign, DecodeError, EncodeError, Latitude, Longitude, Precision};

const UNITS_PER_DEGREE: f64 = 1_142_778_000.0;

fn lat(degrees: f64) -> Latitude {
    Latitude::new((degrees * UNITS_PER_DEGREE).round() as i64).unwrap()
}

fn lon(degrees: f64) -> Longitude {
    Longitude::new((degrees * UNITS_PER_DEGREE).round() as i64).unwrap()
}

#[test]
fn course_from_u32() {
    let course = Course::new(123).unwrap();
    assert_eq!(123, course.degrees());

    let course = Course::new(360).unwrap();
    assert_eq!(360, course.degrees());
}

#[test]
fn course_from_u32_smallest() {
    let course = Course::new(0).unwrap();
    assert_eq!(0, course.degrees());
    assert_eq!(course, Course::unknown());
}

#[test]
fn course_from_u32_too_big() {
    assert_eq!(None, Course::new(361));
}

#[test]
fn speed_from_u32() {
    let speed = Speed::new(545).unwrap();
    assert_eq!(545, speed.knots());

    let speed = Speed::new(799).unwrap();
    assert_eq!(799, speed.knots());
}

#[test]
fn speed_from_u32_smallest() {
    let speed = Speed::new(0).unwrap();
    assert_eq!(0, speed.knots());
}

#[test]
fn speed_from_u32_too_big() {
    assert_eq!(None, Speed::new(800));
    assert_eq!(None, Speed::new(801));
    assert_eq!(None, Speed::new(5237));
}

#[test]
fn decode_dest_test() {
    let (latitude, precision, message, offset, dir) =
        decode_callsign(&Callsign::new_no_ssid("S32U6T")).unwrap();

    assert_eq!(lat(33.42733333333333), latitude);
    assert_eq!(Precision::HundredthMinute, precision);
    assert_eq!(Message::M3, message);
    assert_eq!(LongOffset::Zero, offset);
    assert_eq!(LongDir::West, dir);
}

#[test]
fn decode_test() {
    // the example of the protocol reference, with another destination
    let information = &br#"(_fn"Oj/Hello world!"#[..];
    let to = Callsign::new_no_ssid("PPPPPP");

    let data = AprsMicE::decode(information, to, true).unwrap();

    assert_eq!(
        AprsMicE {
            latitude: lat(0.0),
            longitude: lon(-112.12899999999999),
            precision: Precision::HundredthMinute,
            message: Message::M0,
            speed: Speed::new(20).unwrap(),
            course: Course::new(251).unwrap(),
            symbol_table: '/',
            symbol_code: 'j',
            comment: b"Hello world!".to_vec(),
            current: true
        },
        data
    );
}

#[test]
fn encode_destination_test() {
    let information = &br#"(_fn"Oj/Hello world!"#[..];
    let to = Callsign::new_no_ssid("S5PPW4");

    let data = AprsMicE::decode(information, to.clone(), true).unwrap();

    assert_eq!(to, data.encode_destination());
}

#[test]
fn decode_with_the_destination_of_the_protocol_reference() {
    let information = &br#"(_fn"Oj/Hello world!"#[..];
    let to = Callsign::new_with_ssid("S32U6T", "5");

    let data = AprsMicE::decode(information, to, true).unwrap();
    assert_eq!(lat(33.42733333333333), data.latitude);
    // without the offset of a hundred degrees
    assert_eq!(lon(-12.129), data.longitude);
    assert_eq!(Message::M3, data.message);
    assert_eq!(20, data.speed.knots());
    assert_eq!(251, data.course.degrees());
    assert_eq!('/', data.symbol_table);
    assert_eq!('j', data.symbol_code);
    assert_eq!(b"Hello world!".to_vec(), data.comment);
    assert!(data.current);
    assert_eq!(Callsign::new_no_ssid("S32U6T"), data.encode_destination());

    let mut buf = vec![];
    data.encode(&mut buf).unwrap();
    assert_eq!(&b"`(_fn\"Oj/Hello world!"[..], buf);
}

#[test]
fn mic_e_errors() {
    let information = &br#"(_fn"Oj/Hello world!"#[..];
    for bad in ["S32U6", "S32U6TX", "S32A6T", "S32UAT", "S32U6A", "s32U6T", "S3-U6T", "Z32U6T"] {
        let to = Callsign::new_no_ssid(bad);
        assert_eq!(
            Err(DecodeError::InvalidMicEDestination(to.clone())),
            AprsMicE::decode(information, to, true)
        );
    }
    let to = Callsign::new_no_ssid("S32U6T");
    assert_eq!(
        Err(DecodeError::InvalidMicEInformation(b"(_fn\"Oj".to_vec())),
        AprsMicE::decode(&b"(_fn\"Oj"[..], to.clone(), true)
    );
    // a byte below 28
    assert_eq!(
        Err(DecodeError::InvalidMicEInformation(b"(\x1bfn\"Oj/".to_vec())),
        AprsMicE::decode(&b"(\x1bfn\"Oj/"[..], to.clone(), true)
    );
    // 250 degrees of longitude
    assert_eq!(
        Err(DecodeError::InvalidMicEInformation(b"\xff_fn\"Oj/".to_vec())),
        AprsMicE::decode(&b"\xff_fn\"Oj/"[..], to.clone(), true)
    );
    // a course of 399 degrees
    assert_eq!(
        Err(DecodeError::InvalidMicEInformation(b"(_fn\x1f\x7fj/".to_vec())),
        AprsMicE::decode(&b"(_fn\x1f\x7fj/"[..], to, true)
    );
}

#[test]
fn longitude_bytes() {
    // degrees: 0 to 9 as 118 to 127, 10 to 99 as 38 to 127, 100 to 109 as
    // 108 to 117, 110 to 179 as 38 to 107, the last two with the offset
    let cases = [
        (5u32, 123u8, LongOffset::Hundred),
        (10, 38, LongOffset::Zero),
        (99, 127, LongOffset::Zero),
        (100, 108, LongOffset::Hundred),
        (109, 117, LongOffset::Hundred),
        (110, 38, LongOffset::Hundred),
        (179, 107, LongOffset::Hundred),
    ];
    for (deg, byte, offset) in cases {
        assert_eq!(
            Longitude::from_dmh(deg, 7, 74, true),
            decode_longitude(&[byte, 95, 102], offset, LongDir::East)
        );
        // minutes from 60 on stand for 60 less
        assert_eq!(
            Longitude::from_dmh(deg, 50, 0, false),
            decode_longitude(&[byte, 78, 28], offset, LongDir::West)
        );
    }
    assert_eq!(None, decode_longitude(&[28, 28], LongOffset::Zero, LongDir::West));
    assert_eq!(None, decode_longitude(&[27, 28, 28], LongOffset::Zero, LongDir::West));
    assert_eq!(None, decode_longitude(&[28, 27, 28], LongOffset::Zero, LongDir::West));
    assert_eq!(None, decode_longitude(&[28, 28, 27], LongOffset::Zero, LongDir::West));
}

#[test]
fn speed_and_course_bytes() {
    assert_eq!(
        Some((Speed::new(20).unwrap(), Course::new(251).unwrap())),
        decode_speed_and_course(b"n\"O")
    );
    assert_eq!(
        Some((Speed::new(64).unwrap(), Course::new(35).unwrap())),
        decode_speed_and_course(b"\"H?")
    );
    assert_eq!(
        Some((Speed::new(799).unwrap(), Course::new(360).unwrap())),
        decode_speed_and_course(&[79 + 28, 93 + 28, 60 + 28])
    );
    assert_eq!(None, decode_speed_and_course(&[80 + 28, 0 + 28, 27]));
    assert_eq!(None, decode_speed_and_course(&[28, 3 + 28, 61 + 28]));
}

#[test]
fn mic_e_information_round_trip() {
    for (deg, speed, course) in [(0u32, 0u32, 0u32), (9, 199, 99), (10, 200, 100), (99, 799, 360), (100, 5, 7), (109, 64, 35), (110, 640, 244), (179, 9, 283)] {
        for min in [0u32, 9, 10, 59] {
            let m = AprsMicE {
                latitude: lat(-12.5),
                longitude: Longitude::from_dmh(deg, min, 99, deg % 2 == 0).unwrap(),
                precision: Precision::HundredthMinute,
                message: Message::C4,
                speed: Speed::new(speed).unwrap(),
                course: Course::new(course).unwrap(),
                symbol_table: '\\',
                symbol_code: 'k',
                comment: b"}x".to_vec(),
                current: speed % 2 == 0,
            };
            let mut buf = vec![];
            m.encode(&mut buf).unwrap();
            assert_eq!(if m.current { b'`' } else { b'\'' }, buf[0]);
            assert_eq!(11, buf.len());
            assert_eq!(
                Ok(m.clone()),
                AprsMicE::decode(&buf[1..], m.encode_destination(), m.current)
            );
        }
    }
}

#[test]
fn mic_e_cannot_hold_180_degrees() {
    let m = AprsMicE {
        latitude: lat(0.0),
        longitude: lon(-180.0),
        precision: Precision::HundredthMinute,
        message: Message::Emergency,
        speed: Speed::new(0).unwrap(),
        course: Course::unknown(),
        symbol_table: '/',
        symbol_code: '>',
        comment: vec![],
        current: true,
    };
    let mut buf = b"keep".to_vec();
    assert!(matches!(
        m.encode(&mut buf),
        Err(EncodeError::InvalidLongitude(l)) if l == lon(-180.0)
    ));
    assert_eq!(b"keep".to_vec(), buf);
}

#[test]
fn destination_holds_latitude_message_and_flags() {
    let mut m = AprsMicE {
        latitude: lat(33.42733333333333),
        longitude: lon(-12.129),
        precision: Precision::HundredthMinute,
        message: Message::M3,
        speed: Speed::new(20).unwrap(),
        course: Course::new(251).unwrap(),
        symbol_table: '/',
        symbol_code: 'j',
        comment: vec![],
        current: true,
    };
    assert_eq!(Callsign::new_no_ssid("S32U6T"), m.encode_destination());
    m.message = Message::Emergency;
    assert_eq!(Callsign::new_no_ssid("332U6T"), m.encode_destination());
    m.message = Message::C0;
    assert_eq!(Callsign::new_no_ssid("DDCU6T"), m.encode_destination());
    m.message = Message::Unknown;
    assert_eq!(Callsign::new_no_ssid("SDRU6T"), m.encode_destination());
    m.precision = Precision::OneDegree;
    assert_eq!(Callsign::new_no_ssid("SDZZLZ"), m.encode_destination());
    m.precision = Precision::TenMinute;
    m.latitude = lat(-33.42733333333333);
    m.longitude = lon(12.129);
    m.message = Message::M6;
    assert_eq!(Callsign::new_no_ssid("33RLLL"), m.encode_destination());
    m.longitude = lon(-5.0);
    assert_eq!(Callsign::new_no_ssid("33RLZZ"), m.encode_destination());
}

#[test]
fn messages_and_their_bits() {
    let zero = MessageBit::Zero;
    let custom = MessageBit::CustomOne;
    let standard = MessageBit::StandardOne;
    let all = [
        Message::M0, Message::M1, Message::M2, Message::M3, Message::M4, Message::M5,
        Message::M6, Message::C0, Message::C1, Message::C2, Message::C3, Message::C4,
        Message::C5, Message::C6, Message::Emergency, Message::Unknown,
    ];
    for m in all {
        let (a, b, c) = m.encode();
        assert_eq!(m, Message::decode(a, b, c));
    }
    assert_eq!(Message::M1, Message::decode(standard, standard, zero));
    assert_eq!(Message::C6, Message::decode(zero, zero, custom));
    assert_eq!(Message::Emergency, Message::decode(zero, zero, zero));
    assert_eq!(Message::Unknown, Message::decode(custom, standard, zero));
    assert_eq!((standard, custom, standard), Message::Unknown.encode());
}

#[test]
fn bytes_of_the_destination() {
    assert_eq!(Some(MessageBit::Zero), MessageBit::decode(b'0'));
    assert_eq!(Some(MessageBit::Zero), MessageBit::decode(b'L'));
    assert_eq!(Some(MessageBit::CustomOne), MessageBit::decode(b'A'));
    assert_eq!(Some(MessageBit::CustomOne), MessageBit::decode(b'K'));
    assert_eq!(Some(MessageBit::StandardOne), MessageBit::decode(b'P'));
    assert_eq!(Some(MessageBit::StandardOne), MessageBit::decode(b'Z'));
    assert_eq!(None, MessageBit::decode(b'M'));
    assert_eq!(None, MessageBit::decode(b'a'));

    assert_eq!(Some(LatDir::South), LatDir::decode(b'9'));
    assert_eq!(Some(LatDir::North), LatDir::decode(b'P'));
    assert_eq!(None, LatDir::decode(b'A'));
    assert_eq!(b'N', LatDir::North.byte());
    assert_eq!(b'S', LatDir::South.byte());
    assert_eq!(Some(LongOffset::Zero), LongOffset::decode(b'L'));
    assert_eq!(Some(LongOffset::Hundred), LongOffset::decode(b'Y'));
    assert_eq!(None, LongOffset::decode(b'K'));
    assert_eq!(Some(LongDir::East), LongDir::decode(b'0'));
    assert_eq!(Some(LongDir::West), LongDir::decode(b'Z'));
    assert_eq!(None, LongDir::decode(b'O'));

    assert_eq!(Some(b'7'), decode_latitude_digit(b'7'));
    assert_eq!(Some(b'0'), decode_latitude_digit(b'A'));
    assert_eq!(Some(b'9'), decode_latitude_digit(b'J'));
    assert_eq!(Some(b' '), decode_latitude_digit(b'K'));
    assert_eq!(Some(b' '), decode_latitude_digit(b'L'));
    assert_eq!(Some(b' '), decode_latitude_digit(b'Z'));
    assert_eq!(Some(b'0'), decode_latitude_digit(b'P'));
    assert_eq!(Some(b'9'), decode_latitude_digit(b'Y'));
    assert_eq!(None, decode_latitude_digit(b'M'));

    assert_eq!(b'3', encode_bits_012(b'3', MessageBit::Zero));
    assert_eq!(b'L', encode_bits_012(b' ', MessageBit::Zero));
    assert_eq!(b'D', encode_bits_012(b'3', MessageBit::CustomOne));
    assert_eq!(b'K', encode_bits_012(b' ', MessageBit::CustomOne));
    assert_eq!(b'S', encode_bits_012(b'3', MessageBit::StandardOne));
    assert_eq!(b'Z', encode_bits_012(b' ', MessageBit::StandardOne));
    assert_eq!(b'U', encode_bit_3(b'5', LatDir::North));
    assert_eq!(b'5', encode_bit_3(b'5', LatDir::South));
    assert_eq!(b'Z', encode_bit_4(b' ', LongOffset::Hundred));
    assert_eq!(b'6', encode_bit_4(b'6', LongOffset::Zero));
    assert_eq!(b'T', encode_bit_5(b'4', LongDir::West));
    assert_eq!(b'L', encode_bit_5(b' ', LongDir::East));
}
