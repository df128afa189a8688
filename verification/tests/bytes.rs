use aprs_parser::base91::{decode_ascii, encode_ascii};
use aprs_parser::bytes::parse_bytes_trailing_spaces;
use aprs_parser::utils::trim_spaces_end;
use aprs_parser::{digit_from_ascii, digit_to_ascii, parse_bytes};

#[test]
fn parse_correctly_u32() {
    assert_eq!(Some(123), parse_bytes::<u32>(b"0123"));
}

#[test]
fn parse_fail_on_non_utf8() {
    assert_eq!(None, parse_bytes::<u32>(b"\xF0\xA4\xAD"));
}

#[test]
fn parse_fail_on_not_a_number() {
    assert_eq!(None, parse_bytes::<u32>(b"0123NotANumber"));
    assert_eq!(None, parse_bytes::<u32>(b"NotANumber0123"))
}

#[test]
fn parse_bytes_takes_a_plus_sign() {
    assert_eq!(Some(5), parse_bytes::<u8>(b"+5"));
    assert_eq!(None, parse_bytes::<u8>(b"+"));
    assert_eq!(None, parse_bytes::<u8>(b"++5"));
    assert_eq!(None, parse_bytes::<u8>(b"-5"));
    assert_eq!(None, parse_bytes::<u8>(b""));
}

#[test]
fn parse_bytes_respects_the_type() {
    assert_eq!(Some(255), parse_bytes::<u8>(b"255"));
    assert_eq!(None, parse_bytes::<u8>(b"256"));
    assert_eq!(Some(65535), parse_bytes::<u16>(b"65535"));
    assert_eq!(None, parse_bytes::<u16>(b"65536"));
    assert_eq!(Some(4294967295), parse_bytes::<u32>(b"4294967295"));
    assert_eq!(None, parse_bytes::<u32>(b"4294967296"));
    assert_eq!(Some(7), parse_bytes::<u8>(b"0000000000000000000000007"));
    assert_eq!(None, parse_bytes::<u32>(b"99999999999999999999999999"));
}

#[test]
fn lonlat_test_parse_bytes_trailing_spaces() {
    assert_eq!(Some((12, 0)), parse_bytes_trailing_spaces(b"12", false));
    assert_eq!(Some((10, 1)), parse_bytes_trailing_spaces(b"1 ", false));
    assert_eq!(Some((0, 2)), parse_bytes_trailing_spaces(b"  ", false));

    assert_eq!(None, parse_bytes_trailing_spaces(b" 2", false));

    assert_eq!(None, parse_bytes_trailing_spaces(b"12", true));
    assert_eq!(None, parse_bytes_trailing_spaces(b"1 ", true));
    assert_eq!(None, parse_bytes_trailing_spaces(b" 1", true));
    assert_eq!(Some((0, 2)), parse_bytes_trailing_spaces(b"  ", true));
}

// whether the field held any blank, as a flag
fn flagged(r: Option<(u32, u8)>) -> Option<(u32, bool)> {
    r.map(|(v, n)| (v, n > 0))
}

#[test]
fn test_parse_bytes_trailing_spaces() {
    assert_eq!(Some((12, false)), flagged(parse_bytes_trailing_spaces(b"12", false)));
    assert_eq!(Some((10, true)), flagged(parse_bytes_trailing_spaces(b"1 ", false)));
    assert_eq!(Some((0, true)), flagged(parse_bytes_trailing_spaces(b"  ", false)));

    assert_eq!(None, flagged(parse_bytes_trailing_spaces(b" 2", false)));

    assert_eq!(None, flagged(parse_bytes_trailing_spaces(b"12", true)));
    assert_eq!(None, flagged(parse_bytes_trailing_spaces(b"1 ", true)));
    assert_eq!(None, flagged(parse_bytes_trailing_spaces(b" 1", true)));
    assert_eq!(Some((0, true)), flagged(parse_bytes_trailing_spaces(b"  ", true)));
}

#[test]
fn base91_encode_works() {
    let val = 20427156;
    let expected = &b"<*e7"[..];

    let mut buf = vec![];
    encode_ascii(val, &mut buf, 4);
    assert_eq!(expected, buf);
}

#[test]
fn encode_with_padding() {
    let val = 20427156;
    let expected = &b"!!!!<*e7"[..];

    let mut buf = vec![];
    encode_ascii(val, &mut buf, 8);
    assert_eq!(expected, buf);
}

#[test]
fn encode_with_under_padding() {
    let val = 20427156;
    let expected = &b"<*e7"[..];

    let mut buf = vec![];
    encode_ascii(val, &mut buf, 1);
    assert_eq!(expected, buf);
}

#[test]
fn base91_decode_works() {
    let ascii = &b"<*e7"[..];
    let expected = 20427156;

    assert_eq!(Some(expected), decode_ascii(ascii));
}

#[test]
fn decode_invalid_digits_returns_none() {
    let ascii = &b"<* 1"[..];
    assert_eq!(None, decode_ascii(ascii));
}

#[test]
fn edge_case() {
    let ascii = &b"#$%^"[..];
    let num = 1532410;

    assert_eq!(num, decode_ascii(ascii).unwrap());

    let mut buf = vec![];
    encode_ascii(num, &mut buf, 4);
    assert_eq!(ascii, buf);
}

#[test]
fn base91_round_trip_of_powers() {
    // powers of 91 have a leading one and zeros behind it
    for n in [0u64, 1, 90, 91, 92, 8280, 8281, 753571, 68574960] {
        let mut buf = vec![];
        encode_ascii(n, &mut buf, 4);
        assert_eq!(4, buf.len());
        assert_eq!(Some(n), decode_ascii(&buf));
    }
}

#[test]
fn base91_length_is_padding_or_digits() {
    let mut buf = vec![];
    encode_ascii(91 * 91 * 91 * 91, &mut buf, 4);
    assert_eq!(b"\"!!!!".to_vec(), buf);
    let mut buf = vec![];
    encode_ascii(5, &mut buf, 0);
    assert_eq!(b"&".to_vec(), buf);
    let mut buf = vec![];
    encode_ascii(0, &mut buf, 0);
    assert_eq!(b"".to_vec(), buf);
    let mut buf = vec![];
    encode_ascii(0, &mut buf, 3);
    assert_eq!(b"!!!".to_vec(), buf);
}

#[test]
fn base91_digits() {
    assert_eq!(33, digit_to_ascii(0));
    assert_eq!(123, digit_to_ascii(90));
    assert_eq!(Some(0), digit_from_ascii(33));
    assert_eq!(Some(90), digit_from_ascii(b'{'));
    assert_eq!(None, digit_from_ascii(32));
}

#[test]
fn trims_only_the_end() {
    let mut v = b"  a b  ".to_vec();
    trim_spaces_end(&mut v);
    assert_eq!(b"  a b".to_vec(), v);
    let mut v = b"   ".to_vec();
    trim_spaces_end(&mut v);
    assert_eq!(b"".to_vec(), v);
    let mut v = b"abc".to_vec();
    trim_spaces_end(&mut v);
    assert_eq!(b"abc".to_vec(), v);
}
