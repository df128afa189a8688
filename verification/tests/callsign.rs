use aprs_parser::{Callsign, CallsignField, EncodeError};

#[test]
fn parse_callsign() {
    assert_eq!(
        Callsign::decode_textual(&b"ABCDEF"[..]),
        Some((Callsign::new("ABCDEF").unwrap(), false))
    );
}

#[test]
fn parse_heard_callsign() {
    assert_eq!(
        Callsign::decode_textual(&b"ABCDEF*"[..]),
        Some((Callsign::new("ABCDEF").unwrap(), true))
    );
}

#[test]
fn parse_with_ssid() {
    assert_eq!(
        Callsign::decode_textual(&b"ABCDEF-2"[..]),
        Some((Callsign::new_with_ssid("ABCDEF", "2"), false))
    );
}

#[test]
fn omit_end_spaces() {
    assert_eq!(
        Callsign::decode_ax25(&[172, 138, 114, 64, 64, 64, 1]),
        Some((Callsign::new_no_ssid("VE9"), false, false))
    )
}

#[test]
fn spaces_in_middle() {
    assert_eq!(Callsign::decode_ax25(&[172, 64, 114, 64, 64, 64, 1]), None)
}

#[test]
fn uppercase_callsign() {
    assert_eq!(
        Callsign::decode_ax25(&[236, 202, 114, 64, 64, 64, 1]),
        Some((Callsign::new_no_ssid("VE9"), false, false))
    );

    let mut buf = vec![];
    let c = Callsign::new_no_ssid("ve9");
    c.encode_ax25(&mut buf, CallsignField::Destination, false)
        .unwrap();
    assert_eq!(&[172, 138, 114, 64, 64, 64, 225][..], buf);

    // sanity check with callsign that's already uppercased
    let mut buf = vec![];
    let c = Callsign::new_no_ssid("VE9");
    c.encode_ax25(&mut buf, CallsignField::Destination, false)
        .unwrap();
    assert_eq!(&[172, 138, 114, 64, 64, 64, 225][..], buf);
}

#[test]
fn non_alphanumeric() {
    let mut buf = vec![];
    assert!(matches!(
    Callsign::new_no_ssid("VE9---").encode_ax25(
        &mut buf,
        CallsignField::Destination,
        false
    ),
    Err(EncodeError::InvalidCallsign(c)) if c == Callsign::new_no_ssid(
        "VE9---"
    )));
    assert!(buf.is_empty());
}

#[test]
fn callsign_too_long() {
    let mut buf = vec![];
    assert!(matches!(
        Callsign::new_no_ssid("VE9ABCD").encode_ax25(
            &mut buf,
            CallsignField::Source,
            false
        ),
        Err(EncodeError::InvalidCallsign(c)) if c == Callsign::new_no_ssid(
            "VE9ABCD"
        )
    ));
}

#[test]
fn empty_callsign() {
    assert_eq!(Callsign::decode_textual("-3".as_bytes()), None);
}

#[test]
fn empty_ssid() {
    assert_eq!(Callsign::decode_textual("ABCDEF-".as_bytes()), None);
}

#[test]
fn non_utf8() {
    assert_eq!(Callsign::decode_textual(&b"ABCDEF\xF0\xA4\xAD"[..]), None);
}

#[test]
fn textual_no_ssid() {
    let c = Callsign::new_no_ssid("ABCDEF");

    assert_eq!("ABCDEF", c.to_string());

    let mut buf = vec![];
    c.encode_textual(true, &mut buf);
    assert_eq!(&b"ABCDEF*"[..], buf);

    buf.clear();
    c.encode_textual(false, &mut buf);
    assert_eq!(&b"ABCDEF"[..], buf);
}

#[test]
fn textual_with_ssid() {
    let c = Callsign::new_with_ssid("ABCDEF", "XF");

    assert_eq!("ABCDEF-XF", c.to_string());

    let mut buf = vec![];
    c.encode_textual(true, &mut buf);
    assert_eq!(&b"ABCDEF-XF*"[..], buf);

    buf.clear();
    c.encode_textual(false, &mut buf);
    assert_eq!(&b"ABCDEF-XF"[..], buf);
}

#[test]
fn textual_non_ascii_characters() {
    let c = Callsign::new_with_ssid("ABCDEF\x001\x002", "XF\x002\x003");

    assert_eq!("ABCDEF\x001\x002-XF\x002\x003", c.to_string());

    let mut buf = vec![];
    c.encode_textual(true, &mut buf);
    assert_eq!(&b"ABCDEF\x001\x002-XF\x002\x003*"[..], buf);

    buf.clear();
    c.encode_textual(false, &mut buf);
    assert_eq!(&b"ABCDEF\x001\x002-XF\x002\x003"[..], buf);
}

#[test]
fn display_no_ssid() {
    assert_eq!("ABCDEF", Callsign::new_no_ssid("ABCDEF").to_string());
}

#[test]
fn display_with_ssid() {
    assert_eq!(
        "ABCDEF-12",
        Callsign::new_with_ssid("ABCDEF", "12").to_string()
    );
}

#[test]
fn display_leaves_out_an_empty_ssid_and_zero() {
    assert_eq!("ABCDEF", Callsign::new_with_ssid("ABCDEF", "").to_string());
    assert_eq!("ABCDEF", Callsign::new_with_ssid("ABCDEF", "0").to_string());
    assert_eq!("ABCDEF-00", Callsign::new_with_ssid("ABCDEF", "00").to_string());
    assert_eq!("ABCDEF-10", Callsign::new_with_ssid("ABCDEF", "10").to_string());
}

#[test]
fn display_of_text_beyond_ascii() {
    assert_eq!("Zürich-é", Callsign::new("Zürich-é").unwrap().to_string());
}

#[test]
fn splits_at_the_first_hyphen() {
    let c = Callsign::new("A-B-C").unwrap();
    assert_eq!(b"A", c.call());
    assert_eq!(Some(&b"B-C"[..]), c.ssid());
    assert_eq!(None, Callsign::new("-"));
    assert_eq!(b"", Callsign::new("").unwrap().call());
}

#[test]
fn ax25_round_trip_with_ssid_and_flags() {
    let c = Callsign::new_with_ssid("ve9gfi", "15");
    let mut buf = vec![];
    c.encode_ax25(&mut buf, CallsignField::Via(true), true).unwrap();
    assert_eq!(
        vec![0xac, 0x8a, 0x72, 0x8e, 0x8c, 0x92, 0b1111_1110],
        buf
    );
    assert_eq!(
        Some((Callsign::new_with_ssid("VE9GFI", "15"), true, true)),
        Callsign::decode_ax25(&buf)
    );

    let mut buf = vec![];
    c.encode_ax25(&mut buf, CallsignField::Source, false).unwrap();
    assert_eq!(0b0111_1111, buf[6]);
    let mut buf = vec![];
    c.encode_ax25(&mut buf, CallsignField::Via(false), false).unwrap();
    assert_eq!(0b0111_1111, buf[6]);
}

#[test]
fn ax25_ssid_zero_is_absent() {
    let mut buf = vec![];
    Callsign::new_with_ssid("A", "0")
        .encode_ax25(&mut buf, CallsignField::Source, true)
        .unwrap();
    assert_eq!(vec![0x82, 64, 64, 64, 64, 64, 0x60], buf);
    assert_eq!(
        Some((Callsign::new_no_ssid("A"), false, true)),
        Callsign::decode_ax25(&buf)
    );
}

#[test]
fn ax25_refuses_a_bad_ssid() {
    let mut buf = vec![1, 2, 3];
    for ssid in ["16", "X", "", "-1", "300"] {
        let c = Callsign::new_with_ssid("VE9", ssid);
        assert!(matches!(
            c.encode_ax25(&mut buf, CallsignField::Source, false),
            Err(EncodeError::InvalidCallsign(x)) if x == c
        ));
        assert_eq!(vec![1, 2, 3], buf);
    }
}

#[test]
fn ax25_refuses_malformed_fields() {
    // a low bit set
    assert_eq!(Callsign::decode_ax25(&[173, 138, 114, 64, 64, 64, 1]), None);
    // not a letter or digit
    assert_eq!(Callsign::decode_ax25(&[172, 90, 114, 64, 64, 64, 1]), None);
    // six bytes, eight bytes
    assert_eq!(Callsign::decode_ax25(&[172, 138, 114, 64, 64, 64]), None);
    assert_eq!(Callsign::decode_ax25(&[172, 138, 114, 64, 64, 64, 1, 1]), None);
}
