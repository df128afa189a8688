use aprs_parser::{AprsMessage, Callsign, DecodeError, EncodeError};

fn default_callsign() -> Callsign {
    Callsign::new_no_ssid("VE9")
}

#[test]
fn parse_message_invalid_dest() {
    // Dest must be padded with spaces to 9 characters long
    let result = AprsMessage::decode(
        &b"DEST  :Hello World! This msg has a : colon {32975"[..],
        default_callsign(),
    );

    assert_eq!(
        result,
        Err(DecodeError::InvalidMessageDestination(b"DEST  ".to_vec()))
    );
}

#[test]
fn parse_message_id() {
    let result = AprsMessage::decode(
        r"DESTINATI:Hello World! This msg has a : colon {329A7D5Z4".as_bytes(),
        default_callsign(),
    );

    assert_eq!(
        result,
        Ok(AprsMessage {
            to: default_callsign(),
            addressee: b"DESTINATI".to_vec(),
            id: Some(b"329A7D5Z4".to_vec()),
            data_type_identifier: b':',
            text: b"Hello World! This msg has a : colon ".to_vec()
        })
    );
}

#[test]
fn parse_message_empty_id() {
    let result = AprsMessage::decode(
        r"DESTINATI:Hello World! This msg has a : colon {".as_bytes(),
        default_callsign(),
    );

    assert_eq!(
        result,
        Ok(AprsMessage {
            to: default_callsign(),
            addressee: b"DESTINATI".to_vec(),
            id: Some(vec![]),
            data_type_identifier: b':',
            text: b"Hello World! This msg has a : colon ".to_vec()
        })
    );
}

#[test]
fn parse_message_no_id() {
    let result = AprsMessage::decode(
        r"DESTINATI:Hello World! This msg has a : colon ".as_bytes(),
        default_callsign(),
    );

    assert_eq!(
        result,
        Ok(AprsMessage {
            to: default_callsign(),
            addressee: b"DESTINATI".to_vec(),
            id: None,
            text: b"Hello World! This msg has a : colon ".to_vec(),
            data_type_identifier: b':',
        })
    );
}

#[test]
fn parse_message_without_colon() {
    assert_eq!(
        AprsMessage::decode(&b"DESTINATI"[..], default_callsign()),
        Ok(AprsMessage {
            to: default_callsign(),
            addressee: b"DESTINATI".to_vec(),
            id: None,
            text: vec![],
            data_type_identifier: b':',
        })
    );
    assert_eq!(
        AprsMessage::decode(&b""[..], default_callsign()),
        Err(DecodeError::InvalidMessageDestination(vec![]))
    );
}

#[test]
fn message_trims_and_pads_the_addressee() {
    let m = AprsMessage::decode(&b"AB       :text{1{2"[..], default_callsign()).unwrap();
    assert_eq!(b"AB".to_vec(), m.addressee);
    assert_eq!(b"text".to_vec(), m.text);
    assert_eq!(Some(b"1{2".to_vec()), m.id);
    let mut buf = vec![];
    m.encode(&mut buf).unwrap();
    assert_eq!(b":AB       :text{1{2".to_vec(), buf);
}

#[test]
fn message_refuses_a_long_addressee() {
    let m = AprsMessage {
        to: default_callsign(),
        addressee: b"0123456789".to_vec(),
        id: None,
        text: b"x".to_vec(),
        data_type_identifier: b':',
    };
    let mut buf = b"keep".to_vec();
    assert!(matches!(
        m.encode(&mut buf),
        Err(EncodeError::InvalidMessageAddressee(a)) if a == b"0123456789".to_vec()
    ));
    assert_eq!(b"keep".to_vec(), buf);
}
