use aprs_parser::{AprsStatus, Callsign, DhmTimestamp, Timestamp};

fn default_callsign() -> Callsign {
    Callsign::new_no_ssid("VE9")
}

#[test]
fn parse_without_timestamp_or_comment() {
    let result = AprsStatus::decode(&b""[..], default_callsign()).unwrap();
    assert_eq!(result.timestamp(), None);
    assert_eq!(result.comment(), []);
}

#[test]
fn parse_with_timestamp_without_comment() {
    let result = AprsStatus::decode(r"312359z".as_bytes(), default_callsign()).unwrap();
    assert_eq!(result.timestamp(), Some(&Timestamp::DDHHMM(31, 23, 59)));
    assert_eq!(result.comment(), b"");
}

#[test]
fn parse_without_timestamp_with_comment() {
    let result = AprsStatus::decode(&b"Hi there!"[..], default_callsign()).unwrap();
    assert_eq!(result.timestamp(), None);
    assert_eq!(result.comment(), b"Hi there!");
}

#[test]
fn parse_with_timestamp_and_comment() {
    let result = AprsStatus::decode(r"235959hHi there!".as_bytes(), default_callsign()).unwrap();
    assert_eq!(result.timestamp(), Some(&Timestamp::HHMMSS(23, 59, 59)));
    assert_eq!(result.comment(), b"Hi there!");
}

#[test]
fn compliant_time_is_compliant() {
    let result = AprsStatus::decode(r"312359z".as_bytes(), default_callsign()).unwrap();
    assert_eq!(result.timestamp(), Some(&Timestamp::DDHHMM(31, 23, 59)));
    assert!(result.is_timestamp_compliant());
}

#[test]
fn uncompliant_time_is_not_compliant() {
    let result = AprsStatus::decode(r"235959hHi there!".as_bytes(), default_callsign()).unwrap();
    assert_eq!(result.timestamp(), Some(&Timestamp::HHMMSS(23, 59, 59)));
    assert!(!result.is_timestamp_compliant());
}

#[test]
fn missing_time_is_compliant() {
    let result = AprsStatus::decode(&b"Hi there!"[..], default_callsign()).unwrap();
    assert_eq!(result.timestamp(), None);
    assert!(result.is_timestamp_compliant());
}

#[test]
fn status_keeps_its_destination() {
    let result = AprsStatus::decode(&b"Hi"[..], Callsign::new("APRS-3").unwrap()).unwrap();
    assert_eq!(&Callsign::new_with_ssid("APRS", "3"), result.to());
}

#[test]
fn status_encodes_what_it_holds() {
    let s = AprsStatus::new(
        default_callsign(),
        DhmTimestamp::new(28, 12, 5),
        b"System will shutdown".to_vec(),
    );
    let mut buf = b"x".to_vec();
    s.encode(&mut buf).unwrap();
    assert_eq!(b"x>281205zSystem will shutdown".to_vec(), buf);
    assert!(s.is_timestamp_compliant());

    let s = AprsStatus::new_noncompliant(
        default_callsign(),
        Some(Timestamp::Unsupported(b"281205/".to_vec())),
        b"".to_vec(),
    );
    let mut buf = vec![];
    s.encode(&mut buf).unwrap();
    assert_eq!(b">281205/".to_vec(), buf);
    assert!(!s.is_timestamp_compliant());

    let s = AprsStatus::new(default_callsign(), None, b"12.6V 0.2A 22degC".to_vec());
    let mut buf = vec![];
    s.encode(&mut buf).unwrap();
    assert_eq!(b">12.6V 0.2A 22degC".to_vec(), buf);
}

#[test]
fn a_short_field_is_all_comment() {
    let result = AprsStatus::decode(&b"31235z"[..], default_callsign()).unwrap();
    assert_eq!(result.timestamp(), None);
    assert_eq!(result.comment(), b"31235z");
}
