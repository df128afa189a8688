use aprs_parser::{DecodeError, DhmTimestamp, Timestamp};

#[test]
fn parse_ddhhmm() {
    assert_eq!(
        Timestamp::try_from(&b"123456z"[..]),
        Ok(Timestamp::DDHHMM(12, 34, 56))
    );

    assert_eq!(
        Timestamp::try_from(&b"123456Z"[..]),
        Ok(Timestamp::DDHHMM(12, 34, 56))
    );
}

#[test]
fn parse_hhmmss() {
    assert_eq!(
        Timestamp::try_from(&b"123456h"[..]),
        Ok(Timestamp::HHMMSS(12, 34, 56))
    );

    assert_eq!(
        Timestamp::try_from(&b"123456H"[..]),
        Ok(Timestamp::HHMMSS(12, 34, 56))
    );
}

#[test]
fn parse_local_time() {
    assert_eq!(
        Timestamp::try_from(&b"123456/"[..]),
        Ok(Timestamp::Unsupported(b"123456/".to_vec()))
    );
}

#[test]
fn invalid_timestamp() {
    assert_eq!(
        Timestamp::try_from(&b"1234567"[..]),
        Err(DecodeError::InvalidTimestamp(b"1234567".to_vec()))
    );
}

#[test]
fn invalid_timestamp2() {
    assert_eq!(
        Timestamp::try_from(&b"123a56z"[..]),
        Err(DecodeError::InvalidTimestamp(b"123a56z".to_vec()))
    );
}

#[test]
fn invalid_timestamp_length() {
    assert_eq!(
        Timestamp::decode(&b"12345z"[..]),
        Err(DecodeError::InvalidTimestamp(b"12345z".to_vec()))
    );
    assert_eq!(
        Timestamp::decode(&b"1234567z"[..]),
        Err(DecodeError::InvalidTimestamp(b"1234567z".to_vec()))
    );
}

#[test]
fn encode_ddhhmm() {
    let mut buf = vec![];
    Timestamp::DDHHMM(65, 43, 21).encode(&mut buf);
    assert_eq!(b"654321z"[..], buf);
}

#[test]
fn encode_hhmmss() {
    let mut buf = vec![];
    Timestamp::HHMMSS(65, 43, 21).encode(&mut buf);
    assert_eq!(b"654321h"[..], buf);
}

#[test]
fn encode_local_time() {
    let mut buf = vec![];
    Timestamp::Unsupported(b"135a67z".to_vec()).encode(&mut buf);
    assert_eq!(b"135a67z"[..], buf);
}

#[test]
fn encode_pads_with_zeros() {
    let mut buf = vec![];
    Timestamp::DDHHMM(1, 0, 9).encode(&mut buf);
    assert_eq!(b"010009z"[..], buf);
    let mut buf = vec![];
    Timestamp::HHMMSS(100, 7, 255).encode(&mut buf);
    assert_eq!(b"10007255h"[..], buf);
}

#[test]
fn constructors_check_the_range() {
    assert_eq!(Some(Timestamp::DDHHMM(99, 99, 99)), Timestamp::new_dhm(99, 99, 99));
    assert_eq!(None, Timestamp::new_dhm(100, 0, 0));
    assert_eq!(None, Timestamp::new_dhm(0, 100, 0));
    assert_eq!(None, Timestamp::new_dhm(0, 0, 100));
    assert_eq!(Some(Timestamp::HHMMSS(0, 0, 0)), Timestamp::new_hms(0, 0, 0));
    assert_eq!(None, Timestamp::new_hms(0, 0, 100));
    assert_eq!(None, DhmTimestamp::new(0, 100, 0));
}

#[test]
fn convert_dhm_timestamp_to_normal_timestamp() {
    let timestamp: Timestamp = DhmTimestamp::new(12, 34, 56).unwrap().into();
    assert_eq!(Timestamp::new_dhm(12, 34, 56).unwrap(), timestamp);
    assert_eq!(timestamp, DhmTimestamp::new(12, 34, 56).unwrap().to_timestamp());
}

#[test]
fn convert_timestamp_to_dhm_timestamp_success() {
    let timestamp = Timestamp::new_dhm(65, 43, 21).unwrap();
    assert_eq!(
        DhmTimestamp::new(65, 43, 21),
        DhmTimestamp::from_timestamp(&timestamp)
    );
    assert_eq!(
        DhmTimestamp::new(65, 43, 21).unwrap(),
        timestamp.try_into().unwrap()
    );
}

#[test]
fn convert_timestamp_to_dhm_timestamp_failure() {
    let timestamp = Timestamp::new_hms(65, 43, 21).unwrap();
    assert_eq!(None, DhmTimestamp::from_timestamp(&timestamp));
    let dhm: Result<DhmTimestamp, ()> = timestamp.try_into();
    assert_eq!(Err(()), dhm);
    let dhm: Result<DhmTimestamp, ()> = Timestamp::DDHHMM(100, 0, 0).try_into();
    assert_eq!(Err(()), dhm);
}
