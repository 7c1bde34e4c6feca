use todo_relay::scalar::{Timestamp, ID};

fn id_token(id: i64) -> String {
    ID(id).encode()
}

#[test]
fn id_encodes_big_endian_bytes_as_base64url() {
    assert_eq!(id_token(1), "AAAAAAAAAAE");
    assert_eq!(id_token(-1), "__________8");
    assert_eq!(id_token(123456789), "AAAAAAdbzRU");
}

#[test]
fn id_round_trips() {
    for id in [0i64, 1, -1, 42, i64::MAX, i64::MIN, 123456789] {
        let token = id_token(id);
        let back = ID::decode(token.as_bytes()).unwrap();
        assert_eq!(back.0, id);
    }
}

#[test]
fn id_rejects_wrong_byte_length() {
    // base64url of seven zero bytes
    assert!(ID::decode(b"AAAAAAAAAA").is_err());
    assert!(ID::decode(b"").is_err());
    assert!(ID::decode(b"%%%").is_err());
}

#[test]
fn timestamp_renders_rfc3339_in_utc() {
    let t = Timestamp(0);
    assert_eq!(t.to_rfc3339().unwrap().as_str(), "1970-01-01T00:00:00+00:00");
    let t2 = Timestamp(1431648000);
    assert_eq!(
        t2.to_rfc3339().unwrap().as_str(),
        "2015-05-15T00:00:00+00:00"
    );
}

#[test]
fn timestamp_rendering_fails_only_out_of_calendar_range() {
    // far outside the representable calendar there is no rendering
    assert!(Timestamp(i64::MAX).to_rfc3339().is_err());
    assert!(Timestamp(i64::MIN).to_rfc3339().is_err());
    // every ordinary second renders
    assert!(Timestamp(1700000000).to_rfc3339().is_ok());
    assert!(Timestamp(-1700000000).to_rfc3339().is_ok());
}

#[test]
fn timestamp_parses_rfc3339() {
    let t = Timestamp::parse_rfc3339("1970-01-01T00:00:00Z").unwrap();
    assert_eq!(t.0, 0);
    let t2 = Timestamp::parse_rfc3339("2015-05-15T00:00:00+00:00").unwrap();
    assert_eq!(t2.0, 1431648000);
    // an offset shifts the epoch second
    let t3 = Timestamp::parse_rfc3339("1970-01-01T00:00:00+01:00").unwrap();
    assert_eq!(t3.0, -3600);
}

#[test]
fn timestamp_rejects_non_rfc3339() {
    assert!(Timestamp::parse_rfc3339("yesterday").is_err());
    assert!(Timestamp::parse_rfc3339("1970-01-01").is_err());
    assert!(Timestamp::parse_rfc3339("").is_err());
}

#[test]
fn timestamp_round_trips_through_rfc3339() {
    for secs in [0i64, 1, -1, 1700000000, -62135596800] {
        let rendered = Timestamp(secs).to_rfc3339().unwrap();
        let back = Timestamp::parse_rfc3339(rendered.as_str()).unwrap();
        assert_eq!(back.0, secs);
    }
}

#[test]
fn scalars_convert_from_i64() {
    let id = ID::from(9);
    assert_eq!(id.value(), 9);
    let ts = Timestamp::from(-3);
    assert_eq!(ts.value(), -3);
}
