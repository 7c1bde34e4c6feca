use todo_relay::base64url::{b64_decode_bytes, b64_encode_bytes};
use todo_relay::digits::{format_i64, parse_i64_bytes};

fn encode(bytes: &[u8]) -> String {
    String::from_utf8(b64_encode_bytes(bytes)).unwrap()
}

#[test]
fn base64url_known_vectors() {
    assert_eq!(encode(b""), "");
    assert_eq!(encode(b"f"), "Zg");
    assert_eq!(encode(b"fo"), "Zm8");
    assert_eq!(encode(b"foo"), "Zm9v");
    assert_eq!(encode(b"foob"), "Zm9vYg");
    assert_eq!(encode(b"fooba"), "Zm9vYmE");
    assert_eq!(encode(b"foobar"), "Zm9vYmFy");
    // the url-safe alphabet uses '-' and '_', never '+' or '/'
    assert_eq!(encode(&[0xfb, 0xff]), "-_8");
}

#[test]
fn base64url_round_trips() {
    let cases: Vec<Vec<u8>> = vec![
        vec![],
        vec![0],
        vec![255],
        vec![1, 2, 3],
        vec![1, 2, 3, 4],
        b"1700000000:1".to_vec(),
        (0u8..=255).collect(),
    ];
    for bytes in cases {
        let token = b64_encode_bytes(bytes.as_slice());
        let back = b64_decode_bytes(token.as_slice()).unwrap();
        assert_eq!(back, bytes);
    }
}

#[test]
fn base64url_rejects_bad_input() {
    assert!(b64_decode_bytes(b"A").is_none()); // length 1 mod 4
    assert!(b64_decode_bytes(b"Zm9vY").is_none());
    assert!(b64_decode_bytes(b"Zg==").is_none()); // padding is not accepted
    assert!(b64_decode_bytes(b"Z+").is_none()); // standard alphabet byte
    assert!(b64_decode_bytes(b"Z/").is_none());
    assert!(b64_decode_bytes(b"Zh").is_none()); // nonzero trailing bits
}

#[test]
fn decimal_formatting_known_values() {
    assert_eq!(format_i64(0), b"0");
    assert_eq!(format_i64(10), b"10");
    assert_eq!(format_i64(-7), b"-7");
    assert_eq!(format_i64(i64::MAX), b"9223372036854775807");
    assert_eq!(format_i64(i64::MIN), b"-9223372036854775808");
}

#[test]
fn decimal_parsing_accepts_what_format_produces() {
    for n in [0i64, 1, -1, 9, 10, -10, 1700000000, i64::MAX, i64::MIN] {
        assert_eq!(parse_i64_bytes(format_i64(n).as_slice()), Some(n));
    }
}

#[test]
fn decimal_parsing_accepts_signs_and_leading_zeros() {
    assert_eq!(parse_i64_bytes(b"+5"), Some(5));
    assert_eq!(parse_i64_bytes(b"-0"), Some(0));
    assert_eq!(parse_i64_bytes(b"007"), Some(7));
    assert_eq!(parse_i64_bytes(b"0000000000000000000000009"), Some(9));
}

#[test]
fn decimal_parsing_rejects_junk_and_overflow() {
    assert_eq!(parse_i64_bytes(b""), None);
    assert_eq!(parse_i64_bytes(b"-"), None);
    assert_eq!(parse_i64_bytes(b"+"), None);
    assert_eq!(parse_i64_bytes(b"12a"), None);
    assert_eq!(parse_i64_bytes(b" 1"), None);
    assert_eq!(parse_i64_bytes(b"1 "), None);
    assert_eq!(parse_i64_bytes(b"9223372036854775808"), None);
    assert_eq!(parse_i64_bytes(b"-9223372036854775809"), None);
    assert_eq!(parse_i64_bytes(b"99999999999999999999999999"), None);
}
