use baker::utils::{from_hex, hex_decode, hex_encode, is_url, HexError};

#[test]
fn hex_round_trip() {
    let data = b"hello world";
    let hex = hex_encode(data);
    let decoded = hex_decode(&hex).unwrap();
    assert_eq!(decoded, data);
}

#[test]
fn invalid_hex_errors() {
    assert!(hex_decode("abc").is_err());
    assert!(hex_decode("zz").is_err());
}

#[test]
fn detects_urls() {
    assert!(is_url("http://example.com/x"));
    assert!(is_url("https://example.com/x"));
    assert!(!is_url("ftp://example.com/x"));
    assert!(!is_url("/tmp/file"));
}

#[test]
fn hex_encode_known_bytes() {
    assert_eq!(hex_encode(&[0x00, 0x0f, 0xa5, 0xff]).as_str(), "000fa5ff");
    assert_eq!(hex_encode(&[]).as_str(), "");
}

#[test]
fn hex_decode_distinguishes_errors() {
    assert!(matches!(hex_decode("abc").unwrap_err(), HexError::OddLength));
    assert!(matches!(hex_decode("zz").unwrap_err(), HexError::InvalidChar));
    assert_eq!(hex_decode("abc").unwrap_err().message().as_str(), "Invalid hex string");
    assert_eq!(hex_decode("zz").unwrap_err().message().as_str(), "Invalid hex character");
}

#[test]
fn hex_decode_accepts_upper_case() {
    assert_eq!(hex_decode("A0Ff").unwrap(), vec![0xa0, 0xff]);
}

#[test]
fn from_hex_digit_values() {
    assert_eq!(from_hex('0').unwrap(), 0);
    assert_eq!(from_hex('9').unwrap(), 9);
    assert_eq!(from_hex('a').unwrap(), 10);
    assert_eq!(from_hex('F').unwrap(), 15);
    assert!(from_hex('g').is_err());
}
