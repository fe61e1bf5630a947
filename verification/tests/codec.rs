use oracle_attacks::codec::{from_base64, from_hex, from_base64_lines, from_hex_lines, Serialize};
use oracle_attacks::codec_tables::{u8_from_base64, u8_from_hex, u8_to_base64, u8_to_hex};
use oracle_attacks::errors::Error;

#[test]
fn base64_known_values() {
    assert_eq!(b"Man".as_ref().to_base64(), "TWFu");
    assert_eq!(b"Ma".as_ref().to_base64(), "TWE=");
    assert_eq!(b"M".as_ref().to_base64(), "TQ==");
    assert_eq!(b"".as_ref().to_base64(), "");
    assert_eq!(b"light work.".as_ref().to_base64(), "bGlnaHQgd29yay4=");
}

#[test]
fn hex_known_values() {
    assert_eq!([0xdeu8, 0xad, 0xbe, 0xef].as_ref().to_hex(), "deadbeef");
    assert_eq!(b"".as_ref().to_hex(), "");
    assert_eq!([0x0fu8, 0xf0].as_ref().to_hex(), "0ff0");
}

#[test]
fn base64_round_trip_various_lengths() {
    for len in 0..50usize {
        let bytes: Vec<u8> = (0..len).map(|i| (i * 37 + 11) as u8).collect();
        let encoded = bytes.as_slice().to_base64();
        let decoded = from_base64(&encoded).unwrap();
        assert_eq!(decoded, bytes);
    }
}

#[test]
fn hex_round_trip_various_lengths() {
    for len in 0..50usize {
        let bytes: Vec<u8> = (0..len).map(|i| (i * 53 + 7) as u8).collect();
        let encoded = bytes.as_slice().to_hex();
        let decoded = from_hex(&encoded).unwrap();
        assert_eq!(decoded, bytes);
    }
}

#[test]
fn from_base64_rejects_bad_input() {
    assert_eq!(from_base64("abc"), Err(Error::InvalidLength));
    assert_eq!(from_base64("a&cd"), Err(Error::InvalidCharacter));
    // 'R' has value 17, whose low bits are dropped by `==` padding.
    assert_eq!(from_base64("AR=="), Err(Error::InvalidPadding));
    assert_eq!(from_base64("AAB="), Err(Error::InvalidPadding));
    assert_eq!(from_base64(""), Ok(vec![]));
}

#[test]
fn from_hex_rejects_bad_input() {
    assert_eq!(from_hex("abc"), Err(Error::InvalidLength));
    assert_eq!(from_hex("zz"), Err(Error::InvalidCharacter));
    assert_eq!(from_hex("00ff"), Ok(vec![0x00, 0xff]));
    assert_eq!(from_hex("00FF"), Ok(vec![0x00, 0xff]));
}

#[test]
fn digit_helpers() {
    assert_eq!(u8_to_base64(0), 'A');
    assert_eq!(u8_to_base64(63), '/');
    assert_eq!(u8_from_base64('A'), Ok(0));
    assert_eq!(u8_from_base64('/'), Ok(63));
    assert_eq!(u8_from_base64('='), Err(Error::InvalidCharacter));
    assert_eq!(u8_to_hex(10), 'a');
    assert_eq!(u8_from_hex('a'), Ok(10));
    assert_eq!(u8_from_hex('A'), Ok(10));
    assert_eq!(u8_from_hex('g'), Err(Error::InvalidCharacter));
}

#[test]
fn decode_lines() {
    let lines = vec!["TWFu".to_string(), "TQ==".to_string()];
    let decoded = from_base64_lines(&lines).unwrap();
    assert_eq!(decoded, vec![b"Man".to_vec(), b"M".to_vec()]);

    let hex_lines = vec!["dead".to_string(), "beef".to_string()];
    let decoded = from_hex_lines(&hex_lines).unwrap();
    assert_eq!(decoded, vec![vec![0xde, 0xad], vec![0xbe, 0xef]]);

    let bad = vec!["TWFu".to_string(), "x".to_string()];
    assert_eq!(from_base64_lines(&bad), Err(Error::InvalidLength));
}

#[test]
fn decode_profile_pairs() {
    let pairs = oracle_attacks::profile::decode_profile(b"foo=bar&baz=qux&zap=zazzle", b'&');
    assert_eq!(pairs.len(), 3);
    assert_eq!(pairs[0], (b"foo".to_vec(), b"bar".to_vec()));
    assert_eq!(pairs[1], (b"baz".to_vec(), b"qux".to_vec()));
    assert_eq!(pairs[2], (b"zap".to_vec(), b"zazzle".to_vec()));

    let pairs = oracle_attacks::profile::decode_profile(b"email=foo@bar.com&uid=10&role=user", b'&');
    assert_eq!(pairs[0], (b"email".to_vec(), b"foo@bar.com".to_vec()));
    assert_eq!(pairs[2], (b"role".to_vec(), b"user".to_vec()));

    // A piece without `=` has an empty value; extra `=` pieces are cut at
    // the second `=`.
    let pairs = oracle_attacks::profile::decode_profile(b"lonely&a=b=c", b'&');
    assert_eq!(pairs[0], (b"lonely".to_vec(), b"".to_vec()));
    assert_eq!(pairs[1], (b"a".to_vec(), b"b".to_vec()));
}
