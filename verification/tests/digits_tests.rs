use dist_sys_rs::digits::{dec_string, parse_dec};
use dist_sys_rs::kafka::storage::parse_record;

#[test]
fn test_dec_string_exact() {
    assert_eq!("0", dec_string(0));
    assert_eq!("7", dec_string(7));
    assert_eq!("1234", dec_string(1234));
    assert_eq!("18446744073709551615", dec_string(u64::MAX));
}

#[test]
fn test_parse_dec_round_trip() {
    let s = "90210";
    assert_eq!(Some(90210), parse_dec(s, 0, 5));
    assert_eq!(Some(21), parse_dec(s, 2, 4));
    assert_eq!(None, parse_dec(s, 3, 3));
    assert_eq!(None, parse_dec("12a4", 0, 4));
}

#[test]
fn test_parse_record_exact() {
    let parsed = parse_record("12:k1:34").unwrap();
    assert_eq!(12, parsed.0);
    assert_eq!("k1", parsed.1);
    assert_eq!(34, parsed.2);

    // an empty key is still a record
    let parsed = parse_record("0::5").unwrap();
    assert_eq!("", parsed.1);

    assert!(parse_record("").is_none());
    assert!(parse_record("12:k1").is_none());
    assert!(parse_record("12:k:1:34").is_none());
    assert!(parse_record("x:k1:34").is_none());
    assert!(parse_record("12:k1:y").is_none());
}
