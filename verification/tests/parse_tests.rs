use work_server::hints::{hash_error_strings, threshold_error_strings, work_error_strings};
use work_server::parse::{
    count_from_number, parse_count, parse_hash_json, parse_threshold_json, parse_work_json,
    HexJsonError,
};

#[test]
fn empty_hex_is_rejected_as_empty() {
    assert_eq!(parse_hash_json(Some(b"")).unwrap_err(), HexJsonError::Empty);
}

#[test]
fn odd_length_hex_is_rejected_as_invalid() {
    let sixty_three = vec![b'0'; 63];
    assert_eq!(
        parse_hash_json(Some(&sixty_three)).unwrap_err(),
        HexJsonError::InvalidHex
    );
    let sixty_five = vec![b'0'; 65];
    assert_eq!(
        parse_hash_json(Some(&sixty_five)).unwrap_err(),
        HexJsonError::InvalidHex
    );
}

#[test]
fn non_hex_text_is_rejected_as_invalid() {
    let zz = vec![b'z'; 64];
    assert_eq!(parse_hash_json(Some(&zz)).unwrap_err(), HexJsonError::InvalidHex);
    assert_eq!(parse_hash_json(None).unwrap_err(), HexJsonError::InvalidHex);
}

#[test]
fn short_hash_is_rejected_as_too_short() {
    let sixty_two = vec![b'0'; 62];
    assert_eq!(
        parse_hash_json(Some(&sixty_two)).unwrap_err(),
        HexJsonError::TooShort
    );
}

#[test]
fn long_hash_is_rejected_as_too_long() {
    let sixty_six = vec![b'0'; 66];
    assert_eq!(
        parse_hash_json(Some(&sixty_six)).unwrap_err(),
        HexJsonError::TooLong
    );
}

#[test]
fn good_hash_parses_case_insensitively() {
    let mut field = Vec::new();
    field.extend_from_slice(b"Ff");
    field.extend_from_slice(&vec![b'0'; 62]);
    let parsed = parse_hash_json(Some(&field)).unwrap();
    assert_eq!(parsed.len(), 32);
    assert_eq!(parsed[0], 0xFF);
    assert!(parsed[1..].iter().all(|&b| b == 0));
}

#[test]
fn threshold_parses_like_hash() {
    let sixty_four = vec![b'a'; 64];
    let parsed = parse_threshold_json(Some(&sixty_four)).unwrap();
    assert_eq!(parsed, vec![0xAAu8; 32]);
}

#[test]
fn short_work_is_right_aligned_then_reversed() {
    // "04" denotes the external bytes 00..04; reversed internally: 04 00...
    let parsed = parse_work_json(Some(b"04")).unwrap();
    assert_eq!(parsed, vec![4, 0, 0, 0, 0, 0, 0, 0]);
}

#[test]
fn full_work_is_reversed() {
    let parsed = parse_work_json(Some(b"0102030405060708")).unwrap();
    assert_eq!(parsed, vec![8, 7, 6, 5, 4, 3, 2, 1]);
}

#[test]
fn long_work_is_rejected() {
    assert_eq!(
        parse_work_json(Some(b"010203040506070809")).unwrap_err(),
        HexJsonError::TooLong
    );
    assert_eq!(parse_work_json(Some(b"")).unwrap_err(), HexJsonError::Empty);
}

#[test]
fn hash_error_hints_are_distinct_and_stable() {
    let (e, h) = hash_error_strings(HexJsonError::TooShort);
    assert_eq!(e, "Bad block hash");
    assert_eq!(h, "Hash is too short (should be 32 bytes)");
    let (_, h2) = hash_error_strings(HexJsonError::TooLong);
    assert_eq!(h2, "Hash is too long (should be 32 bytes)");
    let (_, h3) = hash_error_strings(HexJsonError::Empty);
    assert_eq!(h3, "Hash is empty. Expecting a hex string");
    let (_, h4) = hash_error_strings(HexJsonError::InvalidHex);
    assert_eq!(h4, "Expecting a hex string");
    assert!(h != h2 && h != h3 && h != h4 && h2 != h3 && h2 != h4 && h3 != h4);
}

#[test]
fn threshold_and_work_error_hints() {
    let (e, h) = threshold_error_strings(HexJsonError::Empty);
    assert_eq!(e, "Bad threshold");
    assert_eq!(h, "Threshold is empty. Expecting a hex string");
    let (e2, h2) = work_error_strings(HexJsonError::TooLong);
    assert_eq!(e2, "Failed to deserialize JSON");
    assert_eq!(h2, "Work is too long (should be 8 bytes)");
}

#[test]
fn count_parses_positive_decimal_strings() {
    assert_eq!(parse_count(b"4"), Some(4));
    assert_eq!(parse_count(b"18446744073709551615"), Some(u64::MAX));
    assert_eq!(parse_count(b"0"), None);
    assert_eq!(parse_count(b""), None);
    assert_eq!(parse_count(b"abc"), None);
    assert_eq!(parse_count(b"12x"), None);
    assert_eq!(parse_count(b"18446744073709551616"), None);
}

#[test]
fn count_from_number_requires_positive() {
    assert_eq!(count_from_number(0), None);
    assert_eq!(count_from_number(7), Some(7));
}
