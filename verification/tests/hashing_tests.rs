use digest::{Update, VariableOutput};
use work_server::hashing::{quick_greater_or_equal, reverse_bytes, work_valid, work_value};
use work_server::parse::{parse_hash_json, parse_work_json};
use work_server::rpc::{generate_response, validate_response};

#[test]
fn compare_equal_is_valid() {
    let x = vec![7u8; 32];
    let y = vec![7u8; 32];
    assert!(quick_greater_or_equal(&x, &y));
}

#[test]
fn compare_first_byte_decides() {
    let mut x = vec![0u8; 32];
    let mut y = vec![0u8; 32];
    x[0] = 2;
    y[0] = 1;
    assert!(quick_greater_or_equal(&x, &y));
    assert!(!quick_greater_or_equal(&y, &x));
}

#[test]
fn compare_later_byte_decides() {
    let mut x = vec![9u8; 32];
    let mut y = vec![9u8; 32];
    x[31] = 1;
    y[31] = 0;
    assert!(quick_greater_or_equal(&x, &y));
    assert!(!quick_greater_or_equal(&y, &x));
}

#[test]
fn zero_threshold_accepts_any_nonce() {
    let root = vec![0xABu8; 32];
    let work = vec![0x55u8; 8];
    let threshold = vec![0u8; 32];
    let (valid, digest) = work_valid(&root, &work, &threshold);
    assert!(valid);
    assert_eq!(digest.len(), 32);
    assert_eq!(digest, work_value(&root, &work));
}

#[test]
fn max_threshold_rejects_ordinary_digest() {
    let root = vec![0u8; 32];
    let work = vec![0u8; 8];
    let threshold = vec![0xFFu8; 32];
    let (valid, digest) = work_valid(&root, &work, &threshold);
    // Valid only if the digest were all 0xFF, which this one is not.
    assert!(digest.iter().any(|&b| b != 0xFF));
    assert!(!valid);
}

#[test]
fn work_value_matches_direct_blake2b_of_nonce_then_root() {
    let root: Vec<u8> = (0..32u8).collect();
    let work: Vec<u8> = vec![1, 2, 3, 4, 5, 6, 7, 8];
    let mut expected = [0u8; 32];
    let mut hasher = <blake2::Blake2bVar as VariableOutput>::new(32).unwrap();
    hasher.update(&work);
    hasher.update(&root);
    hasher.finalize_variable(&mut expected).unwrap();
    assert_eq!(work_value(&root, &work), expected.to_vec());
}

#[test]
fn reverse_bytes_is_involutive() {
    let v: Vec<u8> = vec![1, 2, 3, 4, 5, 6, 7, 8];
    let r = reverse_bytes(&v);
    assert_eq!(r, vec![8, 7, 6, 5, 4, 3, 2, 1]);
    assert_eq!(reverse_bytes(&r), v);
}

#[test]
fn hex_fields_round_trip_through_parse_and_response() {
    // A generated response spells the digest in lowercase hex; feeding the
    // same bytes back through the hash-field parser recovers them.
    let root = vec![0x21u8; 32];
    let work = vec![1u8, 2, 3, 4, 5, 6, 7, 8];
    let digest = work_value(&root, &work);
    let (_, digest_hex) = work_server::rpc::generate_response(&root, &work);
    assert_eq!(digest_hex, hex::encode(&digest).into_bytes());
    assert_eq!(parse_hash_json(Some(&digest_hex)).unwrap(), digest);
}

#[test]
fn validate_known_good_zero_everything() {
    // hash = 00..00, work = 0000000000000000 (external), threshold = 00..00.
    let root = vec![0u8; 32];
    let work = parse_work_json(Some(b"0000000000000000")).unwrap();
    let threshold = vec![0u8; 32];
    let (valid, digest_hex) = validate_response(&root, &work, &threshold);
    assert!(valid);
    let expected = hex::encode(&work_value(&root, &work)).into_bytes();
    assert_eq!(digest_hex, expected);
}

#[test]
fn validate_below_max_threshold() {
    let root = vec![0u8; 32];
    let work = parse_work_json(Some(b"0000000000000000")).unwrap();
    let threshold = vec![0xFFu8; 32];
    let (valid, _digest_hex) = validate_response(&root, &work, &threshold);
    assert!(!valid);
}

#[test]
fn generated_nonce_round_trips_through_validate() {
    let root = vec![0x11u8; 32];
    let threshold = vec![0u8; 32];
    // With an all-zero threshold the very first candidate is valid.
    let mut trng = work_server::rng::new_thread_rng();
    let mut rng = work_server::rng::worker_rng(&mut trng);
    let nonce = work_server::search::search_round_random(&mut rng, &root, &threshold, 4).unwrap();
    let (work_hex, digest_hex) = generate_response(&root, &nonce);
    // Re-submit the external form, as a client would.
    let parsed = parse_work_json(Some(work_hex.as_slice())).unwrap();
    assert_eq!(parsed, nonce);
    let (valid, digest_hex2) = validate_response(&root, &parsed, &threshold);
    assert!(valid);
    assert_eq!(digest_hex, digest_hex2);
}
