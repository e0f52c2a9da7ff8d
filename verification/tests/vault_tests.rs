use lockbox::errors::VaultError;
use lockbox::keys::MasterKey;
use lockbox::record::parse_record;
use lockbox::vault::{open_record, seal_record, verify_or_bootstrap, VaultOutcome};

fn test_key() -> MasterKey {
    MasterKey::load(Some(vec![7u8; 32])).expect("a 32-byte key loads")
}

fn other_key() -> MasterKey {
    MasterKey::load(Some(vec![8u8; 32])).expect("a 32-byte key loads")
}

fn is_lower_hex(b: u8) -> bool {
    (b'0'..=b'9').contains(&b) || (b'a'..=b'f').contains(&b)
}

/// The shape every stored credential must have: 32 lowercase hex digits, a
/// colon, then at least one more lowercase hex digit.
fn assert_stored_shape(content: &[u8]) {
    assert!(content.len() > 33);
    assert!(content[..32].iter().all(|&b| is_lower_hex(b)));
    assert_eq!(content[32], b':');
    assert!(content[33..].iter().all(|&b| is_lower_hex(b)));
}

#[test]
fn bootstrap_then_verify_authenticates() {
    let key = test_key();
    let r1 = verify_or_bootstrap(&key, b"alice", b"s3cret", b"");
    let stored = match r1 {
        VaultOutcome::Bootstrapped { new_content } => new_content,
        _ => panic!("an empty vault must bootstrap"),
    };
    assert_stored_shape(&stored);

    let before = stored.clone();
    match verify_or_bootstrap(&key, b"alice", b"s3cret", &stored) {
        VaultOutcome::Authenticated => {}
        _ => panic!("the stored pair must authenticate"),
    }
    assert_eq!(stored, before);

    match verify_or_bootstrap(&key, b"alice", b"wrong", &stored) {
        VaultOutcome::Rejected => {}
        _ => panic!("a wrong password must be rejected"),
    }
    match verify_or_bootstrap(&key, b"mallory", b"s3cret", &stored) {
        VaultOutcome::Rejected => {}
        _ => panic!("a wrong username must be rejected"),
    }
    assert_eq!(stored, before);
}

#[test]
fn sentinel_content_bootstraps() {
    let key = test_key();
    let r = verify_or_bootstrap(&key, b"bob", b"pw", br#"{"username":"","password":""}"#);
    match r {
        VaultOutcome::Bootstrapped { new_content } => assert_stored_shape(&new_content),
        _ => panic!("the empty sentinel means no credential is set"),
    }
}

#[test]
fn whitespace_and_null_padding_is_uninitialized() {
    let key = test_key();
    match verify_or_bootstrap(&key, b"bob", b"pw", b"\0\0  \t\r\n \0") {
        VaultOutcome::Bootstrapped { .. } => {}
        _ => panic!("padding and whitespace mean no credential is set"),
    }
}

#[test]
fn null_padded_stored_credential_still_verifies() {
    let key = test_key();
    let stored = match verify_or_bootstrap(&key, b"alice", b"s3cret", b"") {
        VaultOutcome::Bootstrapped { new_content } => new_content,
        _ => panic!("an empty vault must bootstrap"),
    };
    let mut padded = vec![0u8; 3];
    padded.extend_from_slice(&stored);
    padded.extend_from_slice(&[0u8; 5]);
    match verify_or_bootstrap(&key, b"alice", b"s3cret", &padded) {
        VaultOutcome::Authenticated => {}
        _ => panic!("null padding around the record must be ignored"),
    }
}

#[test]
fn content_without_colon_is_malformed() {
    let key = test_key();
    match verify_or_bootstrap(&key, b"alice", b"s3cret", b"not-a-record") {
        VaultOutcome::Failed { error } => assert_eq!(error, VaultError::MalformedRecord),
        _ => panic!("a record without a colon is malformed"),
    }
}

#[test]
fn malformed_shapes_are_refused() {
    let key = test_key();
    let malformed: [&[u8]; 5] = [
        b"aabb:ccdd:eeff",
        b":aabb",
        b"aabb:",
        b"zzzz:aabb",
        b"abc:aabb",
    ];
    for content in malformed {
        match verify_or_bootstrap(&key, b"alice", b"s3cret", content) {
            VaultOutcome::Failed { error } => assert_eq!(error, VaultError::MalformedRecord),
            _ => panic!("shape violations must be malformed records"),
        }
    }
}

#[test]
fn short_iv_token_is_a_cipher_failure() {
    let key = test_key();
    // two non-empty hex tokens, but the first decodes to 2 bytes, not 16
    match verify_or_bootstrap(&key, b"alice", b"s3cret", b"aabb:ccdd") {
        VaultOutcome::Failed { error } => assert_eq!(error, VaultError::CipherFailure),
        _ => panic!("a 2-byte IV cannot start a decryption"),
    }
}

#[test]
fn verify_under_another_key_does_not_authenticate() {
    let stored = match verify_or_bootstrap(&test_key(), b"alice", b"s3cret", b"") {
        VaultOutcome::Bootstrapped { new_content } => new_content,
        _ => panic!("an empty vault must bootstrap"),
    };
    match verify_or_bootstrap(&other_key(), b"alice", b"s3cret", &stored) {
        VaultOutcome::Authenticated => panic!("another key must not open the record"),
        VaultOutcome::Bootstrapped { .. } => panic!("a stored record is not an empty vault"),
        _ => {}
    }
}

#[test]
fn two_bootstraps_use_fresh_ivs() {
    let key = test_key();
    let first = match verify_or_bootstrap(&key, b"alice", b"s3cret", b"") {
        VaultOutcome::Bootstrapped { new_content } => new_content,
        _ => panic!("an empty vault must bootstrap"),
    };
    let second = match verify_or_bootstrap(&key, b"alice", b"s3cret", b"") {
        VaultOutcome::Bootstrapped { new_content } => new_content,
        _ => panic!("an empty vault must bootstrap"),
    };
    assert_ne!(first, second, "the IV must be freshly random on every bootstrap");
}

#[test]
fn seal_is_hex_of_the_given_iv() {
    let key = test_key();
    let iv = vec![0u8; 16];
    let sealed = seal_record(&key, &iv, b"u", b"p");
    assert_eq!(&sealed[..32], [b'0'; 32].as_slice());
    assert_eq!(sealed[32], b':');
}

#[test]
fn record_round_trip_through_the_cipher() {
    let key = test_key();
    let iv: Vec<u8> = (0u8..16).collect();
    let cases: [(&[u8], &[u8]); 4] = [
        (b"alice", b"s3cret"),
        ("lisel\u{00f6}tte".as_bytes(), "p\u{00e4}ssword".as_bytes()),
        (b"quote\"name", b"back\\slash:\"\n\x01"),
        (b"a", b"\x00\x1f"),
    ];
    for (u, p) in cases {
        let sealed = seal_record(&key, &iv, u, p);
        let colon = sealed.iter().position(|&b| b == b':').expect("a colon");
        assert_eq!(colon, 32);
        let ct = hex_to_bytes(&sealed[33..]);
        let rec = open_record(&key, &iv, &ct).expect("decryption must invert encryption");
        assert_eq!(rec.username, u);
        assert_eq!(rec.password, p);
    }
}

#[test]
fn opening_under_the_wrong_iv_fails_or_mismatches() {
    let key = test_key();
    let iv: Vec<u8> = (0u8..16).collect();
    let sealed = seal_record(&key, &iv, b"alice", b"s3cret");
    let ct = hex_to_bytes(&sealed[33..]);
    let wrong_iv = vec![9u8; 16];
    if let Some(rec) = open_record(&key, &wrong_iv, &ct) {
        assert!(rec.username != b"alice" || rec.password != b"s3cret");
    }
}

#[test]
fn parse_accepts_exactly_the_encoding() {
    let encoded = lockbox::record::encode_record(b"alice", b"s3cret");
    assert_eq!(encoded, br#"{"username":"alice","password":"s3cret"}"#);
    let rec = parse_record(&encoded).expect("its own encoding parses");
    assert_eq!(rec.username, b"alice");
    assert_eq!(rec.password, b"s3cret");

    assert!(parse_record(b"{}").is_none());
    assert!(parse_record(br#"{"username":"a","password":"b"} "#).is_none());
    assert!(parse_record(br#"{"username":"a","password":"b}"#).is_none());
    assert!(parse_record(br#"{"password":"b","username":"a"}"#).is_none());
}

#[test]
fn escaping_round_trips_special_bytes() {
    let encoded = lockbox::record::encode_record(b"a\"b\\c", b"\x01\x1f\"");
    let rec = parse_record(&encoded).expect("escaped fields parse back");
    assert_eq!(rec.username, b"a\"b\\c");
    assert_eq!(rec.password, b"\x01\x1f\"");
}

fn hex_to_bytes(hex: &[u8]) -> Vec<u8> {
    fn val(b: u8) -> u8 {
        match b {
            b'0'..=b'9' => b - b'0',
            b'a'..=b'f' => b - b'a' + 10,
            _ => panic!("not a lowercase hex digit"),
        }
    }
    assert_eq!(hex.len() % 2, 0);
    hex.chunks(2).map(|pair| val(pair[0]) * 16 + val(pair[1])).collect()
}

#[test]
fn uppercase_hex_tokens_also_decode() {
    let key = test_key();
    let stored = match verify_or_bootstrap(&key, b"alice", b"s3cret", b"") {
        VaultOutcome::Bootstrapped { new_content } => new_content,
        _ => panic!("an empty vault must bootstrap"),
    };
    let upper: Vec<u8> = stored.iter().map(|b| b.to_ascii_uppercase()).collect();
    match verify_or_bootstrap(&key, b"alice", b"s3cret", &upper) {
        VaultOutcome::Authenticated => {}
        _ => panic!("hex tokens of either case decode to the same record"),
    }
}
