use lockbox::errors::VaultError;
use lockbox::session::{AppState, AuthSession, LoginReply, Message, SessionState};

fn key_bytes() -> Vec<u8> {
    (0u8..32).collect()
}

fn is_lower_hex(b: u8) -> bool {
    (b'0'..=b'9').contains(&b) || (b'a'..=b'f').contains(&b)
}

#[test]
fn login_scenario_bootstrap_verify_reject() {
    // first login on an empty vault: authenticated, and the new content to
    // persist matches hex(iv):hex(ciphertext)
    let mut session = AuthSession::new();
    assert_eq!(session.state(), SessionState::LoggedOut);
    let stored = match session.login("alice", "s3cret", Some(key_bytes()), b"") {
        LoginReply::Authenticated { store: Some(content) } => content,
        _ => panic!("the first login must bootstrap and authenticate"),
    };
    assert_eq!(session.state(), SessionState::Authenticated);
    assert_eq!(session.current_page(), AppState::StorePage);
    assert!(stored.len() > 33);
    assert!(stored[..32].iter().all(|&b| is_lower_hex(b)));
    assert_eq!(stored[32], b':');
    assert!(stored[33..].iter().all(|&b| is_lower_hex(b)));

    // second login with the same pair: authenticated, nothing to write
    let mut session2 = AuthSession::new();
    match session2.login("alice", "s3cret", Some(key_bytes()), &stored) {
        LoginReply::Authenticated { store: None } => {}
        _ => panic!("the stored pair must authenticate without a write"),
    }
    assert_eq!(session2.state(), SessionState::Authenticated);

    // a wrong password: rejected, state stays logged out, nothing to write
    let mut session3 = AuthSession::new();
    match session3.login("alice", "wrong", Some(key_bytes()), &stored) {
        LoginReply::Rejected => {}
        _ => panic!("a wrong password must be rejected"),
    }
    assert_eq!(session3.state(), SessionState::LoggedOut);
    assert_eq!(session3.current_page(), AppState::LoginPage);
}

#[test]
fn missing_key_fails_without_a_vault_decision() {
    let mut session = AuthSession::new();
    match session.login("alice", "s3cret", None, b"") {
        LoginReply::Failed { error } => assert_eq!(error, VaultError::KeyMissing),
        _ => panic!("a missing key file must fail as such"),
    }
    assert_eq!(session.state(), SessionState::LoggedOut);
}

#[test]
fn short_and_long_keys_fail_as_invalid_length() {
    for len in [31usize, 33] {
        let mut session = AuthSession::new();
        match session.login("alice", "s3cret", Some(vec![1u8; len]), b"") {
            LoginReply::Failed { error } => assert_eq!(error, VaultError::KeyInvalidLength),
            _ => panic!("a key of {} bytes must be refused", len),
        }
        assert_eq!(session.state(), SessionState::LoggedOut);
    }
}

#[test]
fn empty_credentials_are_ignored() {
    let mut session = AuthSession::new();
    match session.login("", "s3cret", None, b"") {
        LoginReply::Ignored => {}
        _ => panic!("an empty username is a no-op"),
    }
    match session.login("alice", "", None, b"") {
        LoginReply::Ignored => {}
        _ => panic!("an empty password is a no-op"),
    }
    assert_eq!(session.state(), SessionState::LoggedOut);
}

#[test]
fn malformed_vault_surfaces_through_login() {
    let mut session = AuthSession::new();
    match session.login("alice", "s3cret", Some(key_bytes()), b"not-a-record") {
        LoginReply::Failed { error } => assert_eq!(error, VaultError::MalformedRecord),
        _ => panic!("a malformed record must fail the login"),
    }
    assert_eq!(session.state(), SessionState::LoggedOut);
}

#[test]
fn unicode_credentials_round_trip_through_login() {
    let mut session = AuthSession::new();
    let stored = match session.login("lisel\u{00f6}tte", "p\u{00e4}ss\"word\\", Some(key_bytes()), b"")
    {
        LoginReply::Authenticated { store: Some(content) } => content,
        _ => panic!("the first login must bootstrap"),
    };
    let mut again = AuthSession::new();
    match again.login("lisel\u{00f6}tte", "p\u{00e4}ss\"word\\", Some(key_bytes()), &stored) {
        LoginReply::Authenticated { store: None } => {}
        _ => panic!("the same pair must authenticate"),
    }
    let mut wrong = AuthSession::new();
    match wrong.login("lisel\u{00f6}tte", "p\u{00e4}ssword", Some(key_bytes()), &stored) {
        LoginReply::Rejected => {}
        _ => panic!("a different password must be rejected"),
    }
}

#[test]
fn default_page_is_the_login_page() {
    assert_eq!(AppState::default(), AppState::LoginPage);
}

#[test]
fn messages_carry_their_payload() {
    let m = Message::UsernameChanged(String::from("alice"));
    match m.clone() {
        Message::UsernameChanged(value) => assert_eq!(value, "alice"),
        _ => panic!("the variant must carry its text"),
    }
    assert!(matches!(Message::LoginPressed, Message::LoginPressed));
}
