use lockbox::errors::VaultError;
use lockbox::filecipher::FileCipher;

fn cipher() -> FileCipher {
    FileCipher::new(String::from("correct horse battery staple"))
}

#[test]
fn round_trip_restores_an_empty_file() {
    let c = cipher();
    let sealed = c.encrypt_content(b"");
    assert_ne!(sealed.as_slice(), b"");
    let opened = c.decrypt_content(&sealed).expect("its own container opens");
    assert_eq!(opened, b"");
}

#[test]
fn round_trip_restores_a_single_byte() {
    let c = cipher();
    let sealed = c.encrypt_content(b"x");
    let opened = c.decrypt_content(&sealed).expect("its own container opens");
    assert_eq!(opened, b"x");
}

#[test]
fn round_trip_restores_megabytes_exactly() {
    let c = cipher();
    let content: Vec<u8> = (0..2 * 1024 * 1024u32).map(|i| (i % 251) as u8).collect();
    let sealed = c.encrypt_content(&content);
    assert_ne!(sealed, content);
    let opened = c.decrypt_content(&sealed).expect("its own container opens");
    assert_eq!(opened, content);
}

#[test]
fn decrypting_plain_bytes_is_a_cipher_failure() {
    let c = cipher();
    let original: Vec<u8> = b"these bytes were never encrypted".to_vec();
    let before = original.clone();
    match c.decrypt_content(&original) {
        Err(VaultError::CipherFailure) => {}
        _ => panic!("bytes that are no container must fail as a cipher failure"),
    }
    // nothing was handed back, and the caller's bytes are untouched
    assert_eq!(original, before);
}

#[test]
fn the_wrong_passphrase_does_not_open_a_container() {
    let sealed = cipher().encrypt_content(b"attack at dawn");
    let other = FileCipher::new(String::from("not the passphrase"));
    match other.decrypt_content(&sealed) {
        Err(VaultError::CipherFailure) => {}
        _ => panic!("another passphrase must not open the container"),
    }
}

#[test]
fn a_tampered_container_does_not_open() {
    let c = cipher();
    let mut sealed = c.encrypt_content(b"attack at dawn");
    let last = sealed.len() - 1;
    sealed[last] ^= 0x01;
    match c.decrypt_content(&sealed) {
        Err(VaultError::CipherFailure) => {}
        _ => panic!("a tampered container must not open"),
    }
}
