//! Whole-file encryption under a configured passphrase, through trusted
//! bindings to the `age` crate.
//!
//! Encryption wraps a file's bytes in one authenticated, self-describing
//! passphrase container.  Decryption opens such a container; the accepted
//! key-derivation work factor is capped at a fixed value, so what a
//! container opens to is a function of the passphrase and the container
//! bytes alone.

use vstd::prelude::*;

use crate::errors::VaultError;
use age::secrecy::SecretString;
use std::io::{Read, Write};

verus! {

/// What age passphrase decryption — capped at this library's fixed
/// key-derivation work factor — recovers from a container: `Some` plaintext,
/// or `None` where the container does not open under the passphrase.
pub uninterp spec fn passphrase_open(passphrase: Seq<char>, container: Seq<u8>) -> Option<Seq<u8>>;

/// The decryption outcome for a container: the recovered content, or a
/// cipher failure where it does not open.
pub open spec fn decrypt_outcome(passphrase: Seq<char>, container: Seq<u8>) -> Result<
    Seq<u8>,
    VaultError,
> {
    match passphrase_open(passphrase, container) {
        Some(d) => Ok(d),
        None => Err(VaultError::CipherFailure),
    }
}

/// The largest base-two logarithm of the scrypt work factor that decryption
/// accepts.  Encryption picks its work factor for about one second of work,
/// far below this cap.
const MAX_WORK_FACTOR_LOG2: u8 = 24;

/// Relies on age's `Encryptor::with_user_passphrase`, `wrap_output`,
/// `write_all` and `finish`: they write one complete scrypt-passphrase
/// container enveloping exactly the bytes written, age's own decryption
/// recovers those bytes from it, and writing into a vector cannot fail.
/// The container is salted at random, so only its relation to the content
/// is promised, not its bytes.
#[verifier::external_body]
fn age_encrypt(passphrase: &str, content: &[u8]) -> (r: Vec<u8>)
    ensures
        passphrase_open(passphrase@, r@) == Some(content@),
{
    let encryptor = age::Encryptor::with_user_passphrase(
        SecretString::new(passphrase.to_string()),
    );
    let mut out: Vec<u8> = Vec::new();
    let mut writer = encryptor.wrap_output(&mut out).expect("writing to a vector cannot fail");
    writer.write_all(content).expect("writing to a vector cannot fail");
    writer.finish().expect("writing to a vector cannot fail");
    out
}

/// Relies on age's `Decryptor`: with the work-factor cap fixed, what a
/// container decrypts to under a passphrase — the recovered bytes, or no
/// bytes at all — is a function of the two alone, which `passphrase_open`
/// names.  Every failure (not a container, not passphrase-enveloped, wrong
/// passphrase, truncated or tampered payload, excessive work factor) is
/// reported as `None`.
#[verifier::external_body]
fn age_decrypt(passphrase: &str, container: &[u8]) -> (r: Option<Vec<u8>>)
    ensures
        r matches Some(d) ==> passphrase_open(passphrase@, container@) == Some(d@),
        r is None ==> passphrase_open(passphrase@, container@) is None,
{
    let decryptor = match age::Decryptor::new(container) {
        Ok(age::Decryptor::Passphrase(d)) => d,
        _ => return None,
    };
    let secret = SecretString::new(passphrase.to_string());
    let mut reader = match decryptor.decrypt(&secret, Some(MAX_WORK_FACTOR_LOG2)) {
        Ok(reader) => reader,
        Err(_) => return None,
    };
    let mut plain: Vec<u8> = Vec::new();
    match reader.read_to_end(&mut plain) {
        Ok(_) => Some(plain),
        Err(_) => None,
    }
}

/// The whole-file cipher under one configured passphrase.
pub struct FileCipher {
    passphrase: String,
}

impl View for FileCipher {
    type V = Seq<char>;

    closed spec fn view(&self) -> Seq<char> {
        self.passphrase@
    }
}

impl FileCipher {
    /// A cipher for a configured passphrase.
    pub fn new(passphrase: String) -> (r: FileCipher)
        ensures
            r@ == passphrase@,
    {
        FileCipher { passphrase }
    }

    /// Encrypts a file's content into a passphrase container.  The caller
    /// overwrites the file with the result only once this has returned, so
    /// the operation is all-or-nothing.
    pub fn encrypt_content(&self, content: &[u8]) -> (r: Vec<u8>)
        ensures
            passphrase_open(self@, r@) == Some(content@),
    {
        age_encrypt(self.passphrase.as_str(), content)
    }

    /// Decrypts a container back to the file's original content.  This
    /// succeeds exactly where the container opens under the configured
    /// passphrase, and reports a cipher failure otherwise; on failure
    /// nothing is handed back, so the caller leaves the file untouched.
    pub fn decrypt_content(&self, container: &[u8]) -> (r: Result<Vec<u8>, VaultError>)
        ensures
            r matches Ok(d) ==> decrypt_outcome(self@, container@) == Ok::<Seq<u8>, VaultError>(d@),
            r matches Err(e) ==> decrypt_outcome(self@, container@) == Err::<Seq<u8>, VaultError>(
                e,
            ),
    {
        match age_decrypt(self.passphrase.as_str(), container) {
            Some(d) => Ok(d),
            None => Err(VaultError::CipherFailure),
        }
    }
}

/// Law: decryption restores exactly what encryption enveloped.  The
/// hypothesis is what `encrypt_content` ensures of every container it
/// returns; the conclusion is that `decrypt_content` on that container
/// returns `Ok` with the original content, whatever its size.
pub proof fn lemma_file_cipher_round_trip(pass: Seq<char>, content: Seq<u8>, container: Seq<u8>)
    requires
        passphrase_open(pass, container) == Some(content),
    ensures
        decrypt_outcome(pass, container) == Ok::<Seq<u8>, VaultError>(content),
{
}

} // verus!
