//! Trusted bindings to the AES-256-CBC block cipher and to the system's
//! random number generator.

use vstd::prelude::*;

use aes::Aes256;
use block_modes::block_padding::Pkcs7;
use block_modes::{BlockMode, Cbc};
use rand::Rng;

verus! {

/// The ciphertext that AES-256-CBC with PKCS7 padding produces for a key, an
/// IV and a plaintext.  It is a function of those three values alone.
pub uninterp spec fn aes256_cbc_encrypt_spec(key: Seq<u8>, iv: Seq<u8>, plaintext: Seq<u8>) -> Seq<
    u8,
>;

/// The length of a PKCS7-padded plaintext: the next multiple of the 16-byte
/// block size strictly above the plaintext's length.
pub open spec fn padded_len(n: nat) -> nat {
    (n / 16 + 1) * 16
}

/// Relies on `block_modes`' `Cbc::<Aes256, Pkcs7>::encrypt_vec`: it pads the
/// plaintext with PKCS7 to the next block boundary and CBC-encrypts it under
/// the key and the IV; the result is a function of those three values alone.
/// `new_from_slices` accepts exactly a 32-byte key with a 16-byte IV.
#[verifier::external_body]
pub(crate) fn aes256_cbc_encrypt(key: &[u8], iv: &[u8], plaintext: &[u8]) -> (r: Vec<u8>)
    requires
        key@.len() == 32,
        iv@.len() == 16,
    ensures
        r@ == aes256_cbc_encrypt_spec(key@, iv@, plaintext@),
        r@.len() == padded_len(plaintext@.len()),
{
    let cipher = Cbc::<Aes256, Pkcs7>::new_from_slices(key, iv)
        .expect("a 32-byte key and a 16-byte IV are accepted");
    cipher.encrypt_vec(plaintext)
}

/// Relies on `block_modes`' `Cbc::<Aes256, Pkcs7>::decrypt_vec`: CBC
/// decryption under the same key and IV undoes CBC encryption, and PKCS7
/// unpadding undoes PKCS7 padding, so whenever the ciphertext is the
/// encryption of some plaintext under this key and IV, exactly that
/// plaintext comes back.  Of a ciphertext that is not such an encryption
/// nothing is promised: the call may fail or produce other bytes.
#[verifier::external_body]
pub(crate) fn aes256_cbc_decrypt(key: &[u8], iv: &[u8], ciphertext: &[u8]) -> (r: Option<Vec<u8>>)
    requires
        key@.len() == 32,
        iv@.len() == 16,
    ensures
        r is None ==> forall|plaintext: Seq<u8>|
            ciphertext@ != aes256_cbc_encrypt_spec(key@, iv@, plaintext),
        r matches Some(d) ==> forall|plaintext: Seq<u8>|
            ciphertext@ == aes256_cbc_encrypt_spec(key@, iv@, plaintext) ==> d@ == plaintext,
{
    let cipher = match Cbc::<Aes256, Pkcs7>::new_from_slices(key, iv) {
        Ok(c) => c,
        Err(_) => return None,
    };
    cipher.decrypt_vec(ciphertext).ok()
}

/// Relies on `rand::thread_rng` and `Rng::fill`: the buffer is filled with
/// random bytes.  The values are random, so nothing is promised of them
/// beyond the length.
#[verifier::external_body]
pub(crate) fn random_iv() -> (r: Vec<u8>)
    ensures
        r@.len() == 16,
{
    let mut rng = rand::thread_rng();
    let mut iv = [0u8; 16];
    rng.fill(&mut iv);
    iv.to_vec()
}

} // verus!
