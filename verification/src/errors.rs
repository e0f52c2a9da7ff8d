//! The error taxonomy of the vault engine.

use vstd::prelude::*;

verus! {

/// Every way a vault operation can fail.
///
/// `CredentialMismatch` is not here: a well-formed record that does not match
/// the supplied credentials is a normal outcome, reported as a rejection, not
/// as an error.
#[derive(Clone, Copy, Debug, PartialEq, Eq, Structural)]
pub enum VaultError {
    /// The master key file does not exist.
    KeyMissing,
    /// The master key file exists but does not hold exactly 32 bytes.
    KeyInvalidLength,
    /// The stored credential does not split on `:` into two non-empty hex tokens.
    MalformedRecord,
    /// Decryption, decoding or record deserialization failed.
    CipherFailure,
    /// Reading, creating or writing a file failed.
    FileIO,
}

} // verus!
