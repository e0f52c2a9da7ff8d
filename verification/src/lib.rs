//! Core engine of a local credential vault.
//!
//! The library authenticates a single local user against one persisted,
//! encrypted credential record, and encrypts or decrypts arbitrary file
//! contents under a configured passphrase.  All decisions and formats are
//! verified; reading and writing the actual files is left to the caller.

pub mod cipher;
pub mod details;
pub mod errors;
pub mod filecipher;
pub mod hexcodec;
pub mod keys;
pub mod record;
pub mod session;
pub mod vault;

pub use errors::VaultError;
