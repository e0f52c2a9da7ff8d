//! The master key that encrypts the credential record.

use vstd::prelude::*;

use crate::errors::VaultError;

verus! {

/// The 256-bit master key.  A value of this type holds exactly 32 bytes;
/// `load` refuses any other key material.
pub struct MasterKey {
    bytes: Vec<u8>,
}

impl View for MasterKey {
    type V = Seq<u8>;

    closed spec fn view(&self) -> Seq<u8> {
        self.bytes@
    }
}

impl MasterKey {
    /// The key invariant: exactly 32 bytes.
    pub open spec fn wf(&self) -> bool {
        self@.len() == 32
    }

    /// Validates raw key material read from the key file.  `None` stands for
    /// a missing key file and is refused as such; any byte count other than
    /// 32 is refused as a length error; exactly 32 bytes become the key.
    pub fn load(raw: Option<Vec<u8>>) -> (r: Result<MasterKey, VaultError>)
        ensures
            raw is None <==> r == Err::<MasterKey, VaultError>(VaultError::KeyMissing),
            (raw matches Some(b) && b@.len() != 32) <==> r == Err::<MasterKey, VaultError>(
                VaultError::KeyInvalidLength,
            ),
            raw is Some && raw->0@.len() == 32 ==> (r matches Ok(k) && k@ == raw->0@),
            r is Ok ==> raw is Some && raw->0@.len() == 32,
    {
        match raw {
            None => Err(VaultError::KeyMissing),
            Some(b) => {
                if b.len() != 32 {
                    Err(VaultError::KeyInvalidLength)
                } else {
                    Ok(MasterKey { bytes: b })
                }
            },
        }
    }

    /// The key's bytes.
    pub(crate) fn bytes(&self) -> (r: &[u8])
        ensures
            r@ == self@,
    {
        self.bytes.as_slice()
    }
}

} // verus!
