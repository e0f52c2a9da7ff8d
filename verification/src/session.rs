//! The login session: the one state machine the user interface talks to.
//!
//! A session starts logged out and can only move to the authenticated state,
//! by a login that the credential vault accepts.  The session sequences the
//! key check and the vault decision; it holds no cipher or format logic of
//! its own.

use vstd::prelude::*;

use crate::errors::VaultError;
use crate::keys::MasterKey;
use crate::vault::{
    cleaned, is_uninitialized, stored_credential, verify_or_bootstrap, well_formed_stored,
    VaultOutcome,
};
use crate::cipher::aes256_cbc_encrypt_spec;
use crate::record::enc_record;
use vstd::string::{StrSliceExecFns, StringSliceAdditionalSpecFns};
use vstd::utf8::{encode_scalar, encode_utf8};

verus! {

/// The pages of the application, as the interface shell sees them.
#[derive(Clone, Copy, Debug, PartialEq, Eq, Structural)]
pub enum AppState {
    LoginPage,
    StorePage,
}

impl Default for AppState {
    /// The application starts on the login page.
    fn default() -> (r: Self)
        ensures
            r is LoginPage,
    {
        AppState::LoginPage
    }
}

/// What the interface shell can ask of the engine.
#[derive(Debug, Clone)]
pub enum Message {
    UsernameChanged(String),
    PasswordChanged(String),
    LoginPressed,
    SwitchToStorePage,
    TriggerFileSelection,
    EncryptFile,
    DecryptFile,
}

/// The session's state: logged out, or authenticated for good.
#[derive(Clone, Copy, Debug, PartialEq, Eq, Structural)]
pub enum SessionState {
    LoggedOut,
    Authenticated,
}

/// What one login attempt reports back.
pub enum LoginReply {
    /// An empty username or password: nothing was attempted, no file was
    /// touched.
    Ignored,
    /// The pair authenticates.  On a first login the vault file's new
    /// content to persist comes along.
    Authenticated { store: Option<Vec<u8>> },
    /// The pair does not match the stored record.
    Rejected,
    /// The key or the stored record is unusable.
    Failed { error: VaultError },
}

/// A non-empty string encodes to non-empty UTF-8.
proof fn lemma_utf8_nonempty(s: Seq<char>)
    ensures
        s.len() > 0 ==> encode_utf8(s).len() > 0,
{
    if s.len() > 0 {
        assert(encode_utf8(s) == encode_scalar(s[0] as u32) + encode_utf8(s.drop_first()));
        assert(encode_scalar(s[0] as u32).len() >= 1);
    }
}

/// The login session.
pub struct AuthSession {
    state: SessionState,
}

impl View for AuthSession {
    type V = SessionState;

    closed spec fn view(&self) -> SessionState {
        self.state
    }
}

impl AuthSession {
    /// A fresh session is logged out.
    pub fn new() -> (r: AuthSession)
        ensures
            r@ is LoggedOut,
    {
        AuthSession { state: SessionState::LoggedOut }
    }

    /// The session's current state.
    pub fn state(&self) -> (s: SessionState)
        ensures
            s == self@,
    {
        self.state
    }

    /// The page the interface shell should show for this session.
    pub fn current_page(&self) -> (p: AppState)
        ensures
            p is StorePage <==> self@ is Authenticated,
            p is LoginPage <==> self@ is LoggedOut,
    {
        match self.state {
            SessionState::LoggedOut => AppState::LoginPage,
            SessionState::Authenticated => AppState::StorePage,
        }
    }

    /// One login attempt against the key material and the vault file's
    /// content, both read by the caller.  An empty username or password is
    /// ignored outright.  A missing key file or one that does not hold
    /// exactly 32 bytes fails without a vault decision.  Otherwise the vault
    /// decides as `verify_or_bootstrap` says, the new content of a first
    /// login is handed back for the caller to persist, and the session
    /// becomes authenticated exactly on an accepted pair.
    pub fn login(
        &mut self,
        username: &str,
        password: &str,
        key_file: Option<Vec<u8>>,
        vault_content: &[u8],
    ) -> (r: LoginReply)
        ensures
            username@.len() == 0 || password@.len() == 0 <==> r is Ignored,
            r is Ignored || r is Rejected || r is Failed ==> final(self)@ == old(self)@,
            final(self)@ is Authenticated <==> old(self)@ is Authenticated || r is Authenticated,
            !(r is Ignored) ==> (key_file is None <==> r == (LoginReply::Failed {
                error: VaultError::KeyMissing,
            })),
            !(r is Ignored) ==> ((key_file is Some && key_file->0@.len() != 32) <==> r == (
            LoginReply::Failed { error: VaultError::KeyInvalidLength })),
            !(r is Ignored) && key_file is Some && key_file->0@.len() == 32 ==> {
                let kb = key_file->0@;
                let ub = username.spec_bytes();
                let pb = password.spec_bytes();
                let c = cleaned(vault_content@);
                &&& (is_uninitialized(c) <==> (r is Authenticated && r->store is Some))
                &&& (!is_uninitialized(c) && !well_formed_stored(c) <==> r == (LoginReply::Failed {
                    error: VaultError::MalformedRecord,
                }))
                &&& (!is_uninitialized(c) && well_formed_stored(c) ==> (r is Authenticated || r
                    is Rejected || r == (LoginReply::Failed { error: VaultError::CipherFailure })))
                &&& (r is Authenticated && r->store is Some ==> exists|iv: Seq<u8>|
                    {
                        &&& iv.len() == 16
                        &&& r->store->0@ == #[trigger] stored_credential(kb, iv, ub, pb)
                        &&& aes256_cbc_encrypt_spec(kb, iv, enc_record(ub, pb)).len() > 0
                    })
                &&& (forall|iv: Seq<u8>, u2: Seq<u8>, p2: Seq<u8>|
                    {
                        &&& iv.len() == 16
                        &&& aes256_cbc_encrypt_spec(kb, iv, enc_record(u2, p2)).len() > 0
                        &&& c == #[trigger] stored_credential(kb, iv, u2, p2)
                    } ==> {
                        &&& ((r is Authenticated && r->store is None) <==> (u2 == ub && p2 == pb))
                        &&& (r is Rejected <==> !(u2 == ub && p2 == pb))
                    })
            },
    {
        if username.is_empty() || password.is_empty() {
            return LoginReply::Ignored;
        }
        proof {
            lemma_utf8_nonempty(username@);
            lemma_utf8_nonempty(password@);
        }
        let key = match MasterKey::load(key_file) {
            Ok(k) => k,
            Err(e) => {
                return LoginReply::Failed { error: e };
            },
        };
        let ub = username.as_bytes_vec();
        let pb = password.as_bytes_vec();
        match verify_or_bootstrap(&key, ub.as_slice(), pb.as_slice(), vault_content) {
            VaultOutcome::Bootstrapped { new_content } => {
                self.state = SessionState::Authenticated;
                LoginReply::Authenticated { store: Some(new_content) }
            },
            VaultOutcome::Authenticated => {
                self.state = SessionState::Authenticated;
                LoginReply::Authenticated { store: None }
            },
            VaultOutcome::Rejected => LoginReply::Rejected,
            VaultOutcome::Failed { error } => LoginReply::Failed { error },
        }
    }
}

} // verus!
