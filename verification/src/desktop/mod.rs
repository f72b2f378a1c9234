//! The desktop client's core: the encrypted vault, conversations and their keys,
//! message framing, profiles, attachments, and the client side of the mailbox. All
//! secrets and plaintext stay here; the user interface and the network see only what
//! these functions hand out.

pub mod attachment;
pub mod commands;
pub mod config;
pub mod conversation;
pub mod group;
pub mod identity;
pub mod mailbox;
pub mod message;
pub mod net;
pub mod packet;
pub mod session;
pub mod vault;

use vstd::prelude::*;

use crate::crypto::CryptoError;

verus! {

/// Failures of the desktop core, each with the message the user sees.
#[derive(Debug, Clone, PartialEq, Eq)]
pub enum CoreError {
    NoAccount,
    AccountExists,
    BadPassword,
    Locked,
    BadProfile(String),
    DuplicateFriend,
    Storage(String),
    Crypto(String),
    Transport(String),
    UnknownSender,
}

impl CoreError {
    /// The text shown for the error.
    pub open spec fn message_spec(&self) -> Seq<char> {
        match self {
            CoreError::NoAccount => "no account exists yet"@,
            CoreError::AccountExists => "an account already exists"@,
            CoreError::BadPassword => "incorrect password"@,
            CoreError::Locked => "the account is locked"@,
            CoreError::BadProfile(s) => "invalid profile blob: "@ + s@,
            CoreError::DuplicateFriend => "this friend is already in your roster"@,
            CoreError::Storage(s) => "storage error: "@ + s@,
            CoreError::Crypto(s) => "crypto error: "@ + s@,
            CoreError::Transport(s) => "transport error: "@ + s@,
            CoreError::UnknownSender => "unknown sender"@,
        }
    }

    /// The text shown for the error.
    pub fn message(&self) -> (s: String)
        ensures
            s@ == self.message_spec(),
    {
        match self {
            CoreError::NoAccount => String::from_str("no account exists yet"),
            CoreError::AccountExists => String::from_str("an account already exists"),
            CoreError::BadPassword => String::from_str("incorrect password"),
            CoreError::Locked => String::from_str("the account is locked"),
            CoreError::BadProfile(s) => {
                let mut out = String::from_str("invalid profile blob: ");
                out.append(s.as_str());
                out
            },
            CoreError::DuplicateFriend => String::from_str("this friend is already in your roster"),
            CoreError::Storage(s) => {
                let mut out = String::from_str("storage error: ");
                out.append(s.as_str());
                out
            },
            CoreError::Crypto(s) => {
                let mut out = String::from_str("crypto error: ");
                out.append(s.as_str());
                out
            },
            CoreError::Transport(s) => {
                let mut out = String::from_str("transport error: ");
                out.append(s.as_str());
                out
            },
            CoreError::UnknownSender => String::from_str("unknown sender"),
        }
    }
}

/// `e` is a storage error with text `msg`.
pub open spec fn storage_error(e: CoreError, msg: Seq<char>) -> bool {
    e matches CoreError::Storage(m) && m@ == msg
}

/// `e` is an invalid-profile error with text `msg`.
pub open spec fn profile_error(e: CoreError, msg: Seq<char>) -> bool {
    e matches CoreError::BadProfile(m) && m@ == msg
}

/// `e` is a cryptographic error with text `msg`.
pub open spec fn crypto_failure(e: CoreError, msg: Seq<char>) -> bool {
    e matches CoreError::Crypto(m) && m@ == msg
}

/// `e` reports the cryptographic failure `c`: `Crypto` with its text.
pub open spec fn reports(e: CoreError, c: CryptoError) -> bool {
    crypto_failure(e, c.message_spec())
}

/// The `CoreError` of a cryptographic failure.
pub fn from_crypto(e: CryptoError) -> (r: CoreError)
    ensures
        reports(r, e),
{
    CoreError::Crypto(e.message())
}

} // verus!
