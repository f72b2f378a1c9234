//! The account in use: the vault key and the decrypted vault, held only while the app
//! is unlocked.

use vstd::prelude::*;

use super::vault::VaultData;
use crate::crypto::SymmetricKey;

verus! {

/// The decrypted, in-use account.
pub struct Unlocked {
    pub vault_key: SymmetricKey,
    pub data: VaultData,
}

} // verus!
