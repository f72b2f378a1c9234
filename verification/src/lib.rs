//! Seqr: verified core of an end-to-end encrypted chat — cryptographic
//! composition, wire formats, the mailbox service's rules and the desktop
//! client's vault and conversation logic.

pub mod text;
pub mod clock;
pub mod chars;
pub mod hexcode;
pub mod crypto;
pub mod protocol;
pub mod mailbox;
pub mod desktop;
pub mod matrix;
