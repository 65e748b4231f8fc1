//! Core of an opportunistic e-mail encryption discovery protocol: strict
//! parsing and serialization of the key-advertisement header, the
//! per-correspondent trust state machine, and the encryption recommendation
//! rules.

pub use header::Header;
pub use peer::PeerInfo;
pub use types::{EncryptPreference, KeyType};

pub mod errors;
pub mod grammar;
pub mod header;
pub mod mime;
pub mod peer;
pub mod strutil;
pub mod types;
