//! Cryptographic core of a mesh VPN node: long-term identities, one-time
//! handshakes, signed key updates, and packet encryption with replay protection.

pub mod bytes;
pub mod engine;
pub mod error;
pub mod handshake;
pub mod history;
pub mod key_update;
pub mod laws;
pub mod outcomes;
pub mod packet;
pub mod primitives;
pub mod replay;
pub mod sessions;
pub mod store;

pub use crate::engine::SmnCryptoEngine;
pub use crate::error::SmnCryptoError;
pub use crate::handshake::EphemeralKeyPair;
pub use crate::key_update::{build_key_update_payload, LongTermIdentity, SignedKeyUpdate};
pub use crate::replay::ReplayWindowState;
pub use crate::sessions::LruSessionCache;
pub use crate::store::SecretStore;
