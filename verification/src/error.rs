use vstd::prelude::*;

verus! {

/// What can go wrong in an operation of the engine.
#[derive(Debug, Clone, Copy, PartialEq, Eq, Structural)]
pub enum SmnCryptoError {
    /// A key, or a packet header, does not have the length it must have.
    InvalidKeyLength,
    /// A packet could not be encrypted, or could not be authenticated.
    DecryptionFailed,
    /// A signature does not belong to the message.
    SignatureInvalid,
    /// A handle names no secret, or the peer sent an unusable public key.
    HandshakeFailed,
    /// A key update is not newer than the last one that was accepted.
    StaleKeyUpdate,
    /// A packet counter was seen before, or is too old to be tracked.
    ReplayedPacket,
}

impl SmnCryptoError {
    /// The text that describes the error to a person.
    pub open spec fn text(self) -> Seq<char> {
        match self {
            SmnCryptoError::InvalidKeyLength => "invalid key length"@,
            SmnCryptoError::DecryptionFailed => "decryption failed"@,
            SmnCryptoError::SignatureInvalid => "signature invalid"@,
            SmnCryptoError::HandshakeFailed => "handshake failed"@,
            SmnCryptoError::StaleKeyUpdate => "stale or replayed key update"@,
            SmnCryptoError::ReplayedPacket => "replayed packet"@,
        }
    }

    /// Returns the text that describes the error to a person.
    pub fn message(&self) -> (message: String)
        ensures
            message@ == self.text(),
    {
        match self {
            SmnCryptoError::InvalidKeyLength => "invalid key length".to_owned(),
            SmnCryptoError::DecryptionFailed => "decryption failed".to_owned(),
            SmnCryptoError::SignatureInvalid => "signature invalid".to_owned(),
            SmnCryptoError::HandshakeFailed => "handshake failed".to_owned(),
            SmnCryptoError::StaleKeyUpdate => "stale or replayed key update".to_owned(),
            SmnCryptoError::ReplayedPacket => "replayed packet".to_owned(),
        }
    }
}

} // verus!
