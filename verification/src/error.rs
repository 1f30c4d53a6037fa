//! The failures that a keyring operation reports.

use vstd::prelude::*;

verus! {

/// Why an operation ended without doing its work. Every kind is final for
/// the operation that reports it: nothing is retried.
#[derive(Clone, Copy, Debug, PartialEq, Eq, Structural)]
pub enum KeyringError {
    /// The words do not form a mnemonic: wrong count or failed checksum.
    InvalidMnemonic,
    /// The signing algorithm is not registered with this keyring.
    UnsupportedAlgorithm,
    /// The derivation options cannot be used together or as given.
    IncompatibleOptions,
    /// The threshold is zero or exceeds the number of members.
    InvalidThreshold,
    /// Two members of a threshold key are byte-identical.
    DuplicateMember,
    /// No entry is stored under the name.
    NotFound,
    /// An entry is already stored under the name.
    AlreadyExists,
    /// The secret did not open: wrong password or damaged data.
    DecryptionFailed,
    /// The store is held by another process.
    StoreLocked,
    /// The input ended before the operation had what it needed.
    InputAborted,
    /// The backend selector names no known backend.
    UnknownBackend,
    /// The key material is not well formed.
    MalformedKey,
    /// The system's random source gave nothing.
    EntropyUnavailable,
}

/// What a failure is called when it is shown to the user. A failure to
/// decrypt has one text, whatever was wrong.
pub open spec fn error_text(kind: KeyringError) -> Seq<char> {
    match kind {
        KeyringError::InvalidMnemonic => "invalid mnemonic"@,
        KeyringError::UnsupportedAlgorithm => "unsupported signing algorithm"@,
        KeyringError::IncompatibleOptions => "incompatible options"@,
        KeyringError::InvalidThreshold => "invalid threshold"@,
        KeyringError::DuplicateMember => "duplicate member"@,
        KeyringError::NotFound => "key not found"@,
        KeyringError::AlreadyExists => "key already exists"@,
        KeyringError::DecryptionFailed => "decryption failed"@,
        KeyringError::StoreLocked => "store is locked"@,
        KeyringError::InputAborted => "input aborted"@,
        KeyringError::UnknownBackend => "unknown keyring backend"@,
        KeyringError::MalformedKey => "malformed key"@,
        KeyringError::EntropyUnavailable => "no entropy available"@,
    }
}

impl KeyringError {
    /// What the failure is called when it is shown to the user.
    pub fn message(&self) -> (text: &'static str)
        ensures
            text@ == error_text(*self),
    {
        match self {
            KeyringError::InvalidMnemonic => "invalid mnemonic",
            KeyringError::UnsupportedAlgorithm => "unsupported signing algorithm",
            KeyringError::IncompatibleOptions => "incompatible options",
            KeyringError::InvalidThreshold => "invalid threshold",
            KeyringError::DuplicateMember => "duplicate member",
            KeyringError::NotFound => "key not found",
            KeyringError::AlreadyExists => "key already exists",
            KeyringError::DecryptionFailed => "decryption failed",
            KeyringError::StoreLocked => "store is locked",
            KeyringError::InputAborted => "input aborted",
            KeyringError::UnknownBackend => "unknown keyring backend",
            KeyringError::MalformedKey => "malformed key",
            KeyringError::EntropyUnavailable => "no entropy available",
        }
    }
}

} // verus!
