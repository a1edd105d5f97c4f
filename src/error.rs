use vstd::prelude::*;

verus! {

/// Every way in which an operation of the store can fail.
#[derive(Debug, Clone, Copy, PartialEq, Eq, Structural)]
pub enum StoreError {
    /// The target entry is present and overwriting was not asked for.
    AlreadyExists,
    /// The entry that was asked for is absent.
    NotFound,
    /// A secret is not a `0x`-prefixed string of hex digit pairs.
    InvalidSecretEncoding,
    /// The version byte of a payload is not one this library reads.
    UnsupportedFormatVersion,
    /// A payload is shorter than its fixed header.
    MalformedPayload,
    /// The authentication tag did not verify: wrong password, wrong round
    /// count, or altered bytes, deliberately not told apart.
    AuthenticationFailure,
    /// No explicit directory was given and no home directory was found.
    DirectoryResolutionFailure,
    /// A round count of zero was asked for.
    InvalidRounds,
    /// An entry name is empty, `.`, `..`, or holds a path separator or NUL.
    InvalidName,
    /// A secret is longer than the cipher accepts.
    SecretTooLong,
}

impl StoreError {
    /// A short human-readable description of the failure.
    pub fn message(&self) -> (r: String) {
        match self {
            StoreError::AlreadyExists => String::from_str("the entry already exists; overwrite it explicitly"),
            StoreError::NotFound => String::from_str("no such entry"),
            StoreError::InvalidSecretEncoding => String::from_str("value must be a hex string starting with '0x'"),
            StoreError::UnsupportedFormatVersion => String::from_str("unknown file version"),
            StoreError::MalformedPayload => String::from_str("the entry is too short to be valid"),
            StoreError::AuthenticationFailure => String::from_str("failed to decrypt"),
            StoreError::DirectoryResolutionFailure => String::from_str("could not determine the root directory"),
            StoreError::InvalidRounds => String::from_str("the number of derivation rounds must be positive"),
            StoreError::InvalidName => String::from_str("invalid entry name"),
            StoreError::SecretTooLong => String::from_str("the value is too long to encrypt"),
        }
    }
}

} // verus!
