//! A password-protected store of short binary secrets.
//!
//! Each secret is kept as one encrypted entry: a versioned header holding
//! a random salt and nonce, followed by AES-256-GCM output under a key
//! derived with PBKDF2-HMAC-SHA-256 from the NFC form of a password.
//! The modules here hold the format, the key schedule and every decision
//! of the store; reading and writing files is left to the caller.

pub mod error;
pub mod codec;
pub mod names;
pub mod crypto;
pub mod secret;
pub mod store;
