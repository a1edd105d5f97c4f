//! The decisions of the secret store.
//!
//! The caller reads and writes the entry files; these functions take what
//! was read and hand back the bytes to write, or the error to report.

use vstd::prelude::*;

use crate::codec::{decode, decoded, encode, layout, lemma_decode_layout, EncryptedPayload};
use crate::codec::{FORMAT_VERSION, HEADER_LEN, NONCE_LEN, SALT_LEN};
use crate::crypto::{decrypt, derive_key, derived_key, encrypt, gcm_open, gcm_seal};
use crate::crypto::{random_nonce, random_salt, MAX_PLAINTEXT, TAG_LEN};
use crate::error::StoreError;

verus! {

/// Whether an executable result is the mathematical `outcome`.
pub open spec fn same_outcome(r: Result<Vec<u8>, StoreError>, outcome: Result<Seq<u8>, StoreError>) -> bool {
    match r {
        Ok(v) => outcome == Ok::<Seq<u8>, StoreError>(v@),
        Err(e) => outcome == Err::<Seq<u8>, StoreError>(e),
    }
}

/// The entry bytes that encrypting `secret` with a given salt and nonce gives.
pub open spec fn sealed_entry(
    secret: Seq<u8>,
    password: Seq<char>,
    rounds: u32,
    salt: Seq<u8>,
    nonce: Seq<u8>,
) -> Result<Seq<u8>, StoreError> {
    if rounds == 0 {
        Err(StoreError::InvalidRounds)
    } else if secret.len() > MAX_PLAINTEXT {
        Err(StoreError::SecretTooLong)
    } else {
        Ok(layout(FORMAT_VERSION, salt, nonce, gcm_seal(derived_key(password, salt, rounds), nonce, secret)))
    }
}

/// The plaintext that the bytes of an entry give under a password and
/// round count.
pub open spec fn opened_entry(contents: Seq<u8>, password: Seq<char>, rounds: u32) -> Result<Seq<u8>, StoreError> {
    if rounds == 0 {
        Err(StoreError::InvalidRounds)
    } else {
        match decoded(contents) {
            Err(e) => Err(e),
            Ok((salt, nonce, sealed)) => match gcm_open(derived_key(password, salt, rounds), nonce, sealed) {
                Some(p) => Ok(p),
                None => Err(StoreError::AuthenticationFailure),
            },
        }
    }
}

/// Why `set` refuses to write, if it does.
pub open spec fn set_refusal(exists: bool, overwrite: bool, secret: Seq<u8>, rounds: u32) -> Option<StoreError> {
    if exists && !overwrite {
        Some(StoreError::AlreadyExists)
    } else if rounds == 0 {
        Some(StoreError::InvalidRounds)
    } else if secret.len() > MAX_PLAINTEXT {
        Some(StoreError::SecretTooLong)
    } else {
        None
    }
}

/// The bytes that `clone` writes to the target entry.
pub open spec fn cloned_entry(source: Option<Seq<u8>>, target_exists: bool, overwrite: bool) -> Result<Seq<u8>, StoreError> {
    match source {
        None => Err(StoreError::NotFound),
        Some(bytes) => if target_exists && !overwrite {
            Err(StoreError::AlreadyExists)
        } else {
            Ok(bytes)
        },
    }
}

proof fn lemma_sealed_decodes(secret: Seq<u8>, password: Seq<char>, rounds: u32, salt: Seq<u8>, nonce: Seq<u8>)
    requires
        salt.len() == SALT_LEN,
        nonce.len() == NONCE_LEN,
        sealed_entry(secret, password, rounds, salt, nonce) is Ok,
    ensures
        rounds > 0,
        secret.len() <= MAX_PLAINTEXT,
        sealed_entry(secret, password, rounds, salt, nonce) == Ok::<_, StoreError>(
            layout(FORMAT_VERSION, salt, nonce, gcm_seal(derived_key(password, salt, rounds), nonce, secret)),
        ),
        decoded(sealed_entry(secret, password, rounds, salt, nonce)->Ok_0) == Ok::<_, StoreError>(
            (salt, nonce, gcm_seal(derived_key(password, salt, rounds), nonce, secret)),
        ),
{
    lemma_decode_layout(salt, nonce, gcm_seal(derived_key(password, salt, rounds), nonce, secret));
}

/// Encrypts `secret` under `password` and `rounds` with the given salt and
/// nonce, and lays the result out as the bytes of an entry.
pub fn seal_entry(secret: &[u8], password: &str, rounds: u32, salt: [u8; 16], nonce: [u8; 12]) -> (r: Result<Vec<u8>, StoreError>)
    requires
        secret@.len() + HEADER_LEN + TAG_LEN <= usize::MAX,
    ensures
        same_outcome(r, sealed_entry(secret@, password@, rounds, salt@, nonce@)),
{
    if rounds == 0 {
        return Err(StoreError::InvalidRounds);
    }
    let key = derive_key(password, &salt, rounds);
    match encrypt(&key, &nonce, secret) {
        None => Err(StoreError::SecretTooLong),
        Some(ciphertext) => {
            let payload = EncryptedPayload { version: FORMAT_VERSION, salt, nonce, ciphertext };
            Ok(encode(&payload))
        },
    }
}

/// Decodes the bytes of an entry and decrypts them under `password` and
/// `rounds`.
///
/// Bytes that `seal_entry` produced from a secret, under the same password
/// and round count, give that secret back.
pub fn open_entry(contents: &[u8], password: &str, rounds: u32) -> (r: Result<Vec<u8>, StoreError>)
    ensures
        same_outcome(r, opened_entry(contents@, password@, rounds)),
        forall|secret: Seq<u8>, salt: Seq<u8>, nonce: Seq<u8>|
            salt.len() == SALT_LEN && nonce.len() == NONCE_LEN
                && #[trigger] sealed_entry(secret, password@, rounds, salt, nonce) == Ok::<_, StoreError>(contents@)
                ==> r == Ok::<Vec<u8>, StoreError>(r->Ok_0) && r->Ok_0@ == secret,
{
    if rounds == 0 {
        return Err(StoreError::InvalidRounds);
    }
    let payload = match decode(contents) {
        Ok(p) => p,
        Err(e) => {
            proof {
                assert forall|secret: Seq<u8>, salt: Seq<u8>, nonce: Seq<u8>|
                    salt.len() == SALT_LEN && nonce.len() == NONCE_LEN
                        && #[trigger] sealed_entry(secret, password@, rounds, salt, nonce) == Ok::<_, StoreError>(contents@)
                    implies false by {
                    lemma_sealed_decodes(secret, password@, rounds, salt, nonce);
                }
            }
            return Err(e);
        },
    };
    let key = derive_key(password, &payload.salt, rounds);
    let opened = decrypt(&key, &payload.nonce, payload.ciphertext.as_slice());
    proof {
        assert forall|secret: Seq<u8>, salt: Seq<u8>, nonce: Seq<u8>|
            salt.len() == SALT_LEN && nonce.len() == NONCE_LEN
                && #[trigger] sealed_entry(secret, password@, rounds, salt, nonce) == Ok::<_, StoreError>(contents@)
            implies opened matches Some(q) && q@ == secret by {
            lemma_sealed_decodes(secret, password@, rounds, salt, nonce);
            assert(gcm_seal(key@, payload.nonce@, secret) == payload.ciphertext@);
        }
    }
    match opened {
        Some(plaintext) => Ok(plaintext),
        None => Err(StoreError::AuthenticationFailure),
    }
}

/// Produces the bytes of a new entry holding `secret`, drawing a fresh
/// salt and nonce; refuses where the entry exists and `overwrite` is unset.
pub fn set_entry(exists: bool, overwrite: bool, secret: &[u8], password: &str, rounds: u32) -> (r: Result<Vec<u8>, StoreError>)
    requires
        secret@.len() + HEADER_LEN + TAG_LEN <= usize::MAX,
    ensures
        r is Err <==> set_refusal(exists, overwrite, secret@, rounds) is Some,
        r matches Err(e) ==> set_refusal(exists, overwrite, secret@, rounds) == Some(e),
        r matches Ok(bytes) ==> exists|salt: Seq<u8>, nonce: Seq<u8>|
            salt.len() == SALT_LEN && nonce.len() == NONCE_LEN
                && #[trigger] sealed_entry(secret@, password@, rounds, salt, nonce) == Ok::<_, StoreError>(bytes@),
{
    if exists && !overwrite {
        return Err(StoreError::AlreadyExists);
    }
    let salt = random_salt();
    let nonce = random_nonce();
    let r = seal_entry(secret, password, rounds, salt, nonce);
    proof {
        if r is Ok {
            assert(sealed_entry(secret@, password@, rounds, salt@, nonce@) == Ok::<_, StoreError>(r->Ok_0@));
        }
    }
    r
}

/// Reads an entry: `contents` is what its file holds, `None` where it is absent.
pub fn get_entry(contents: Option<Vec<u8>>, password: &str, rounds: u32) -> (r: Result<Vec<u8>, StoreError>)
    ensures
        contents is None ==> r == Err::<Vec<u8>, StoreError>(StoreError::NotFound),
        contents matches Some(c) ==> same_outcome(r, opened_entry(c@, password@, rounds)),
{
    match contents {
        None => Err(StoreError::NotFound),
        Some(c) => open_entry(c.as_slice(), password, rounds),
    }
}

/// Decides a copy from one entry to another: `source` is what the source
/// file holds, `None` where it is absent. The result is the bytes to write
/// to the target, unchanged.
pub fn clone_entry(source: Option<Vec<u8>>, target_exists: bool, overwrite: bool) -> (r: Result<Vec<u8>, StoreError>)
    ensures
        same_outcome(
            r,
            cloned_entry(
                match source {
                    Some(s) => Some(s@),
                    None => None,
                },
                target_exists,
                overwrite,
            ),
        ),
{
    match source {
        None => Err(StoreError::NotFound),
        Some(bytes) => if target_exists && !overwrite {
            Err(StoreError::AlreadyExists)
        } else {
            Ok(bytes)
        },
    }
}

/// Setting a present entry without `overwrite` is refused; with it, the
/// outcome is that of setting an absent entry.
pub proof fn lemma_overwrite_protection(secret: Seq<u8>, rounds: u32)
    ensures
        set_refusal(true, false, secret, rounds) == Some(StoreError::AlreadyExists),
        set_refusal(true, true, secret, rounds) == set_refusal(false, false, secret, rounds),
{
}

/// A clone holds the source's bytes exactly, so opening it under any
/// password and round count gives what opening the source gives.
pub proof fn lemma_clone_fidelity(source: Seq<u8>, target_exists: bool, overwrite: bool, password: Seq<char>, rounds: u32)
    requires
        !(target_exists && !overwrite),
    ensures
        cloned_entry(Some(source), target_exists, overwrite) == Ok::<_, StoreError>(source),
        opened_entry(cloned_entry(Some(source), target_exists, overwrite)->Ok_0, password, rounds)
            == opened_entry(source, password, rounds),
{
}

} // verus!
