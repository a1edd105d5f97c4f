//! Key derivation and authenticated encryption.

use vstd::prelude::*;
use vstd::utf8::encode_utf8;

use aes_gcm::aead::rand_core::RngCore;
use aes_gcm::aead::{Aead, OsRng};
use aes_gcm::{AeadCore, Aes256Gcm, KeyInit};
use pbkdf2::hmac::Hmac;
use sha2::Sha256;
use unicode_normalization::UnicodeNormalization;

verus! {

/// The longest plaintext that AES-GCM encrypts, in bytes.
pub const MAX_PLAINTEXT: u64 = 0x10_0000_0000;

/// Length of the authentication tag that the cipher appends.
pub const TAG_LEN: usize = 16;

/// The Unicode canonical composed form (NFC) of a string.
pub uninterp spec fn nfc_of(s: Seq<char>) -> Seq<char>;

/// PBKDF2 with HMAC-SHA-256, 32 bytes of output.
pub uninterp spec fn pbkdf2_sha256_of(password: Seq<u8>, salt: Seq<u8>, rounds: u32) -> Seq<u8>;

/// AES-256-GCM encryption without associated data: ciphertext, then tag.
pub uninterp spec fn gcm_seal(key: Seq<u8>, nonce: Seq<u8>, plaintext: Seq<u8>) -> Seq<u8>;

/// AES-256-GCM decryption without associated data; `None` where the tag
/// does not verify.
pub uninterp spec fn gcm_open(key: Seq<u8>, nonce: Seq<u8>, sealed: Seq<u8>) -> Option<Seq<u8>>;

/// The key that a password, salt and round count give.
pub open spec fn derived_key(password: Seq<char>, salt: Seq<u8>, rounds: u32) -> Seq<u8> {
    pbkdf2_sha256_of(encode_utf8(nfc_of(password)), salt, rounds)
}

/// Whether a decryption result is exactly `plaintext`.
pub open spec fn opened_to(r: Option<Vec<u8>>, plaintext: Seq<u8>) -> bool {
    r matches Some(q) && q@ == plaintext
}

/// Relies on unicode_normalization's `nfc`: the result depends on the
/// characters alone.
#[verifier::external_body]
fn nfc(s: &str) -> (r: String)
    ensures
        r@ == nfc_of(s@),
{
    s.nfc().collect::<String>()
}

/// Relies on pbkdf2::pbkdf2 over `Hmac<Sha256>` filling 32 bytes. It fails
/// only where the PRF refuses the password as a key, which HMAC never does.
#[verifier::external_body]
fn pbkdf2_sha256(password: &[u8], salt: &[u8; 16], rounds: u32) -> (r: [u8; 32])
    ensures
        r@ == pbkdf2_sha256_of(password@, salt@, rounds),
{
    let mut res = [0u8; 32];
    pbkdf2::pbkdf2::<Hmac<Sha256>>(password, salt, rounds, &mut res).unwrap();
    res
}

/// Relies on `Aes256Gcm::encrypt` with no associated data: it fails only
/// for a plaintext over `P_MAX` bytes, and appends a 16-byte tag.
#[verifier::external_body]
fn aes_gcm_encrypt(key: &[u8; 32], nonce: &[u8; 12], plaintext: &[u8]) -> (r: Option<Vec<u8>>)
    ensures
        r is Some <==> plaintext@.len() <= MAX_PLAINTEXT,
        r matches Some(c) ==> c@ == gcm_seal(key@, nonce@, plaintext@)
            && c@.len() == plaintext@.len() + TAG_LEN,
{
    let cipher = Aes256Gcm::new(aes_gcm::Key::<Aes256Gcm>::from_slice(key));
    cipher.encrypt(aes_gcm::Nonce::from_slice(nonce), plaintext).ok()
}

/// Relies on `Aes256Gcm::decrypt` with no associated data: it gives back
/// the plaintext of what `encrypt` produced under the same key and nonce.
#[verifier::external_body]
fn aes_gcm_decrypt(key: &[u8; 32], nonce: &[u8; 12], sealed: &[u8]) -> (r: Option<Vec<u8>>)
    ensures
        r matches Some(p) ==> gcm_open(key@, nonce@, sealed@) == Some(p@),
        r is None ==> gcm_open(key@, nonce@, sealed@) is None,
        forall|p: Seq<u8>|
            p.len() <= MAX_PLAINTEXT && #[trigger] gcm_seal(key@, nonce@, p) == sealed@
                ==> opened_to(r, p),
{
    let cipher = Aes256Gcm::new(aes_gcm::Key::<Aes256Gcm>::from_slice(key));
    cipher.decrypt(aes_gcm::Nonce::from_slice(nonce), sealed).ok()
}

/// Relies on `RngCore::fill_bytes` of the operating system's generator.
#[verifier::external_body]
pub(crate) fn random_salt() -> (r: [u8; 16]) {
    let mut salt = [0u8; 16];
    OsRng.fill_bytes(&mut salt);
    salt
}

/// Relies on `AeadCore::generate_nonce` of `Aes256Gcm`, drawing from the
/// operating system's generator.
#[verifier::external_body]
pub(crate) fn random_nonce() -> (r: [u8; 12]) {
    Aes256Gcm::generate_nonce(&mut OsRng).into()
}

/// Derives the 32-byte key for a password, a salt and a round count.
///
/// The password is brought to NFC first, so that canonically equivalent
/// spellings give one key.
pub fn derive_key(password: &str, salt: &[u8; 16], rounds: u32) -> (r: [u8; 32])
    requires
        rounds > 0,
    ensures
        r@ == derived_key(password@, salt@, rounds),
{
    let normalized = nfc(password);
    pbkdf2_sha256(normalized.as_str().as_bytes(), salt, rounds)
}

/// Passwords with the same NFC form derive the same key.
pub proof fn lemma_equivalent_passwords_same_key(a: Seq<char>, b: Seq<char>, salt: Seq<u8>, rounds: u32)
    requires
        nfc_of(a) == nfc_of(b),
    ensures
        derived_key(a, salt, rounds) == derived_key(b, salt, rounds),
{
}

/// Encrypts `plaintext` under `key` and `nonce`; `None` where it is longer
/// than the cipher accepts.
pub fn encrypt(key: &[u8; 32], nonce: &[u8; 12], plaintext: &[u8]) -> (r: Option<Vec<u8>>)
    ensures
        r is Some <==> plaintext@.len() <= MAX_PLAINTEXT,
        r matches Some(c) ==> c@ == gcm_seal(key@, nonce@, plaintext@)
            && c@.len() == plaintext@.len() + TAG_LEN,
{
    aes_gcm_encrypt(key, nonce, plaintext)
}

/// Decrypts and authenticates `sealed`; `None` on any failure.
pub fn decrypt(key: &[u8; 32], nonce: &[u8; 12], sealed: &[u8]) -> (r: Option<Vec<u8>>)
    ensures
        r matches Some(p) ==> gcm_open(key@, nonce@, sealed@) == Some(p@),
        r is None ==> gcm_open(key@, nonce@, sealed@) is None,
        forall|p: Seq<u8>|
            p.len() <= MAX_PLAINTEXT && #[trigger] gcm_seal(key@, nonce@, p) == sealed@
                ==> opened_to(r, p),
{
    aes_gcm_decrypt(key, nonce, sealed)
}

} // verus!
