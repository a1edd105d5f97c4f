use vstd::prelude::*;

use crate::error::StoreError;

verus! {

/// The one format version that this library writes and reads.
pub const FORMAT_VERSION: u8 = 1;

/// Length of the key-derivation salt.
pub const SALT_LEN: usize = 16;

/// Length of the AEAD nonce.
pub const NONCE_LEN: usize = 12;

/// Length of the fixed header: version, salt and nonce.
pub const HEADER_LEN: usize = 29;

/// The decoded content of one entry.
pub struct EncryptedPayload {
    pub version: u8,
    pub salt: [u8; 16],
    pub nonce: [u8; 12],
    /// Cipher output, the authentication tag last.
    pub ciphertext: Vec<u8>,
}

/// The bytes of an entry: version, salt, nonce, then the cipher output.
pub open spec fn layout(version: u8, salt: Seq<u8>, nonce: Seq<u8>, ciphertext: Seq<u8>) -> Seq<u8> {
    seq![version] + salt + nonce + ciphertext
}

/// The outcome of decoding `bytes`, as `(salt, nonce, ciphertext)`.
pub open spec fn decoded(bytes: Seq<u8>) -> Result<(Seq<u8>, Seq<u8>, Seq<u8>), StoreError> {
    if bytes.len() == 0 {
        Err(StoreError::MalformedPayload)
    } else if bytes[0] != FORMAT_VERSION {
        Err(StoreError::UnsupportedFormatVersion)
    } else if bytes.len() < HEADER_LEN {
        Err(StoreError::MalformedPayload)
    } else {
        Ok((bytes.subrange(1, 17), bytes.subrange(17, 29), bytes.subrange(29, bytes.len() as int)))
    }
}

impl EncryptedPayload {
    pub open spec fn bytes(&self) -> Seq<u8> {
        layout(self.version, self.salt@, self.nonce@, self.ciphertext@)
    }
}

/// Lays out a payload as the bytes of an entry.
pub fn encode(payload: &EncryptedPayload) -> (r: Vec<u8>)
    requires
        payload.ciphertext@.len() + HEADER_LEN <= usize::MAX,
    ensures
        r@ == payload.bytes(),
{
    let mut out: Vec<u8> = Vec::with_capacity(HEADER_LEN + payload.ciphertext.len());
    out.push(payload.version);
    let mut i: usize = 0;
    while i < SALT_LEN
        invariant
            i <= SALT_LEN,
            out@ == seq![payload.version] + payload.salt@.subrange(0, i as int),
        decreases SALT_LEN - i,
    {
        out.push(payload.salt[i]);
        i = i + 1;
    }
    assert(payload.salt@.subrange(0, 16) == payload.salt@);
    let mut j: usize = 0;
    while j < NONCE_LEN
        invariant
            j <= NONCE_LEN,
            out@ == seq![payload.version] + payload.salt@ + payload.nonce@.subrange(0, j as int),
        decreases NONCE_LEN - j,
    {
        out.push(payload.nonce[j]);
        j = j + 1;
    }
    assert(payload.nonce@.subrange(0, 12) == payload.nonce@);
    let n = payload.ciphertext.len();
    let mut k: usize = 0;
    while k < n
        invariant
            k <= n,
            n == payload.ciphertext@.len(),
            out@ == seq![payload.version] + payload.salt@ + payload.nonce@
                + payload.ciphertext@.subrange(0, k as int),
        decreases n - k,
    {
        out.push(payload.ciphertext[k]);
        k = k + 1;
    }
    assert(payload.ciphertext@.subrange(0, n as int) == payload.ciphertext@);
    out
}

/// Reads the bytes of an entry back into its parts.
///
/// An empty input, or a version 1 input shorter than the header, is
/// malformed; a first byte other than 1 is an unsupported version.
pub fn decode(bytes: &[u8]) -> (r: Result<EncryptedPayload, StoreError>)
    ensures
        match r {
            Ok(p) => p.version == FORMAT_VERSION
                && decoded(bytes@) == Ok::<_, StoreError>((p.salt@, p.nonce@, p.ciphertext@)),
            Err(e) => decoded(bytes@) == Err::<(Seq<u8>, Seq<u8>, Seq<u8>), _>(e),
        },
{
    if bytes.len() == 0 {
        return Err(StoreError::MalformedPayload);
    }
    if bytes[0] != FORMAT_VERSION {
        return Err(StoreError::UnsupportedFormatVersion);
    }
    if bytes.len() < HEADER_LEN {
        return Err(StoreError::MalformedPayload);
    }
    let mut salt: [u8; 16] = [0u8; 16];
    let mut i: usize = 0;
    while i < SALT_LEN
        invariant
            i <= SALT_LEN,
            bytes@.len() >= HEADER_LEN,
            forall|m: int| 0 <= m < i ==> salt@[m] == bytes@[m + 1],
        decreases SALT_LEN - i,
    {
        salt[i] = bytes[i + 1];
        i = i + 1;
    }
    let mut nonce: [u8; 12] = [0u8; 12];
    let mut j: usize = 0;
    while j < NONCE_LEN
        invariant
            j <= NONCE_LEN,
            bytes@.len() >= HEADER_LEN,
            forall|m: int| 0 <= m < j ==> nonce@[m] == bytes@[m + 17],
        decreases NONCE_LEN - j,
    {
        nonce[j] = bytes[j + 17];
        j = j + 1;
    }
    let n = bytes.len();
    let mut ciphertext: Vec<u8> = Vec::with_capacity(n - HEADER_LEN);
    let mut k: usize = HEADER_LEN;
    while k < n
        invariant
            HEADER_LEN <= k <= n,
            n == bytes@.len(),
            ciphertext@ == bytes@.subrange(HEADER_LEN as int, k as int),
        decreases n - k,
    {
        ciphertext.push(bytes[k]);
        k = k + 1;
    }
    assert(salt@ == bytes@.subrange(1, 17));
    assert(nonce@ == bytes@.subrange(17, 29));
    Ok(EncryptedPayload { version: FORMAT_VERSION, salt, nonce, ciphertext })
}

/// Decoding the layout of a version 1 payload gives back its salt, nonce
/// and cipher output.
pub proof fn lemma_decode_layout(salt: Seq<u8>, nonce: Seq<u8>, ciphertext: Seq<u8>)
    requires
        salt.len() == SALT_LEN,
        nonce.len() == NONCE_LEN,
    ensures
        decoded(layout(FORMAT_VERSION, salt, nonce, ciphertext)) == Ok::<_, StoreError>(
            (salt, nonce, ciphertext),
        ),
{
    let b = layout(FORMAT_VERSION, salt, nonce, ciphertext);
    assert(b.subrange(1, 17) == salt);
    assert(b.subrange(17, 29) == nonce);
    assert(b.subrange(29, b.len() as int) == ciphertext);
}

/// A payload whose first byte is not the supported version never decodes,
/// whatever follows it.
pub proof fn lemma_other_version_rejected(bytes: Seq<u8>)
    requires
        bytes.len() > 0,
        bytes[0] != FORMAT_VERSION,
    ensures
        decoded(bytes) == Err::<(Seq<u8>, Seq<u8>, Seq<u8>), _>(StoreError::UnsupportedFormatVersion),
{
}

/// A payload shorter than the header fails as malformed, where it is empty
/// or claims the supported version.
pub proof fn lemma_short_payload_malformed(bytes: Seq<u8>)
    requires
        bytes.len() < HEADER_LEN,
        bytes.len() == 0 || bytes[0] == FORMAT_VERSION,
    ensures
        decoded(bytes) == Err::<(Seq<u8>, Seq<u8>, Seq<u8>), _>(StoreError::MalformedPayload),
{
}

} // verus!
