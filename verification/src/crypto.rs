//! AEAD payload encryption: a random 12-byte nonce prepended to the
//! ciphertext-plus-tag of one of two ciphers.
//!
//! Only decryption is a function of its inputs, so the trusted contracts name
//! the opening direction of each cipher and state of every sealing outcome
//! that it opens back to the plaintext under the same key and nonce.

use vstd::prelude::*;

use aes_gcm::aead::{Aead, KeyInit};
use rand::Rng;

use crate::error::ProtocolError;

verus! {

/// The plaintext that AES-256-GCM decryption yields for the given key,
/// 12-byte nonce, and ciphertext-plus-tag, if authentication succeeds.
pub uninterp spec fn aes_gcm_open(key: Seq<u8>, nonce: Seq<u8>, ciphertext: Seq<u8>) -> Option<
    Seq<u8>,
>;

/// The plaintext that ChaCha20-Poly1305 decryption yields for the given key,
/// 12-byte nonce, and ciphertext-plus-tag, if authentication succeeds.
pub uninterp spec fn chacha_open(key: Seq<u8>, nonce: Seq<u8>, ciphertext: Seq<u8>) -> Option<
    Seq<u8>,
>;

/// Relies on `aes_gcm::Aes256Gcm` through `aead::Aead::encrypt`: the
/// ciphertext carries a postfix 16-byte tag, and decrypting it with the same
/// key and nonce recovers the plaintext. Its only failure is a length check:
/// it succeeds on every plaintext of at most 2^36 bytes.
#[verifier::external_body]
fn aes_seal(key: &[u8; 32], nonce: &[u8; 12], data: &[u8]) -> (r: Option<Vec<u8>>)
    ensures
        r matches Some(c) ==> c@.len() == data@.len() + 16 && aes_gcm_open(key@, nonce@, c@)
            == Some(data@),
        data@.len() <= 0x10_0000_0000 ==> r is Some,
{
    let cipher = aes_gcm::Aes256Gcm::new(key.into());
    cipher.encrypt(aes_gcm::Nonce::from_slice(nonce), data).ok()
}

/// Relies on `aes_gcm::Aes256Gcm` through `aead::Aead::decrypt`:
/// deterministic in key, nonce, and ciphertext; its result is the function
/// `aes_gcm_open` names.
#[verifier::external_body]
fn aes_open(key: &[u8; 32], nonce: &[u8], data: &[u8]) -> (r: Option<Vec<u8>>)
    requires
        nonce@.len() == 12,
    ensures
        r matches Some(p) ==> aes_gcm_open(key@, nonce@, data@) == Some(p@),
        r is None ==> aes_gcm_open(key@, nonce@, data@) is None,
{
    let cipher = aes_gcm::Aes256Gcm::new(key.into());
    cipher.decrypt(aes_gcm::Nonce::from_slice(nonce), data).ok()
}

/// Relies on `chacha20poly1305::ChaCha20Poly1305` through
/// `aead::Aead::encrypt`: the ciphertext carries a postfix 16-byte tag, and
/// decrypting it with the same key and nonce recovers the plaintext. Its
/// only failure is a block-count check: it succeeds on every plaintext of
/// fewer than 64 * (2^32 - 1) bytes.
#[verifier::external_body]
fn chacha_seal(key: &[u8; 32], nonce: &[u8; 12], data: &[u8]) -> (r: Option<Vec<u8>>)
    ensures
        r matches Some(c) ==> c@.len() == data@.len() + 16 && chacha_open(key@, nonce@, c@)
            == Some(data@),
        data@.len() <= 0x3F_FFFF_FFBF ==> r is Some,
{
    let cipher = chacha20poly1305::ChaCha20Poly1305::new(chacha20poly1305::Key::from_slice(key));
    cipher.encrypt(chacha20poly1305::Nonce::from_slice(nonce), data).ok()
}

/// Relies on `chacha20poly1305::ChaCha20Poly1305` through
/// `aead::Aead::decrypt`: deterministic in key, nonce, and ciphertext; its
/// result is the function `chacha_open` names.
#[verifier::external_body]
fn chacha_unseal(key: &[u8; 32], nonce: &[u8], data: &[u8]) -> (r: Option<Vec<u8>>)
    requires
        nonce@.len() == 12,
    ensures
        r matches Some(p) ==> chacha_open(key@, nonce@, data@) == Some(p@),
        r is None ==> chacha_open(key@, nonce@, data@) is None,
{
    let cipher = chacha20poly1305::ChaCha20Poly1305::new(chacha20poly1305::Key::from_slice(key));
    cipher.decrypt(chacha20poly1305::Nonce::from_slice(nonce), data).ok()
}

/// Relies on `rand::thread_rng`, a cryptographically secure generator: fills
/// a fresh 12-byte nonce. Nothing can be promised of random values.
#[verifier::external_body]
fn random_nonce() -> (r: [u8; 12]) {
    let mut nonce = [0u8; 12];
    rand::thread_rng().fill(&mut nonce);
    nonce
}

/// The AEAD algorithms the provider can run.
#[derive(Debug, Clone, Copy, PartialEq, Eq, Structural)]
pub enum EncryptionAlgorithm {
    /// AES-256 in Galois/Counter Mode.
    Aes256Gcm,
    /// ChaCha20 with the Poly1305 authenticator.
    ChaCha20Poly1305,
}

/// The mathematical value of a crypto provider: its algorithm and key bytes.
pub struct CryptoModel {
    /// Which AEAD cipher the provider runs.
    pub algorithm: EncryptionAlgorithm,
    /// The 32 key bytes.
    pub key: Seq<u8>,
}

/// Encrypts and decrypts payloads with one AEAD algorithm and a 32-byte key.
pub struct CryptoProvider {
    algorithm: EncryptionAlgorithm,
    key: [u8; 32],
}

impl View for CryptoProvider {
    type V = CryptoModel;

    closed spec fn view(&self) -> CryptoModel {
        CryptoModel { algorithm: self.algorithm, key: self.key@ }
    }
}

/// The plaintext the named cipher's decryption yields, if any.
pub open spec fn spec_aead_open(
    alg: EncryptionAlgorithm,
    key: Seq<u8>,
    nonce: Seq<u8>,
    ciphertext: Seq<u8>,
) -> Option<Seq<u8>> {
    match alg {
        EncryptionAlgorithm::Aes256Gcm => aes_gcm_open(key, nonce, ciphertext),
        EncryptionAlgorithm::ChaCha20Poly1305 => chacha_open(key, nonce, ciphertext),
    }
}

/// What `decrypt` yields on any input: at least 12 bytes, split into the
/// nonce prefix and the ciphertext the cipher then opens.
pub open spec fn spec_decrypt(alg: EncryptionAlgorithm, key: Seq<u8>, data: Seq<u8>) -> Option<
    Seq<u8>,
> {
    if data.len() < 12 {
        None
    } else {
        spec_aead_open(alg, key, data.subrange(0, 12), data.subrange(12, data.len() as int))
    }
}

/// The largest plaintext the named cipher is guaranteed to seal: each
/// cipher's encryption fails only on a length check, at 2^36 bytes for
/// AES-256-GCM and at 64 * (2^32 - 1) bytes for ChaCha20-Poly1305.
pub open spec fn spec_aead_p_max(alg: EncryptionAlgorithm) -> int {
    match alg {
        EncryptionAlgorithm::Aes256Gcm => 0x10_0000_0000,
        EncryptionAlgorithm::ChaCha20Poly1305 => 0x3F_FFFF_FFBF,
    }
}

/// What `encrypt` guarantees of every ciphertext it returns: 28 bytes of
/// overhead — nonce and tag — and decryption back to the plaintext under the
/// same algorithm and key.
pub open spec fn spec_encrypt_post(
    alg: EncryptionAlgorithm,
    key: Seq<u8>,
    plaintext: Seq<u8>,
    ciphertext: Seq<u8>,
) -> bool {
    &&& ciphertext.len() == plaintext.len() + 28
    &&& spec_decrypt(alg, key, ciphertext) == Some(plaintext)
}

/// Crypto round-trip law: every ciphertext `encrypt` can return satisfies
/// `decrypt`'s success condition and decrypts to exactly the plaintext, so
/// decrypting what was encrypted under the same provider is owed `Ok` and
/// returns the original bytes.
pub proof fn lemma_crypto_round_trip(
    alg: EncryptionAlgorithm,
    key: Seq<u8>,
    plaintext: Seq<u8>,
    ciphertext: Seq<u8>,
)
    requires
        spec_encrypt_post(alg, key, plaintext, ciphertext),
    ensures
        spec_decrypt(alg, key, ciphertext) is Some,
        spec_decrypt(alg, key, ciphertext) == Some(plaintext),
{
}

impl CryptoProvider {
    /// A provider running AES-256-GCM with the given key.
    pub fn new_aes(key: &[u8; 32]) -> (r: CryptoProvider)
        ensures
            r@ == (CryptoModel { algorithm: EncryptionAlgorithm::Aes256Gcm, key: key@ }),
    {
        CryptoProvider { algorithm: EncryptionAlgorithm::Aes256Gcm, key: *key }
    }

    /// A provider running ChaCha20-Poly1305 with the given key.
    pub fn new_chacha(key: &[u8; 32]) -> (r: CryptoProvider)
        ensures
            r@ == (CryptoModel { algorithm: EncryptionAlgorithm::ChaCha20Poly1305, key: key@ }),
    {
        CryptoProvider { algorithm: EncryptionAlgorithm::ChaCha20Poly1305, key: *key }
    }

    /// Relies on `rand::thread_rng`, a cryptographically secure generator: a
    /// fresh random 256-bit key. Nothing can be promised of random values.
    #[verifier::external_body]
    pub fn generate_key() -> [u8; 32] {
        let mut key = [0u8; 32];
        rand::thread_rng().fill(&mut key);
        key
    }

    /// Encrypts `data` under a fresh random nonce. Every ciphertext this
    /// returns is 28 bytes longer than the plaintext — nonce and tag — and
    /// decrypts back to `data` under the same provider; it succeeds on every
    /// plaintext within the cipher's length bound.
    pub fn encrypt(&self, data: &[u8]) -> (r: Result<Vec<u8>, ProtocolError>)
        ensures
            data@.len() <= spec_aead_p_max(self@.algorithm) ==> r is Ok,
            r matches Ok(c) ==> spec_encrypt_post(self@.algorithm, self@.key, data@, c@),
            r is Err ==> r->Err_0 is Encryption,
    {
        let nonce = random_nonce();
        let sealed = match self.algorithm {
            EncryptionAlgorithm::Aes256Gcm => aes_seal(&self.key, &nonce, data),
            EncryptionAlgorithm::ChaCha20Poly1305 => chacha_seal(&self.key, &nonce, data),
        };
        match sealed {
            Some(mut ciphertext) => {
                let ghost sealed_view = ciphertext@;
                let mut out: Vec<u8> = Vec::new();
                let mut i: usize = 0;
                while i < 12
                    invariant
                        i <= 12,
                        out@ == nonce@.take(i as int),
                    decreases 12 - i,
                {
                    out.push(nonce[i]);
                    proof {
                        assert(nonce@.take(i + 1) =~= nonce@.take(i as int).push(nonce@[i as int]));
                    }
                    i = i + 1;
                }
                proof {
                    assert(nonce@.take(12) =~= nonce@);
                }
                out.append(&mut ciphertext);
                proof {
                    assert(out@.subrange(0, 12) =~= nonce@);
                    assert(out@.subrange(12, out@.len() as int) =~= sealed_view);
                }
                Ok(out)
            },
            None => Err(ProtocolError::Encryption("AEAD encryption failed".to_owned())),
        }
    }

    /// Decrypts `data`: splits off the 12-byte nonce prefix, opens the rest,
    /// and succeeds exactly when the cipher authenticates it.
    pub fn decrypt(&self, data: &[u8]) -> (r: Result<Vec<u8>, ProtocolError>)
        ensures
            r is Ok <==> spec_decrypt(self@.algorithm, self@.key, data@) is Some,
            r matches Ok(p) ==> spec_decrypt(self@.algorithm, self@.key, data@) == Some(p@),
            r is Err ==> r->Err_0 is Encryption,
    {
        if data.len() < 12 {
            return Err(ProtocolError::Encryption("encrypted data too short".to_owned()));
        }
        let nonce = vstd::slice::slice_subrange(data, 0, 12);
        let ciphertext = vstd::slice::slice_subrange(data, 12, data.len());
        let opened = match self.algorithm {
            EncryptionAlgorithm::Aes256Gcm => aes_open(&self.key, nonce, ciphertext),
            EncryptionAlgorithm::ChaCha20Poly1305 => chacha_unseal(&self.key, nonce, ciphertext),
        };
        match opened {
            Some(plaintext) => Ok(plaintext),
            None => Err(ProtocolError::Encryption("AEAD authentication failed".to_owned())),
        }
    }
}

} // verus!
