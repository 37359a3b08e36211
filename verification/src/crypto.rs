//! Trusted bindings to the cryptographic primitives the protocol uses:
//! SHA-256, XChaCha20-Poly1305, the ChaCha20-seeded nonce stream, RSA with
//! PKCS#1 v1.5 padding, and the process entropy source.

use chacha20poly1305::aead::{Aead, NewAead};
use rand::{RngCore, SeedableRng};
use rsa::pkcs8::{FromPrivateKey, ToPrivateKey, ToPublicKey};
use sha2::{Digest, Sha256};
use std::time::{SystemTime, UNIX_EPOCH};
use vstd::prelude::*;

verus! {

// ---------------------------------------------------------------------------
// SHA-256
// ---------------------------------------------------------------------------
/// The SHA-256 digest of a byte sequence.
pub uninterp spec fn sha256_of(data: Seq<u8>) -> Seq<u8>;

/// Relies on sha2::Sha256: the digest is a function of the input bytes alone
/// and is 32 bytes long.
#[verifier::external_body]
pub(crate) fn sha256(data: &[u8]) -> (r: Vec<u8>)
    ensures
        r@ == sha256_of(data@),
        r@.len() == 32,
{
    let mut hasher = Sha256::new();
    hasher.update(data);
    hasher.finalize().to_vec()
}

// ---------------------------------------------------------------------------
// XChaCha20-Poly1305
// ---------------------------------------------------------------------------
/// The ciphertext (tag included) that sealing `plain` under `key` and `nonce`
/// produces.
pub uninterp spec fn seal_of(key: Seq<u8>, nonce: Seq<u8>, plain: Seq<u8>) -> Seq<u8>;

/// Relies on chacha20poly1305::XChaCha20Poly1305::encrypt: the ciphertext is a
/// function of key, nonce and plaintext alone, and is 16 bytes (the
/// authentication tag) longer than the plaintext.
#[verifier::external_body]
pub(crate) fn xchacha_seal(key: &[u8], nonce: &[u8], plain: &[u8]) -> (r: Vec<u8>)
    requires
        key@.len() == 32,
        nonce@.len() == 24,
        plain@.len() + 16 <= u32::MAX,
    ensures
        r@ == seal_of(key@, nonce@, plain@),
        r@.len() == plain@.len() + 16,
{
    let cipher = chacha20poly1305::XChaCha20Poly1305::new(chacha20poly1305::Key::from_slice(key));
    cipher.encrypt(chacha20poly1305::XNonce::from_slice(nonce), plain).unwrap()
}

/// Relies on chacha20poly1305::XChaCha20Poly1305::decrypt: it succeeds on
/// every ciphertext that the same key and nonce seal, and whatever it returns
/// is a plaintext that seals back to the input.
#[verifier::external_body]
pub(crate) fn xchacha_open(key: &[u8], nonce: &[u8], cipher: &[u8]) -> (r: Option<Vec<u8>>)
    requires
        key@.len() == 32,
        nonce@.len() == 24,
    ensures
        r matches Some(m) ==> cipher@ == seal_of(key@, nonce@, m@) && m@.len() + 16
            == cipher@.len(),
        r is None ==> forall|p: Seq<u8>| cipher@ != seal_of(key@, nonce@, p),
        r matches Some(m) ==> forall|p: Seq<u8>|
            cipher@ == seal_of(key@, nonce@, p) ==> p == m@,
{
    let c = chacha20poly1305::XChaCha20Poly1305::new(chacha20poly1305::Key::from_slice(key));
    c.decrypt(chacha20poly1305::XNonce::from_slice(nonce), cipher).ok()
}

// ---------------------------------------------------------------------------
// Nonce stream
// ---------------------------------------------------------------------------
/// The nonce at position `index` of the stream that a ChaCha20 generator
/// seeded with `seed` produces, drawing 24 bytes per nonce.
pub uninterp spec fn nonce_of(seed: Seq<u8>, index: int) -> Seq<u8>;

#[verifier::external_type_specification]
#[verifier::external_body]
pub struct ExChaCha20Rng(rand_chacha::ChaCha20Rng);

/// A deterministic stream of 24-byte nonces, seeded by the session secret.
/// Reader and writer each hold one and advance it once per frame.
pub struct NonceGen {
    rng: rand_chacha::ChaCha20Rng,
    seed: Vec<u8>,
    drawn: u64,
}

impl NonceGen {
    /// The 32-byte seed this stream was created from.
    pub closed spec fn seed(&self) -> Seq<u8> {
        self.seed@
    }

    /// How many nonces have been drawn so far.
    pub closed spec fn drawn(&self) -> nat {
        self.drawn as nat
    }

    /// Relies on rand_chacha::ChaCha20Rng::from_seed: the generator's byte
    /// stream is a function of the 32-byte seed alone.
    #[verifier::external_body]
    pub fn new(seed: &[u8]) -> (r: NonceGen)
        requires
            seed@.len() == 32,
        ensures
            r.seed() == seed@,
            r.drawn() == 0,
    {
        let mut buf = [0u8; 32];
        buf.copy_from_slice(seed);
        NonceGen { rng: rand_chacha::ChaCha20Rng::from_seed(buf), seed: seed.to_vec(), drawn: 0 }
    }

    /// Relies on rand_core::RngCore::fill_bytes on ChaCha20Rng: it fills the
    /// whole buffer with the next 24 bytes of the deterministic stream.
    #[verifier::external_body]
    pub(crate) fn next(&mut self) -> (r: Vec<u8>)
        requires
            old(self).drawn() < u64::MAX,
        ensures
            r@ == nonce_of(old(self).seed(), old(self).drawn() as int),
            r@.len() == 24,
            final(self).seed() == old(self).seed(),
            final(self).drawn() == old(self).drawn() + 1,
    {
        let mut nonce = [0u8; 24];
        self.rng.fill_bytes(&mut nonce);
        self.drawn += 1;
        nonce.to_vec()
    }
}

/// The first `count` nonces of the stream seeded with `seed`.
pub fn nonce_stream(seed: &[u8], count: usize) -> (r: Vec<Vec<u8>>)
    requires
        seed@.len() == 32,
        count < u64::MAX,
    ensures
        r@.len() == count,
        forall|k: int| 0 <= k < count ==> #[trigger] r@[k]@ == nonce_of(seed@, k),
{
    let mut gen = NonceGen::new(seed);
    let mut out: Vec<Vec<u8>> = Vec::new();
    let mut i: usize = 0;
    while i < count
        invariant
            0 <= i <= count,
            count < u64::MAX,
            gen.seed() == seed@,
            gen.drawn() == i,
            out@.len() == i,
            forall|k: int| 0 <= k < i ==> #[trigger] out@[k]@ == nonce_of(seed@, k),
        decreases count - i,
    {
        let n = gen.next();
        out.push(n);
        i += 1;
    }
    out
}

// ---------------------------------------------------------------------------
// RSA (PKCS#1 v1.5)
// ---------------------------------------------------------------------------
/// The outcome of decrypting `cipher` with the private key whose PKCS#8 DER
/// encoding is `key_der`, using PKCS#1 v1.5 padding.
pub uninterp spec fn rsa_decrypt_of(key_der: Seq<u8>, cipher: Seq<u8>) -> Option<Seq<u8>>;

/// Relies on rsa::RsaPrivateKey::decrypt (PKCS#1 v1.5) on a key parsed from
/// PKCS#8 DER: the outcome is a function of key bytes and ciphertext alone.
#[verifier::external_body]
pub(crate) fn rsa_decrypt(key_der: &[u8], cipher: &[u8]) -> (r: Option<Vec<u8>>)
    ensures
        r is Some <==> rsa_decrypt_of(key_der@, cipher@) is Some,
        r matches Some(m) ==> rsa_decrypt_of(key_der@, cipher@) == Some(m@),
{
    let key = match rsa::RsaPrivateKey::from_pkcs8_der(key_der) {
        Ok(k) => k,
        Err(_) => return None,
    };
    let padding = rsa::PaddingScheme::new_pkcs1v15_encrypt();
    key.decrypt(padding, cipher).ok()
}

/// Relies on rsa::RsaPrivateKey::new and the PKCS#8/SPKI DER encoders. The key
/// is freshly random, so nothing is promised of the bytes.
#[verifier::external_body]
pub(crate) fn rsa_generate_keypair(bits: usize) -> (r: Option<(Vec<u8>, Vec<u8>)>)
{
    let mut rng = rand::rngs::OsRng;
    let key = match rsa::RsaPrivateKey::new(&mut rng, bits) {
        Ok(k) => k,
        Err(_) => return None,
    };
    let priv_der = key.to_pkcs8_der().ok()?.as_ref().to_vec();
    let pub_der = rsa::RsaPublicKey::from(&key).to_public_key_der().ok()?.as_ref().to_vec();
    Some((priv_der, pub_der))
}

// ---------------------------------------------------------------------------
// Entropy and time
// ---------------------------------------------------------------------------
/// Relies on rand::rngs::OsRng::fill_bytes: it fills the whole buffer. The
/// bytes are random, so nothing is promised of their values.
#[verifier::external_body]
pub(crate) fn random_bytes(len: usize) -> (r: Vec<u8>)
    ensures
        r@.len() == len,
{
    let mut buf = vec![0u8; len];
    rand::rngs::OsRng.fill_bytes(&mut buf);
    buf
}

/// Relies on std::time::SystemTime: seconds since the Unix epoch at the call.
#[verifier::external_body]
pub fn current_time_as_sec() -> u64 {
    match SystemTime::now().duration_since(UNIX_EPOCH) {
        Ok(d) => d.as_secs(),
        Err(_) => 0,
    }
}

} // verus!
