//! The cryptographic primitives the protocols use, each a call into an outside crate:
//! SHA-256 (`sha2`), HKDF-SHA256 (`hkdf`), AES-128-GCM (`aes-gcm`) and randomness (`rand`).
use vstd::prelude::*;

verus! {

/// The SHA-256 digest of `data`.
pub uninterp spec fn sha256_of(data: Seq<u8>) -> Seq<u8>;

/// SHA-256 of `data` (`sha2::Sha256::digest`).
/// Trusted: the 32-byte digest is named `sha256_of(data)`; nothing else is stated of it.
#[verifier::external_body]
pub(crate) fn sha256(data: &[u8]) -> (r: [u8; 32])
    ensures
        r@ == sha256_of(data@),
{
    <sha2::Sha256 as sha2::Digest>::digest(data).into()
}

/// The 32 bytes HKDF-SHA256 derives from `salt`, `ikm` and `info`.
pub uninterp spec fn hkdf_sha256_32(salt: Seq<u8>, ikm: Seq<u8>, info: Seq<u8>) -> Seq<u8>;

/// HKDF-SHA256 extract with `salt` and `ikm`, then expand with `info` to 32 bytes
/// (`hkdf::Hkdf::<Sha256>::new` and `expand`; expanding to 32 bytes never fails, since HKDF
/// allows up to 255 * 32).
/// Trusted: the output is named `hkdf_sha256_32(salt, ikm, info)`.
#[verifier::external_body]
pub(crate) fn hkdf_sha256_expand_32(salt: &[u8], ikm: &[u8], info: &[u8]) -> (r: [u8; 32])
    ensures
        r@ == hkdf_sha256_32(salt@, ikm@, info@),
{
    let hk = hkdf::Hkdf::<sha2::Sha256>::new(Some(salt), ikm);
    let mut okm = [0u8; 32];
    hk.expand(info, &mut okm).unwrap_or(());
    okm
}

/// Largest plaintext AES-GCM accepts (`aes_gcm::P_MAX`, 2^36 bytes).
pub const AES_GCM_P_MAX: u64 = 0x10_0000_0000;

/// The AES-128-GCM ciphertext (with its 16-byte tag appended) of `plaintext` under `key`
/// and `nonce`, with no associated data.
pub uninterp spec fn aes128_gcm_seal(key: Seq<u8>, nonce: Seq<u8>, plaintext: Seq<u8>) -> Seq<u8>;

/// What AES-128-GCM decryption of `ciphertext` under `key` and `nonce` gives: the plaintext,
/// or `None` when authentication fails.
pub uninterp spec fn aes128_gcm_open(key: Seq<u8>, nonce: Seq<u8>, ciphertext: Seq<u8>) -> Option<
    Seq<u8>,
>;

/// AES-128-GCM encryption (`aes_gcm::Aes128Gcm::encrypt`), which succeeds for plaintexts of
/// at most `AES_GCM_P_MAX` bytes.
/// Trusted: the ciphertext is named `aes128_gcm_seal(..)`, is 16 bytes (the tag) longer than
/// the plaintext, and decrypts under the same key and nonce to the plaintext, as the AEAD
/// interface documents.
#[verifier::external_body]
pub(crate) fn aes128_gcm_encrypt(key: &[u8; 16], nonce: &[u8; 12], plaintext: &[u8]) -> (r: Vec<u8>)
    requires
        plaintext@.len() <= AES_GCM_P_MAX,
    ensures
        r@ == aes128_gcm_seal(key@, nonce@, plaintext@),
        r@.len() == plaintext@.len() + 16,
        aes128_gcm_open(key@, nonce@, r@) == Some(plaintext@),
{
    let cipher = <aes_gcm::Aes128Gcm as aes_gcm::KeyInit>::new(
        &aes_gcm::Key::<aes_gcm::Aes128Gcm>::from(*key),
    );
    aes_gcm::aead::Aead::encrypt(&cipher, &aes_gcm::Nonce::from(*nonce), plaintext).unwrap()
}

/// AES-128-GCM decryption (`aes_gcm::Aes128Gcm::decrypt`).
/// Trusted: the outcome is named `aes128_gcm_open(..)`.
#[verifier::external_body]
pub(crate) fn aes128_gcm_decrypt(key: &[u8; 16], nonce: &[u8; 12], ciphertext: &[u8]) -> (r: Option<
    Vec<u8>,
>)
    ensures
        r is Some <==> aes128_gcm_open(key@, nonce@, ciphertext@) is Some,
        r matches Some(p) ==> aes128_gcm_open(key@, nonce@, ciphertext@) == Some(p@),
{
    let cipher = <aes_gcm::Aes128Gcm as aes_gcm::KeyInit>::new(
        &aes_gcm::Key::<aes_gcm::Aes128Gcm>::from(*key),
    );
    aes_gcm::aead::Aead::decrypt(&cipher, &aes_gcm::Nonce::from(*nonce), ciphertext).ok()
}

/// `n` random bytes from the thread-local generator (`rand::Rng::fill` on `rand::rng()`).
/// Trusted: exactly `n` bytes; nothing is stated of their values.
#[verifier::external_body]
pub(crate) fn random_bytes(n: usize) -> (r: Vec<u8>)
    ensures
        r@.len() == n,
{
    let mut b = vec![0u8; n];
    rand::Rng::fill(&mut rand::rng(), &mut b[..]);
    b
}

/// Whether `c` is an ASCII letter or digit.
pub open spec fn is_alphanumeric_ascii(c: char) -> bool {
    ('a' <= c <= 'z') || ('A' <= c <= 'Z') || ('0' <= c <= '9')
}

/// `n` random characters drawn from `rand::distr::Alphanumeric`.
/// Trusted: exactly `n` characters, each an ASCII letter or digit, as the distribution
/// documents; which ones is not stated.
#[verifier::external_body]
pub(crate) fn random_alphanumeric(n: usize) -> (r: String)
    ensures
        r@.len() == n,
        forall|i: int| 0 <= i < n ==> is_alphanumeric_ascii(#[trigger] r@[i]),
{
    rand::Rng::sample_iter(rand::rng(), &rand::distr::Alphanumeric).take(n).map(char::from).collect()
}

} // verus!
