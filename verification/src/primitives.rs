//! The calls into other crates. Each stands behind a contract that is taken
//! on trust: what a call returns is given a name, and the contract says no
//! more than that the call returns it, and how long the result is where the
//! crate fills a buffer of that length.

use vstd::prelude::*;
use chacha20poly1305::aead::Aead;
use hmac::Mac;
use sha2::Digest;

verus! {

/// The SHA-256 digest of `data`, as the `sha2` crate computes it.
pub uninterp spec fn sha256(data: Seq<u8>) -> Seq<u8>;

/// The RIPEMD-160 digest of `data`, as the `ripemd` crate computes it.
pub uninterp spec fn ripemd160(data: Seq<u8>) -> Seq<u8>;

/// The HMAC-SHA-512 tag of `data` under `key`, as the `hmac` crate computes
/// it, or nothing where the crate refuses the key.
pub uninterp spec fn hmac_sha512(key: Seq<u8>, data: Seq<u8>) -> Option<Seq<u8>>;

/// The `len` bytes that PBKDF2 with HMAC-SHA-512 stretches from a password
/// and a salt in `rounds` rounds, as the `pbkdf2` crate computes them.
pub uninterp spec fn pbkdf2_hmac_sha512(
    password: Seq<u8>,
    salt: Seq<u8>,
    rounds: u32,
    len: nat,
) -> Seq<u8>;

/// The English mnemonic phrase that the `bip39` crate forms from entropy,
/// or nothing where it refuses the entropy.
pub uninterp spec fn bip39_phrase(entropy: Seq<u8>) -> Option<Seq<char>>;

/// Whether the `bip39` crate reads `phrase` as an English mnemonic: known
/// words, an accepted count and a matching checksum.
pub uninterp spec fn bip39_accepts(phrase: Seq<char>) -> bool;

/// The secp256k1 secret key that the `bip32` crate derives from a seed
/// along the child numbers of `path`, or nothing where derivation fails.
pub uninterp spec fn bip32_secp256k1_secret(seed: Seq<u8>, path: Seq<u32>) -> Option<Seq<u8>>;

/// The encoded secp256k1 public key of a secret key, as the `k256` crate
/// computes it, or nothing where it refuses the secret.
pub uninterp spec fn secp256k1_public(secret: Seq<u8>) -> Option<Seq<u8>>;

/// The ed25519 public key of a 32-byte secret key, as the `ed25519-dalek`
/// crate computes it.
pub uninterp spec fn ed25519_public(secret: Seq<u8>) -> Seq<u8>;

/// What XChaCha20-Poly1305 of the `chacha20poly1305` crate makes of a
/// plaintext under a key and a nonce: ciphertext and tag in one, or nothing
/// where the crate refuses.
pub uninterp spec fn xchacha20poly1305_seal(
    key: Seq<u8>,
    nonce: Seq<u8>,
    plaintext: Seq<u8>,
) -> Option<Seq<u8>>;

/// The plaintext that XChaCha20-Poly1305 of the `chacha20poly1305` crate
/// recovers from ciphertext and tag, or nothing where it rejects them.
pub uninterp spec fn xchacha20poly1305_open(
    key: Seq<u8>,
    nonce: Seq<u8>,
    sealed: Seq<u8>,
) -> Option<Seq<u8>>;

/// Calls `sha2::Sha256::digest`. The result is the digest of the input;
/// nothing else is claimed of it.
#[verifier::external_body]
pub(crate) fn sha256_digest(data: &[u8]) -> (out: Vec<u8>)
    ensures
        out@ == sha256(data@),
{
    sha2::Sha256::digest(data).to_vec()
}

/// Calls `ripemd::Ripemd160::digest`. The result is the digest of the
/// input; nothing else is claimed of it.
#[verifier::external_body]
pub(crate) fn ripemd160_digest(data: &[u8]) -> (out: Vec<u8>)
    ensures
        out@ == ripemd160(data@),
{
    ripemd::Ripemd160::digest(data).to_vec()
}

/// Calls `hmac::Hmac::<Sha512>::new_from_slice`, `update` and `finalize`.
/// The result is the tag of `data` under `key`, or nothing where the crate
/// refuses the key.
#[verifier::external_body]
pub(crate) fn hmac_sha512_tag(key: &[u8], data: &[u8]) -> (out: Option<Vec<u8>>)
    ensures
        match out {
            Some(tag) => hmac_sha512(key@, data@) == Some(tag@),
            None => hmac_sha512(key@, data@) is None,
        },
{
    match hmac::Hmac::<sha2::Sha512>::new_from_slice(key) {
        Ok(mut mac) => {
            mac.update(data);
            Some(mac.finalize().into_bytes().to_vec())
        },
        Err(_) => None,
    }
}

/// Calls `pbkdf2::pbkdf2_hmac::<Sha512>`, which fills a buffer of `len`
/// bytes. The result is those bytes.
#[verifier::external_body]
pub(crate) fn pbkdf2_stretch(password: &[u8], salt: &[u8], rounds: u32, len: usize) -> (out: Vec<
    u8,
>)
    requires
        len <= 1024,
    ensures
        out@ == pbkdf2_hmac_sha512(password@, salt@, rounds, len as nat),
        out@.len() == len,
{
    let mut out = vec![0u8; len];
    pbkdf2::pbkdf2_hmac::<sha2::Sha512>(password, salt, rounds, &mut out);
    out
}

/// Calls `bip39::Mnemonic::from_entropy` and writes the mnemonic out as
/// its words with single spaces between them. Nothing where the crate
/// refuses the entropy.
#[verifier::external_body]
pub(crate) fn bip39_phrase_of(entropy: &[u8]) -> (out: Option<String>)
    ensures
        match out {
            Some(phrase) => bip39_phrase(entropy@) == Some(phrase@),
            None => bip39_phrase(entropy@) is None,
        },
{
    match bip39::Mnemonic::from_entropy(entropy) {
        Ok(mnemonic) => Some(mnemonic.to_string()),
        Err(_) => None,
    }
}

/// Calls `bip39::Mnemonic::parse_in_normalized` for English and reports
/// whether the crate accepted the phrase.
#[verifier::external_body]
pub(crate) fn bip39_check(phrase: &str) -> (ok: bool)
    ensures
        ok == bip39_accepts(phrase@),
{
    bip39::Mnemonic::parse_in_normalized(bip39::Language::English, phrase).is_ok()
}

/// Calls `bip32::XPrv::derive_from_path` with the child numbers of `path`
/// and gives the bytes of the derived secret key. Nothing where the crate
/// fails to derive.
#[verifier::external_body]
pub(crate) fn bip32_derive_secret(seed: &[u8], path: &Vec<u32>) -> (out: Option<Vec<u8>>)
    ensures
        match out {
            Some(secret) => bip32_secp256k1_secret(seed@, path@) == Some(secret@),
            None => bip32_secp256k1_secret(seed@, path@) is None,
        },
{
    let mut route = bip32::DerivationPath::default();
    for raw in path.iter() {
        route.push(bip32::ChildNumber(*raw));
    }
    match bip32::XPrv::derive_from_path(seed, &route) {
        Ok(key) => Some(key.to_bytes().to_vec()),
        Err(_) => None,
    }
}

/// Calls `k256::SecretKey::from_slice`, `public_key` and `to_sec1_bytes`.
/// The result is the encoded public key, or nothing where the crate
/// refuses the secret.
#[verifier::external_body]
pub(crate) fn secp256k1_public_of(secret: &[u8]) -> (out: Option<Vec<u8>>)
    ensures
        match out {
            Some(public) => secp256k1_public(secret@) == Some(public@),
            None => secp256k1_public(secret@) is None,
        },
{
    match k256::SecretKey::from_slice(secret) {
        Ok(key) => Some(key.public_key().to_sec1_bytes().to_vec()),
        Err(_) => None,
    }
}

/// Calls `ed25519_dalek::SigningKey::from_bytes` and `verifying_key`. The
/// result is the bytes of the public key.
#[verifier::external_body]
pub(crate) fn ed25519_public_of(secret: &[u8]) -> (out: Vec<u8>)
    requires
        secret@.len() == 32,
    ensures
        out@ == ed25519_public(secret@),
{
    let mut bytes = [0u8; 32];
    bytes.copy_from_slice(secret);
    ed25519_dalek::SigningKey::from_bytes(&bytes).verifying_key().to_bytes().to_vec()
}

/// Calls `XChaCha20Poly1305::encrypt` of the `chacha20poly1305` crate. The
/// result is ciphertext and tag in one, or nothing where the crate refuses.
#[verifier::external_body]
pub(crate) fn xchacha_seal(key: &[u8], nonce: &[u8], plaintext: &[u8]) -> (out: Option<Vec<u8>>)
    requires
        key@.len() == 32,
        nonce@.len() == 24,
    ensures
        match out {
            Some(sealed) => xchacha20poly1305_seal(key@, nonce@, plaintext@) == Some(sealed@),
            None => xchacha20poly1305_seal(key@, nonce@, plaintext@) is None,
        },
{
    let cipher = <chacha20poly1305::XChaCha20Poly1305 as chacha20poly1305::KeyInit>::new(
        chacha20poly1305::Key::from_slice(key),
    );
    match cipher.encrypt(chacha20poly1305::XNonce::from_slice(nonce), plaintext) {
        Ok(sealed) => Some(sealed),
        Err(_) => None,
    }
}

/// Calls `XChaCha20Poly1305::decrypt` of the `chacha20poly1305` crate. The
/// result is the plaintext, or nothing where the crate rejects the input.
#[verifier::external_body]
pub(crate) fn xchacha_open(key: &[u8], nonce: &[u8], sealed: &[u8]) -> (out: Option<Vec<u8>>)
    requires
        key@.len() == 32,
        nonce@.len() == 24,
    ensures
        match out {
            Some(plaintext) => xchacha20poly1305_open(key@, nonce@, sealed@) == Some(plaintext@),
            None => xchacha20poly1305_open(key@, nonce@, sealed@) is None,
        },
{
    let cipher = <chacha20poly1305::XChaCha20Poly1305 as chacha20poly1305::KeyInit>::new(
        chacha20poly1305::Key::from_slice(key),
    );
    match cipher.decrypt(chacha20poly1305::XNonce::from_slice(nonce), sealed) {
        Ok(plaintext) => Some(plaintext),
        Err(_) => None,
    }
}

/// Calls `getrandom::getrandom` on a buffer of `len` bytes. The bytes come
/// from the system's random source, so nothing is claimed of them but
/// their number; nothing is returned where the source fails.
#[verifier::external_body]
pub(crate) fn random_bytes(len: usize) -> (out: Option<Vec<u8>>)
    ensures
        out matches Some(bytes) ==> bytes@.len() == len,
{
    let mut bytes = vec![0u8; len];
    match getrandom::getrandom(&mut bytes) {
        Ok(()) => Some(bytes),
        Err(_) => None,
    }
}

} // verus!
