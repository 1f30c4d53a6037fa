//! Sealing secret key material under a password, and opening it again.

use vstd::prelude::*;
use vstd::utf8::encode_utf8;
use crate::bytes::{append_bytes, copy_bytes, copy_range};
use crate::error::KeyringError;
use crate::lex::same_bytes;
use crate::primitives::{
    pbkdf2_hmac_sha512, pbkdf2_stretch, random_bytes, xchacha20poly1305_open,
    xchacha20poly1305_seal, xchacha_open, xchacha_seal,
};

verus! {

/// Number of bytes in the key that a password is stretched into.
pub const KEY_LEN: usize = 32;

/// Number of bytes in a salt that this library draws.
pub const SALT_LEN: usize = 16;

/// Number of bytes in a nonce.
pub const NONCE_LEN: usize = 24;

/// Number of bytes in an authentication tag.
pub const TAG_LEN: usize = 16;

/// Rounds of stretching for a secret that is sealed now.
pub const DEFAULT_ROUNDS: u32 = 210_000;

/// How a password is stretched into a key.
#[derive(Clone, Copy, Debug, PartialEq, Eq, Structural)]
pub enum KdfAlgorithm {
    Pbkdf2HmacSha512,
}

/// The key-derivation parameters that a blob carries with it, so that it
/// opens under the parameters it was sealed with.
#[derive(Clone, Copy, Debug, PartialEq, Eq, Structural)]
pub struct KdfParams {
    pub algorithm: KdfAlgorithm,
    pub rounds: u32,
}

/// A sealed secret: all that is needed to open it but the password.
#[derive(Debug)]
pub struct EncryptedBlob {
    pub kdf: KdfParams,
    pub salt: Vec<u8>,
    pub nonce: Vec<u8>,
    pub ciphertext: Vec<u8>,
    pub tag: Vec<u8>,
}

/// The mathematical value of an [`EncryptedBlob`].
pub struct BlobView {
    pub kdf: KdfParams,
    pub salt: Seq<u8>,
    pub nonce: Seq<u8>,
    pub ciphertext: Seq<u8>,
    pub tag: Seq<u8>,
}

impl View for EncryptedBlob {
    type V = BlobView;

    open spec fn view(&self) -> BlobView {
        BlobView {
            kdf: self.kdf,
            salt: self.salt@,
            nonce: self.nonce@,
            ciphertext: self.ciphertext@,
            tag: self.tag@,
        }
    }
}

impl Clone for EncryptedBlob {
    fn clone(&self) -> (r: Self)
        ensures
            r@ == self@,
    {
        EncryptedBlob {
            kdf: self.kdf,
            salt: copy_bytes(self.salt.as_slice()),
            nonce: copy_bytes(self.nonce.as_slice()),
            ciphertext: copy_bytes(self.ciphertext.as_slice()),
            tag: copy_bytes(self.tag.as_slice()),
        }
    }
}

/// The parameters for a secret that is sealed now.
pub open spec fn default_kdf() -> KdfParams {
    KdfParams { algorithm: KdfAlgorithm::Pbkdf2HmacSha512, rounds: DEFAULT_ROUNDS }
}

/// The key that a password gives with a salt under the parameters.
pub open spec fn key_of(password: Seq<char>, salt: Seq<u8>, kdf: KdfParams) -> Seq<u8> {
    pbkdf2_hmac_sha512(encode_utf8(password), salt, kdf.rounds, KEY_LEN as nat)
}

/// What opening a blob with a password yields: the plaintext, or nothing
/// where the nonce has the wrong length or the cipher rejects the blob.
pub open spec fn open_result(blob: BlobView, password: Seq<char>) -> Option<Seq<u8>> {
    if blob.nonce.len() != NONCE_LEN {
        None
    } else {
        xchacha20poly1305_open(
            key_of(password, blob.salt, blob.kdf),
            blob.nonce,
            blob.ciphertext + blob.tag,
        )
    }
}

/// What sealing a plaintext with a password, a salt and a nonce yields: a
/// blob that holds what the cipher made, split into ciphertext and tag; or
/// nothing where the nonce has the wrong length, the cipher refuses, or what
/// it made does not open again as the plaintext.
pub open spec fn seal_result(
    plaintext: Seq<u8>,
    password: Seq<char>,
    kdf: KdfParams,
    salt: Seq<u8>,
    nonce: Seq<u8>,
) -> Option<BlobView> {
    if nonce.len() != NONCE_LEN {
        None
    } else {
        let key = key_of(password, salt, kdf);
        match xchacha20poly1305_seal(key, nonce, plaintext) {
            None => None,
            Some(sealed) => if sealed.len() >= TAG_LEN && xchacha20poly1305_open(
                key,
                nonce,
                sealed,
            ) == Some(plaintext) {
                Some(
                    BlobView {
                        kdf,
                        salt,
                        nonce,
                        ciphertext: sealed.subrange(0, sealed.len() - TAG_LEN),
                        tag: sealed.subrange(sealed.len() - TAG_LEN, sealed.len() as int),
                    },
                )
            } else {
                None
            },
        }
    }
}

/// A blob that was sealed opens under the same password as the plaintext
/// that went in, whatever its length.
pub proof fn lemma_seal_then_open(
    plaintext: Seq<u8>,
    password: Seq<char>,
    kdf: KdfParams,
    salt: Seq<u8>,
    nonce: Seq<u8>,
)
    requires
        seal_result(plaintext, password, kdf, salt, nonce) is Some,
    ensures
        open_result(seal_result(plaintext, password, kdf, salt, nonce)->0, password) == Some(
            plaintext,
        ),
{
    let key = key_of(password, salt, kdf);
    let sealed = xchacha20poly1305_seal(key, nonce, plaintext)->0;
    let blob = seal_result(plaintext, password, kdf, salt, nonce)->0;
    assert(blob.ciphertext + blob.tag =~= sealed);
}

fn stretch_key(password: &str, salt: &[u8], kdf: KdfParams) -> (key: Vec<u8>)
    ensures
        key@ == key_of(password@, salt@, kdf),
        key@.len() == KEY_LEN,
{
    pbkdf2_stretch(password.as_bytes(), salt, kdf.rounds, KEY_LEN)
}

/// Opens a blob with a password.
///
/// There is one failure, whatever went wrong: a wrong password and damaged
/// data are not told apart.
pub fn open(blob: &EncryptedBlob, password: &str) -> (r: Result<Vec<u8>, KeyringError>)
    ensures
        match r {
            Ok(plaintext) => open_result(blob@, password@) == Some(plaintext@),
            Err(e) => e == KeyringError::DecryptionFailed && open_result(blob@, password@) is None,
        },
{
    if blob.nonce.len() != NONCE_LEN {
        return Err(KeyringError::DecryptionFailed);
    }
    let key = stretch_key(password, blob.salt.as_slice(), blob.kdf);
    let mut sealed: Vec<u8> = Vec::new();
    append_bytes(&mut sealed, blob.ciphertext.as_slice());
    append_bytes(&mut sealed, blob.tag.as_slice());
    assert(sealed@ =~= blob@.ciphertext + blob@.tag);
    match xchacha_open(key.as_slice(), blob.nonce.as_slice(), sealed.as_slice()) {
        Some(plaintext) => Ok(plaintext),
        None => Err(KeyringError::DecryptionFailed),
    }
}

/// Seals a plaintext with a password, a salt and a nonce that the caller
/// chose, and checks that the blob opens again before it is handed out.
pub fn seal_with(
    plaintext: &[u8],
    password: &str,
    kdf: KdfParams,
    salt: Vec<u8>,
    nonce: Vec<u8>,
) -> (r: Result<EncryptedBlob, KeyringError>)
    ensures
        match r {
            Ok(blob) => seal_result(plaintext@, password@, kdf, salt@, nonce@) == Some(blob@),
            Err(e) => e == KeyringError::DecryptionFailed && seal_result(
                plaintext@,
                password@,
                kdf,
                salt@,
                nonce@,
            ) is None,
        },
{
    if nonce.len() != NONCE_LEN {
        return Err(KeyringError::DecryptionFailed);
    }
    let key = stretch_key(password, salt.as_slice(), kdf);
    match xchacha_seal(key.as_slice(), nonce.as_slice(), plaintext) {
        None => Err(KeyringError::DecryptionFailed),
        Some(sealed) => {
            if sealed.len() < TAG_LEN {
                return Err(KeyringError::DecryptionFailed);
            }
            let opens = match xchacha_open(key.as_slice(), nonce.as_slice(), sealed.as_slice()) {
                Some(back) => same_bytes(back.as_slice(), plaintext),
                None => false,
            };
            if !opens {
                return Err(KeyringError::DecryptionFailed);
            }
            let cut = sealed.len() - TAG_LEN;
            let ciphertext = copy_range(sealed.as_slice(), 0, cut);
            let tag = copy_range(sealed.as_slice(), cut, sealed.len());
            Ok(EncryptedBlob { kdf, salt, nonce, ciphertext, tag })
        },
    }
}

/// Seals a plaintext with a password under the given parameters, with a
/// salt and a nonce that are drawn from the system's random source.
///
/// A blob that is handed out opens under the same password as the
/// plaintext: it is what [`seal_with`] makes of the salt and the nonce that
/// were drawn. The random source may fail; any other failure is that of
/// [`seal_with`] on what was drawn.
pub fn seal_under(plaintext: &[u8], password: &str, kdf: KdfParams) -> (r: Result<
    EncryptedBlob,
    KeyringError,
>)
    ensures
        match r {
            Ok(blob) => open_result(blob@, password@) == Some(plaintext@) && blob@.kdf == kdf
                && blob@.salt.len() == SALT_LEN && blob@.nonce.len() == NONCE_LEN && blob@.tag.len()
                == TAG_LEN && seal_result(plaintext@, password@, kdf, blob@.salt, blob@.nonce)
                == Some(blob@),
            Err(e) => e == KeyringError::EntropyUnavailable || (e
                == KeyringError::DecryptionFailed && exists|salt: Seq<u8>, nonce: Seq<u8>|
                salt.len() == SALT_LEN && nonce.len() == NONCE_LEN && #[trigger] seal_result(
                    plaintext@,
                    password@,
                    kdf,
                    salt,
                    nonce,
                ) is None),
        },
{
    let salt = match random_bytes(SALT_LEN) {
        Some(bytes) => bytes,
        None => {
            return Err(KeyringError::EntropyUnavailable);
        },
    };
    let nonce = match random_bytes(NONCE_LEN) {
        Some(bytes) => bytes,
        None => {
            return Err(KeyringError::EntropyUnavailable);
        },
    };
    proof {
        if seal_result(plaintext@, password@, kdf, salt@, nonce@) is Some {
            lemma_seal_then_open(plaintext@, password@, kdf, salt@, nonce@);
        }
    }
    seal_with(plaintext, password, kdf, salt, nonce)
}

/// Seals a plaintext with a password under the parameters that this
/// library uses where none are named.
pub fn seal(plaintext: &[u8], password: &str) -> (r: Result<EncryptedBlob, KeyringError>)
    ensures
        match r {
            Ok(blob) => open_result(blob@, password@) == Some(plaintext@) && blob@.kdf
                == default_kdf() && seal_result(
                plaintext@,
                password@,
                default_kdf(),
                blob@.salt,
                blob@.nonce,
            ) == Some(blob@),
            Err(e) => e == KeyringError::EntropyUnavailable || e == KeyringError::DecryptionFailed,
        },
{
    seal_under(
        plaintext,
        password,
        KdfParams { algorithm: KdfAlgorithm::Pbkdf2HmacSha512, rounds: DEFAULT_ROUNDS },
    )
}

} // verus!
