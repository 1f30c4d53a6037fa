//! Signing algorithms, public keys and the addresses derived from them.

use vstd::prelude::*;
use vstd::string::StringSliceAdditionalSpecFns;
use crate::bytes::{append_bytes, be32, copy_range, write_be32};
use crate::error::KeyringError;
use crate::hd_path::{HDPath, HARDENED};
use crate::primitives::{
    bip32_derive_secret, bip32_secp256k1_secret, ed25519_public, ed25519_public_of, hmac_sha512,
    hmac_sha512_tag, ripemd160, ripemd160_digest, secp256k1_public, secp256k1_public_of, sha256,
    sha256_digest,
};
use crate::text::same_text;

verus! {

/// A signing algorithm that the keyring knows how to derive keys for.
#[derive(Clone, Copy, Debug, PartialEq, Eq, Structural)]
pub enum AlgorithmId {
    Secp256k1,
    Ed25519,
}

/// A public key: the algorithm it belongs to and its encoded bytes.
#[derive(Debug)]
pub struct PublicKey {
    pub algorithm: AlgorithmId,
    pub bytes: Vec<u8>,
}

/// The mathematical value of a [`PublicKey`].
pub struct PublicKeyView {
    pub algorithm: AlgorithmId,
    pub bytes: Seq<u8>,
}

impl View for PublicKey {
    type V = PublicKeyView;

    open spec fn view(&self) -> PublicKeyView {
        PublicKeyView { algorithm: self.algorithm, bytes: self.bytes@ }
    }
}

/// The values of a sequence of keys, in order.
pub open spec fn keys_view(keys: Seq<PublicKey>) -> Seq<PublicKeyView> {
    Seq::new(keys.len(), |i: int| keys[i]@)
}

/// Number of bytes in an address.
pub const ADDRESS_LEN: usize = 20;

/// The first `n` bytes of `s`, or all of `s` where it is shorter.
pub open spec fn leading(s: Seq<u8>, n: int) -> Seq<u8> {
    if s.len() > n {
        s.subrange(0, n)
    } else {
        s
    }
}

/// The address of a key. For secp256k1 it is the RIPEMD-160 digest of the
/// SHA-256 digest of the key bytes; for ed25519 the leading twenty bytes of
/// the SHA-256 digest.
pub open spec fn address_of(key: PublicKeyView) -> Seq<u8> {
    match key.algorithm {
        AlgorithmId::Secp256k1 => ripemd160(sha256(key.bytes)),
        AlgorithmId::Ed25519 => leading(sha256(key.bytes), ADDRESS_LEN as int),
    }
}

impl Clone for PublicKey {
    fn clone(&self) -> (r: Self)
        ensures
            r@ == self@,
    {
        let bytes = self.bytes.clone();
        assert(bytes@ =~= self.bytes@);
        PublicKey { algorithm: self.algorithm, bytes }
    }
}

impl PublicKey {
    /// The address that identifies this key.
    pub fn address(&self) -> (out: Vec<u8>)
        ensures
            out@ == address_of(self@),
    {
        let digest = sha256_digest(self.bytes.as_slice());
        match self.algorithm {
            AlgorithmId::Secp256k1 => ripemd160_digest(digest.as_slice()),
            AlgorithmId::Ed25519 => {
                let mut head = digest;
                if head.len() > ADDRESS_LEN {
                    head.truncate(ADDRESS_LEN);
                }
                assert(head@ =~= leading(sha256(self.bytes@), ADDRESS_LEN as int));
                head
            },
        }
    }
}

/// Number of bytes in a secret key.
pub const SECRET_LEN: usize = 32;

/// A secret key and the public key that belongs to it.
pub struct KeyPair {
    pub secret: Vec<u8>,
    pub public: PublicKey,
}

/// The mathematical value of a [`KeyPair`].
pub struct KeyPairView {
    pub secret: Seq<u8>,
    pub public: PublicKeyView,
}

impl View for KeyPair {
    type V = KeyPairView;

    open spec fn view(&self) -> KeyPairView {
        KeyPairView { secret: self.secret@, public: self.public@ }
    }
}

/// The name under which an algorithm is known.
pub open spec fn algorithm_name(id: AlgorithmId) -> Seq<char> {
    match id {
        AlgorithmId::Secp256k1 => "secp256k1"@,
        AlgorithmId::Ed25519 => "ed25519"@,
    }
}

/// The algorithm known under `name`, if there is one.
pub open spec fn algorithm_named(name: Seq<char>) -> Option<AlgorithmId> {
    if name == "secp256k1"@ {
        Some(AlgorithmId::Secp256k1)
    } else if name == "ed25519"@ {
        Some(AlgorithmId::Ed25519)
    } else {
        None
    }
}

/// An algorithm is found again under its own name.
pub proof fn lemma_algorithm_name_round_trip(id: AlgorithmId)
    ensures
        algorithm_named(algorithm_name(id)) == Some(id),
        algorithm_name(id).len() > 0,
        forall|i: int| 0 <= i < algorithm_name(id).len() ==> algorithm_name(id)[i] != '\n',
{
    reveal_strlit("secp256k1");
    reveal_strlit("ed25519");
    assert("secp256k1"@.len() == 9);
    assert("ed25519"@.len() == 7);
}

/// Whether the bytes have the shape of a public key of their algorithm: a
/// compressed point of 33 bytes for secp256k1, 32 bytes for ed25519.
pub open spec fn well_formed_key(key: PublicKeyView) -> bool {
    match key.algorithm {
        AlgorithmId::Secp256k1 => key.bytes.len() == 33 && (key.bytes[0] == 2 || key.bytes[0] == 3),
        AlgorithmId::Ed25519 => key.bytes.len() == 32,
    }
}

/// The public key that belongs to a secret key.
pub open spec fn public_of(id: AlgorithmId, secret: Seq<u8>) -> Result<
    PublicKeyView,
    KeyringError,
> {
    if secret.len() != SECRET_LEN {
        Err(KeyringError::MalformedKey)
    } else {
        let bytes = match id {
            AlgorithmId::Secp256k1 => secp256k1_public(secret),
            AlgorithmId::Ed25519 => Some(ed25519_public(secret)),
        };
        match bytes {
            Some(b) => if well_formed_key(PublicKeyView { algorithm: id, bytes: b }) {
                Ok(PublicKeyView { algorithm: id, bytes: b })
            } else {
                Err(KeyringError::MalformedKey)
            },
            None => Err(KeyringError::MalformedKey),
        }
    }
}

/// A node of the ed25519 key tree: a secret key and a chain code.
pub struct TreeNode {
    pub key: Seq<u8>,
    pub chain: Seq<u8>,
}

/// Splits a tag of 64 bytes into a node; any other tag gives none.
pub open spec fn node_of_tag(tag: Option<Seq<u8>>) -> Option<TreeNode> {
    match tag {
        Some(t) => if t.len() == 64 {
            Some(TreeNode { key: t.subrange(0, 32), chain: t.subrange(32, 64) })
        } else {
            None
        },
        None => None,
    }
}

/// The root of the ed25519 key tree of a seed.
pub open spec fn tree_root(seed: Seq<u8>) -> Option<TreeNode> {
    node_of_tag(hmac_sha512("ed25519 seed".spec_bytes(), seed))
}

/// The hardened child of a node under a child number.
pub open spec fn tree_child(parent: TreeNode, raw: u32) -> Option<TreeNode> {
    node_of_tag(hmac_sha512(parent.chain, seq![0u8] + parent.key + be32(raw)))
}

/// The node that a path leads to from the root of a seed.
pub open spec fn tree_node(seed: Seq<u8>, path: Seq<u32>) -> Option<TreeNode>
    decreases path.len(),
{
    if path.len() == 0 {
        tree_root(seed)
    } else {
        match tree_node(seed, path.drop_last()) {
            Some(parent) => tree_child(parent, path.last()),
            None => None,
        }
    }
}

/// Whether every level of the path is hardened.
pub open spec fn all_hardened(path: Seq<u32>) -> bool {
    forall|i: int| 0 <= i < path.len() ==> #[trigger] path[i] >= HARDENED
}

/// The secret key that a seed gives along a path. An ed25519 key tree has
/// hardened levels only.
pub open spec fn secret_of(id: AlgorithmId, seed: Seq<u8>, path: Seq<u32>) -> Result<
    Seq<u8>,
    KeyringError,
> {
    match id {
        AlgorithmId::Secp256k1 => match bip32_secp256k1_secret(seed, path) {
            Some(secret) => Ok(secret),
            None => Err(KeyringError::MalformedKey),
        },
        AlgorithmId::Ed25519 => if !all_hardened(path) {
            Err(KeyringError::IncompatibleOptions)
        } else {
            match tree_node(seed, path) {
                Some(node) => Ok(node.key),
                None => Err(KeyringError::MalformedKey),
            }
        },
    }
}

/// The key pair that a seed gives along a path.
pub open spec fn key_pair_of(id: AlgorithmId, seed: Seq<u8>, path: Seq<u32>) -> Result<
    KeyPairView,
    KeyringError,
> {
    match secret_of(id, seed, path) {
        Err(e) => Err(e),
        Ok(secret) => match public_of(id, secret) {
            Err(e) => Err(e),
            Ok(public) => Ok(KeyPairView { secret, public }),
        },
    }
}

/// Deriving twice from the same seed, path and algorithm gives the same
/// key pair, byte for byte.
pub proof fn lemma_derivation_is_repeatable(
    id: AlgorithmId,
    seed: Seq<u8>,
    path: Seq<u32>,
    other_id: AlgorithmId,
    other_seed: Seq<u8>,
    other_path: Seq<u32>,
)
    requires
        id == other_id,
        seed == other_seed,
        path == other_path,
    ensures
        key_pair_of(id, seed, path) == key_pair_of(other_id, other_seed, other_path),
{
}

impl AlgorithmId {
    /// The name under which the algorithm is known.
    pub fn name(&self) -> (name: &'static str)
        ensures
            name@ == algorithm_name(*self),
    {
        match self {
            AlgorithmId::Secp256k1 => "secp256k1",
            AlgorithmId::Ed25519 => "ed25519",
        }
    }

    /// The algorithm known under `name`.
    pub fn from_name(name: &str) -> (id: Option<AlgorithmId>)
        ensures
            id == algorithm_named(name@),
    {
        if same_text(name, "secp256k1") {
            Some(AlgorithmId::Secp256k1)
        } else if same_text(name, "ed25519") {
            Some(AlgorithmId::Ed25519)
        } else {
            None
        }
    }
}

impl PublicKey {
    /// Whether the bytes have the shape of a key of the algorithm.
    pub fn is_well_formed(&self) -> (ok: bool)
        ensures
            ok == well_formed_key(self@),
    {
        match self.algorithm {
            AlgorithmId::Secp256k1 => self.bytes.len() == 33 && (self.bytes[0] == 2
                || self.bytes[0] == 3),
            AlgorithmId::Ed25519 => self.bytes.len() == 32,
        }
    }
}

/// Splits a tag of 64 bytes into the secret key and the chain code of a
/// node of the ed25519 key tree; any other tag gives none.
pub fn split_tag(tag: Option<Vec<u8>>) -> (r: Option<(Vec<u8>, Vec<u8>)>)
    ensures
        match r {
            Some(pair) => node_of_tag(
                match tag {
                    Some(t) => Some(t@),
                    None => None,
                },
            ) == Some(TreeNode { key: pair.0@, chain: pair.1@ }),
            None => node_of_tag(
                match tag {
                    Some(t) => Some(t@),
                    None => None,
                },
            ) is None,
        },
{
    match tag {
        None => None,
        Some(t) => {
            if t.len() != 64 {
                None
            } else {
                let key = copy_range(t.as_slice(), 0, 32);
                let chain = copy_range(t.as_slice(), 32, 64);
                Some((key, chain))
            }
        },
    }
}

/// The secret key of the node that a path leads to in the ed25519 key
/// tree of a seed, each level taken as it is given.
pub fn tree_secret(seed: &[u8], path: &Vec<u32>) -> (r: Option<Vec<u8>>)
    ensures
        match r {
            Some(secret) => tree_node(seed@, path@) is Some && tree_node(seed@, path@)->0.key
                == secret@,
            None => tree_node(seed@, path@) is None,
        },
{
    let root = split_tag(hmac_sha512_tag("ed25519 seed".as_bytes(), seed));
    let (mut key, mut chain) = match root {
        None => {
            proof {
                lemma_missing_node_stays_missing(seed@, path@, 0);
            }
            return None;
        },
        Some(pair) => pair,
    };
    let mut i: usize = 0;
    assert(path@.take(0) =~= Seq::<u32>::empty());
    while i < path.len()
        invariant
            i <= path@.len(),
            tree_node(seed@, path@.take(i as int)) == Some(TreeNode { key: key@, chain: chain@ }),
        decreases path@.len() - i,
    {
        let mut data: Vec<u8> = Vec::new();
        data.push(0u8);
        append_bytes(&mut data, key.as_slice());
        write_be32(&mut data, path[i]);
        assert(data@ =~= seq![0u8] + key@ + be32(path@[i as int]));
        let child = split_tag(hmac_sha512_tag(chain.as_slice(), data.as_slice()));
        proof {
            assert(path@.take(i + 1).drop_last() =~= path@.take(i as int));
            assert(path@.take(i + 1).last() == path@[i as int]);
        }
        match child {
            None => {
                proof {
                    lemma_missing_node_stays_missing(seed@, path@, i + 1);
                }
                return None;
            },
            Some(pair) => {
                key = pair.0;
                chain = pair.1;
            },
        }
        i = i + 1;
    }
    assert(path@.take(i as int) =~= path@);
    Some(key)
}

proof fn lemma_missing_node_stays_missing(seed: Seq<u8>, path: Seq<u32>, n: int)
    requires
        0 <= n <= path.len(),
        tree_node(seed, path.take(n)) is None,
    ensures
        tree_node(seed, path) is None,
    decreases path.len() - n,
{
    if n < path.len() {
        assert(path.take(n + 1).drop_last() =~= path.take(n));
        lemma_missing_node_stays_missing(seed, path, n + 1);
    } else {
        assert(path.take(n) =~= path);
    }
}

/// Whether every level of the path is hardened.
pub fn every_level_hardened(path: &Vec<u32>) -> (r: bool)
    ensures
        r == all_hardened(path@),
{
    let mut i: usize = 0;
    while i < path.len()
        invariant
            i <= path@.len(),
            forall|j: int| 0 <= j < i ==> #[trigger] path@[j] >= HARDENED,
        decreases path@.len() - i,
    {
        if path[i] < HARDENED {
            return false;
        }
        i = i + 1;
    }
    true
}

/// The public key that belongs to a secret key of the given algorithm.
///
/// The secret must have 32 bytes and be one that the algorithm accepts, and
/// the key that comes back is checked for its shape; otherwise the key is
/// reported as malformed.
pub fn public_key_of(id: AlgorithmId, secret: &[u8]) -> (r: Result<PublicKey, KeyringError>)
    ensures
        match r {
            Ok(key) => public_of(id, secret@) == Ok::<PublicKeyView, KeyringError>(key@),
            Err(e) => public_of(id, secret@) == Err::<PublicKeyView, KeyringError>(e),
        },
{
    if secret.len() != SECRET_LEN {
        return Err(KeyringError::MalformedKey);
    }
    let bytes = match id {
        AlgorithmId::Secp256k1 => secp256k1_public_of(secret),
        AlgorithmId::Ed25519 => Some(ed25519_public_of(secret)),
    };
    match bytes {
        None => Err(KeyringError::MalformedKey),
        Some(b) => {
            let key = PublicKey { algorithm: id, bytes: b };
            if key.is_well_formed() {
                Ok(key)
            } else {
                Err(KeyringError::MalformedKey)
            }
        },
    }
}

/// The key pair that a seed gives along a path under the given algorithm.
pub fn derive_key_pair(id: AlgorithmId, seed: &[u8], path: &HDPath) -> (r: Result<
    KeyPair,
    KeyringError,
>)
    ensures
        match r {
            Ok(pair) => key_pair_of(id, seed@, path@) == Ok::<KeyPairView, KeyringError>(pair@),
            Err(e) => key_pair_of(id, seed@, path@) == Err::<KeyPairView, KeyringError>(e),
        },
{
    let levels = path.levels();
    let secret = match id {
        AlgorithmId::Secp256k1 => match bip32_derive_secret(seed, levels) {
            Some(secret) => secret,
            None => {
                return Err(KeyringError::MalformedKey);
            },
        },
        AlgorithmId::Ed25519 => {
            if !every_level_hardened(levels) {
                return Err(KeyringError::IncompatibleOptions);
            }
            match tree_secret(seed, levels) {
                Some(secret) => secret,
                None => {
                    return Err(KeyringError::MalformedKey);
                },
            }
        },
    };
    match public_key_of(id, secret.as_slice()) {
        Err(e) => Err(e),
        Ok(public) => Ok(KeyPair { secret, public }),
    }
}

/// The signing algorithms that a keyring works with.
#[derive(Clone, Copy, Debug)]
pub struct AlgorithmRegistry {
    secp256k1: bool,
    ed25519: bool,
}

impl AlgorithmRegistry {
    /// Whether the algorithm is registered.
    pub closed spec fn has(&self, id: AlgorithmId) -> bool {
        match id {
            AlgorithmId::Secp256k1 => self.secp256k1,
            AlgorithmId::Ed25519 => self.ed25519,
        }
    }

    /// The registered algorithms, in the order in which they are listed.
    pub open spec fn listing(&self) -> Seq<AlgorithmId> {
        (if self.has(AlgorithmId::Secp256k1) {
            seq![AlgorithmId::Secp256k1]
        } else {
            Seq::empty()
        }) + (if self.has(AlgorithmId::Ed25519) {
            seq![AlgorithmId::Ed25519]
        } else {
            Seq::empty()
        })
    }

    /// A registry without any algorithm.
    pub fn empty() -> (registry: AlgorithmRegistry)
        ensures
            forall|id: AlgorithmId| !registry.has(id),
    {
        AlgorithmRegistry { secp256k1: false, ed25519: false }
    }

    /// A registry with every algorithm that this library can derive keys
    /// for.
    pub fn standard() -> (registry: AlgorithmRegistry)
        ensures
            forall|id: AlgorithmId| registry.has(id),
    {
        AlgorithmRegistry { secp256k1: true, ed25519: true }
    }

    /// Registers an algorithm.
    pub fn register(&mut self, id: AlgorithmId)
        ensures
            forall|other: AlgorithmId| final(self).has(other) == (other == id || old(self).has(other)),
    {
        match id {
            AlgorithmId::Secp256k1 => {
                self.secp256k1 = true;
            },
            AlgorithmId::Ed25519 => {
                self.ed25519 = true;
            },
        }
    }

    /// Whether the algorithm is registered.
    pub fn supports(&self, id: AlgorithmId) -> (r: bool)
        ensures
            r == self.has(id),
    {
        match id {
            AlgorithmId::Secp256k1 => self.secp256k1,
            AlgorithmId::Ed25519 => self.ed25519,
        }
    }

    /// The registered algorithms.
    pub fn supported_algorithms(&self) -> (ids: Vec<AlgorithmId>)
        ensures
            ids@ == self.listing(),
            forall|id: AlgorithmId| ids@.contains(id) <==> self.has(id),
    {
        let mut ids: Vec<AlgorithmId> = Vec::new();
        if self.secp256k1 {
            ids.push(AlgorithmId::Secp256k1);
        }
        if self.ed25519 {
            ids.push(AlgorithmId::Ed25519);
        }
        assert(ids@ =~= self.listing());
        assert forall|id: AlgorithmId| ids@.contains(id) <==> self.has(id) by {
            if self.has(id) {
                match id {
                    AlgorithmId::Secp256k1 => {
                        assert(ids@[0] == id);
                    },
                    AlgorithmId::Ed25519 => {
                        assert(ids@[ids@.len() - 1] == id);
                    },
                }
            }
        }
        ids
    }

    /// The registered algorithm known under `name`.
    pub fn resolve(&self, name: &str) -> (r: Result<AlgorithmId, KeyringError>)
        ensures
            match r {
                Ok(id) => algorithm_named(name@) == Some(id) && self.has(id),
                Err(e) => e == KeyringError::UnsupportedAlgorithm && (match algorithm_named(name@) {
                    Some(id) => !self.has(id),
                    None => true,
                }),
            },
    {
        match AlgorithmId::from_name(name) {
            Some(id) => if self.supports(id) {
                Ok(id)
            } else {
                Err(KeyringError::UnsupportedAlgorithm)
            },
            None => Err(KeyringError::UnsupportedAlgorithm),
        }
    }

    /// Derives the key pair that a seed gives along a path.
    ///
    /// An algorithm that is not registered is refused before anything is
    /// derived.
    pub fn generate(&self, id: AlgorithmId, seed: &[u8], path: &HDPath) -> (r: Result<
        KeyPair,
        KeyringError,
    >)
        ensures
            match r {
                Ok(pair) => self.has(id) && key_pair_of(id, seed@, path@) == Ok::<
                    KeyPairView,
                    KeyringError,
                >(pair@),
                Err(e) => if self.has(id) {
                    key_pair_of(id, seed@, path@) == Err::<KeyPairView, KeyringError>(e)
                } else {
                    e == KeyringError::UnsupportedAlgorithm
                },
            },
    {
        if !self.supports(id) {
            return Err(KeyringError::UnsupportedAlgorithm);
        }
        derive_key_pair(id, seed, path)
    }

    /// The public key that belongs to a secret key.
    pub fn derive_public(&self, id: AlgorithmId, secret: &[u8]) -> (r: Result<
        PublicKey,
        KeyringError,
    >)
        ensures
            match r {
                Ok(key) => self.has(id) && public_of(id, secret@) == Ok::<
                    PublicKeyView,
                    KeyringError,
                >(key@),
                Err(e) => if self.has(id) {
                    public_of(id, secret@) == Err::<PublicKeyView, KeyringError>(e)
                } else {
                    e == KeyringError::UnsupportedAlgorithm
                },
            },
    {
        if !self.supports(id) {
            return Err(KeyringError::UnsupportedAlgorithm);
        }
        public_key_of(id, secret)
    }
}

} // verus!
