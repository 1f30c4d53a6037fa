//! Named key entries: what a keyring stores.

use vstd::prelude::*;
use crate::algorithm::{address_of, AlgorithmId, PublicKey, PublicKeyView};
use crate::bytes::copy_bytes;
use crate::codec::{BlobView, EncryptedBlob};
use crate::hd_path::HDPath;
use crate::multisig::{MultisigPubKey, MultisigView};

verus! {

/// The kind of a key entry.
#[derive(Clone, Copy, Debug, PartialEq, Eq, Structural)]
pub enum KeyType {
    /// A key whose sealed secret is stored with it.
    Local,
    /// A reference to a key that lives on a hardware device.
    Ledger,
    /// A public key alone.
    Offline,
    /// A threshold key over member keys.
    Multisig,
}

/// What an entry holds besides its name and public key. The kind of the
/// entry decides which of these there is.
#[derive(Debug)]
pub enum KeyMaterial {
    /// The sealed secret, and the path it was derived along where one is
    /// known.
    Local { secret: EncryptedBlob, path: Option<HDPath> },
    /// The path of the key on the device and the prefix of its addresses.
    Ledger { device_path: HDPath, address_prefix: String },
    /// Nothing: the public key is all there is.
    Offline,
    /// The threshold key.
    Multisig { key: MultisigPubKey },
}

/// A named key entry.
#[derive(Debug)]
pub struct KeyEntry {
    pub name: String,
    pub algorithm: AlgorithmId,
    pub public_key: Vec<u8>,
    pub material: KeyMaterial,
}

/// The mathematical value of a [`KeyMaterial`].
pub enum MaterialView {
    Local { secret: BlobView, path: Option<Seq<u32>> },
    Ledger { device_path: Seq<u32>, address_prefix: Seq<char> },
    Offline,
    Multisig { key: MultisigView },
}

/// The mathematical value of a [`KeyEntry`].
pub struct EntryView {
    pub name: Seq<char>,
    pub algorithm: AlgorithmId,
    pub public_key: Seq<u8>,
    pub material: MaterialView,
}

/// The value of a path that may be missing.
pub open spec fn path_view(path: Option<HDPath>) -> Option<Seq<u32>> {
    match path {
        Some(p) => Some(p@),
        None => None,
    }
}

impl View for KeyMaterial {
    type V = MaterialView;

    open spec fn view(&self) -> MaterialView {
        match *self {
            KeyMaterial::Local { secret, path } => MaterialView::Local {
                secret: secret@,
                path: path_view(path),
            },
            KeyMaterial::Ledger { device_path, address_prefix } => MaterialView::Ledger {
                device_path: device_path@,
                address_prefix: address_prefix@,
            },
            KeyMaterial::Offline => MaterialView::Offline,
            KeyMaterial::Multisig { key } => MaterialView::Multisig { key: key@ },
        }
    }
}

impl View for KeyEntry {
    type V = EntryView;

    open spec fn view(&self) -> EntryView {
        EntryView {
            name: self.name@,
            algorithm: self.algorithm,
            public_key: self.public_key@,
            material: self.material@,
        }
    }
}

/// The values of a sequence of entries, in order.
pub open spec fn entries_view(entries: Seq<KeyEntry>) -> Seq<EntryView> {
    Seq::new(entries.len(), |i: int| entries[i]@)
}

/// The kind of an entry.
pub open spec fn type_of(material: MaterialView) -> KeyType {
    match material {
        MaterialView::Local { .. } => KeyType::Local,
        MaterialView::Ledger { .. } => KeyType::Ledger,
        MaterialView::Offline => KeyType::Offline,
        MaterialView::Multisig { .. } => KeyType::Multisig,
    }
}

/// The same entry under another name.
pub open spec fn renamed(entry: EntryView, name: Seq<char>) -> EntryView {
    EntryView { name, ..entry }
}

impl Clone for KeyMaterial {
    fn clone(&self) -> (r: Self)
        ensures
            r@ == self@,
    {
        match self {
            KeyMaterial::Local { secret, path } => {
                let path = match path {
                    Some(p) => Some(p.clone()),
                    None => None,
                };
                KeyMaterial::Local { secret: secret.clone(), path }
            },
            KeyMaterial::Ledger { device_path, address_prefix } => KeyMaterial::Ledger {
                device_path: device_path.clone(),
                address_prefix: address_prefix.clone(),
            },
            KeyMaterial::Offline => KeyMaterial::Offline,
            KeyMaterial::Multisig { key } => KeyMaterial::Multisig { key: key.clone() },
        }
    }
}

impl Clone for KeyEntry {
    fn clone(&self) -> (r: Self)
        ensures
            r@ == self@,
    {
        KeyEntry {
            name: self.name.clone(),
            algorithm: self.algorithm,
            public_key: copy_bytes(self.public_key.as_slice()),
            material: self.material.clone(),
        }
    }
}

impl KeyEntry {
    /// The kind of the entry.
    pub fn key_type(&self) -> (kind: KeyType)
        ensures
            kind == type_of(self@.material),
    {
        match &self.material {
            KeyMaterial::Local { .. } => KeyType::Local,
            KeyMaterial::Ledger { .. } => KeyType::Ledger,
            KeyMaterial::Offline => KeyType::Offline,
            KeyMaterial::Multisig { .. } => KeyType::Multisig,
        }
    }

    /// The sealed secret: a local entry has one, any other has none.
    pub fn encrypted_secret(&self) -> (secret: Option<&EncryptedBlob>)
        ensures
            match secret {
                Some(blob) => self@.material matches MaterialView::Local { secret: s, .. } && s
                    == blob@,
                None => type_of(self@.material) != KeyType::Local,
            },
    {
        match &self.material {
            KeyMaterial::Local { secret, .. } => Some(secret),
            _ => None,
        }
    }

    /// The derivation path, where the entry has one.
    pub fn derivation_path(&self) -> (path: Option<&HDPath>)
        ensures
            match self@.material {
                MaterialView::Local { path: p, .. } => match path {
                    Some(found) => p == Some(found@),
                    None => p is None,
                },
                MaterialView::Ledger { device_path: p, .. } => path matches Some(found) && found@ == p,
                _ => path is None,
            },
    {
        match &self.material {
            KeyMaterial::Local { path, .. } => match path {
                Some(p) => Some(p),
                None => None,
            },
            KeyMaterial::Ledger { device_path, .. } => Some(device_path),
            _ => None,
        }
    }

    /// The threshold key: an entry of that kind has one, any other none.
    pub fn multisig(&self) -> (key: Option<&MultisigPubKey>)
        ensures
            match key {
                Some(found) => self@.material == (MaterialView::Multisig { key: found@ }),
                None => type_of(self@.material) != KeyType::Multisig,
            },
    {
        match &self.material {
            KeyMaterial::Multisig { key } => Some(key),
            _ => None,
        }
    }

    /// The public key of the entry with its algorithm.
    pub fn public(&self) -> (key: PublicKey)
        ensures
            key@ == (PublicKeyView { algorithm: self@.algorithm, bytes: self@.public_key }),
    {
        PublicKey { algorithm: self.algorithm, bytes: copy_bytes(self.public_key.as_slice()) }
    }

    /// The address of the entry's public key.
    pub fn address(&self) -> (out: Vec<u8>)
        ensures
            out@ == address_of(
                PublicKeyView { algorithm: self@.algorithm, bytes: self@.public_key },
            ),
    {
        self.public().address()
    }

    /// The same entry under another name.
    pub fn with_name(self, name: String) -> (entry: KeyEntry)
        ensures
            entry@ == renamed(self@, name@),
    {
        KeyEntry {
            name,
            algorithm: self.algorithm,
            public_key: self.public_key,
            material: self.material,
        }
    }
}

} // verus!
