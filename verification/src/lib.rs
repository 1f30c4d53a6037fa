//! A local keyring engine: mnemonics, hierarchical key derivation, sealed
//! secrets, pluggable storage of named key entries and threshold keys.

pub mod algorithm;
pub mod armor;
pub mod backend;
pub mod bytes;
pub mod codec;
pub mod commands;
pub mod config;
pub mod entry;
pub mod error;
pub mod file_backend;
pub mod hd_path;
pub mod keyring;
pub mod lex;
pub mod mnemonic;
pub mod multisig;
pub mod os_backend;
pub mod primitives;
pub mod stored;
pub mod text;
