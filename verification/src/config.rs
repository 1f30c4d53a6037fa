//! The configuration of the application.

use vstd::prelude::*;
use crate::backend::{backend_named, BackendKind};
use crate::error::KeyringError;

verus! {

/// The account section of the configuration.
#[derive(Debug)]
pub struct Account {
    pub public_key: String,
    pub private_key: String,
}

/// The configuration of the application.
#[derive(Debug)]
pub struct AmonConfig {
    pub account: Account,
    /// The selector of the backend that the keyring runs on.
    pub keyring_backend: String,
}

impl Clone for Account {
    fn clone(&self) -> (account: Self)
        ensures
            account == *self,
    {
        Account { public_key: self.public_key.clone(), private_key: self.private_key.clone() }
    }
}

impl Clone for AmonConfig {
    fn clone(&self) -> (config: Self)
        ensures
            config == *self,
    {
        AmonConfig {
            account: self.account.clone(),
            keyring_backend: self.keyring_backend.clone(),
        }
    }
}

impl AmonConfig {
    /// The backend that the configuration selects. A selector that names
    /// no backend is refused when the application starts.
    pub fn backend_kind(&self) -> (r: Result<BackendKind, KeyringError>)
        ensures
            match r {
                Ok(kind) => backend_named(self.keyring_backend@) == Some(kind),
                Err(e) => e == KeyringError::UnknownBackend && backend_named(
                    self.keyring_backend@,
                ) is None,
            },
    {
        BackendKind::from_selector(self.keyring_backend.as_str())
    }
}

impl Default for Account {
    fn default() -> (account: Self)
        ensures
            account.public_key@ == "alice public key"@,
            account.private_key@ == "alice private key"@,
    {
        Account {
            public_key: "alice public key".to_owned(),
            private_key: "alice private key".to_owned(),
        }
    }
}

impl Default for AmonConfig {
    fn default() -> (config: Self)
        ensures
            config.account.public_key@ == "alice public key"@,
            config.account.private_key@ == "alice private key"@,
            config.keyring_backend@ == "os"@,
    {
        AmonConfig { account: Account::default(), keyring_backend: "os".to_owned() }
    }
}

} // verus!
