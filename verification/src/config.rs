//! Layered configuration and the secret-store contract.
//!
//! Precedence, highest first: CLI flag, `BLUES_*` environment, the project's
//! `.blues/*.toml`, `~/.blues/config.toml`, defaults. Each layer overlays only
//! the fields it declares. No field is declared yet, so every chain yields
//! the defaults.

use vstd::prelude::*;
use crate::base::error::BluesError;

verus! {

/// The resolved configuration.
#[derive(Debug, Default, Clone)]
pub struct Config {}

impl Config {
    /// Resolves the configuration from the standard chain: the defaults, as
    /// no layer declares a field yet.
    pub fn load() -> (r: Result<Config, BluesError>)
        ensures
            r is Ok && r->Ok_0 == (Config {}),
    {
        Ok(Config {})
    }
}

/// Where secrets (API keys and the like) are read from.
pub trait SecretStore {
    /// The secret stored under `key`, if any.
    fn get(&self, key: &str) -> Result<Option<String>, BluesError>;
}

} // verus!
