//! `~/.glctl/config`: the stored glhub token and remote.

use vstd::prelude::*;
use crate::storage::{path_join, spec_path_join};

verus! {

/// The contents of the configuration file.
#[derive(Debug, Clone, PartialEq, Eq)]
pub struct Config {
    pub token: Option<String>,
    pub remote: Option<String>,
}

impl Config {
    /// An empty configuration, as used when no file exists.
    pub fn empty() -> (c: Config)
        ensures
            c.token is None,
            c.remote is None,
    {
        Config { token: None, remote: None }
    }

    /// The configuration with `token` stored and the rest kept.
    pub fn with_token(self, token: String) -> (c: Config)
        ensures
            c.token == Some(token),
            c.remote == self.remote,
    {
        Config { token: Some(token), remote: self.remote }
    }
}

/// The configuration file under the home directory `home`.
pub open spec fn spec_config_path(home: Seq<char>) -> Seq<char> {
    spec_path_join(spec_path_join(home, ".glctl"@), "config"@)
}

/// The configuration file: `{home}/.glctl/config`.
pub fn config_path(home: &str) -> (p: String)
    ensures
        p@ == spec_config_path(home@),
{
    path_join(&path_join(home, ".glctl"), "config")
}

} // verus!
