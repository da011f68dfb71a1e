//! The settings of a run, resolved once before any request is made.

use crate::locator::{normalize_base, with_slash};
use vstd::prelude::*;

verus! {

/// The settings as the environment gives them: each is there or not.
#[derive(Debug)]
pub struct Settings {
    /// `BASE_URL`: the base of the list endpoint.
    pub base_url: Option<String>,
    /// `Q`: the filter, appended to the base as it stands.
    pub query: Option<String>,
    /// `API_TOKEN`: the bearer token.
    pub api_token: Option<String>,
    /// `DELETE_URL`: the base of the delete endpoint, where it differs.
    pub delete_url: Option<String>,
}

/// The resolved settings.
#[derive(Debug)]
pub struct Config {
    pub base_url: String,
    pub query: String,
    pub token: String,
    /// The base for delete requests; it ends with a path separator.
    pub delete_base: String,
}

/// A required setting is missing.
#[derive(Debug, Clone, Copy, PartialEq, Eq, Structural)]
pub enum ConfigError {
    MissingBaseUrl,
    MissingQuery,
    MissingToken,
}

/// The first required setting that is missing, in the order base, query,
/// token.
pub open spec fn missing(s: Settings) -> Option<ConfigError> {
    if s.base_url is None {
        Some(ConfigError::MissingBaseUrl)
    } else if s.query is None {
        Some(ConfigError::MissingQuery)
    } else if s.api_token is None {
        Some(ConfigError::MissingToken)
    } else {
        None
    }
}

/// The base for delete requests: the delete setting where it is given, else
/// the list base, with a path separator at its end either way.
pub open spec fn delete_base_of(s: Settings) -> Seq<char> {
    match s.delete_url {
        Some(d) => with_slash(d@),
        None => with_slash(s.base_url.unwrap()@),
    }
}

/// `c` is what the settings resolve to: the three required settings as they
/// stand, and the delete base worked out.
pub open spec fn resolves(s: Settings, c: Config) -> bool {
    &&& c.base_url == s.base_url.unwrap()
    &&& c.query == s.query.unwrap()
    &&& c.token == s.api_token.unwrap()
    &&& c.delete_base@ == delete_base_of(s)
}

impl Config {
    /// Resolves the settings: an error exactly where a required one is
    /// missing, else the resolved settings.
    pub fn resolve(s: Settings) -> (r: Result<Config, ConfigError>)
        ensures
            match r {
                Ok(c) => missing(s) is None && resolves(s, c),
                Err(e) => missing(s) == Some(e),
            },
    {
        let base_url = match s.base_url {
            Some(b) => b,
            None => { return Err(ConfigError::MissingBaseUrl); },
        };
        let query = match s.query {
            Some(q) => q,
            None => { return Err(ConfigError::MissingQuery); },
        };
        let token = match s.api_token {
            Some(t) => t,
            None => { return Err(ConfigError::MissingToken); },
        };
        let delete_base = match s.delete_url {
            Some(d) => normalize_base(d.as_str()),
            None => normalize_base(base_url.as_str()),
        };
        Ok(Config { base_url, query, token, delete_base })
    }
}

} // verus!
