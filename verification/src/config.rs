//! The CLI's persistent configuration (`~/.harmont/config.toml`) as the
//! library sees it.

use vstd::prelude::*;

use crate::dirs::home_dir;
use crate::path::{is_abs, joined, AbsPathBuf};

verus! {

/// The API used when the configuration names none.
pub const DEFAULT_API_URL: &'static str = "https://api.harmont.dev";

/// User preferences stored alongside the config.
#[derive(Debug, Clone)]
pub struct Preferences {
    /// Default output format ("human" or "json").
    pub format: Option<String>,
    /// Whether `hm build create` should auto-watch.
    pub auto_watch: Option<bool>,
}

impl Default for Preferences {
    fn default() -> (r: Self)
        ensures
            r.format is None,
            r.auto_watch is None,
    {
        Preferences { format: None, auto_watch: None }
    }
}

/// Persistent CLI configuration.
#[derive(Debug, Clone)]
pub struct Config {
    /// Base URL for the Harmont API.
    pub api_url: Option<String>,
    /// Currently active organization slug.
    pub org: Option<String>,
    /// User preferences.
    pub preferences: Preferences,
}

impl Default for Config {
    fn default() -> (r: Self)
        ensures
            r.api_url is None,
            r.org is None,
            r.preferences.format is None,
            r.preferences.auto_watch is None,
    {
        Config { api_url: None, org: None, preferences: Preferences::default() }
    }
}

/// `home/.harmont`.
pub open spec fn harmont_dir_under(home: Seq<char>) -> Seq<char> {
    joined(home, ".harmont"@)
}

/// Why the configuration's location is unknown.
#[derive(Debug)]
pub enum ConfigError {
    /// The home directory could not be determined.
    NoHome,
}

impl ConfigError {
    /// The user-facing message.
    pub fn message(&self) -> (m: String)
        ensures
            m@ == "could not determine home directory"@,
    {
        "could not determine home directory".to_owned()
    }
}

/// `home/.harmont` for a known home; `NoHome` when the home is unknown.
pub fn user_config_dir_from(home: Option<AbsPathBuf>) -> (r: Result<AbsPathBuf, ConfigError>)
    ensures
        match home {
            Some(h) => r matches Ok(p) && p.text() == harmont_dir_under(h.text()) && is_abs(p.text()),
            None => r matches Err(ConfigError::NoHome),
        },
{
    match home {
        Some(h) => Ok(h.join(".harmont")),
        None => Err(ConfigError::NoHome),
    }
}

/// `home/.harmont/config.toml` for a known home; `NoHome` when the home
/// is unknown.
pub fn config_path_from(home: Option<AbsPathBuf>) -> (r: Result<AbsPathBuf, ConfigError>)
    ensures
        match home {
            Some(h) => r matches Ok(p) && p.text() == joined(harmont_dir_under(h.text()), "config.toml"@)
                && is_abs(p.text()),
            None => r matches Err(ConfigError::NoHome),
        },
{
    match user_config_dir_from(home) {
        Ok(d) => Ok(d.join("config.toml")),
        Err(e) => Err(e),
    }
}

/// The Harmont config dir (`~/.harmont/`): `user_config_dir_from` applied
/// to the home the platform reports.
pub fn user_config_dir() -> (r: Result<AbsPathBuf, ConfigError>)
    ensures
        r matches Ok(p) ==> exists|h: Seq<char>| is_abs(h) && p.text() == #[trigger] harmont_dir_under(h),
        r matches Err(e) ==> e matches ConfigError::NoHome,
{
    user_config_dir_from(home_dir())
}

impl Config {
    /// The path of the config file (`~/.harmont/config.toml`):
    /// `config_path_from` applied to the home the platform reports.
    pub fn path() -> (r: Result<AbsPathBuf, ConfigError>)
        ensures
            r matches Ok(p) ==> exists|h: Seq<char>|
                is_abs(h) && p.text() == joined(#[trigger] harmont_dir_under(h), "config.toml"@),
            r matches Err(e) ==> e matches ConfigError::NoHome,
    {
        config_path_from(home_dir())
    }

    /// Effective API URL: the configured one, else the default.
    pub fn api_url(&self) -> (u: &str)
        ensures
            u@ == match self.api_url {
                Some(a) => a@,
                None => DEFAULT_API_URL@,
            },
    {
        match &self.api_url {
            Some(a) => a.as_str(),
            None => DEFAULT_API_URL,
        }
    }
}

} // verus!
