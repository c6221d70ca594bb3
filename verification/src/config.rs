//! The application's saved settings and where they live.
use vstd::prelude::*;
use std::path::PathBuf;
use crate::models::FilterConfig;
use crate::text::{push_str, string_of};

verus! {

broadcast use vstd::string::group_string_axioms;

pub struct AppConfig {
    pub filter: FilterConfig,
    pub proxy_port: u16,
    pub dns_port: u16,
    pub tun_enabled: bool,
    pub auto_start: bool,
}

impl Default for AppConfig {
    fn default() -> (r: Self)
        ensures
            r.proxy_port == 7890,
            r.dns_port == 53,
            !r.tun_enabled,
            !r.auto_start,
            r.filter.mode == crate::models::Mode::Teen,
            !r.filter.time_rule.enabled,
            r.filter.cloud_fallback,
    {
        AppConfig {
            filter: FilterConfig::default(),
            proxy_port: 7890,
            dns_port: 53,
            tun_enabled: false,
            auto_start: false,
        }
    }
}

/// The name of the settings file in the application's data directory.
pub const CONFIG_FILE_NAME: &'static str = "config.json";

/// What `Path::join` makes of the path `dir` and the relative name `name`:
/// `dir` with `name` appended as a further component.
pub uninterp spec fn joined_path(dir: PathBuf, name: Seq<char>) -> PathBuf;

/// Calls `Path::join`; claims only that the result is the named join of
/// `base` and `name`, which depends on the two alone.
#[verifier::external_body]
fn join_path(base: &PathBuf, name: &str) -> (r: PathBuf)
    ensures
        r == joined_path(*base, name@),
{
    base.join(name)
}

/// Where the settings are kept.
pub struct ConfigManager {
    config_path: PathBuf,
}

impl ConfigManager {
    pub closed spec fn spec_config_path(&self) -> PathBuf {
        self.config_path
    }

    /// Keeps the settings in `config.json` inside `app_data_dir`.
    pub fn new(app_data_dir: PathBuf) -> (r: Self)
        ensures
            r.spec_config_path() == joined_path(app_data_dir, "config.json"@),
    {
        let config_path = join_path(&app_data_dir, CONFIG_FILE_NAME);
        ConfigManager { config_path }
    }

    /// The file that keeps the settings.
    pub fn config_path(&self) -> (r: &PathBuf)
        ensures
            *r == self.spec_config_path(),
    {
        &self.config_path
    }

    /// The settings to save when the filter settings change: `current` with
    /// its filter replaced.
    pub fn update_filter_config(&self, current: AppConfig, filter: FilterConfig) -> (r: AppConfig)
        ensures
            r.filter == filter,
            r.proxy_port == current.proxy_port,
            r.dns_port == current.dns_port,
            r.tun_enabled == current.tun_enabled,
            r.auto_start == current.auto_start,
    {
        AppConfig { filter, ..current }
    }

    /// The settings to save on a reset: the defaults.
    pub fn reset(&self) -> (r: AppConfig)
        ensures
            r.proxy_port == 7890,
            r.dns_port == 53,
            !r.tun_enabled,
            !r.auto_start,
    {
        AppConfig::default()
    }
}

pub enum ConfigError {
    Io(String),
    Serialize(String),
}

pub open spec fn config_error_text(e: ConfigError) -> Seq<char> {
    match e {
        ConfigError::Io(m) => "IO error: "@ + m@,
        ConfigError::Serialize(m) => "Serialization error: "@ + m@,
    }
}

impl ConfigError {
    /// The message shown for this error.
    pub fn message(&self) -> (r: String)
        ensures
            r@ == config_error_text(*self),
    {
        match self {
            ConfigError::Io(m) => {
                let mut s = string_of("IO error: ");
                push_str(&mut s, m.as_str());
                s
            },
            ConfigError::Serialize(m) => {
                let mut s = string_of("Serialization error: ");
                push_str(&mut s, m.as_str());
                s
            },
        }
    }
}

} // verus!
