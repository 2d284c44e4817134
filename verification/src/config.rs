//! The service's configuration and how its sources are merged: command
//! line and environment first, then the configuration file, then defaults.

use vstd::prelude::*;
use crate::text::opt_view;

verus! {

/// Retention delays and the cleanup period, all in milliseconds.
#[derive(Debug, Clone, Copy, PartialEq, Eq, Structural)]
pub struct CleanUpConfig {
    pub delay_test_results: u32,
    pub delay_spans: u32,
    pub delay_reports: u32,
    pub schedule: u32,
}

/// Forty days for test results, seven for spans, fourteen for reports,
/// and a cleanup every hour.
pub open spec fn default_cleanup() -> CleanUpConfig {
    CleanUpConfig {
        delay_test_results: 3_456_000_000u32,
        delay_spans: 604_800_000u32,
        delay_reports: 1_209_600_000u32,
        schedule: 3_600_000u32,
    }
}

impl Default for CleanUpConfig {
    fn default() -> (r: Self)
        ensures
            r == default_cleanup(),
    {
        CleanUpConfig {
            delay_test_results: 40 * 24 * 60 * 60 * 1000,
            delay_spans: 7 * 24 * 60 * 60 * 1000,
            delay_reports: 14 * 24 * 60 * 60 * 1000,
            schedule: 60 * 60 * 1000,
        }
    }
}

/// The configuration of a run: where to listen, where the database is,
/// and how long to keep what.
#[derive(Debug)]
pub struct Config {
    pub host: String,
    pub port: u16,
    pub db_url: String,
    pub cleanup: CleanUpConfig,
}

pub ghost struct ConfigView {
    pub host: Seq<char>,
    pub port: u16,
    pub db_url: Seq<char>,
    pub cleanup: CleanUpConfig,
}

impl View for Config {
    type V = ConfigView;

    open spec fn view(&self) -> ConfigView {
        ConfigView {
            host: self.host@,
            port: self.port,
            db_url: self.db_url@,
            cleanup: self.cleanup,
        }
    }
}

impl Clone for Config {
    fn clone(&self) -> (r: Self)
        ensures
            r@ == self@,
    {
        Config {
            host: self.host.clone(),
            port: self.port,
            db_url: self.db_url.clone(),
            cleanup: self.cleanup,
        }
    }
}

/// The configuration where nothing is set.
pub open spec fn default_config() -> ConfigView {
    ConfigView {
        host: "0.0.0.0"@,
        port: 7878,
        db_url: "127.0.0.1:5042"@,
        cleanup: default_cleanup(),
    }
}

impl Default for Config {
    fn default() -> (r: Self)
        ensures
            r@ == default_config(),
    {
        Config {
            host: "0.0.0.0".to_string(),
            port: 7878,
            db_url: "127.0.0.1:5042".to_string(),
            cleanup: CleanUpConfig::default(),
        }
    }
}

/// The `cleanup` table of the configuration file.
#[derive(Debug, Clone, Copy, PartialEq, Eq, Structural)]
pub struct CleanUpConfigLoader {
    pub delay_test_results: Option<u32>,
    pub delay_spans: Option<u32>,
    pub delay_reports: Option<u32>,
    pub schedule: Option<u32>,
}

impl Default for CleanUpConfigLoader {
    fn default() -> (r: Self)
        ensures
            r == (CleanUpConfigLoader {
                delay_test_results: None,
                delay_spans: None,
                delay_reports: None,
                schedule: None,
            }),
    {
        CleanUpConfigLoader {
            delay_test_results: None,
            delay_spans: None,
            delay_reports: None,
            schedule: None,
        }
    }
}

/// What the configuration file holds; everything is optional.
#[derive(Debug)]
pub struct ConfigLoader {
    pub host: Option<String>,
    pub port: Option<u16>,
    pub db_nb_connection: Option<usize>,
    pub db_url: Option<String>,
    pub cleanup: Option<CleanUpConfigLoader>,
}

impl Default for ConfigLoader {
    fn default() -> (r: Self)
        ensures
            r.host is None,
            r.port is None,
            r.db_nb_connection is None,
            r.db_url is None,
            r.cleanup is None,
    {
        ConfigLoader { host: None, port: None, db_nb_connection: None, db_url: None, cleanup: None }
    }
}

/// What the command line and the environment hold.
#[derive(Debug)]
pub struct ConfigLoaderCmd {
    pub host: Option<String>,
    pub port: Option<u16>,
    pub db_url: Option<String>,
}

/// The first of the two that is set, else the default.
pub open spec fn pick<T>(first: Option<T>, second: Option<T>, default: T) -> T {
    match first {
        Some(v) => v,
        None => match second {
            Some(v) => v,
            None => default,
        },
    }
}

/// One delay of the file's `cleanup` table, or the default where the
/// table or the delay is missing.
pub open spec fn pick_delay(table: Option<CleanUpConfigLoader>, which: int, default: u32) -> u32 {
    match table {
        Some(t) => {
            let set = if which == 0 {
                t.delay_test_results
            } else if which == 1 {
                t.delay_spans
            } else if which == 2 {
                t.delay_reports
            } else {
                t.schedule
            };
            match set {
                Some(v) => v,
                None => default,
            }
        },
        None => default,
    }
}

/// The configuration that the two sources give. The database URL has no
/// default that is used: one of the sources must set it.
pub open spec fn merged(args: ConfigLoaderCmd, file: ConfigLoader) -> ConfigView
    recommends
        args.db_url is Some || file.db_url is Some,
{
    ConfigView {
        host: pick(opt_view(args.host), opt_view(file.host), default_config().host),
        port: pick(args.port, file.port, default_config().port),
        db_url: pick(opt_view(args.db_url), opt_view(file.db_url), default_config().db_url),
        cleanup: CleanUpConfig {
            delay_test_results: pick_delay(file.cleanup, 0, default_cleanup().delay_test_results),
            delay_spans: pick_delay(file.cleanup, 1, default_cleanup().delay_spans),
            delay_reports: pick_delay(file.cleanup, 2, default_cleanup().delay_reports),
            schedule: pick_delay(file.cleanup, 3, default_cleanup().schedule),
        },
    }
}

/// What is said where no source gives a database URL.
pub open spec fn missing_db_url() -> Seq<char> {
    "missing DATABASE_URL parameter"@
}

/// Merges the command line over the file over the defaults. Fails exactly
/// when neither source gives a database URL.
pub fn merge_configs(from_args: ConfigLoaderCmd, from_toml: ConfigLoader) -> (r: Result<
    Config,
    String,
>)
    ensures
        match r {
            Ok(config) => (from_args.db_url is Some || from_toml.db_url is Some) && config@
                == merged(from_args, from_toml),
            Err(msg) => from_args.db_url is None && from_toml.db_url is None && msg@
                == missing_db_url(),
        },
{
    let default = Config::default();
    let cleanup_from_toml = from_toml.cleanup;
    let db_url = match from_args.db_url {
        Some(v) => v,
        None => match from_toml.db_url {
            Some(v) => v,
            None => {
                return Err("missing DATABASE_URL parameter".to_string());
            },
        },
    };
    let port: u16 = match from_args.port {
        Some(v) => v,
        None => match from_toml.port {
            Some(v) => v,
            None => default.port,
        },
    };
    let host = match from_args.host {
        Some(v) => v,
        None => match from_toml.host {
            Some(v) => v,
            None => default.host,
        },
    };
    let cleanup = match cleanup_from_toml {
        Some(t) => CleanUpConfig {
            delay_test_results: match t.delay_test_results {
                Some(v) => v,
                None => default.cleanup.delay_test_results,
            },
            delay_spans: match t.delay_spans {
                Some(v) => v,
                None => default.cleanup.delay_spans,
            },
            delay_reports: match t.delay_reports {
                Some(v) => v,
                None => default.cleanup.delay_reports,
            },
            schedule: match t.schedule {
                Some(v) => v,
                None => default.cleanup.schedule,
            },
        },
        None => default.cleanup,
    };
    Ok(Config { port, host, db_url, cleanup })
}

impl Config {
    /// The merged configuration. A database URL must be given by one of
    /// the sources.
    pub fn load(from_args: ConfigLoaderCmd, from_toml: ConfigLoader) -> (config: Config)
        requires
            from_args.db_url is Some || from_toml.db_url is Some,
        ensures
            config@ == merged(from_args, from_toml),
    {
        match merge_configs(from_args, from_toml) {
            Ok(config) => config,
            Err(_) => vstd::pervasive::unreached(),
        }
    }
}

} // verus!
