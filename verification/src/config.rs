//! Runtime configuration, assembled from the process environment.
//!
//! Reading the environment is the application's job; it hands over what it
//! found as a [`RawEnv`] and [`Config::from_raw`] applies the rules: five
//! required variables; the bucket and listen address with defaults; three
//! optional numeric ones with defaults.

use vstd::prelude::*;

use crate::text::{parse_u64, parse_int_spec, IntErrorKind};

verus! {

/// Environment variables as found: `None` when unset (or not valid Unicode).
pub struct RawEnv {
    pub database_url: Option<String>,
    pub s3_endpoint: Option<String>,
    pub s3_access_key: Option<String>,
    pub s3_secret_key: Option<String>,
    pub s3_bucket: Option<String>,
    pub shared_secret: Option<String>,
    pub bind_addr: Option<String>,
    pub resume_ttl_secs: Option<String>,
    pub heartbeat_reap_secs: Option<String>,
    pub ws_queue_depth: Option<String>,
}

/// Durations are whole seconds.
pub struct Config {
    pub database_url: String,
    pub s3_endpoint: String,
    pub s3_access_key: String,
    pub s3_secret_key: String,
    pub s3_bucket: String,
    pub shared_secret: String,
    pub bind_addr: String,
    pub resume_ttl: u64,
    pub heartbeat_reap: u64,
    pub ws_queue_depth: usize,
}

#[derive(Debug)]
pub enum ConfigError {
    /// `missing required env var: {0}`
    Missing(&'static str),
    /// `invalid env var {var}: {reason}`
    Invalid { var: &'static str, reason: String },
}

/// Default listen address.
pub open spec fn default_bind_addr() -> Seq<char> {
    "0.0.0.0:8001"@
}

/// Default bucket for raw audio.
pub open spec fn default_s3_bucket() -> Seq<char> {
    "ovp-dataset-raw"@
}

/// An optional numeric variable: its default when unset, else `str::parse::<u64>`.
pub open spec fn env_u64(v: Option<String>, default: u64) -> Result<int, IntErrorKind> {
    match v {
        None => Ok(default as int),
        Some(s) => parse_int_spec(s@, false, u64::MAX as int, 0),
    }
}

/// The first variable that fails, in the order they are read, with the
/// parse failure for numeric ones (`None` for a missing required one).
pub open spec fn config_failure(raw: RawEnv) -> Option<(Seq<char>, Option<IntErrorKind>)> {
    if raw.database_url is None {
        Some(("DATABASE_URL"@, None))
    } else if raw.s3_endpoint is None {
        Some(("S3_ENDPOINT"@, None))
    } else if raw.s3_access_key is None {
        Some(("S3_ACCESS_KEY"@, None))
    } else if raw.s3_secret_key is None {
        Some(("S3_SECRET_KEY"@, None))
    } else if raw.shared_secret is None {
        Some(("SHARED_SECRET"@, None))
    } else if env_u64(raw.resume_ttl_secs, 86_400) is Err {
        Some(("RESUME_TTL_SECS"@, Some(env_u64(raw.resume_ttl_secs, 86_400)->Err_0)))
    } else if env_u64(raw.heartbeat_reap_secs, 90) is Err {
        Some(("HEARTBEAT_REAP_SECS"@, Some(env_u64(raw.heartbeat_reap_secs, 90)->Err_0)))
    } else if env_u64(raw.ws_queue_depth, 64) is Err {
        Some(("WS_QUEUE_DEPTH"@, Some(env_u64(raw.ws_queue_depth, 64)->Err_0)))
    } else {
        None
    }
}

fn require(var: &'static str, v: Option<String>) -> (r: Result<String, ConfigError>)
    ensures
        match v {
            Some(s) => r matches Ok(t) && t@ == s@,
            None => r matches Err(ConfigError::Missing(n)) && n@ == var@,
        },
{
    match v {
        Some(s) => Ok(s),
        None => Err(ConfigError::Missing(var)),
    }
}

fn env_parse_u64(var: &'static str, v: Option<String>, default: u64) -> (r: Result<u64, ConfigError>)
    ensures
        match env_u64(v, default) {
            Ok(n) => r matches Ok(m) && m as int == n,
            Err(k) => r matches Err(ConfigError::Invalid { var: n, reason }) && n@ == var@
                && reason@ == k.spec_message(),
        },
{
    match v {
        None => Ok(default),
        Some(raw) => match parse_u64(raw.as_str()) {
            Ok(n) => Ok(n),
            Err(k) => Err(ConfigError::Invalid { var, reason: k.message().to_owned() }),
        },
    }
}

impl Config {
    /// Assemble the configuration, failing on the first missing required
    /// variable or the first unparsable numeric one.
    pub fn from_raw(raw: RawEnv) -> (r: Result<Config, ConfigError>)
        ensures
            match config_failure(raw) {
                Some((var, None)) => r matches Err(ConfigError::Missing(n)) && n@ == var,
                Some((var, Some(k))) => r matches Err(ConfigError::Invalid { var: n, reason })
                    && n@ == var && reason@ == k.spec_message(),
                None => r matches Ok(c) && {
                    &&& c.database_url@ == raw.database_url->0@
                    &&& c.s3_endpoint@ == raw.s3_endpoint->0@
                    &&& c.s3_access_key@ == raw.s3_access_key->0@
                    &&& c.s3_secret_key@ == raw.s3_secret_key->0@
                    &&& c.s3_bucket@ == (match raw.s3_bucket {
                        Some(b) => b@,
                        None => default_s3_bucket(),
                    })
                    &&& c.shared_secret@ == raw.shared_secret->0@
                    &&& c.bind_addr@ == (match raw.bind_addr {
                        Some(b) => b@,
                        None => default_bind_addr(),
                    })
                    &&& env_u64(raw.resume_ttl_secs, 86_400) == Ok::<int, IntErrorKind>(c.resume_ttl as int)
                    &&& env_u64(raw.heartbeat_reap_secs, 90) == Ok::<int, IntErrorKind>(c.heartbeat_reap as int)
                    &&& env_u64(raw.ws_queue_depth, 64) matches Ok(d) && c.ws_queue_depth == d as usize
                },
            },
    {
        let database_url = require("DATABASE_URL", raw.database_url)?;
        let s3_endpoint = require("S3_ENDPOINT", raw.s3_endpoint)?;
        let s3_access_key = require("S3_ACCESS_KEY", raw.s3_access_key)?;
        let s3_secret_key = require("S3_SECRET_KEY", raw.s3_secret_key)?;
        let s3_bucket = match raw.s3_bucket {
            Some(b) => b,
            None => "ovp-dataset-raw".to_owned(),
        };
        let shared_secret = require("SHARED_SECRET", raw.shared_secret)?;
        let bind_addr = match raw.bind_addr {
            Some(b) => b,
            None => "0.0.0.0:8001".to_owned(),
        };
        let resume_ttl = env_parse_u64("RESUME_TTL_SECS", raw.resume_ttl_secs, 86_400)?;
        let heartbeat_reap = env_parse_u64("HEARTBEAT_REAP_SECS", raw.heartbeat_reap_secs, 90)?;
        let depth = env_parse_u64("WS_QUEUE_DEPTH", raw.ws_queue_depth, 64)?;
        Ok(Config {
            database_url,
            s3_endpoint,
            s3_access_key,
            s3_secret_key,
            s3_bucket,
            shared_secret,
            bind_addr,
            resume_ttl,
            heartbeat_reap,
            ws_queue_depth: depth as usize,
        })
    }
}

} // verus!
