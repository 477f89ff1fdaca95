//! Tunable parameters, read from an environment given as `(name, value)`
//! pairs: defaults for missing variables, errors for present but invalid ones.

use vstd::prelude::*;

use crate::domain::AppError;
use crate::text::{all_digits, chars_of, debug_str, debug_text, digits_value, is_digit, parse_unsigned, parse_unsigned_str, str_eq, trim, trim_str};

verus! {

/// Variable holding the bind address.
pub const ENV_BIND: &'static str = "MONITOR_BIND";
/// Variable holding the listen port.
pub const ENV_PORT: &'static str = "MONITOR_PORT";
/// Variable holding the sampling interval in seconds.
pub const ENV_SAMPLE_INTERVAL_SECS: &'static str = "MONITOR_SAMPLE_INTERVAL_SECS";
/// Variable holding the retention window in days.
pub const ENV_RETENTION_DAYS: &'static str = "MONITOR_RETENTION_DAYS";
/// Variable holding the cleanup interval in seconds.
pub const ENV_CLEANUP_INTERVAL_SECS: &'static str = "MONITOR_CLEANUP_INTERVAL_SECS";
/// Variable holding the SQLite database path.
pub const ENV_DB_PATH: &'static str = "MONITOR_DB_PATH";
/// Variable holding the allowed CORS origins.
pub const ENV_CORS_ORIGINS: &'static str = "MONITOR_CORS_ORIGINS";

/// All tunable parameters of the backend.
#[derive(Debug, Clone)]
pub struct Config {
    /// Bind address (default `0.0.0.0`).
    pub bind: String,
    /// Listen port (default `8080`).
    pub port: u16,
    /// Metrics sampling interval in seconds (default `10`).
    pub sample_interval_secs: u64,
    /// Data retention window in days (default `7`).
    pub retention_days: u64,
    /// Cleanup job interval in seconds (default `3600`).
    pub cleanup_interval_secs: u64,
    /// SQLite database path (default `./monitor.db`).
    pub db_path: String,
    /// Allowed CORS origins (default `*`).
    pub cors_origins: String,
}

/// The abstract value of a [`Config`].
pub struct ConfigView {
    pub bind: Seq<char>,
    pub port: u16,
    pub sample_interval_secs: u64,
    pub retention_days: u64,
    pub cleanup_interval_secs: u64,
    pub db_path: Seq<char>,
    pub cors_origins: Seq<char>,
}

impl View for Config {
    type V = ConfigView;

    open spec fn view(&self) -> ConfigView {
        ConfigView {
            bind: self.bind@,
            port: self.port,
            sample_interval_secs: self.sample_interval_secs,
            retention_days: self.retention_days,
            cleanup_interval_secs: self.cleanup_interval_secs,
            db_path: self.db_path@,
            cors_origins: self.cors_origins@,
        }
    }
}

/// Whether `e` is a configuration error reading `msg`.
pub open spec fn is_config_error(e: AppError, msg: Seq<char>) -> bool {
    match e {
        AppError::Config(m) => m@ == msg,
        _ => false,
    }
}

/// The value of variable `key` in `vars`: the last pair named `key` wins.
pub open spec fn env_lookup(vars: Seq<(String, String)>, key: Seq<char>) -> Option<Seq<char>>
    decreases vars.len(),
{
    if vars.len() == 0 {
        None
    } else if vars.last().0@ == key {
        Some(vars.last().1@)
    } else {
        env_lookup(vars.drop_last(), key)
    }
}

/// The message for a present but unparseable variable.
pub open spec fn invalid_value_text(key: Seq<char>, raw: Seq<char>) -> Seq<char> {
    "invalid value for "@ + key + ": "@ + debug_text(raw)
}

/// A numeric variable: its default when absent, its trimmed decimal value when
/// that is at most `max`, and otherwise the error message.
pub open spec fn numeric_field(vars: Seq<(String, String)>, key: Seq<char>, max: nat, default: nat) -> Result<nat, Seq<char>> {
    match env_lookup(vars, key) {
        None => Ok(default),
        Some(raw) => match parse_unsigned(trim(raw), max) {
            Some(n) => Ok(n),
            None => Err(invalid_value_text(key, raw)),
        },
    }
}

/// A text variable, or its default when absent.
pub open spec fn text_field(vars: Seq<(String, String)>, key: Seq<char>, default: Seq<char>) -> Seq<char> {
    match env_lookup(vars, key) {
        None => default,
        Some(v) => v,
    }
}

pub open spec fn zero_sample_interval_text() -> Seq<char> {
    "MONITOR_SAMPLE_INTERVAL_SECS must be greater than 0"@
}

pub open spec fn zero_retention_text() -> Seq<char> {
    "MONITOR_RETENTION_DAYS must be greater than 0"@
}

pub open spec fn zero_cleanup_interval_text() -> Seq<char> {
    "MONITOR_CLEANUP_INTERVAL_SECS must be greater than 0"@
}

/// The configuration that the environment `vars` describes, or the message of
/// the first problem found: numeric fields are parsed in the order port,
/// sample interval, retention, cleanup interval, and only then are the zero
/// checks made, in that same order.
pub open spec fn config_from_env(vars: Seq<(String, String)>) -> Result<ConfigView, Seq<char>> {
    let port = numeric_field(vars, "MONITOR_PORT"@, 65535, 8080);
    let sample = numeric_field(vars, "MONITOR_SAMPLE_INTERVAL_SECS"@, u64::MAX as nat, 10);
    let retention = numeric_field(vars, "MONITOR_RETENTION_DAYS"@, u64::MAX as nat, 7);
    let cleanup = numeric_field(vars, "MONITOR_CLEANUP_INTERVAL_SECS"@, u64::MAX as nat, 3600);
    if port is Err {
        Err(port->Err_0)
    } else if sample is Err {
        Err(sample->Err_0)
    } else if retention is Err {
        Err(retention->Err_0)
    } else if cleanup is Err {
        Err(cleanup->Err_0)
    } else if sample->Ok_0 == 0 {
        Err(zero_sample_interval_text())
    } else if retention->Ok_0 == 0 {
        Err(zero_retention_text())
    } else if cleanup->Ok_0 == 0 {
        Err(zero_cleanup_interval_text())
    } else {
        Ok(
            ConfigView {
                bind: text_field(vars, "MONITOR_BIND"@, "0.0.0.0"@),
                port: port->Ok_0 as u16,
                sample_interval_secs: sample->Ok_0 as u64,
                retention_days: retention->Ok_0 as u64,
                cleanup_interval_secs: cleanup->Ok_0 as u64,
                db_path: text_field(vars, "MONITOR_DB_PATH"@, "./monitor.db"@),
                cors_origins: text_field(vars, "MONITOR_CORS_ORIGINS"@, "*"@),
            },
        )
    }
}

/// With no variables set, every parameter takes its default.
pub proof fn lemma_empty_environment_gives_defaults()
    ensures
        config_from_env(Seq::empty()) == Ok::<ConfigView, Seq<char>>(
            ConfigView {
                bind: "0.0.0.0"@,
                port: 8080,
                sample_interval_secs: 10,
                retention_days: 7,
                cleanup_interval_secs: 3600,
                db_path: "./monitor.db"@,
                cors_origins: "*"@,
            },
        ),
{
}

/// A numeric variable that is present but not a valid value is an error,
/// never a silent fall-back to its default.
pub proof fn lemma_present_invalid_value_rejected(vars: Seq<(String, String)>, key: Seq<char>, raw: Seq<char>)
    requires
        key == "MONITOR_PORT"@ || key == "MONITOR_SAMPLE_INTERVAL_SECS"@ || key == "MONITOR_RETENTION_DAYS"@
            || key == "MONITOR_CLEANUP_INTERVAL_SECS"@,
        env_lookup(vars, key) == Some(raw),
        parse_unsigned(trim(raw), if key == "MONITOR_PORT"@ { 65535 } else { u64::MAX as nat }) is None,
    ensures
        config_from_env(vars) is Err,
{
}

/// A zero sampling interval, retention or cleanup interval is rejected.
pub proof fn lemma_zero_periods_rejected(vars: Seq<(String, String)>)
    requires
        numeric_field(vars, "MONITOR_SAMPLE_INTERVAL_SECS"@, u64::MAX as nat, 10) == Ok::<nat, Seq<char>>(0)
            || numeric_field(vars, "MONITOR_RETENTION_DAYS"@, u64::MAX as nat, 7) == Ok::<nat, Seq<char>>(0)
            || numeric_field(vars, "MONITOR_CLEANUP_INTERVAL_SECS"@, u64::MAX as nat, 3600) == Ok::<nat, Seq<char>>(0),
    ensures
        config_from_env(vars) is Err,
{
}

/// Whether `raw`, once trimmed, is a plain decimal number of at most `max`.
pub open spec fn decimal_at_most(raw: Seq<char>, max: nat) -> bool {
    let t = trim(raw);
    t.len() > 0 && all_digits(t) && digits_value(t) <= max
}

/// The number a variable gives: the decimal value of its trimmed text when it
/// is present, `default` otherwise.
pub open spec fn number_or(vars: Seq<(String, String)>, key: Seq<char>, default: nat) -> nat {
    match env_lookup(vars, key) {
        Some(raw) => digits_value(trim(raw)),
        None => default,
    }
}

/// The text a variable gives, or `default` when it is absent.
pub open spec fn text_or(vars: Seq<(String, String)>, key: Seq<char>, default: Seq<char>) -> Seq<char> {
    match env_lookup(vars, key) {
        Some(v) => v,
        None => default,
    }
}

proof fn lemma_plain_decimal_parses(t: Seq<char>, max: nat)
    requires
        t.len() > 0,
        all_digits(t),
        digits_value(t) <= max,
    ensures
        parse_unsigned(t, max) == Some(digits_value(t)),
{
    assert(is_digit(t[0]));
}

/// Every environment whose numeric variables, where present, are plain
/// decimal numbers within their range (the port at most 65535, the others at
/// most `u64::MAX`) and whose three periods are not zero is accepted, and
/// each parameter is the value given, or its default where the variable is
/// absent.
pub proof fn lemma_valid_environment_accepted(vars: Seq<(String, String)>)
    requires
        env_lookup(vars, "MONITOR_PORT"@) matches Some(raw) ==> decimal_at_most(raw, 65535),
        env_lookup(vars, "MONITOR_SAMPLE_INTERVAL_SECS"@) matches Some(raw) ==> decimal_at_most(raw, u64::MAX as nat)
            && digits_value(trim(raw)) > 0,
        env_lookup(vars, "MONITOR_RETENTION_DAYS"@) matches Some(raw) ==> decimal_at_most(raw, u64::MAX as nat)
            && digits_value(trim(raw)) > 0,
        env_lookup(vars, "MONITOR_CLEANUP_INTERVAL_SECS"@) matches Some(raw) ==> decimal_at_most(raw, u64::MAX as nat)
            && digits_value(trim(raw)) > 0,
    ensures
        config_from_env(vars) matches Ok(c) && {
            &&& c.port == number_or(vars, "MONITOR_PORT"@, 8080)
            &&& c.sample_interval_secs == number_or(vars, "MONITOR_SAMPLE_INTERVAL_SECS"@, 10)
            &&& c.retention_days == number_or(vars, "MONITOR_RETENTION_DAYS"@, 7)
            &&& c.cleanup_interval_secs == number_or(vars, "MONITOR_CLEANUP_INTERVAL_SECS"@, 3600)
            &&& c.bind == text_or(vars, "MONITOR_BIND"@, "0.0.0.0"@)
            &&& c.db_path == text_or(vars, "MONITOR_DB_PATH"@, "./monitor.db"@)
            &&& c.cors_origins == text_or(vars, "MONITOR_CORS_ORIGINS"@, "*"@)
        },
{
    match env_lookup(vars, "MONITOR_PORT"@) {
        Some(raw) => lemma_plain_decimal_parses(trim(raw), 65535),
        None => {},
    }
    match env_lookup(vars, "MONITOR_SAMPLE_INTERVAL_SECS"@) {
        Some(raw) => lemma_plain_decimal_parses(trim(raw), u64::MAX as nat),
        None => {},
    }
    match env_lookup(vars, "MONITOR_RETENTION_DAYS"@) {
        Some(raw) => lemma_plain_decimal_parses(trim(raw), u64::MAX as nat),
        None => {},
    }
    match env_lookup(vars, "MONITOR_CLEANUP_INTERVAL_SECS"@) {
        Some(raw) => lemma_plain_decimal_parses(trim(raw), u64::MAX as nat),
        None => {},
    }
}

/// The value of variable `key` in `vars`, the last pair named `key` winning.
pub fn lookup(vars: &Vec<(String, String)>, key: &str) -> (r: Option<String>)
    ensures
        r matches Some(v) ==> env_lookup(vars@, key@) == Some(v@),
        r is None <==> env_lookup(vars@, key@) is None,
{
    let mut i = vars.len();
    assert(vars@.take(i as int) =~= vars@);
    while i > 0
        invariant
            i <= vars@.len(),
            env_lookup(vars@, key@) == env_lookup(vars@.take(i as int), key@),
        decreases i,
    {
        let ghost prefix = vars@.take(i as int);
        assert(prefix.drop_last() =~= vars@.take(i - 1));
        assert(prefix.last() == vars@[i - 1]);
        if str_eq(vars[i - 1].0.as_str(), key) {
            return Some(vars[i - 1].1.clone());
        }
        i -= 1;
    }
    None
}

/// Parse a present variable's value: surrounding whitespace is ignored and
/// the rest must be an unsigned decimal no larger than `max`.
pub fn parse_field(key: &str, raw: &str, max: u64) -> (r: Result<u64, AppError>)
    ensures
        match r {
            Ok(n) => parse_unsigned(trim(raw@), max as nat) == Some(n as nat),
            Err(e) => parse_unsigned(trim(raw@), max as nat) is None && is_config_error(e, invalid_value_text(key@, raw@)),
        },
{
    match parse_unsigned_str(trim_str(raw), max) {
        Some(n) => Ok(n),
        None => {
            let mut msg = "invalid value for ".to_owned();
            msg.append(key);
            msg.append(": ");
            let quoted = debug_str(raw);
            msg.append(quoted.as_str());
            Err(AppError::Config(msg))
        },
    }
}

/// A numeric variable of `vars`, or `default` when it is absent.
fn numeric_var(vars: &Vec<(String, String)>, key: &str, max: u64, default: u64) -> (r: Result<u64, AppError>)
    requires
        default <= max,
    ensures
        match r {
            Ok(n) => numeric_field(vars@, key@, max as nat, default as nat) == Ok::<nat, Seq<char>>(n as nat),
            Err(e) => numeric_field(vars@, key@, max as nat, default as nat) is Err && is_config_error(e, numeric_field(vars@, key@, max as nat, default as nat)->Err_0),
        },
{
    match lookup(vars, key) {
        Some(v) => parse_field(key, v.as_str(), max),
        None => Ok(default),
    }
}

/// A text variable of `vars`, or `default` when it is absent.
fn text_var(vars: &Vec<(String, String)>, key: &str, default: &str) -> (r: String)
    ensures
        r@ == text_field(vars@, key@, default@),
{
    match lookup(vars, key) {
        Some(v) => v,
        None => default.to_owned(),
    }
}

/// Build the configuration from the environment `vars`.
pub fn from_lookup(vars: &Vec<(String, String)>) -> (r: Result<Config, AppError>)
    ensures
        match r {
            Ok(c) => config_from_env(vars@) == Ok::<ConfigView, Seq<char>>(c@),
            Err(e) => config_from_env(vars@) is Err && is_config_error(e, config_from_env(vars@)->Err_0),
        },
{
    proof {
        reveal_strlit("MONITOR_PORT");
    }
    let bind = text_var(vars, ENV_BIND, "0.0.0.0");
    let port = numeric_var(vars, ENV_PORT, 65535, 8080)?;
    let sample_interval_secs = numeric_var(vars, ENV_SAMPLE_INTERVAL_SECS, u64::MAX, 10)?;
    let retention_days = numeric_var(vars, ENV_RETENTION_DAYS, u64::MAX, 7)?;
    let cleanup_interval_secs = numeric_var(vars, ENV_CLEANUP_INTERVAL_SECS, u64::MAX, 3600)?;
    let db_path = text_var(vars, ENV_DB_PATH, "./monitor.db");
    let cors_origins = text_var(vars, ENV_CORS_ORIGINS, "*");
    if sample_interval_secs == 0 {
        return Err(AppError::Config("MONITOR_SAMPLE_INTERVAL_SECS must be greater than 0".to_owned()));
    }
    if retention_days == 0 {
        return Err(AppError::Config("MONITOR_RETENTION_DAYS must be greater than 0".to_owned()));
    }
    if cleanup_interval_secs == 0 {
        return Err(AppError::Config("MONITOR_CLEANUP_INTERVAL_SECS must be greater than 0".to_owned()));
    }
    Ok(Config {
        bind,
        port: port as u16,
        sample_interval_secs,
        retention_days,
        cleanup_interval_secs,
        db_path,
        cors_origins,
    })
}

} // verus!
