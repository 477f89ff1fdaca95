use dobby_backend::config::{from_lookup, parse_field, Config, ENV_PORT};
use dobby_backend::domain::AppError;

/// Build an environment from `(name, value)` pairs.
fn map_lookup(pairs: &[(&str, &str)]) -> Vec<(String, String)> {
    pairs
        .iter()
        .map(|(k, v)| (k.to_string(), v.to_string()))
        .collect()
}

fn config_of(pairs: &[(&str, &str)]) -> Result<Config, AppError> {
    from_lookup(&map_lookup(pairs))
}

#[test]
fn empty_lookup_yields_all_defaults() {
    let cfg = config_of(&[]).unwrap();
    assert_eq!(cfg.bind, "0.0.0.0");
    assert_eq!(cfg.port, 8080);
    assert_eq!(cfg.sample_interval_secs, 10);
    assert_eq!(cfg.retention_days, 7);
    assert_eq!(cfg.cleanup_interval_secs, 3600);
    assert_eq!(cfg.db_path, "./monitor.db");
    assert_eq!(cfg.cors_origins, "*");
}

#[test]
fn custom_values_override_every_default() {
    let cfg = config_of(&[
        ("MONITOR_BIND", "127.0.0.1"),
        ("MONITOR_PORT", "9000"),
        ("MONITOR_SAMPLE_INTERVAL_SECS", "5"),
        ("MONITOR_RETENTION_DAYS", "30"),
        ("MONITOR_CLEANUP_INTERVAL_SECS", "600"),
        ("MONITOR_DB_PATH", "/var/lib/monitor.db"),
        ("MONITOR_CORS_ORIGINS", "https://example.com"),
    ])
    .unwrap();
    assert_eq!(cfg.bind, "127.0.0.1");
    assert_eq!(cfg.port, 9000);
    assert_eq!(cfg.sample_interval_secs, 5);
    assert_eq!(cfg.retention_days, 30);
    assert_eq!(cfg.cleanup_interval_secs, 600);
    assert_eq!(cfg.db_path, "/var/lib/monitor.db");
    assert_eq!(cfg.cors_origins, "https://example.com");
}

#[test]
fn zero_sample_interval_is_rejected() {
    let err = config_of(&[("MONITOR_SAMPLE_INTERVAL_SECS", "0")]).unwrap_err();
    assert!(matches!(err, AppError::Config(_)));
}

#[test]
fn zero_retention_days_is_rejected() {
    let err = config_of(&[("MONITOR_RETENTION_DAYS", "0")]).unwrap_err();
    assert!(matches!(err, AppError::Config(_)));
}

#[test]
fn zero_cleanup_interval_is_rejected() {
    let err = config_of(&[("MONITOR_CLEANUP_INTERVAL_SECS", "0")]).unwrap_err();
    assert!(matches!(err, AppError::Config(_)));
}

#[test]
fn non_numeric_port_is_rejected() {
    let err = config_of(&[("MONITOR_PORT", "abc")]).unwrap_err();
    assert!(matches!(err, AppError::Config(_)));
}

#[test]
fn out_of_range_port_is_rejected() {
    let err = config_of(&[("MONITOR_PORT", "70000")]).unwrap_err();
    assert!(matches!(err, AppError::Config(_)));
}

#[test]
fn non_numeric_interval_is_rejected() {
    let err = config_of(&[("MONITOR_SAMPLE_INTERVAL_SECS", "xyz")]).unwrap_err();
    assert!(matches!(err, AppError::Config(_)));
}

#[test]
fn invalid_value_message_quotes_the_raw_text() {
    let err = config_of(&[("MONITOR_PORT", "abc")]).unwrap_err();
    match err {
        AppError::Config(m) => assert_eq!(m, "invalid value for MONITOR_PORT: \"abc\""),
        other => panic!("unexpected error {other:?}"),
    }
}

#[test]
fn zero_check_messages_name_the_variable() {
    match config_of(&[("MONITOR_RETENTION_DAYS", "0")]).unwrap_err() {
        AppError::Config(m) => assert_eq!(m, "MONITOR_RETENTION_DAYS must be greater than 0"),
        other => panic!("unexpected error {other:?}"),
    }
    // Parse errors come before the zero checks.
    match config_of(&[("MONITOR_SAMPLE_INTERVAL_SECS", "0"), ("MONITOR_CLEANUP_INTERVAL_SECS", "x")]).unwrap_err() {
        AppError::Config(m) => assert_eq!(m, "invalid value for MONITOR_CLEANUP_INTERVAL_SECS: \"x\""),
        other => panic!("unexpected error {other:?}"),
    }
}

#[test]
fn values_are_trimmed_and_plus_signs_accepted() {
    let cfg = config_of(&[("MONITOR_PORT", "  +9001\t"), ("MONITOR_SAMPLE_INTERVAL_SECS", "007")]).unwrap();
    assert_eq!(cfg.port, 9001);
    assert_eq!(cfg.sample_interval_secs, 7);
    assert!(config_of(&[("MONITOR_PORT", "-1")]).is_err());
    assert!(config_of(&[("MONITOR_PORT", "+")]).is_err());
    assert!(config_of(&[("MONITOR_PORT", "")]).is_err());
    assert!(config_of(&[("MONITOR_PORT", "65535")]).is_ok());
    assert!(config_of(&[("MONITOR_PORT", "65536")]).is_err());
    assert!(config_of(&[("MONITOR_RETENTION_DAYS", "18446744073709551615")]).is_ok());
    assert!(config_of(&[("MONITOR_RETENTION_DAYS", "18446744073709551616")]).is_err());
}

#[test]
fn last_pair_of_a_name_wins() {
    let cfg = config_of(&[("MONITOR_BIND", "a"), ("MONITOR_BIND", "b")]).unwrap();
    assert_eq!(cfg.bind, "b");
}

#[test]
fn parse_field_reads_bounded_values() {
    assert_eq!(parse_field(ENV_PORT, " 42 ", 65535).unwrap(), 42);
    assert!(parse_field(ENV_PORT, "4 2", 65535).is_err());
    assert!(parse_field(ENV_PORT, "70000", 65535).is_err());
}
