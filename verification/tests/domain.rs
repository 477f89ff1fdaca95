use dobby_backend::domain::{AppError, ParseRangeError, TimeRange};
use dobby_backend::storage::bucket_secs_for;

#[test]
fn time_range_parses_each_valid_value() {
    assert_eq!("1h".parse::<TimeRange>().unwrap(), TimeRange::Hour1);
    assert_eq!("6h".parse::<TimeRange>().unwrap(), TimeRange::Hour6);
    assert_eq!("24h".parse::<TimeRange>().unwrap(), TimeRange::Hour24);
    assert_eq!("7d".parse::<TimeRange>().unwrap(), TimeRange::Day7);
}

#[test]
fn time_range_rejects_invalid_value() {
    assert!("99x".parse::<TimeRange>().is_err());
    assert!("".parse::<TimeRange>().is_err());
    assert!("1H".parse::<TimeRange>().is_err());
    assert!("3600".parse::<TimeRange>().is_err());
    assert_eq!("nope".parse::<TimeRange>(), Err(ParseRangeError));
}

#[test]
fn time_range_bucket_secs_mapping() {
    assert_eq!(TimeRange::Hour1.bucket_secs(), 10);
    assert_eq!(TimeRange::Hour6.bucket_secs(), 60);
    assert_eq!(TimeRange::Hour24.bucket_secs(), 240);
    assert_eq!(TimeRange::Day7.bucket_secs(), 1_800);
}

#[test]
fn time_range_range_secs_mapping() {
    assert_eq!(TimeRange::Hour1.range_secs(), 3_600);
    assert_eq!(TimeRange::Hour6.range_secs(), 21_600);
    assert_eq!(TimeRange::Hour24.range_secs(), 86_400);
    assert_eq!(TimeRange::Day7.range_secs(), 604_800);
}

#[test]
fn time_range_as_str_round_trips_with_parse() {
    for r in [
        TimeRange::Hour1,
        TimeRange::Hour6,
        TimeRange::Hour24,
        TimeRange::Day7,
    ] {
        assert_eq!(r.as_str().parse::<TimeRange>().unwrap(), r);
    }
}

#[test]
fn app_error_display_messages() {
    assert_eq!(
        AppError::Config("bad port".into()).to_string(),
        "configuration error: bad port"
    );
    assert_eq!(
        AppError::Storage("locked".into()).to_string(),
        "storage error: locked"
    );
    assert_eq!(
        AppError::Collect("no nic".into()).to_string(),
        "collect error: no nic"
    );
}

#[test]
fn bucket_secs_for_maps_all_ranges() {
    assert_eq!(bucket_secs_for(TimeRange::Hour1), 10);
    assert_eq!(bucket_secs_for(TimeRange::Hour6), 60);
    assert_eq!(bucket_secs_for(TimeRange::Hour24), 240);
    assert_eq!(bucket_secs_for(TimeRange::Day7), 1_800);
}

#[test]
fn time_range_wire_strings() {
    assert_eq!(TimeRange::Hour1.as_str(), "1h");
    assert_eq!(TimeRange::Hour6.as_str(), "6h");
    assert_eq!(TimeRange::Hour24.as_str(), "24h");
    assert_eq!(TimeRange::Day7.as_str(), "7d");
    assert!(TimeRange::parse(" 1h").is_err());
    assert!(TimeRange::parse("24").is_err());
    assert!(TimeRange::parse("7d ").is_err());
}

#[test]
fn parse_range_error_message() {
    assert_eq!(
        ParseRangeError.to_string(),
        "invalid time range (expected one of: 1h, 6h, 24h, 7d)"
    );
}

#[test]
fn every_range_spans_at_most_360_whole_buckets() {
    for r in [TimeRange::Hour1, TimeRange::Hour6, TimeRange::Hour24, TimeRange::Day7] {
        assert_eq!(r.range_secs() % r.bucket_secs(), 0);
        assert!(r.range_secs() / r.bucket_secs() <= 360);
    }
    assert_eq!(TimeRange::Day7.range_secs() / TimeRange::Day7.bucket_secs(), 336);
}
