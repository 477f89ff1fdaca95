use dobby_backend::api::{
    cors_allowed_origins, cors_policy, HttpMethod, history_range, ApiError, CurrentReply, HistoryResponse,
    STATUS_BAD_REQUEST, STATUS_INTERNAL_SERVER_ERROR, STATUS_NO_CONTENT, STATUS_OK,
};
use dobby_backend::domain::{AppError, TimeRange};

#[test]
fn history_range_validation() {
    assert_eq!(history_range(Some("24h".into())).unwrap(), TimeRange::Hour24);
    let invalid = history_range(Some("99x".into())).unwrap_err();
    assert_eq!(invalid.status, STATUS_BAD_REQUEST);
    assert_eq!(invalid.message, "invalid time range (expected one of: 1h, 6h, 24h, 7d)");
    let missing = history_range(None).unwrap_err();
    assert_eq!(missing.status, STATUS_BAD_REQUEST);
    assert_eq!(missing.message, "missing required query parameter: range");
}

#[test]
fn history_response_carries_range_and_bucket() {
    let body = HistoryResponse::new(TimeRange::Hour24, vec![1, 2, 3]);
    assert_eq!(body.range, "24h");
    assert_eq!(body.bucket_secs, 240);
    assert_eq!(body.points, vec![1, 2, 3]);
    let empty: HistoryResponse<u8> = HistoryResponse::new(TimeRange::Hour1, vec![]);
    assert_eq!(empty.range, "1h");
    assert_eq!(empty.bucket_secs, 10);
    assert!(empty.points.is_empty());
}

#[test]
fn current_reply_status() {
    let some = CurrentReply::from_latest(Some(5));
    assert_eq!(some.status(), STATUS_OK);
    assert!(matches!(some, CurrentReply::Sample(5)));
    let none: CurrentReply<i32> = CurrentReply::from_latest(None);
    assert_eq!(none.status(), STATUS_NO_CONTENT);
}

#[test]
fn repository_errors_become_500_with_their_message() {
    let e = ApiError::from_app_error(AppError::Storage("boom".into()));
    assert_eq!(e.status, STATUS_INTERNAL_SERVER_ERROR);
    assert_eq!(e.message, "storage error: boom");
    let j = ApiError::task_failed("panicked");
    assert_eq!(j.status, STATUS_INTERNAL_SERVER_ERROR);
    assert_eq!(j.message, "internal task error: panicked");
}

#[test]
fn cors_star_or_nothing_usable_allows_any_origin() {
    assert_eq!(cors_allowed_origins("*"), None);
    assert_eq!(cors_allowed_origins("  * "), None);
    assert_eq!(cors_allowed_origins(""), None);
    assert_eq!(cors_allowed_origins(" , ,"), None);
    assert_eq!(cors_allowed_origins("bad\u{7f}origin"), None);
}

#[test]
fn cors_list_is_trimmed_and_filtered() {
    assert_eq!(
        cors_allowed_origins(" https://a.example , ,http://b.example:3000,bad\u{1}x"),
        Some(vec!["https://a.example".to_string(), "http://b.example:3000".to_string()])
    );
    assert_eq!(
        cors_allowed_origins("https://example.com"),
        Some(vec!["https://example.com".to_string()])
    );
}

#[test]
fn cors_policy_allows_only_get() {
    let p = cors_policy("*");
    assert_eq!(p.methods, vec![HttpMethod::Get]);
    assert_eq!(p.origins, None);
    let q = cors_policy("https://a.example");
    assert_eq!(q.methods, vec![HttpMethod::Get]);
    assert_eq!(q.origins, Some(vec!["https://a.example".to_string()]));
}
