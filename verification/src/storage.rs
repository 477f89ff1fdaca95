//! Parameters of the downsampled range query, and the bound on the number of
//! points it can return.

use vstd::prelude::*;

use crate::clock::unix_secs_now;
use crate::domain::{lemma_range_bucket_count, range_bucket_secs, range_span_secs, TimeRange};

verus! {

/// The downsampling bucket width of a range in seconds (1h→10, 6h→60,
/// 24h→240, 7d→1800).
pub fn bucket_secs_for(range: TimeRange) -> (secs: i64)
    ensures
        secs == range_bucket_secs(range),
{
    range.bucket_secs()
}

/// The bucket width and the first timestamp included by a range query.
#[derive(Debug, Clone, Copy, PartialEq, Eq, Structural)]
pub struct QueryWindow {
    pub bucket_secs: i64,
    pub start_ts: i64,
}

/// The window of a range query made at `now_ts`: rows from `now_ts` minus the
/// range's span on, grouped into the range's buckets.
pub fn query_window(range: TimeRange, now_ts: i64) -> (w: QueryWindow)
    requires
        now_ts - range_span_secs(range) >= i64::MIN,
    ensures
        w.bucket_secs == range_bucket_secs(range),
        w.start_ts == now_ts - range_span_secs(range),
{
    QueryWindow { bucket_secs: bucket_secs_for(range), start_ts: now_ts - range.range_secs() }
}

/// The bucket a non-negative timestamp falls in: its quotient by the bucket
/// width (the query groups rows by `ts / bucket` and labels each group with
/// `(ts / bucket) * bucket`).
pub open spec fn bucket_index(ts: int, bucket: i64) -> int {
    ts / (bucket as int)
}

/// The rows of one query, taken at `now_ts` and no later than it, fall into
/// at most `span / bucket + 1` buckets (at most 361 for every range): every
/// bucket index lies between that of the window's start and that plus
/// `span / bucket`.
pub proof fn lemma_window_bucket_count(range: TimeRange, now_ts: int, ts: int)
    requires
        0 <= now_ts - range_span_secs(range) <= ts <= now_ts,
    ensures
        bucket_index(now_ts - range_span_secs(range), range_bucket_secs(range)) <= bucket_index(ts, range_bucket_secs(range))
            <= bucket_index(now_ts - range_span_secs(range), range_bucket_secs(range)) + range_span_secs(range) / range_bucket_secs(range),
        range_span_secs(range) / range_bucket_secs(range) + 1 <= 361,
{
    lemma_range_bucket_count(range);
    let b = range_bucket_secs(range) as int;
    let span = range_span_secs(range) as int;
    let start = now_ts - span;
    let k = span / b;
    assert(span == k * b);
    vstd::arithmetic::div_mod::lemma_div_is_ordered(start, ts, b);
    vstd::arithmetic::div_mod::lemma_div_is_ordered(ts, now_ts, b);
    vstd::arithmetic::div_mod::lemma_hoist_over_denominator(start, k, b as nat);
    assert(start + k * b == now_ts);
}

/// Current wall-clock time as Unix epoch seconds (0 before the epoch).
pub fn now_unix_secs() -> i64 {
    unix_secs_now()
}

} // verus!
