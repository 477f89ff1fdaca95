//! Domain types shared by every module: the historical time range, its
//! parse error, and the unified application error.

use vstd::prelude::*;

verus! {

/// The time range of a historical query. Its wire form is the canonical
/// string shared verbatim by frontend and backend (`"1h"`, `"6h"`, `"24h"`,
/// `"7d"`).
#[derive(Debug, Clone, Copy, PartialEq, Eq, Structural)]
pub enum TimeRange {
    /// Last 1 hour.
    Hour1,
    /// Last 6 hours.
    Hour6,
    /// Last 24 hours.
    Hour24,
    /// Last 7 days.
    Day7,
}

/// The canonical wire string of a range.
pub open spec fn range_wire(r: TimeRange) -> Seq<char> {
    match r {
        TimeRange::Hour1 => seq!['1', 'h'],
        TimeRange::Hour6 => seq!['6', 'h'],
        TimeRange::Hour24 => seq!['2', '4', 'h'],
        TimeRange::Day7 => seq!['7', 'd'],
    }
}

/// The total span of a range, in seconds.
pub open spec fn range_span_secs(r: TimeRange) -> i64 {
    match r {
        TimeRange::Hour1 => 3_600,
        TimeRange::Hour6 => 21_600,
        TimeRange::Hour24 => 86_400,
        TimeRange::Day7 => 604_800,
    }
}

/// The downsampling bucket width of a range, in seconds.
pub open spec fn range_bucket_secs(r: TimeRange) -> i64 {
    match r {
        TimeRange::Hour1 => 10,
        TimeRange::Hour6 => 60,
        TimeRange::Hour24 => 240,
        TimeRange::Day7 => 1_800,
    }
}

/// The range whose wire string is exactly `s`, if there is one.
pub open spec fn range_from_wire(s: Seq<char>) -> Option<TimeRange> {
    if s == range_wire(TimeRange::Hour1) {
        Some(TimeRange::Hour1)
    } else if s == range_wire(TimeRange::Hour6) {
        Some(TimeRange::Hour6)
    } else if s == range_wire(TimeRange::Hour24) {
        Some(TimeRange::Hour24)
    } else if s == range_wire(TimeRange::Day7) {
        Some(TimeRange::Day7)
    } else {
        None
    }
}

impl TimeRange {
    /// The canonical wire string for this range.
    pub fn as_str(&self) -> (s: &'static str)
        ensures
            s@ == range_wire(*self),
    {
        match self {
            TimeRange::Hour1 => {
                proof {
                    reveal_strlit("1h");
                }
                "1h"
            },
            TimeRange::Hour6 => {
                proof {
                    reveal_strlit("6h");
                }
                "6h"
            },
            TimeRange::Hour24 => {
                proof {
                    reveal_strlit("24h");
                }
                "24h"
            },
            TimeRange::Day7 => {
                proof {
                    reveal_strlit("7d");
                }
                "7d"
            },
        }
    }

    /// The total span of the range in seconds.
    pub fn range_secs(&self) -> (secs: i64)
        ensures
            secs == range_span_secs(*self),
    {
        match self {
            TimeRange::Hour1 => 3_600,
            TimeRange::Hour6 => 21_600,
            TimeRange::Hour24 => 86_400,
            TimeRange::Day7 => 604_800,
        }
    }

    /// The downsampling bucket width in seconds (about 360 points per range).
    pub fn bucket_secs(&self) -> (secs: i64)
        ensures
            secs == range_bucket_secs(*self),
    {
        match self {
            TimeRange::Hour1 => 10,
            TimeRange::Hour6 => 60,
            TimeRange::Hour24 => 240,
            TimeRange::Day7 => 1_800,
        }
    }

    /// Parse the canonical wire string; anything else is rejected.
    pub fn parse(s: &str) -> (r: Result<TimeRange, ParseRangeError>)
        ensures
            r matches Ok(t) ==> range_from_wire(s@) == Some(t),
            r is Err <==> range_from_wire(s@) is None,
    {
        let n = s.unicode_len();
        if n == 2 {
            let a = s.get_char(0);
            let b = s.get_char(1);
            if b == 'h' && a == '1' {
                assert(s@ =~= range_wire(TimeRange::Hour1));
                return Ok(TimeRange::Hour1);
            } else if b == 'h' && a == '6' {
                assert(s@ =~= range_wire(TimeRange::Hour6));
                return Ok(TimeRange::Hour6);
            } else if b == 'd' && a == '7' {
                assert(s@ =~= range_wire(TimeRange::Day7));
                return Ok(TimeRange::Day7);
            }
        } else if n == 3 {
            let a = s.get_char(0);
            let b = s.get_char(1);
            let c = s.get_char(2);
            if a == '2' && b == '4' && c == 'h' {
                assert(s@ =~= range_wire(TimeRange::Hour24));
                return Ok(TimeRange::Hour24);
            }
        }
        proof {
            if n == 2 {
                assert(s@[0] != range_wire(TimeRange::Hour1)[0] || s@[1] != range_wire(
                    TimeRange::Hour1,
                )[1]);
                assert(s@[0] != range_wire(TimeRange::Hour6)[0] || s@[1] != range_wire(
                    TimeRange::Hour6,
                )[1]);
                assert(s@[0] != range_wire(TimeRange::Day7)[0] || s@[1] != range_wire(
                    TimeRange::Day7,
                )[1]);
            } else if n == 3 {
                assert(s@[0] != range_wire(TimeRange::Hour24)[0] || s@[1] != range_wire(
                    TimeRange::Hour24,
                )[1] || s@[2] != range_wire(TimeRange::Hour24)[2]);
            }
        }
        Err(ParseRangeError)
    }
}

impl std::str::FromStr for TimeRange {
    type Err = ParseRangeError;

    fn from_str(s: &str) -> (r: Result<TimeRange, ParseRangeError>)
        ensures
            r matches Ok(t) ==> range_from_wire(s@) == Some(t),
            r is Err <==> range_from_wire(s@) is None,
    {
        TimeRange::parse(s)
    }
}

/// Every range's wire string parses back to that same range.
pub proof fn lemma_range_wire_round_trip(r: TimeRange)
    ensures
        range_from_wire(range_wire(r)) == Some(r),
{
    assert(range_wire(TimeRange::Hour1) != range_wire(TimeRange::Hour6));
    assert(range_wire(TimeRange::Hour1) != range_wire(TimeRange::Day7));
    assert(range_wire(TimeRange::Hour6) != range_wire(TimeRange::Day7));
    assert(range_wire(TimeRange::Hour24).len() == 3);
}

/// Two ranges with the same wire string are the same range.
pub proof fn lemma_range_wire_injective(a: TimeRange, b: TimeRange)
    requires
        range_wire(a) == range_wire(b),
    ensures
        a == b,
{
    lemma_range_wire_round_trip(a);
    lemma_range_wire_round_trip(b);
}

/// Every range spans a whole number of buckets, at most 360 of them.
pub proof fn lemma_range_bucket_count(r: TimeRange)
    ensures
        range_bucket_secs(r) > 0,
        range_span_secs(r) % range_bucket_secs(r) == 0,
        range_span_secs(r) / range_bucket_secs(r) <= 360,
{
}

/// Error returned when parsing a [`TimeRange`] from a string fails.
#[derive(Debug, Clone, Copy, PartialEq, Eq, Structural)]
pub struct ParseRangeError;

/// The message a range parse failure reads.
pub open spec fn parse_range_error_text() -> Seq<char> {
    "invalid time range (expected one of: 1h, 6h, 24h, 7d)"@
}

impl ParseRangeError {
    /// The human-readable message of this error.
    pub fn to_string(&self) -> (s: String)
        ensures
            s@ == parse_range_error_text(),
    {
        "invalid time range (expected one of: 1h, 6h, 24h, 7d)".to_owned()
    }
}

/// The single unified error type used across the backend modules.
#[derive(Debug)]
pub enum AppError {
    /// Configuration loading/validation failure.
    Config(String),
    /// Storage (persistence/query) failure.
    Storage(String),
    /// Metrics collection failure.
    Collect(String),
}

/// The display message of an application error: a fixed prefix per variant
/// followed by the detail.
pub open spec fn app_error_text(e: AppError) -> Seq<char> {
    match e {
        AppError::Config(m) => "configuration error: "@ + m@,
        AppError::Storage(m) => "storage error: "@ + m@,
        AppError::Collect(m) => "collect error: "@ + m@,
    }
}

impl AppError {
    /// The human-readable message of this error.
    pub fn to_string(&self) -> (s: String)
        ensures
            s@ == app_error_text(*self),
    {
        let (mut out, detail) = match self {
            AppError::Config(m) => ("configuration error: ".to_owned(), m),
            AppError::Storage(m) => ("storage error: ".to_owned(), m),
            AppError::Collect(m) => ("collect error: ".to_owned(), m),
        };
        out.append(detail.as_str());
        out
    }
}

} // verus!
