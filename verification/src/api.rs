//! Decisions of the HTTP layer: error bodies and status codes, validation of
//! the history query, the current-sample outcome, and the CORS allow-list.

use vstd::prelude::*;

use crate::domain::{app_error_text, parse_range_error_text, range_bucket_secs, range_from_wire, range_wire, AppError, TimeRange};
use crate::text::{join, push_char, string_views, trim, trim_str};

verus! {

/// HTTP status 200 OK.
pub const STATUS_OK: u16 = 200;
/// HTTP status 204 No Content.
pub const STATUS_NO_CONTENT: u16 = 204;
/// HTTP status 400 Bad Request.
pub const STATUS_BAD_REQUEST: u16 = 400;
/// HTTP status 500 Internal Server Error.
pub const STATUS_INTERNAL_SERVER_ERROR: u16 = 500;
/// HTTP status 502 Bad Gateway.
pub const STATUS_BAD_GATEWAY: u16 = 502;
/// HTTP status 503 Service Unavailable.
pub const STATUS_SERVICE_UNAVAILABLE: u16 = 503;

/// An HTTP-layer error, rendered as `{ "error": <message> }` with `status`.
#[derive(Debug)]
pub struct ApiError {
    pub status: u16,
    pub message: String,
}

impl ApiError {
    /// A 500 error with the given message.
    pub fn internal(message: String) -> (e: ApiError)
        ensures
            e.status == STATUS_INTERNAL_SERVER_ERROR,
            e.message@ == message@,
    {
        ApiError { status: STATUS_INTERNAL_SERVER_ERROR, message }
    }

    /// A 400 error with the given message.
    pub fn bad_request(message: String) -> (e: ApiError)
        ensures
            e.status == STATUS_BAD_REQUEST,
            e.message@ == message@,
    {
        ApiError { status: STATUS_BAD_REQUEST, message }
    }

    /// Every application error becomes a 500 carrying its display message.
    pub fn from_app_error(e: AppError) -> (r: ApiError)
        ensures
            r.status == STATUS_INTERNAL_SERVER_ERROR,
            r.message@ == app_error_text(e),
    {
        ApiError::internal(e.to_string())
    }

    /// A 500 error for a background task that could not be joined.
    pub fn task_failed(detail: &str) -> (r: ApiError)
        ensures
            r.status == STATUS_INTERNAL_SERVER_ERROR,
            r.message@ == "internal task error: "@ + detail@,
    {
        let mut message = "internal task error: ".to_owned();
        message.append(detail);
        ApiError::internal(message)
    }
}

/// The message of a history request without a `range` parameter.
pub open spec fn missing_range_text() -> Seq<char> {
    "missing required query parameter: range"@
}

/// Validate the `range` query parameter of a history request: absent or not
/// one of the wire strings is a 400, anything else names its range.
pub fn history_range(range: Option<String>) -> (r: Result<TimeRange, ApiError>)
    ensures
        match range {
            None => r matches Err(e) && e.status == STATUS_BAD_REQUEST && e.message@ == missing_range_text(),
            Some(raw) => match range_from_wire(raw@) {
                Some(t) => r == Ok::<TimeRange, ApiError>(t),
                None => r matches Err(e) && e.status == STATUS_BAD_REQUEST && e.message@ == parse_range_error_text(),
            },
        },
{
    match range {
        None => Err(ApiError::bad_request("missing required query parameter: range".to_owned())),
        Some(raw) => match TimeRange::parse(raw.as_str()) {
            Ok(t) => Ok(t),
            Err(e) => Err(ApiError::bad_request(e.to_string())),
        },
    }
}

/// The body of a history response: the range's wire string, its bucket width
/// and the downsampled points.
pub struct HistoryResponse<P> {
    pub range: String,
    pub bucket_secs: i64,
    pub points: Vec<P>,
}

impl<P> HistoryResponse<P> {
    /// The response for `range` carrying `points` as given.
    pub fn new(range: TimeRange, points: Vec<P>) -> (r: HistoryResponse<P>)
        ensures
            r.range@ == range_wire(range),
            r.bucket_secs == range_bucket_secs(range),
            r.points@ == points@,
    {
        HistoryResponse { range: range.as_str().to_owned(), bucket_secs: range.bucket_secs(), points }
    }
}

/// What the current-sample endpoint answers.
pub enum CurrentReply<S> {
    /// 200 with the latest sample.
    Sample(S),
    /// 204 with an empty body: nothing stored yet.
    NoContent,
}

impl<S> CurrentReply<S> {
    /// The reply for the latest stored sample, if there is one.
    pub fn from_latest(latest: Option<S>) -> (r: CurrentReply<S>)
        ensures
            match latest {
                Some(s) => r == CurrentReply::Sample(s),
                None => r == CurrentReply::<S>::NoContent,
            },
    {
        match latest {
            Some(s) => CurrentReply::Sample(s),
            None => CurrentReply::NoContent,
        }
    }

    /// The HTTP status of this reply.
    pub fn status(&self) -> (s: u16)
        ensures
            s == match self {
                CurrentReply::Sample(_) => STATUS_OK,
                CurrentReply::NoContent => STATUS_NO_CONTENT,
            },
    {
        match self {
            CurrentReply::Sample(_) => STATUS_OK,
            CurrentReply::NoContent => STATUS_NO_CONTENT,
        }
    }
}

/// Whether `HeaderValue::from_str` accepts the text: every byte visible or a
/// tab, which on characters is: a tab, or at least a space and not DEL.
pub open spec fn header_value_valid(s: Seq<char>) -> bool {
    forall|i: int| 0 <= i < s.len() ==> #[trigger] s[i] == '\t' || (' ' <= s[i] && s[i] != '\x7f')
}

/// `axum::http::HeaderValue::from_str(s).is_ok()`. The source accepts a string
/// exactly when each of its bytes `b` has `b >= 32 && b != 127 || b == b'\t'`;
/// the bytes of a non-ASCII character are all at least 128.
#[verifier::external_body]
fn header_value_accepts(s: &str) -> (r: bool)
    ensures
        r == header_value_valid(s@),
{
    axum::http::HeaderValue::from_str(s).is_ok()
}

/// The pieces of `s` between occurrences of `sep` (one piece when `sep` does
/// not occur; an empty piece on each side of every separator).
pub open spec fn split_pieces(s: Seq<char>, sep: char) -> Seq<Seq<char>>
    decreases s.len(),
{
    if s.len() == 0 {
        seq![Seq::empty()]
    } else {
        let p = split_pieces(s.drop_last(), sep);
        if s.last() == sep {
            p.push(Seq::empty())
        } else {
            p.update(p.len() - 1, p.last().push(s.last()))
        }
    }
}

/// The origins among comma-separated `pieces`: each trimmed, keeping those
/// that are non-empty and valid header values.
pub open spec fn origin_list(pieces: Seq<Seq<char>>) -> Seq<Seq<char>>
    decreases pieces.len(),
{
    if pieces.len() == 0 {
        Seq::empty()
    } else {
        let rest = origin_list(pieces.drop_last());
        let t = trim(pieces.last());
        if t.len() > 0 && header_value_valid(t) {
            rest.push(t)
        } else {
            rest
        }
    }
}

/// The allow-list that a configured origins string gives: `None` means any
/// origin (a lone `*`, or no usable origin at all).
pub open spec fn cors_allow_list(origins: Seq<char>) -> Option<Seq<Seq<char>>> {
    let list = origin_list(split_pieces(origins, ','));
    if trim(origins) == seq!['*'] || list.len() == 0 {
        None
    } else {
        Some(list)
    }
}

/// Whether a trimmed piece of the origins string is a usable origin.
pub open spec fn usable_origin(t: Seq<char>) -> bool {
    t.len() > 0 && header_value_valid(t)
}

proof fn lemma_join_extend_last(parts: Seq<Seq<char>>, sep: Seq<char>, c: char)
    requires
        parts.len() > 0,
    ensures
        join(parts.update(parts.len() - 1, parts.last().push(c)), sep) == join(parts, sep).push(c),
{
    let u = parts.update(parts.len() - 1, parts.last().push(c));
    if parts.len() == 1 {
        assert(u[0] == parts[0].push(c));
    } else {
        assert(u.drop_last() =~= parts.drop_last());
        assert(u.last() == parts.last().push(c));
        assert(join(parts, sep) + seq![c] =~= join(parts.drop_last(), sep) + sep + parts.last().push(c));
    }
}

/// Splitting at a separator loses and invents nothing: the pieces, joined by
/// the separator, give back the text; there is at least one piece, and no
/// piece holds the separator.
pub proof fn lemma_split_pieces(s: Seq<char>, sep: char)
    ensures
        split_pieces(s, sep).len() >= 1,
        join(split_pieces(s, sep), seq![sep]) == s,
        forall|i: int| 0 <= i < split_pieces(s, sep).len() ==> !(#[trigger] split_pieces(s, sep)[i]).contains(sep),
    decreases s.len(),
{
    if s.len() > 0 {
        let d = s.drop_last();
        lemma_split_pieces(d, sep);
        let p = split_pieces(d, sep);
        if s.last() == sep {
            let q = p.push(Seq::<char>::empty());
            assert(q.drop_last() =~= p);
            assert(join(q, seq![sep]) =~= d + seq![sep] + Seq::<char>::empty());
            assert(d + seq![sep] + Seq::<char>::empty() =~= s);
            assert forall|i: int| 0 <= i < q.len() implies !(#[trigger] q[i]).contains(sep) by {
                if i < p.len() {
                    assert(q[i] == p[i]);
                } else {
                    assert(q[i] =~= Seq::<char>::empty());
                }
            }
        } else {
            lemma_join_extend_last(p, seq![sep], s.last());
            assert(d.push(s.last()) =~= s);
            let q = p.update(p.len() - 1, p.last().push(s.last()));
            assert forall|i: int| 0 <= i < q.len() implies !(#[trigger] q[i]).contains(sep) by {
                if i < p.len() - 1 {
                    assert(q[i] == p[i]);
                } else {
                    assert(!p[i].contains(sep));
                    assert(q[i] == p[i].push(s.last()));
                    if q[i].contains(sep) {
                        let j = choose|j: int| 0 <= j < q[i].len() && q[i][j] == sep;
                        if j < p[i].len() {
                            assert(p[i][j] == sep);
                        }
                    }
                }
            }
        }
    }
}

proof fn lemma_origin_list_filter(pieces: Seq<Seq<char>>)
    ensures
        origin_list(pieces) == pieces.map_values(|p: Seq<char>| trim(p)).filter(|t: Seq<char>| usable_origin(t)),
    decreases pieces.len(),
{
    reveal(Seq::filter);
    let f = |p: Seq<char>| trim(p);
    let q = |t: Seq<char>| usable_origin(t);
    if pieces.len() > 0 {
        lemma_origin_list_filter(pieces.drop_last());
        let m = pieces.map_values(f);
        assert(m.drop_last() =~= pieces.drop_last().map_values(f));
        assert(m.last() == trim(pieces.last()));
        assert(m.filter(q) == (if q(m.last()) {
            m.drop_last().filter(q).push(m.last())
        } else {
            m.drop_last().filter(q)
        }));
    } else {
        assert(pieces.map_values(f) =~= Seq::<Seq<char>>::empty());
        assert(pieces.map_values(f).filter(q) =~= Seq::<Seq<char>>::empty());
    }
}

/// Unless the origins string is a lone `*`, the allow-list holds exactly the
/// pieces between its commas, each trimmed, that are non-empty valid header
/// values, in their order; every such piece is in it, the last one included.
/// When there is none, any origin is allowed (`None`).
pub proof fn lemma_cors_allow_list_pieces(s: Seq<char>)
    ensures
        trim(s) != seq!['*'] ==> cors_allow_list(s) == ({
            let kept = split_pieces(s, ',').map_values(|p: Seq<char>| trim(p)).filter(|t: Seq<char>| usable_origin(t));
            if kept.len() > 0 {
                Some(kept)
            } else {
                None
            }
        }),
        trim(s) != seq!['*'] ==> forall|i: int| 0 <= i < split_pieces(s, ',').len() && usable_origin(trim(#[trigger] split_pieces(s, ',')[i])) ==>
            (cors_allow_list(s) matches Some(list) && list.contains(trim(split_pieces(s, ',')[i]))),
        trim(s) == seq!['*'] ==> cors_allow_list(s) is None,
{
    broadcast use vstd::seq_lib::group_filter_ensures;

    let pieces = split_pieces(s, ',');
    lemma_origin_list_filter(pieces);
    let m = pieces.map_values(|p: Seq<char>| trim(p));
    let kept = m.filter(|t: Seq<char>| usable_origin(t));
    assert forall|i: int| 0 <= i < pieces.len() && usable_origin(trim(#[trigger] pieces[i])) implies kept.contains(trim(pieces[i])) by {
        assert(m[i] == trim(pieces[i]));
        m.lemma_filter_contains(|t: Seq<char>| usable_origin(t), i);
    }
}

/// The pieces of `s` between commas.
fn split_commas(s: &str) -> (r: Vec<String>)
    ensures
        string_views(r@) == split_pieces(s@, ','),
{
    let mut pieces: Vec<String> = Vec::new();
    let mut cur = String::new();
    let ghost all = s@;
    assert(all.take(0) =~= Seq::<char>::empty());
    assert(string_views(pieces@).push(cur@) =~= split_pieces(all.take(0), ','));
    for c in it: s.chars()
        invariant
            all == s@,
            it.seq() == all,
            string_views(pieces@).push(cur@) == split_pieces(all.take(it.index() as int), ','),
    {
        let ghost i = it.index();
        let ghost prefix = all.take(i + 1);
        assert(prefix.drop_last() =~= all.take(i as int));
        assert(prefix.last() == c);
        let ghost before = string_views(pieces@).push(cur@);
        if c == ',' {
            let done = cur;
            pieces.push(done);
            cur = String::new();
            assert(string_views(pieces@).push(cur@) =~= before.push(Seq::empty()));
        } else {
            push_char(&mut cur, c);
            assert(string_views(pieces@).push(cur@) =~= before.update(before.len() - 1, before.last().push(c)));
        }
    }
    assert(all.take(all.len() as int) =~= all);
    pieces.push(cur);
    assert(string_views(pieces@) =~= split_pieces(all, ','));
    pieces
}

/// The CORS allow-list for the configured origins string: `None` means that
/// any origin is allowed.
pub fn cors_allowed_origins(origins: &str) -> (r: Option<Vec<String>>)
    ensures
        match r {
            None => cors_allow_list(origins@) is None,
            Some(list) => cors_allow_list(origins@) == Some(string_views(list@)),
        },
{
    let pieces = split_commas(origins);
    let ghost ps = string_views(pieces@);
    let mut out: Vec<String> = Vec::new();
    let mut i: usize = 0;
    while i < pieces.len()
        invariant
            i <= pieces@.len(),
            ps == string_views(pieces@),
            string_views(out@) == origin_list(ps.take(i as int)),
        decreases pieces@.len() - i,
    {
        assert(ps.take(i + 1).drop_last() =~= ps.take(i as int));
        assert(ps.take(i + 1).last() == pieces@[i as int]@);
        let t = trim_str(pieces[i].as_str());
        if t.unicode_len() > 0 && header_value_accepts(t) {
            let ghost before = string_views(out@);
            out.push(t.to_owned());
            assert(string_views(out@) =~= before.push(t@));
        }
        i += 1;
    }
    assert(ps.take(pieces@.len() as int) =~= ps);
    let whole = trim_str(origins);
    let is_star = whole.unicode_len() == 1 && whole.get_char(0) == '*';
    proof {
        if is_star {
            assert(whole@ =~= seq!['*']);
        }
    }
    if is_star || out.len() == 0 {
        None
    } else {
        Some(out)
    }
}

/// An HTTP request method that the cross-origin policy can allow.
#[derive(Debug, Clone, Copy, PartialEq, Eq, Structural)]
pub enum HttpMethod {
    Get,
}

/// The cross-origin policy: the methods allowed, and the allowed origins
/// (`None` meaning any origin).
#[derive(Debug)]
pub struct CorsPolicy {
    pub methods: Vec<HttpMethod>,
    pub origins: Option<Vec<String>>,
}

/// The cross-origin policy for the configured origins string: only `GET` is
/// allowed, from the origins that [`cors_allowed_origins`] gives.
pub fn cors_policy(origins: &str) -> (p: CorsPolicy)
    ensures
        p.methods@ == seq![HttpMethod::Get],
        match p.origins {
            None => cors_allow_list(origins@) is None,
            Some(list) => cors_allow_list(origins@) == Some(string_views(list@)),
        },
{
    let mut methods: Vec<HttpMethod> = Vec::new();
    methods.push(HttpMethod::Get);
    assert(methods@ =~= seq![HttpMethod::Get]);
    CorsPolicy { methods, origins: cors_allowed_origins(origins) }
}

} // verus!
