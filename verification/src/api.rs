//! Decisions of the REST client: the base URL for a host, request URLs,
//! what a response status means for an ETag-conditional GET, and the
//! rate-limit headers.

use vstd::prelude::*;

use crate::diff::{digits_value, is_ascii_digit};
use crate::pulls::Timestamp;
use crate::rate_limit::RateLimit;
use crate::text::{has_prefix, push_char, str_eq, substring, to_chars};

verus! {

/// Why an API request produced no value.
#[derive(Debug, Clone, PartialEq, Eq)]
pub enum ApiError {
    /// Transport failure (the message of the HTTP client's error).
    Http(String),
    /// The body did not decode (the decoder's message).
    Decode(String),
    NotFound,
    /// Any other non-success status.
    Status(u16),
    /// A 304 arrived but no cached entry exists for the URL.
    StaleNotModified(String),
}

pub open spec fn api_message(e: ApiError) -> Seq<char> {
    match e {
        ApiError::Http(m) => "HTTP error: "@ + m@,
        ApiError::Decode(m) => "decode error: "@ + m@,
        ApiError::NotFound => "404 Not Found"@,
        ApiError::Status(c) => "server returned "@ + crate::text::decimal(c as nat),
        ApiError::StaleNotModified(u) => "304 received but cache had no entry for "@ + u@,
    }
}

impl ApiError {
    /// The error's text.
    pub fn message(&self) -> (r: String)
        ensures
            r@ == api_message(*self),
    {
        match self {
            ApiError::Http(m) => {
                let mut s = "HTTP error: ".to_owned();
                s.append(m.as_str());
                s
            },
            ApiError::Decode(m) => {
                let mut s = "decode error: ".to_owned();
                s.append(m.as_str());
                s
            },
            ApiError::NotFound => "404 Not Found".to_owned(),
            ApiError::Status(c) => {
                let mut s = "server returned ".to_owned();
                crate::text::push_decimal(&mut s, *c as u64);
                s
            },
            ApiError::StaleNotModified(u) => {
                let mut s = "304 received but cache had no entry for ".to_owned();
                s.append(u.as_str());
                s
            },
        }
    }
}

/// A cached response: its ETag and raw body.
#[derive(Debug, Clone, PartialEq, Eq)]
pub struct CachedEntry {
    pub etag: String,
    pub body: Vec<u8>,
}

// ── base URL ────────────────────────────────────────────────────────────

/// `host` names the server: an explicit `http://` / `https://` URL is used
/// as given (with a trailing slash), `github.com` maps to the public API,
/// and any other host to its GitHub Enterprise `/api/v3/` root.
pub open spec fn base_url(host: Seq<char>) -> Seq<char> {
    if has_prefix(host, "http://"@) || has_prefix(host, "https://"@) {
        if host.len() > 0 && host.last() == '/' {
            host
        } else {
            host.push('/')
        }
    } else if host == "github.com"@ {
        "https://api.github.com/"@
    } else {
        "https://"@ + host + "/api/v3/"@
    }
}

/// `p` is a prefix of `cs`.
pub fn starts_with(cs: &Vec<char>, p: &str) -> (r: bool)
    ensures
        r == has_prefix(cs@, p@),
{
    let pc = to_chars(p);
    if pc.len() > cs.len() {
        return false;
    }
    let mut k: usize = 0;
    while k < pc.len()
        invariant
            pc@ == p@,
            pc.len() <= cs.len(),
            k <= pc.len(),
            cs@.take(k as int) == pc@.take(k as int),
        decreases pc.len() - k,
    {
        if cs[k] != pc[k] {
            assert(cs@.take(pc.len() as int)[k as int] != pc@[k as int]);
            return false;
        }
        k = k + 1;
        assert(cs@.take(k as int) =~= pc@.take(k as int));
    }
    assert(pc@.take(k as int) =~= pc@);
    true
}

/// The API root URL for `host`, always ending in `/`.
pub fn derive_base_url(host: &str) -> (r: String)
    ensures
        r@ == base_url(host@),
{
    let cs = to_chars(host);
    if starts_with(&cs, "http://") || starts_with(&cs, "https://") {
        let mut s = host.to_owned();
        if cs.len() == 0 || cs[cs.len() - 1] != '/' {
            push_char(&mut s, '/');
        }
        s
    } else if str_eq(host, "github.com") {
        "https://api.github.com/".to_owned()
    } else {
        let mut s = "https://".to_owned();
        s.append(host);
        s.append("/api/v3/");
        s
    }
}

/// `path` without its leading slashes.
pub open spec fn strip_slashes(p: Seq<char>) -> Seq<char>
    decreases p.len(),
{
    if p.len() > 0 && p[0] == '/' {
        strip_slashes(p.drop_first())
    } else {
        p
    }
}

/// The request URL for `path` under `base`.
pub fn request_url(base: &str, path: &str) -> (r: String)
    ensures
        r@ == base@ + strip_slashes(path@),
{
    let cs = to_chars(path);
    let mut k: usize = 0;
    assert(cs@.skip(0) =~= cs@);
    while k < cs.len() && cs[k] == '/'
        invariant
            k <= cs.len(),
            cs@ == path@,
            strip_slashes(cs@.skip(k as int)) == strip_slashes(path@),
        decreases cs.len() - k,
    {
        assert(cs@.skip(k as int).drop_first() =~= cs@.skip(k + 1));
        k = k + 1;
    }
    let rest = substring(&cs, k, cs.len());
    assert(cs@.subrange(k as int, cs.len() as int) =~= cs@.skip(k as int));
    let mut out = base.to_owned();
    out.append(rest.as_str());
    out
}

// ── conditional GET ─────────────────────────────────────────────────────

/// What to do with a response to an ETag-conditional GET.
#[derive(Debug, Clone, PartialEq, Eq)]
pub enum GetOutcome {
    /// 304 with a cached entry: decode the cached body.
    UseCached,
    /// A success status: decode the fresh body (and cache it when it
    /// carries an ETag).
    Fresh,
    /// The request failed with this error.
    Fail(ApiError),
}

/// Classifies a response status: 304 uses the cache (or fails when nothing
/// is cached for `url`), 404 is `NotFound`, any other status outside
/// `200..=299` is `Status`, and a success status is decoded fresh.
pub fn response_outcome(status: u16, has_cached: bool, url: &str) -> (r: GetOutcome)
    ensures
        status == 304 && has_cached ==> r == GetOutcome::UseCached,
        status == 304 && !has_cached ==> (r matches GetOutcome::Fail(ApiError::StaleNotModified(u))
            && u@ == url@),
        status == 404 ==> r == GetOutcome::Fail(ApiError::NotFound),
        200 <= status <= 299 ==> r == GetOutcome::Fresh,
        status != 304 && status != 404 && !(200 <= status <= 299) ==> r == GetOutcome::Fail(
            ApiError::Status(status),
        ),
{
    if status == 304 {
        if has_cached {
            GetOutcome::UseCached
        } else {
            GetOutcome::Fail(ApiError::StaleNotModified(url.to_owned()))
        }
    } else if status == 404 {
        GetOutcome::Fail(ApiError::NotFound)
    } else if 200 <= status && status <= 299 {
        GetOutcome::Fresh
    } else {
        GetOutcome::Fail(ApiError::Status(status))
    }
}

// ── rate-limit headers ──────────────────────────────────────────────────

pub open spec fn all_digits(d: Seq<char>) -> bool {
    forall|i: int| 0 <= i < d.len() ==> is_ascii_digit(#[trigger] d[i])
}

/// The digits of an integer literal after an optional sign character.
pub open spec fn unsigned_part(s: Seq<char>, signed: bool) -> Seq<char> {
    if s.len() > 0 && (s[0] == '+' || (signed && s[0] == '-')) {
        s.drop_first()
    } else {
        s
    }
}

/// `str::parse::<u32>`: an optional `+`, then one or more ASCII digits
/// whose value fits in `u32`.
pub open spec fn parse_u32(s: Seq<char>) -> Option<u32> {
    let d = unsigned_part(s, false);
    if d.len() == 0 || !all_digits(d) || digits_value(d) > u32::MAX {
        None
    } else {
        Some(digits_value(d) as u32)
    }
}

/// `str::parse::<i64>`: an optional `+` or `-`, then one or more ASCII
/// digits whose signed value fits in `i64`.
pub open spec fn parse_i64(s: Seq<char>) -> Option<i64> {
    let d = unsigned_part(s, true);
    let neg = s.len() > 0 && s[0] == '-';
    let v = if neg { -digits_value(d) } else { digits_value(d) };
    if d.len() == 0 || !all_digits(d) || v < i64::MIN || v > i64::MAX {
        None
    } else {
        Some(v as i64)
    }
}

proof fn lemma_digits_nonneg(d: Seq<char>)
    requires
        all_digits(d),
    ensures
        digits_value(d) >= 0,
    decreases d.len(),
{
    if d.len() > 0 {
        lemma_digits_nonneg(d.drop_last());
    }
}

/// The value of a prefix of a digit string never exceeds the whole value.
proof fn lemma_digits_prefix_le(d: Seq<char>, k: int)
    requires
        all_digits(d),
        0 <= k <= d.len(),
    ensures
        digits_value(d.take(k)) <= digits_value(d),
    decreases d.len(),
{
    if k < d.len() {
        assert(d.drop_last().take(k) =~= d.take(k));
        lemma_digits_prefix_le(d.drop_last(), k);
        lemma_digits_nonneg(d.drop_last());
    } else {
        assert(d.take(k) =~= d);
    }
}

/// Value of the digits `cs[lo..hi]` when it is at most `limit`.
fn digits_up_to(cs: &Vec<char>, lo: usize, hi: usize, limit: u64) -> (r: Option<u64>)
    requires
        lo <= hi <= cs.len(),
        limit >= 9,
    ensures
        ({
            let d = cs@.subrange(lo as int, hi as int);
            match r {
                Some(v) => all_digits(d) && v == digits_value(d) && v <= limit,
                None => !all_digits(d) || digits_value(d) > limit,
            }
        }),
{
    let ghost d = cs@.subrange(lo as int, hi as int);
    let mut acc: u64 = 0;
    let mut k = lo;
    while k < hi
        invariant
            lo <= k <= hi <= cs.len(),
            d == cs@.subrange(lo as int, hi as int),
            all_digits(d.take(k - lo)),
            acc == digits_value(d.take(k - lo)),
            acc <= limit,
            limit >= 9,
        decreases hi - k,
    {
        let c = cs[k];
        assert(d.take(k - lo + 1).drop_last() =~= d.take(k - lo));
        if !('0' <= c && c <= '9') {
            assert(!is_ascii_digit(d[k - lo]));
            return None;
        }
        let dig = (c as u32 - '0' as u32) as u64;
        assert(dig <= 9);
        if acc > (limit - dig) / 10 {
            proof {
                assert(acc * 10 + dig > limit) by (nonlinear_arith)
                    requires
                        acc > (limit - dig) / 10,
                        dig <= 9,
                        dig <= limit,
                ;
            }
            proof {
                if all_digits(d) {
                    lemma_digits_prefix_le(d, k - lo + 1);
                }
            }
            return None;
        }
        proof {
            assert(acc * 10 + dig <= limit) by (nonlinear_arith)
                requires
                    acc <= (limit - dig) / 10,
                    dig <= limit,
            ;
            assert(is_ascii_digit(d[k - lo]));
            assert(digits_value(d.take(k - lo + 1)) == acc * 10 + dig);
        }
        acc = acc * 10 + dig;
        k = k + 1;
    }
    assert(d.take(hi - lo) =~= d);
    Some(acc)
}

/// `str::parse::<u32>` on a header value.
pub fn parse_u32_text(s: &str) -> (r: Option<u32>)
    ensures
        r == parse_u32(s@),
{
    let cs = to_chars(s);
    let lo: usize = if cs.len() > 0 && cs[0] == '+' { 1 } else { 0 };
    assert(cs@.subrange(lo as int, cs.len() as int) =~= unsigned_part(s@, false));
    if lo == cs.len() {
        return None;
    }
    match digits_up_to(&cs, lo, cs.len(), 4294967295u64) {
        Some(v) => Some(v as u32),
        None => None,
    }
}

/// `str::parse::<i64>` on a header value.
pub fn parse_i64_text(s: &str) -> (r: Option<i64>)
    ensures
        r == parse_i64(s@),
{
    let cs = to_chars(s);
    let neg = cs.len() > 0 && cs[0] == '-';
    let lo: usize = if cs.len() > 0 && (cs[0] == '+' || cs[0] == '-') { 1 } else { 0 };
    assert(cs@.subrange(lo as int, cs.len() as int) =~= unsigned_part(s@, true));
    if lo == cs.len() {
        return None;
    }
    let limit: u64 = if neg { 9223372036854775808u64 } else { 9223372036854775807u64 };
    match digits_up_to(&cs, lo, cs.len(), limit) {
        Some(v) => {
            if neg {
                if v == 9223372036854775808u64 {
                    Some(i64::MIN)
                } else {
                    Some(-(v as i64))
                }
            } else {
                Some(v as i64)
            }
        },
        None => None,
    }
}

/// Whether chrono's `DateTime::<Utc>::from_timestamp(secs, 0)` accepts
/// `secs`: chrono's dates run from the first second of year -262143 to the
/// last second of year 262142 (proleptic Gregorian, year 0 = 1 BCE).
pub open spec fn utc_secs_in_range(secs: i64) -> bool {
    -8334601228800 <= secs <= 8210266876799
}

/// `DateTime::<Utc>::from_timestamp(secs, 0)`, read back as seconds and
/// nanoseconds. chrono documents that the value round-trips through
/// `timestamp()` / `timestamp_subsec_nanos()`; its source accepts exactly
/// the seconds of [`utc_secs_in_range`].
#[verifier::external_body]
fn utc_from_secs(secs: i64) -> (r: Option<(i64, u32)>)
    ensures
        r.is_some() == utc_secs_in_range(secs),
        r matches Some(p) ==> p == (secs, 0u32),
{
    match chrono::DateTime::from_timestamp(secs, 0) {
        Some(dt) => Some((dt.timestamp(), dt.timestamp_subsec_nanos())),
        None => None,
    }
}

/// What `x-ratelimit-remaining`, `x-ratelimit-limit` and
/// `x-ratelimit-reset` say, when all three are present and well formed.
pub open spec fn rate_limit_of(
    remaining: Option<Seq<char>>,
    limit: Option<Seq<char>>,
    reset: Option<Seq<char>>,
) -> Option<RateLimit> {
    match (remaining, limit, reset) {
        (Some(a), Some(b), Some(c)) => match (parse_u32(a), parse_u32(b), parse_i64(c)) {
            (Some(x), Some(y), Some(z)) => if utc_secs_in_range(z) {
                Some(RateLimit { remaining: x, limit: y, reset_at: Timestamp { secs: z, nanos: 0 } })
            } else {
                None
            },
            _ => None,
        },
        _ => None,
    }
}

pub open spec fn opt_view(o: Option<String>) -> Option<Seq<char>> {
    match o {
        Some(s) => Some(s@),
        None => None,
    }
}

/// Reads the three rate-limit header values; `None` when any is missing or
/// malformed.
pub fn parse_rate_limit(
    remaining: &Option<String>,
    limit: &Option<String>,
    reset: &Option<String>,
) -> (r: Option<RateLimit>)
    ensures
        r == rate_limit_of(opt_view(*remaining), opt_view(*limit), opt_view(*reset)),
{
    let a = match remaining {
        Some(s) => parse_u32_text(s.as_str()),
        None => return None,
    };
    let b = match limit {
        Some(s) => parse_u32_text(s.as_str()),
        None => return None,
    };
    let c = match reset {
        Some(s) => parse_i64_text(s.as_str()),
        None => return None,
    };
    match (a, b, c) {
        (Some(x), Some(y), Some(z)) => match utc_from_secs(z) {
            Some(p) => Some(RateLimit { remaining: x, limit: y, reset_at: Timestamp { secs: p.0, nanos: p.1 } }),
            None => None,
        },
        _ => None,
    }
}

} // verus!
