//! Shapes of the GraphQL responses the client reads, and their mapping onto
//! the core model.
//!
//! The structs mirror the selection sets of the two queries field for
//! field; the mapping functions turn a decoded response into the
//! `crate::pulls` types the reducer and renderer work with.

pub mod pr_detail;
pub mod pr_review_threads;

use vstd::prelude::*;

use crate::pulls::Timestamp;

verus! {

/// The `Some` items of `s`, in order (GraphQL lists of nullable nodes).
pub open spec fn present<T>(s: Seq<Option<T>>) -> Seq<T>
    decreases s.len(),
{
    if s.len() == 0 {
        Seq::empty()
    } else {
        let head = present(s.drop_last());
        match s.last() {
            Some(x) => head.push(x),
            None => head,
        }
    }
}

/// The present nodes of a nullable list of nullable nodes.
pub open spec fn present_nodes<T>(n: Option<Vec<Option<T>>>) -> Seq<T> {
    match n {
        Some(v) => present(v@),
        None => Seq::empty(),
    }
}

/// `present(s.take(i + 1))` extends `present(s.take(i))` by `s[i]` when it
/// is present.
pub proof fn lemma_present_step<T>(s: Seq<Option<T>>, i: int)
    requires
        0 <= i < s.len(),
    ensures
        present(s.take(i + 1)) == (match s[i] {
            Some(x) => present(s.take(i)).push(x),
            None => present(s.take(i)),
        }),
{
    assert(s.take(i + 1).drop_last() =~= s.take(i));
}

/// A GraphQL `Int` as a `u64`, negatives as 0.
pub open spec fn nonneg_u64(n: i32) -> u64 {
    if n >= 0 {
        n as u64
    } else {
        0
    }
}

pub fn to_u64_or_zero(n: i32) -> (r: u64)
    ensures
        r == nonneg_u64(n),
{
    if n >= 0 {
        n as u64
    } else {
        0
    }
}

/// A GraphQL `Int` as a `u32`, `None` for negatives.
pub open spec fn u32_of(n: i32) -> Option<u32> {
    if n >= 0 {
        Some(n as u32)
    } else {
        None
    }
}

pub fn try_u32(n: i32) -> (r: Option<u32>)
    ensures
        r == u32_of(n),
{
    if n >= 0 {
        Some(n as u32)
    } else {
        None
    }
}

/// A PR number as the GraphQL `Int` variable (`i32::MAX` when too large).
pub open spec fn number_var(n: u64) -> i32 {
    if n <= i32::MAX {
        n as i32
    } else {
        i32::MAX
    }
}

pub fn to_number_var(n: u64) -> (r: i32)
    ensures
        r == number_var(n),
{
    if n <= 2147483647u64 {
        n as i32
    } else {
        i32::MAX
    }
}

/// The instant that chrono reads from an RFC 3339 `DateTime` scalar, as
/// whole seconds since the Unix epoch and the nanosecond part; `None`
/// when chrono rejects the text.
pub uninterp spec fn rfc3339_instant(s: Seq<char>) -> Option<(i64, u32)>;

/// Parses a GraphQL `DateTime` with chrono's `FromStr for DateTime<Utc>`.
/// The contract names the result; chrono's grammar is not restated.
#[verifier::external_body]
pub(crate) fn parse_instant(s: &str) -> (r: Option<(i64, u32)>)
    ensures
        r == rfc3339_instant(s@),
{
    match s.parse::<chrono::DateTime<chrono::Utc>>() {
        Ok(dt) => Some((dt.timestamp(), dt.timestamp_subsec_nanos())),
        Err(_) => None,
    }
}

/// The time elapsed since the Unix epoch, from std's `SystemTime::elapsed`
/// on `SystemTime::UNIX_EPOCH`, as whole seconds and the nanosecond part
/// (below one second, as `Duration::subsec_nanos` documents); `None` when
/// the system clock reads before the epoch. Nothing more is promised of
/// the value: it depends on the clock.
#[verifier::external_body]
pub(crate) fn now_instant() -> (r: Option<(u64, u32)>)
    ensures
        r matches Some(p) ==> p.1 < 1_000_000_000,
{
    match std::time::SystemTime::UNIX_EPOCH.elapsed() {
        Ok(d) => Some((d.as_secs(), d.subsec_nanos())),
        Err(_) => None,
    }
}

pub open spec fn timestamp_of(p: (i64, u32)) -> Timestamp {
    Timestamp { secs: p.0, nanos: p.1 }
}

/// The timestamp of a clock reading: seconds since the epoch (capped at
/// `i64::MAX`), or the epoch itself when the clock reads before it.
pub fn timestamp_from_clock(now: Option<(u64, u32)>) -> (r: Timestamp)
    ensures
        r == match now {
            Some(p) => Timestamp {
                secs: if p.0 > i64::MAX {
                    i64::MAX
                } else {
                    p.0 as i64
                },
                nanos: p.1,
            },
            None => Timestamp { secs: 0, nanos: 0 },
        },
{
    match now {
        Some(p) => {
            let secs: i64 = if p.0 > 9223372036854775807 {
                9223372036854775807
            } else {
                p.0 as i64
            };
            Timestamp { secs, nanos: p.1 }
        },
        None => Timestamp { secs: 0, nanos: 0 },
    }
}

/// The current time (see [`timestamp_from_clock`]); what it is depends on
/// the clock.
pub(crate) fn now_timestamp() -> (r: Timestamp) {
    timestamp_from_clock(now_instant())
}

/// The parsed instant of `s`, falling back to the current time when chrono
/// rejects it.
pub fn instant_or_now(s: &str) -> (r: Timestamp)
    ensures
        rfc3339_instant(s@) matches Some(p) ==> r == timestamp_of(p),
{
    match parse_instant(s) {
        Some(p) => Timestamp { secs: p.0, nanos: p.1 },
        None => now_timestamp(),
    }
}

} // verus!
