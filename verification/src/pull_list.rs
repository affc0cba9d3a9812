//! The open-PR list (REST `GET /repos/{owner}/{repo}/pulls`), one page at a
//! time, mapped onto [`PrSummary`].

use vstd::prelude::*;

use crate::api::{api_message, ApiError};
use crate::graphql::{instant_or_now, parse_instant, rfc3339_instant, timestamp_of};
use crate::pulls::{slug_of, PrSummary, RepoRef};
use crate::repo::{contains, contains_text};
use crate::text::{decimal, push_decimal};

verus! {

/// One page of open PRs.
#[derive(Debug, Clone)]
pub struct PrPage {
    pub page: u32,
    pub items: Vec<PrSummary>,
    pub has_more: bool,
}

#[derive(Debug, Clone, PartialEq, Eq)]
pub enum PullsError {
    /// The repository (by slug) does not exist or is not visible.
    NotFound(String),
    Api(ApiError),
}

pub open spec fn pulls_message(e: PullsError) -> Seq<char> {
    match e {
        PullsError::NotFound(r) => "repo `"@ + r@ + "` not found or no access"@,
        PullsError::Api(a) => "api error: "@ + api_message(a),
    }
}

impl PullsError {
    /// The error's text.
    pub fn message(&self) -> (r: String)
        ensures
            r@ == pulls_message(*self),
    {
        match self {
            PullsError::NotFound(r) => {
                let mut s = "repo `".to_owned();
                s.append(r.as_str());
                s.append("` not found or no access");
                s
            },
            PullsError::Api(a) => {
                let mut s = "api error: ".to_owned();
                let m = a.message();
                s.append(m.as_str());
                s
            },
        }
    }
}

/// A 404 names the repository; other errors pass through.
pub fn pulls_error(e: ApiError, repo: &RepoRef) -> (r: PullsError)
    ensures
        e == ApiError::NotFound ==> (r matches PullsError::NotFound(s) && s@ == slug_of(
            repo.owner@,
            repo.name@,
        )),
        e != ApiError::NotFound ==> r == PullsError::Api(e),
{
    match e {
        ApiError::NotFound => PullsError::NotFound(repo.slug()),
        other => PullsError::Api(other),
    }
}

/// Open PRs, newest first, thirty per page.
pub open spec fn page_path(owner: Seq<char>, name: Seq<char>, page: nat) -> Seq<char> {
    "/repos/"@ + owner + "/"@ + name + "/pulls?state=open&sort=created&direction=desc&per_page=30&page="@
        + decimal(page)
}

pub fn pulls_page_path(repo: &RepoRef, page: u32) -> (p: String)
    ensures
        p@ == page_path(repo.owner@, repo.name@, page as nat),
{
    let mut p = "/repos/".to_owned();
    p.append(repo.owner.as_str());
    p.append("/");
    p.append(repo.name.as_str());
    p.append("/pulls?state=open&sort=created&direction=desc&per_page=30&page=");
    push_decimal(&mut p, page as u64);
    p
}

/// A `Link` header announces another page when it has a `rel="next"` link.
pub fn has_next_link(link: &Option<String>) -> (b: bool)
    ensures
        b == (link matches Some(l) && contains(l@, "rel=\"next\""@)),
{
    match link {
        Some(l) => contains_text(l.as_str(), "rel=\"next\""),
        None => false,
    }
}

/// One element of the REST response, as decoded.
#[derive(Debug, Clone)]
pub struct RawPull {
    pub number: u64,
    pub title: Option<String>,
    pub user_login: Option<String>,
    pub draft: Option<bool>,
    pub head_ref: String,
    pub base_ref: String,
    pub comments: Option<u64>,
    pub created_at: Option<String>,
    pub additions: Option<u64>,
    pub deletions: Option<u64>,
}

/// A count as `u32`, saturating; absent counts are 0.
pub open spec fn count_of(n: Option<u64>) -> u32 {
    match n {
        Some(v) => if v > u32::MAX {
            u32::MAX
        } else {
            v as u32
        },
        None => 0,
    }
}

fn count_u32(n: Option<u64>) -> (r: u32)
    ensures
        r == count_of(n),
{
    match n {
        Some(v) => if v > 4294967295 {
            u32::MAX
        } else {
            v as u32
        },
        None => 0,
    }
}

/// `s` is the summary of `raw`: a missing title is empty, a missing user
/// `<unknown>`, a missing draft flag `false`; a missing or unparseable
/// creation time becomes the time of mapping, which nothing pins down.
pub open spec fn summary_maps(raw: RawPull, s: PrSummary) -> bool {
    &&& s.number == raw.number
    &&& s.title@ == match raw.title {
        Some(t) => t@,
        None => Seq::empty(),
    }
    &&& s.author@ == match raw.user_login {
        Some(u) => u@,
        None => "<unknown>"@,
    }
    &&& s.draft == match raw.draft {
        Some(d) => d,
        None => false,
    }
    &&& s.head_ref@ == raw.head_ref@
    &&& s.base_ref@ == raw.base_ref@
    &&& s.comments == count_of(raw.comments)
    &&& s.additions == count_of(raw.additions)
    &&& s.deletions == count_of(raw.deletions)
    &&& match raw.created_at {
        Some(c) => (rfc3339_instant(c@) matches Some(p) ==> s.created_at == timestamp_of(p)),
        None => true,
    }
}

pub fn from_rest(raw: RawPull) -> (s: PrSummary)
    ensures
        summary_maps(raw, s),
{
    let created_at = match &raw.created_at {
        Some(c) => instant_or_now(c.as_str()),
        None => crate::graphql::now_timestamp(),
    };
    PrSummary {
        number: raw.number,
        title: match raw.title {
            Some(t) => t,
            None => String::new(),
        },
        author: match raw.user_login {
            Some(u) => u,
            None => "<unknown>".to_owned(),
        },
        draft: match raw.draft {
            Some(d) => d,
            None => false,
        },
        head_ref: raw.head_ref,
        base_ref: raw.base_ref,
        comments: count_u32(raw.comments),
        created_at,
        additions: count_u32(raw.additions),
        deletions: count_u32(raw.deletions),
    }
}

/// A raw PR whose `created_at` is present but not an RFC 3339 time.
pub open spec fn bad_created_at(raw: RawPull) -> bool {
    raw.created_at matches Some(c) && rfc3339_instant(c@) is None
}

pub open spec fn created_at_message(c: Seq<char>) -> Seq<char> {
    "invalid `created_at`: "@ + c
}

/// The page of PRs a response holds. A PR whose `created_at` is present
/// but unreadable makes the whole response undecodable, and the error
/// names the first such value.
pub fn page_from_response(page: u32, raw: Vec<RawPull>, link: &Option<String>) -> (r: Result<
    PrPage,
    PullsError,
>)
    ensures
        r is Ok <==> forall|k: int| 0 <= k < raw@.len() ==> !bad_created_at(#[trigger] raw@[k]),
        r matches Ok(p) ==> p.page == page && p.has_more == (link matches Some(l) && contains(
            l@,
            "rel=\"next\""@,
        )) && p.items@.len() == raw@.len() && forall|k: int|
            0 <= k < raw@.len() ==> summary_maps(raw@[k], #[trigger] p.items@[k]),
        r matches Err(e) ==> exists|j: int|
            #![trigger raw@[j]]
            0 <= j < raw@.len() && bad_created_at(raw@[j]) && (forall|q: int|
                0 <= q < j ==> !bad_created_at(#[trigger] raw@[q])) && (e matches PullsError::Api(
                ApiError::Decode(m),
            ) && raw@[j].created_at matches Some(c) && m@ == created_at_message(c@)),
{
    let mut j: usize = 0;
    while j < raw.len()
        invariant
            j <= raw.len(),
            forall|q: int| 0 <= q < j ==> !bad_created_at(#[trigger] raw@[q]),
        decreases raw.len() - j,
    {
        if let Some(c) = &raw[j].created_at {
            if parse_instant(c.as_str()).is_none() {
                let mut m = "invalid `created_at`: ".to_owned();
                m.append(c.as_str());
                assert(bad_created_at(raw@[j as int]));
                return Err(PullsError::Api(ApiError::Decode(m)));
            }
        }
        j = j + 1;
    }
    let ghost all = raw@;
    let mut items: Vec<PrSummary> = Vec::new();
    for r in it: raw.into_iter()
        invariant
            it.seq() == all,
            items@.len() == it.index(),
            forall|k: int| 0 <= k < items@.len() ==> summary_maps(all[k], #[trigger] items@[k]),
    {
        let s = from_rest(r);
        items.push(s);
    }
    Ok(PrPage { page, items, has_more: has_next_link(link) })
}

} // verus!
