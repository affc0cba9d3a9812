//! The review-threads query: inline review comments grouped by file and
//! line, mapped onto [`ReviewThread`].

use vstd::prelude::*;

use super::{
    instant_or_now, lemma_present_step, present, present_nodes, rfc3339_instant, timestamp_of,
    to_number_var, try_u32, number_var, u32_of,
};
use crate::api::ApiError;
use crate::pulls::{slug_of, RepoRef, ReviewComment, ReviewThread};

verus! {

// ── query shapes ────────────────────────────────────────────────────────

#[derive(Debug, Clone)]
pub struct PrReviewThreadsVariables {
    pub owner: String,
    pub name: String,
    pub number: i32,
}

#[derive(Debug, Clone)]
pub struct PrReviewThreadsQuery {
    pub repository: Option<Repository>,
}

#[derive(Debug, Clone)]
pub struct Repository {
    pub pull_request: Option<PullRequest>,
}

#[derive(Debug, Clone)]
pub struct PullRequest {
    pub review_threads: PullRequestReviewThreadConnection,
}

#[derive(Debug, Clone)]
pub struct PullRequestReviewThreadConnection {
    pub nodes: Option<Vec<Option<PullRequestReviewThread>>>,
}

#[derive(Debug, Clone)]
pub struct PullRequestReviewThread {
    pub path: String,
    pub line: Option<i32>,
    pub original_line: Option<i32>,
    pub comments: PullRequestReviewCommentConnection,
}

#[derive(Debug, Clone)]
pub struct PullRequestReviewCommentConnection {
    pub nodes: Option<Vec<Option<PullRequestReviewComment>>>,
}

#[derive(Debug, Clone)]
pub struct PullRequestReviewComment {
    pub author: Option<Actor>,
    pub body: String,
    pub created_at: DateTime,
}

#[derive(Debug, Clone)]
pub struct Actor {
    pub login: String,
}

/// The `DateTime` scalar: RFC 3339 text.
#[derive(Debug, Clone)]
pub struct DateTime(pub String);

#[derive(Debug, Clone, PartialEq, Eq)]
pub enum PrReviewThreadsError {
    RepoNotFound(String),
    PrNotFound { repo: String, number: u64 },
    Api(ApiError),
}

pub open spec fn error_message(e: PrReviewThreadsError) -> Seq<char> {
    match e {
        PrReviewThreadsError::RepoNotFound(r) => "repo `"@ + r@ + "` not found"@,
        PrReviewThreadsError::PrNotFound { repo, number } => "PR #"@ + crate::text::decimal(number as nat)
            + " not found in `"@ + repo@ + "`"@,
        PrReviewThreadsError::Api(a) => "api error: "@ + crate::api::api_message(a),
    }
}

impl PrReviewThreadsError {
    /// The error's text.
    pub fn message(&self) -> (r: String)
        ensures
            r@ == error_message(*self),
    {
        match self {
            PrReviewThreadsError::RepoNotFound(r) => {
                let mut s = "repo `".to_owned();
                s.append(r.as_str());
                s.append("` not found");
                s
            },
            PrReviewThreadsError::PrNotFound { repo, number } => {
                let mut s = "PR #".to_owned();
                crate::text::push_decimal(&mut s, *number);
                s.append(" not found in `");
                s.append(repo.as_str());
                s.append("`");
                s
            },
            PrReviewThreadsError::Api(a) => {
                let mut s = "api error: ".to_owned();
                let m = a.message();
                s.append(m.as_str());
                s
            },
        }
    }
}

// ── mapping ─────────────────────────────────────────────────────────────

/// The variables for fetching the threads of PR `number` of `repo`.
pub fn pr_review_threads_variables(repo: &RepoRef, number: u64) -> (v: PrReviewThreadsVariables)
    ensures
        v.owner@ == repo.owner@,
        v.name@ == repo.name@,
        v.number == number_var(number),
{
    PrReviewThreadsVariables {
        owner: repo.owner.clone(),
        name: repo.name.clone(),
        number: to_number_var(number),
    }
}

/// `c` is what `raw` maps to: a missing author is `<ghost>`; an
/// unparseable time becomes the time of mapping, which nothing pins down.
pub open spec fn comment_maps(raw: PullRequestReviewComment, c: ReviewComment) -> bool {
    &&& c.author@ == match raw.author {
        Some(a) => a.login@,
        None => "<ghost>"@,
    }
    &&& c.body@ == raw.body@
    &&& (rfc3339_instant(raw.created_at.0@) matches Some(p) ==> c.created_at == timestamp_of(p))
}

pub fn map_comment(raw: &PullRequestReviewComment) -> (c: ReviewComment)
    ensures
        comment_maps(*raw, c),
{
    let author = match &raw.author {
        Some(a) => a.login.clone(),
        None => "<ghost>".to_owned(),
    };
    ReviewComment {
        author,
        body: raw.body.clone(),
        created_at: instant_or_now(raw.created_at.0.as_str()),
    }
}

/// An optional GraphQL `Int` line as `u32` (`None` when absent or negative).
pub open spec fn line_of(n: Option<i32>) -> Option<u32> {
    match n {
        Some(x) => u32_of(x),
        None => None,
    }
}

fn opt_line(n: Option<i32>) -> (r: Option<u32>)
    ensures
        r == line_of(n),
{
    match n {
        Some(x) => try_u32(x),
        None => None,
    }
}

/// `t` is what `raw` maps to.
pub open spec fn thread_maps(raw: PullRequestReviewThread, t: ReviewThread) -> bool {
    let cs = present_nodes(raw.comments.nodes);
    &&& t.path@ == raw.path@
    &&& t.line == line_of(raw.line)
    &&& t.original_line == line_of(raw.original_line)
    &&& t.comments@.len() == cs.len()
    &&& forall|k: int| 0 <= k < cs.len() ==> comment_maps(cs[k], #[trigger] t.comments@[k])
}

pub fn map_thread(raw: PullRequestReviewThread) -> (t: ReviewThread)
    ensures
        thread_maps(raw, t),
{
    let mut comments: Vec<ReviewComment> = Vec::new();
    match &raw.comments.nodes {
        Some(nodes) => {
            let mut i: usize = 0;
            while i < nodes.len()
                invariant
                    i <= nodes.len(),
                    comments@.len() == present(nodes@.take(i as int)).len(),
                    forall|k: int|
                        0 <= k < comments@.len() ==> comment_maps(
                            present(nodes@.take(i as int))[k],
                            #[trigger] comments@[k],
                        ),
                decreases nodes.len() - i,
            {
                proof {
                    lemma_present_step(nodes@, i as int);
                }
                match &nodes[i] {
                    Some(c) => {
                        let m = map_comment(c);
                        comments.push(m);
                    },
                    None => {},
                }
                i = i + 1;
            }
            assert(nodes@.take(nodes.len() as int) =~= nodes@);
        },
        None => {},
    }
    ReviewThread {
        path: raw.path,
        line: opt_line(raw.line),
        original_line: opt_line(raw.original_line),
        comments,
    }
}

/// The threads of a response: `RepoNotFound` / `PrNotFound` when the
/// repository or PR is missing, else one thread per present node, in order.
pub fn review_threads_from_response(
    resp: PrReviewThreadsQuery,
    repo: &RepoRef,
    number: u64,
) -> (r: Result<Vec<ReviewThread>, PrReviewThreadsError>)
    ensures
        match resp.repository {
            None => r matches Err(PrReviewThreadsError::RepoNotFound(s)) && s@ == slug_of(
                repo.owner@,
                repo.name@,
            ),
            Some(rp) => match rp.pull_request {
                None => r matches Err(PrReviewThreadsError::PrNotFound { repo: s, number: n })
                    && s@ == slug_of(repo.owner@, repo.name@) && n == number,
                Some(p) => r matches Ok(v) && {
                    let ts = present_nodes(p.review_threads.nodes);
                    &&& v@.len() == ts.len()
                    &&& forall|k: int| 0 <= k < ts.len() ==> thread_maps(ts[k], #[trigger] v@[k])
                },
            },
        },
{
    let pr = match resp.repository {
        None => return Err(PrReviewThreadsError::RepoNotFound(repo.slug())),
        Some(rp) => match rp.pull_request {
            None => return Err(PrReviewThreadsError::PrNotFound { repo: repo.slug(), number }),
            Some(p) => p,
        },
    };
    let ghost ts = present_nodes(pr.review_threads.nodes);
    let mut out: Vec<ReviewThread> = Vec::new();
    match pr.review_threads.nodes {
        Some(nodes) => {
            let ghost all = nodes@;
            for node in it: nodes.into_iter()
                invariant
                    it.seq() == all,
                    out@.len() == present(all.take(it.index() as int)).len(),
                    forall|k: int|
                        0 <= k < out@.len() ==> thread_maps(
                            present(all.take(it.index() as int))[k],
                            #[trigger] out@[k],
                        ),
            {
                proof {
                    lemma_present_step(all, it.index() as int);
                }
                match node {
                    Some(t) => {
                        let m = map_thread(t);
                        out.push(m);
                    },
                    None => {},
                }
            }
            assert(all.take(all.len() as int) =~= all);
        },
        None => {},
    }
    Ok(out)
}

} // verus!
