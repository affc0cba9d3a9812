//! The PR detail query: one round-trip for the metadata the detail screen
//! needs, mapped onto [`PrDetail`].

use vstd::prelude::*;

use super::{
    instant_or_now, lemma_present_step, present, present_nodes, rfc3339_instant, timestamp_of,
    to_number_var, to_u64_or_zero, nonneg_u64, number_var,
};
use crate::api::ApiError;
use crate::pulls::{
    slug_of, ChecksState, ChecksSummary, Mergeable, PrDetail, PrState, RepoRef, ReviewDecision,
    ReviewState, ReviewSummary,
};
use crate::text::{substring, to_chars, trim, trim_bounds, push_char};

verus! {

// ── query shapes ────────────────────────────────────────────────────────

/// Variables of the query.
#[derive(Debug, Clone)]
pub struct PrDetailVariables {
    pub owner: String,
    pub name: String,
    pub number: i32,
}

#[derive(Debug, Clone)]
pub struct PrDetailQuery {
    pub repository: Option<Repository>,
}

#[derive(Debug, Clone)]
pub struct Repository {
    pub pull_request: Option<PullRequest>,
}

#[derive(Debug, Clone)]
pub struct PullRequest {
    pub number: i32,
    pub title: String,
    pub body: String,
    pub state: PullRequestState,
    pub is_draft: bool,
    pub mergeable: MergeableState,
    pub author: Option<Actor>,
    pub head_ref_name: String,
    pub base_ref_name: String,
    pub additions: i32,
    pub deletions: i32,
    pub review_decision: Option<PullRequestReviewDecision>,
    pub latest_reviews: Option<PullRequestReviewConnection>,
    pub commits: PullRequestCommitConnection,
}

#[derive(Debug, Clone)]
pub struct Actor {
    pub login: String,
}

#[derive(Debug, Clone, Copy, PartialEq, Eq)]
pub enum PullRequestState {
    Open,
    Closed,
    Merged,
}

#[derive(Debug, Clone, Copy, PartialEq, Eq)]
pub enum MergeableState {
    Mergeable,
    Conflicting,
    Unknown,
}

#[derive(Debug, Clone, Copy, PartialEq, Eq)]
pub enum PullRequestReviewDecision {
    Approved,
    ChangesRequested,
    ReviewRequired,
}

#[derive(Debug, Clone)]
pub struct PullRequestReviewConnection {
    pub nodes: Option<Vec<Option<PullRequestReview>>>,
}

#[derive(Debug, Clone)]
pub struct PullRequestReview {
    pub author: Option<Actor>,
    pub state: PullRequestReviewState,
    pub body: String,
    pub submitted_at: Option<DateTime>,
}

#[derive(Debug, Clone, Copy, PartialEq, Eq)]
pub enum PullRequestReviewState {
    Pending,
    Commented,
    Approved,
    ChangesRequested,
    Dismissed,
}

#[derive(Debug, Clone)]
pub struct PullRequestCommitConnection {
    pub nodes: Option<Vec<Option<PullRequestCommit>>>,
}

#[derive(Debug, Clone)]
pub struct PullRequestCommit {
    pub commit: Commit,
}

#[derive(Debug, Clone)]
pub struct Commit {
    pub status_check_rollup: Option<StatusCheckRollup>,
}

#[derive(Debug, Clone)]
pub struct StatusCheckRollup {
    pub state: StatusState,
    pub contexts: StatusCheckRollupContextConnection,
}

#[derive(Debug, Clone, Copy, PartialEq, Eq)]
pub enum StatusState {
    Expected,
    Error,
    Failure,
    Pending,
    Success,
}

#[derive(Debug, Clone)]
pub struct StatusCheckRollupContextConnection {
    pub nodes: Option<Vec<Option<StatusCheckRollupContext>>>,
}

/// A check of the rollup: a check run, a commit status, or a type this
/// client does not know.
#[derive(Debug, Clone, Copy, PartialEq, Eq)]
pub enum StatusCheckRollupContext {
    CheckRun(CheckRun),
    StatusContext(StatusContext),
    Unknown,
}

#[derive(Debug, Clone, Copy, PartialEq, Eq)]
pub struct CheckRun {
    pub conclusion: Option<CheckConclusionState>,
}

#[derive(Debug, Clone, Copy, PartialEq, Eq)]
pub enum CheckConclusionState {
    ActionRequired,
    TimedOut,
    Cancelled,
    Failure,
    Success,
    Neutral,
    Skipped,
    Stale,
    StartupFailure,
}

#[derive(Debug, Clone, Copy, PartialEq, Eq)]
pub struct StatusContext {
    pub state: StatusState,
}

/// The `DateTime` scalar: RFC 3339 text.
#[derive(Debug, Clone)]
pub struct DateTime(pub String);

// ── errors ──────────────────────────────────────────────────────────────

#[derive(Debug, Clone, PartialEq, Eq)]
pub enum PrDetailError {
    /// The repository (by slug) does not exist or is not visible.
    RepoNotFound(String),
    /// The repository has no PR with this number.
    PrNotFound { repo: String, number: u64 },
    Api(ApiError),
}

pub open spec fn error_message(e: PrDetailError) -> Seq<char> {
    match e {
        PrDetailError::RepoNotFound(r) => "repo `"@ + r@ + "` not found"@,
        PrDetailError::PrNotFound { repo, number } => "PR #"@ + crate::text::decimal(number as nat)
            + " not found in "@ + repo@,
        PrDetailError::Api(a) => "api error: "@ + crate::api::api_message(a),
    }
}

impl PrDetailError {
    /// The error's text.
    pub fn message(&self) -> (r: String)
        ensures
            r@ == error_message(*self),
    {
        match self {
            PrDetailError::RepoNotFound(r) => {
                let mut s = "repo `".to_owned();
                s.append(r.as_str());
                s.append("` not found");
                s
            },
            PrDetailError::PrNotFound { repo, number } => {
                let mut s = "PR #".to_owned();
                crate::text::push_decimal(&mut s, *number);
                s.append(" not found in ");
                s.append(repo.as_str());
                s
            },
            PrDetailError::Api(a) => {
                let mut s = "api error: ".to_owned();
                let m = a.message();
                s.append(m.as_str());
                s
            },
        }
    }
}

// ── mapping ─────────────────────────────────────────────────────────────

/// The variables for fetching PR `number` of `repo` (the number saturates
/// at `i32::MAX`).
pub fn pr_detail_variables(repo: &RepoRef, number: u64) -> (v: PrDetailVariables)
    ensures
        v.owner@ == repo.owner@,
        v.name@ == repo.name@,
        v.number == number_var(number),
{
    PrDetailVariables {
        owner: repo.owner.clone(),
        name: repo.name.clone(),
        number: to_number_var(number),
    }
}

pub open spec fn login_or(a: Option<Actor>, fallback: Seq<char>) -> Seq<char> {
    match a {
        Some(x) => x.login@,
        None => fallback,
    }
}

fn login_or_unknown(a: &Option<Actor>) -> (r: String)
    ensures
        r@ == login_or(*a, "<unknown>"@),
{
    match a {
        Some(x) => x.login.clone(),
        None => "<unknown>".to_owned(),
    }
}

/// `s` trimmed, cut to `max` characters with a trailing `…` when longer.
pub open spec fn excerpt_of(s: Seq<char>, max: nat) -> Seq<char> {
    let t = trim(s);
    if t.len() <= max {
        t
    } else {
        t.take(max as int).push('…')
    }
}

/// At most `max` characters of trimmed `s`, with `…` when it was cut.
pub fn excerpt(s: &str, max: usize) -> (r: String)
    ensures
        r@ == excerpt_of(s@, max as nat),
{
    let cs = to_chars(s);
    assert(cs@.subrange(0, cs.len() as int) =~= s@);
    let (a, b) = trim_bounds(&cs, 0, cs.len());
    if b - a <= max {
        substring(&cs, a, b)
    } else {
        let mut out = substring(&cs, a, a + max);
        assert(cs@.subrange(a as int, (a + max) as int) =~= cs@.subrange(a as int, b as int).take(
            max as int,
        ));
        push_char(&mut out, '…');
        out
    }
}

pub open spec fn review_state_of(s: PullRequestReviewState) -> ReviewState {
    match s {
        PullRequestReviewState::Pending => ReviewState::Pending,
        PullRequestReviewState::Commented => ReviewState::Commented,
        PullRequestReviewState::Approved => ReviewState::Approved,
        PullRequestReviewState::ChangesRequested => ReviewState::ChangesRequested,
        PullRequestReviewState::Dismissed => ReviewState::Dismissed,
    }
}

/// The instant a review was submitted, when present and parseable.
pub open spec fn submitted_instant(r: PullRequestReview) -> Option<(i64, u32)> {
    match r.submitted_at {
        Some(d) => rfc3339_instant(d.0@),
        None => None,
    }
}

/// `s` is what `r` maps to. A missing or unparseable submission time
/// becomes the time of mapping, which nothing here pins down.
pub open spec fn review_maps(r: PullRequestReview, s: ReviewSummary) -> bool {
    &&& s.author@ == login_or(r.author, "<unknown>"@)
    &&& s.state == review_state_of(r.state)
    &&& s.body_excerpt@ == excerpt_of(r.body@, 200)
    &&& (submitted_instant(r) matches Some(p) ==> s.submitted_at == timestamp_of(p))
}

pub fn map_review(r: &PullRequestReview) -> (s: ReviewSummary)
    ensures
        review_maps(*r, s),
{
    let state = match r.state {
        PullRequestReviewState::Pending => ReviewState::Pending,
        PullRequestReviewState::Commented => ReviewState::Commented,
        PullRequestReviewState::Approved => ReviewState::Approved,
        PullRequestReviewState::ChangesRequested => ReviewState::ChangesRequested,
        PullRequestReviewState::Dismissed => ReviewState::Dismissed,
    };
    let submitted_at = match &r.submitted_at {
        Some(d) => instant_or_now(d.0.as_str()),
        None => super::now_timestamp(),
    };
    ReviewSummary {
        author: login_or_unknown(&r.author),
        state,
        body_excerpt: excerpt(r.body.as_str(), 200),
        submitted_at,
    }
}

/// The reviews of a (nullable) review connection.
pub open spec fn reviews_of(c: Option<PullRequestReviewConnection>) -> Seq<PullRequestReview> {
    match c {
        Some(conn) => present_nodes(conn.nodes),
        None => Seq::empty(),
    }
}

/// One summary per present review, in order.
pub fn map_reviews(conn: &Option<PullRequestReviewConnection>) -> (v: Vec<ReviewSummary>)
    ensures
        v@.len() == reviews_of(*conn).len(),
        forall|k: int| 0 <= k < v@.len() ==> review_maps(reviews_of(*conn)[k], #[trigger] v@[k]),
{
    let mut out: Vec<ReviewSummary> = Vec::new();
    let c = match conn {
        Some(c) => c,
        None => return out,
    };
    let nodes = match &c.nodes {
        Some(n) => n,
        None => return out,
    };
    let mut i: usize = 0;
    while i < nodes.len()
        invariant
            i <= nodes.len(),
            reviews_of(*conn) == present(nodes@),
            out@.len() == present(nodes@.take(i as int)).len(),
            forall|k: int|
                0 <= k < out@.len() ==> review_maps(
                    present(nodes@.take(i as int))[k],
                    #[trigger] out@[k],
                ),
        decreases nodes.len() - i,
    {
        proof {
            lemma_present_step(nodes@, i as int);
        }
        match &nodes[i] {
            Some(r) => {
                let s = map_review(r);
                out.push(s);
            },
            None => {},
        }
        i = i + 1;
    }
    assert(nodes@.take(nodes.len() as int) =~= nodes@);
    out
}

// ── checks ──────────────────────────────────────────────────────────────

/// Which counter a check adds to.
pub enum Bucket {
    Passing,
    Failing,
    Pending,
    Uncounted,
}

/// Successful and neutral runs pass; failed, timed-out, cancelled,
/// action-required and startup-failure runs fail; runs without a
/// conclusion are pending; skipped and stale runs and unknown context
/// types count nowhere. Commit statuses count by their state.
pub open spec fn bucket_of(c: StatusCheckRollupContext) -> Bucket {
    match c {
        StatusCheckRollupContext::CheckRun(cr) => match cr.conclusion {
            Some(CheckConclusionState::Success) | Some(CheckConclusionState::Neutral) => Bucket::Passing,
            Some(CheckConclusionState::Failure) | Some(CheckConclusionState::TimedOut) | Some(
                CheckConclusionState::Cancelled,
            ) | Some(CheckConclusionState::ActionRequired) | Some(
                CheckConclusionState::StartupFailure,
            ) => Bucket::Failing,
            Some(CheckConclusionState::Skipped) | Some(CheckConclusionState::Stale) => Bucket::Uncounted,
            None => Bucket::Pending,
        },
        StatusCheckRollupContext::StatusContext(sc) => match sc.state {
            StatusState::Success => Bucket::Passing,
            StatusState::Failure | StatusState::Error => Bucket::Failing,
            StatusState::Pending | StatusState::Expected => Bucket::Pending,
        },
        StatusCheckRollupContext::Unknown => Bucket::Uncounted,
    }
}

/// How many of `s` fall into bucket `b`.
pub open spec fn count_bucket(s: Seq<StatusCheckRollupContext>, b: Bucket) -> nat
    decreases s.len(),
{
    if s.len() == 0 {
        0
    } else {
        count_bucket(s.drop_last(), b) + if bucket_of(s.last()) == b {
            1nat
        } else {
            0nat
        }
    }
}

/// A check run concluded FAILURE, TIMED_OUT, CANCELLED, ACTION_REQUIRED or
/// STARTUP_FAILURE, or a commit status in state FAILURE or ERROR.
pub open spec fn check_failed(c: StatusCheckRollupContext) -> bool {
    match c {
        StatusCheckRollupContext::CheckRun(cr) => {
            ||| cr.conclusion == Some(CheckConclusionState::Failure)
            ||| cr.conclusion == Some(CheckConclusionState::TimedOut)
            ||| cr.conclusion == Some(CheckConclusionState::Cancelled)
            ||| cr.conclusion == Some(CheckConclusionState::ActionRequired)
            ||| cr.conclusion == Some(CheckConclusionState::StartupFailure)
        },
        StatusCheckRollupContext::StatusContext(sc) => sc.state == StatusState::Failure || sc.state
            == StatusState::Error,
        StatusCheckRollupContext::Unknown => false,
    }
}

/// A check run concluded SUCCESS or NEUTRAL, or a commit status in state
/// SUCCESS.
pub open spec fn check_passed(c: StatusCheckRollupContext) -> bool {
    match c {
        StatusCheckRollupContext::CheckRun(cr) => cr.conclusion == Some(CheckConclusionState::Success)
            || cr.conclusion == Some(CheckConclusionState::Neutral),
        StatusCheckRollupContext::StatusContext(sc) => sc.state == StatusState::Success,
        StatusCheckRollupContext::Unknown => false,
    }
}

/// A check run without a conclusion yet, or a commit status in state
/// PENDING or EXPECTED.
pub open spec fn check_waiting(c: StatusCheckRollupContext) -> bool {
    match c {
        StatusCheckRollupContext::CheckRun(cr) => cr.conclusion is None,
        StatusCheckRollupContext::StatusContext(sc) => sc.state == StatusState::Pending || sc.state
            == StatusState::Expected,
        StatusCheckRollupContext::Unknown => false,
    }
}

pub open spec fn failed_checks() -> spec_fn(StatusCheckRollupContext) -> bool {
    |c: StatusCheckRollupContext| check_failed(c)
}

pub open spec fn passed_checks() -> spec_fn(StatusCheckRollupContext) -> bool {
    |c: StatusCheckRollupContext| check_passed(c)
}

pub open spec fn waiting_checks() -> spec_fn(StatusCheckRollupContext) -> bool {
    |c: StatusCheckRollupContext| check_waiting(c)
}

/// Each counter counts exactly the checks whose outcome it names:
/// `failing` the failed runs and statuses, `passing` the successful and
/// neutral ones, `pending` those still waiting; a failed run never adds
/// to `passing`.
pub proof fn law_checks_counted_by_outcome(s: Seq<StatusCheckRollupContext>)
    ensures
        count_bucket(s, Bucket::Failing) == s.filter(failed_checks()).len(),
        count_bucket(s, Bucket::Passing) == s.filter(passed_checks()).len(),
        count_bucket(s, Bucket::Pending) == s.filter(waiting_checks()).len(),
    decreases s.len(),
{
    reveal(Seq::filter);
    if s.len() > 0 {
        law_checks_counted_by_outcome(s.drop_last());
        let c = s.last();
        assert((bucket_of(c) == Bucket::Failing) == failed_checks()(c));
        assert((bucket_of(c) == Bucket::Passing) == passed_checks()(c));
        assert((bucket_of(c) == Bucket::Pending) == waiting_checks()(c));

    }
}

/// Overall state of the rollup.
pub open spec fn rollup_state(s: StatusState) -> ChecksState {
    match s {
        StatusState::Success => ChecksState::Success,
        StatusState::Failure | StatusState::Error => ChecksState::Failure,
        StatusState::Pending | StatusState::Expected => ChecksState::Pending,
    }
}

/// The rollup of the first present commit node (the query asks for the
/// head commit only).
pub open spec fn first_rollup(conn: PullRequestCommitConnection) -> Option<StatusCheckRollup> {
    let commits = present_nodes(conn.nodes);
    if commits.len() == 0 {
        None
    } else {
        commits[0].commit.status_check_rollup
    }
}

/// The contexts list of the first rollup is short enough to count in `u32`.
pub open spec fn checks_fit(conn: PullRequestCommitConnection) -> bool {
    first_rollup(conn) matches Some(r) ==> (r.contexts.nodes matches Some(v) ==> v.len()
        <= u32::MAX)
}

/// Summary of the checks on the head commit: `Unknown` with zero counts
/// when there is no rollup, else the rollup's state and the count of
/// each bucket.
pub fn map_checks(conn: &PullRequestCommitConnection) -> (r: ChecksSummary)
    requires
        checks_fit(*conn),
    ensures
        match first_rollup(*conn) {
            None => r == ChecksSummary {
                state: ChecksState::Unknown,
                passing: 0,
                failing: 0,
                pending: 0,
            },
            Some(ru) => {
                let cs = present_nodes(ru.contexts.nodes);
                &&& r.state == rollup_state(ru.state)
                &&& r.passing == count_bucket(cs, Bucket::Passing)
                &&& r.failing == count_bucket(cs, Bucket::Failing)
                &&& r.pending == count_bucket(cs, Bucket::Pending)
                &&& r.failing == cs.filter(failed_checks()).len()
                &&& r.passing == cs.filter(passed_checks()).len()
                &&& r.pending == cs.filter(waiting_checks()).len()
            },
        },
{
    let unknown = ChecksSummary { state: ChecksState::Unknown, passing: 0, failing: 0, pending: 0 };
    let commits = match &conn.nodes {
        Some(n) => n,
        None => return unknown,
    };
    // The first present commit node.
    let mut i: usize = 0;
    while i < commits.len() && commits[i].is_none()
        invariant
            i <= commits.len(),
            present(commits@.take(i as int)).len() == 0,
        decreases commits.len() - i,
    {
        proof {
            lemma_present_step(commits@, i as int);
        }
        i = i + 1;
    }
    if i == commits.len() {
        assert(commits@.take(i as int) =~= commits@);
        return unknown;
    }
    proof {
        lemma_first_present(commits@, i as int);
    }
    let rollup = match &commits[i] {
        Some(c) => match &c.commit.status_check_rollup {
            Some(ru) => ru,
            None => return unknown,
        },
        None => return unknown,
    };
    let state = match rollup.state {
        StatusState::Success => ChecksState::Success,
        StatusState::Failure | StatusState::Error => ChecksState::Failure,
        StatusState::Pending | StatusState::Expected => ChecksState::Pending,
    };
    proof {
        law_checks_counted_by_outcome(present_nodes(rollup.contexts.nodes));
    }
    let ctxs = match &rollup.contexts.nodes {
        Some(n) => n,
        None => return ChecksSummary { state, passing: 0, failing: 0, pending: 0 },
    };
    let mut passing: u32 = 0;
    let mut failing: u32 = 0;
    let mut pending: u32 = 0;
    let mut k: usize = 0;
    while k < ctxs.len()
        invariant
            k <= ctxs.len() <= u32::MAX,
            passing == count_bucket(present(ctxs@.take(k as int)), Bucket::Passing),
            failing == count_bucket(present(ctxs@.take(k as int)), Bucket::Failing),
            pending == count_bucket(present(ctxs@.take(k as int)), Bucket::Pending),
            passing + failing + pending <= k,
        decreases ctxs.len() - k,
    {
        proof {
            lemma_present_step(ctxs@, k as int);
            let prev = present(ctxs@.take(k as int));
            if let Some(c) = ctxs@[k as int] {
                assert(prev.push(c).drop_last() =~= prev);
                assert(prev.push(c).last() == c);
            }
        }
        match &ctxs[k] {
            Some(ctx) => match ctx {
                StatusCheckRollupContext::CheckRun(cr) => match cr.conclusion {
                    Some(CheckConclusionState::Success) | Some(CheckConclusionState::Neutral) => {
                        passing = passing + 1;
                    },
                    Some(CheckConclusionState::Failure) | Some(CheckConclusionState::TimedOut) | Some(
                        CheckConclusionState::Cancelled,
                    ) | Some(CheckConclusionState::ActionRequired) | Some(
                        CheckConclusionState::StartupFailure,
                    ) => {
                        failing = failing + 1;
                    },
                    Some(CheckConclusionState::Skipped) | Some(CheckConclusionState::Stale) => {},
                    None => {
                        pending = pending + 1;
                    },
                },
                StatusCheckRollupContext::StatusContext(sc) => match sc.state {
                    StatusState::Success => {
                        passing = passing + 1;
                    },
                    StatusState::Failure | StatusState::Error => {
                        failing = failing + 1;
                    },
                    StatusState::Pending | StatusState::Expected => {
                        pending = pending + 1;
                    },
                },
                StatusCheckRollupContext::Unknown => {},
            },
            None => {},
        }
        k = k + 1;
    }
    assert(ctxs@.take(ctxs.len() as int) =~= ctxs@);
    ChecksSummary { state, passing, failing, pending }
}

/// When `s[..i]` holds no present item and `s[i]` is present, `s[i]` is
/// the first present item.
proof fn lemma_first_present<T>(s: Seq<Option<T>>, i: int)
    requires
        0 <= i < s.len(),
        present(s.take(i)).len() == 0,
        s[i] is Some,
    ensures
        present(s).len() > 0,
        present(s)[0] == s[i]->0,
    decreases s.len(),
{
    if i == s.len() - 1 {
        assert(s.take(i) =~= s.drop_last());
    } else {
        assert(s.drop_last().take(i) =~= s.take(i));
        lemma_first_present(s.drop_last(), i);
    }
}

// ── the whole detail ────────────────────────────────────────────────────

pub open spec fn pr_state_of(s: PullRequestState) -> PrState {
    match s {
        PullRequestState::Open => PrState::Open,
        PullRequestState::Closed => PrState::Closed,
        PullRequestState::Merged => PrState::Merged,
    }
}

pub open spec fn mergeable_of(s: MergeableState) -> Mergeable {
    match s {
        MergeableState::Mergeable => Mergeable::Yes,
        MergeableState::Conflicting => Mergeable::No,
        MergeableState::Unknown => Mergeable::Unknown,
    }
}

pub open spec fn decision_of(d: Option<PullRequestReviewDecision>) -> ReviewDecision {
    match d {
        Some(PullRequestReviewDecision::Approved) => ReviewDecision::Approved,
        Some(PullRequestReviewDecision::ChangesRequested) => ReviewDecision::ChangesRequested,
        Some(PullRequestReviewDecision::ReviewRequired) => ReviewDecision::ReviewRequired,
        None => ReviewDecision::NoDecision,
    }
}

/// A GraphQL `Int` count as `u32`, 0 for negatives.
pub open spec fn count_of(n: i32) -> u32 {
    if n >= 0 {
        n as u32
    } else {
        0
    }
}

/// `d` is the detail `p` maps to.
pub open spec fn detail_maps(p: PullRequest, d: PrDetail) -> bool {
    &&& d.number == nonneg_u64(p.number)
    &&& d.title@ == p.title@
    &&& d.body@ == p.body@
    &&& d.state == pr_state_of(p.state)
    &&& d.draft == p.is_draft
    &&& d.mergeable == mergeable_of(p.mergeable)
    &&& d.author@ == login_or(p.author, "<unknown>"@)
    &&& d.head_ref@ == p.head_ref_name@
    &&& d.base_ref@ == p.base_ref_name@
    &&& d.additions == count_of(p.additions)
    &&& d.deletions == count_of(p.deletions)
    &&& d.review_decision == decision_of(p.review_decision)
    &&& d.reviews@.len() == reviews_of(p.latest_reviews).len()
    &&& forall|k: int|
        0 <= k < d.reviews@.len() ==> review_maps(reviews_of(p.latest_reviews)[k], #[trigger] d.reviews@[k])
    &&& match first_rollup(p.commits) {
        None => d.checks == ChecksSummary {
            state: ChecksState::Unknown,
            passing: 0,
            failing: 0,
            pending: 0,
        },
        Some(ru) => {
            let cs = present_nodes(ru.contexts.nodes);
            &&& d.checks.state == rollup_state(ru.state)
            &&& d.checks.passing == count_bucket(cs, Bucket::Passing)
            &&& d.checks.failing == count_bucket(cs, Bucket::Failing)
            &&& d.checks.pending == count_bucket(cs, Bucket::Pending)
        },
    }
}

fn count_u32(n: i32) -> (r: u32)
    ensures
        r == count_of(n),
{
    if n >= 0 {
        n as u32
    } else {
        0
    }
}

/// The core model's view of a PR.
pub fn map_pr(p: PullRequest) -> (d: PrDetail)
    requires
        checks_fit(p.commits),
    ensures
        detail_maps(p, d),
{
    let reviews = map_reviews(&p.latest_reviews);
    let checks = map_checks(&p.commits);
    let author = login_or_unknown(&p.author);
    PrDetail {
        number: to_u64_or_zero(p.number),
        title: p.title,
        body: p.body,
        state: match p.state {
            PullRequestState::Open => PrState::Open,
            PullRequestState::Closed => PrState::Closed,
            PullRequestState::Merged => PrState::Merged,
        },
        draft: p.is_draft,
        mergeable: match p.mergeable {
            MergeableState::Mergeable => Mergeable::Yes,
            MergeableState::Conflicting => Mergeable::No,
            MergeableState::Unknown => Mergeable::Unknown,
        },
        author,
        head_ref: p.head_ref_name,
        base_ref: p.base_ref_name,
        additions: count_u32(p.additions),
        deletions: count_u32(p.deletions),
        review_decision: match p.review_decision {
            Some(PullRequestReviewDecision::Approved) => ReviewDecision::Approved,
            Some(PullRequestReviewDecision::ChangesRequested) => ReviewDecision::ChangesRequested,
            Some(PullRequestReviewDecision::ReviewRequired) => ReviewDecision::ReviewRequired,
            None => ReviewDecision::NoDecision,
        },
        reviews,
        checks,
    }
}

/// The result of the query for PR `number` of `repo`: `RepoNotFound` when
/// the repository is missing, `PrNotFound` when the PR is, else the mapped
/// detail.
pub fn pr_detail_from_response(resp: PrDetailQuery, repo: &RepoRef, number: u64) -> (r: Result<
    PrDetail,
    PrDetailError,
>)
    requires
        resp.repository matches Some(rp) ==> (rp.pull_request matches Some(p) ==> checks_fit(
            p.commits,
        )),
    ensures
        match resp.repository {
            None => r matches Err(PrDetailError::RepoNotFound(s)) && s@ == slug_of(
                repo.owner@,
                repo.name@,
            ),
            Some(rp) => match rp.pull_request {
                None => r matches Err(PrDetailError::PrNotFound { repo: s, number: n }) && s@
                    == slug_of(repo.owner@, repo.name@) && n == number,
                Some(p) => r matches Ok(d) && detail_maps(p, d),
            },
        },
{
    match resp.repository {
        None => Err(PrDetailError::RepoNotFound(repo.slug())),
        Some(rp) => match rp.pull_request {
            None => Err(PrDetailError::PrNotFound { repo: repo.slug(), number }),
            Some(p) => Ok(map_pr(p)),
        },
    }
}

} // verus!
