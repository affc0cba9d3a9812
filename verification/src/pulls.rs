//! Pull-request domain types: a repository reference and the projections of
//! GitHub's pull-request data that the screens display.

use vstd::prelude::*;

use crate::text::{
    char_is_ws, has_prefix, is_ws, lemma_trim_no_edge_ws, substring, to_chars, trim, trim_bounds,
    ws_end, ws_start,
};

verus! {

/// A point in time as seconds and nanoseconds since the Unix epoch (UTC).
#[derive(Debug, Clone, Copy, PartialEq, Eq)]
pub struct Timestamp {
    pub secs: i64,
    pub nanos: u32,
}

/// `owner/name` reference to a GitHub repository.
#[derive(Debug, Clone, PartialEq, Eq, Hash)]
pub struct RepoRef {
    pub owner: String,
    pub name: String,
}

/// Why a slug was rejected; each variant carries the trimmed input.
#[derive(Debug, Clone, PartialEq, Eq)]
pub enum ParseRepoRefError {
    BadShape(String),
    EmptySegment(String),
    InvalidChar(String),
}

pub open spec fn parse_error_message(e: ParseRepoRefError) -> Seq<char> {
    match e {
        ParseRepoRefError::BadShape(t) => "expected `owner/name`, got `"@ + t@ + "`"@,
        ParseRepoRefError::EmptySegment(t) => "empty owner or name in `"@ + t@ + "`"@,
        ParseRepoRefError::InvalidChar(t) => "invalid character in `"@ + t@ + "`"@,
    }
}

impl ParseRepoRefError {
    /// The error's text.
    pub fn message(&self) -> (r: String)
        ensures
            r@ == parse_error_message(*self),
    {
        let (prefix, t) = match self {
            ParseRepoRefError::BadShape(t) => ("expected `owner/name`, got `", t),
            ParseRepoRefError::EmptySegment(t) => ("empty owner or name in `", t),
            ParseRepoRefError::InvalidChar(t) => ("invalid character in `", t),
        };
        let mut s = prefix.to_owned();
        s.append(t.as_str());
        s.append("`");
        s
    }
}

/// Outcome of parsing a slug, over character sequences.
pub enum RepoParse {
    Parsed { owner: Seq<char>, name: Seq<char> },
    BadShape(Seq<char>),
    EmptySegment(Seq<char>),
    InvalidChar(Seq<char>),
}

/// Number of occurrences of `c` in `s`.
pub open spec fn count_char(s: Seq<char>, c: char) -> nat
    decreases s.len(),
{
    if s.len() == 0 {
        0
    } else {
        (if s.last() == c { 1nat } else { 0nat }) + count_char(s.drop_last(), c)
    }
}

/// Index of the first `c` in `s`, or `s.len()` when there is none.
pub open spec fn first_index(s: Seq<char>, c: char) -> int
    decreases s.len(),
{
    if s.len() == 0 {
        0
    } else if s[0] == c {
        0
    } else {
        1 + first_index(s.drop_first(), c)
    }
}

pub open spec fn is_dot_segment(x: Seq<char>) -> bool {
    x == seq!['.'] || x == seq!['.', '.']
}

pub open spec fn has_ws(x: Seq<char>) -> bool {
    exists|i: int| 0 <= i < x.len() && is_ws(#[trigger] x[i])
}

/// What `RepoRef::parse` yields for the input `s`.
///
/// The input is trimmed; it must hold exactly one `'/'`; both sides,
/// trimmed again, must be non-empty, must not be `.` or `..`, and must not
/// contain whitespace.
pub open spec fn parse_repo_ref(s: Seq<char>) -> RepoParse {
    let t = trim(s);
    if count_char(t, '/') != 1 {
        RepoParse::BadShape(t)
    } else {
        let k = first_index(t, '/');
        let owner = trim(t.take(k));
        let name = trim(t.skip(k + 1));
        if owner.len() == 0 || name.len() == 0 {
            RepoParse::EmptySegment(t)
        } else if is_dot_segment(owner) || is_dot_segment(name) {
            RepoParse::InvalidChar(t)
        } else if has_ws(owner) || has_ws(name) {
            RepoParse::InvalidChar(t)
        } else {
            RepoParse::Parsed { owner, name }
        }
    }
}

/// `owner/name`.
pub open spec fn slug_of(owner: Seq<char>, name: Seq<char>) -> Seq<char> {
    owner + seq!['/'] + name
}

/// A segment that `parse` accepts as it stands.
pub open spec fn valid_segment(x: Seq<char>) -> bool {
    &&& x.len() > 0
    &&& !is_dot_segment(x)
    &&& !has_ws(x)
    &&& count_char(x, '/') == 0
}

impl RepoRef {
    /// The parsed parts, as character sequences.
    pub open spec fn matches_parse(self, p: RepoParse) -> bool {
        p matches RepoParse::Parsed { owner, name } && self.owner@ == owner && self.name@ == name
    }

    /// Parse an `owner/name` slug. Rejects empty segments, extra or missing
    /// slashes, `.` / `..` segments and whitespace inside a segment.
    #[verifier::rlimit(30)]
    pub fn parse(s: &str) -> (r: Result<RepoRef, ParseRepoRefError>)
        ensures
            match r {
                Ok(repo) => repo.matches_parse(parse_repo_ref(s@)) && valid_segment(repo.owner@)
                    && valid_segment(repo.name@),
                Err(ParseRepoRefError::BadShape(t)) => parse_repo_ref(s@) == RepoParse::BadShape(
                    t@,
                ),
                Err(ParseRepoRefError::EmptySegment(t)) => parse_repo_ref(s@)
                    == RepoParse::EmptySegment(t@),
                Err(ParseRepoRefError::InvalidChar(t)) => parse_repo_ref(s@)
                    == RepoParse::InvalidChar(t@),
            },
    {
        proof {
            lemma_parsed_segments_valid(s@);
        }
        let cs = to_chars(s);
        let (a, b) = trim_bounds(&cs, 0, cs.len());
        let ghost t = cs@.subrange(a as int, b as int);
        proof {
            assert(cs@.subrange(0, cs.len() as int) =~= s@);
        }
        let (count, first) = scan_slashes(&cs, a, b);
        if count != 1 {
            return Err(ParseRepoRefError::BadShape(substring(&cs, a, b)));
        }
        proof {
            lemma_first_index(t, '/', (first - a) as int);
            assert(t.take((first - a) as int) =~= cs@.subrange(a as int, first as int));
            assert(t.skip((first - a) + 1) =~= cs@.subrange(first + 1, b as int));
        }
        let (oa, ob) = trim_bounds(&cs, a, first);
        let (na, nb) = trim_bounds(&cs, first + 1, b);
        let ghost owner = cs@.subrange(oa as int, ob as int);
        let ghost name = cs@.subrange(na as int, nb as int);
        if oa == ob || na == nb {
            return Err(ParseRepoRefError::EmptySegment(substring(&cs, a, b)));
        }
        if is_dot_range(&cs, oa, ob) || is_dot_range(&cs, na, nb) {
            return Err(ParseRepoRefError::InvalidChar(substring(&cs, a, b)));
        }
        if range_has_ws(&cs, oa, ob) || range_has_ws(&cs, na, nb) {
            return Err(ParseRepoRefError::InvalidChar(substring(&cs, a, b)));
        }
        Ok(RepoRef { owner: substring(&cs, oa, ob), name: substring(&cs, na, nb) })
    }

    /// The `owner/name` form of this reference.
    pub fn slug(&self) -> (r: String)
        ensures
            r@ == slug_of(self.owner@, self.name@),
    {
        let mut out = self.owner.clone();
        crate::text::push_char(&mut out, '/');
        out.append(self.name.as_str());
        out
    }

    /// Field-wise equality (what `==` on `RepoRef` compares).
    pub fn same_as(&self, other: &RepoRef) -> (r: bool)
        ensures
            r == self.same_repo(*other),
    {
        self.owner == other.owner && self.name == other.name
    }

    pub open spec fn same_repo(self, other: RepoRef) -> bool {
        self.owner@ == other.owner@ && self.name@ == other.name@
    }

    /// A copy with equal fields.
    pub fn duplicate(&self) -> (r: RepoRef)
        ensures
            r == *self,
    {
        RepoRef { owner: self.owner.clone(), name: self.name.clone() }
    }
}

pub proof fn lemma_first_index(s: Seq<char>, c: char, k: int)
    requires
        0 <= k < s.len(),
        s[k] == c,
        forall|q: int| 0 <= q < k ==> s[q] != c,
    ensures
        first_index(s, c) == k,
    decreases k,
{
    if k > 0 {
        lemma_first_index(s.drop_first(), c, k - 1);
    }
}

/// Number of `'/'` in `cs[a..b]` and the index of the first one (or `b`).
fn scan_slashes(cs: &Vec<char>, a: usize, b: usize) -> (r: (usize, usize))
    requires
        a <= b <= cs.len(),
    ensures
        r.0 as nat == count_char(cs@.subrange(a as int, b as int), '/'),
        r.0 == 0 ==> r.1 == b,
        r.0 > 0 ==> a <= r.1 < b && cs@[r.1 as int] == '/' && forall|q: int|
            a <= q < r.1 ==> cs@[q] != '/',
{
    let ghost t = cs@.subrange(a as int, b as int);
    let mut count: usize = 0;
    let mut first: usize = b;
    let mut i = a;
    while i < b
        invariant
            a <= i <= b <= cs.len(),
            t == cs@.subrange(a as int, b as int),
            count as nat == count_char(t.take((i - a) as int), '/'),
            count <= i - a,
            count == 0 ==> first == b,
            count > 0 ==> a <= first < i && cs@[first as int] == '/' && forall|q: int|
                a <= q < first ==> cs@[q] != '/',
            count == 0 ==> forall|q: int| a <= q < i ==> cs@[q] != '/',
        decreases b - i,
    {
        proof {
            assert(t.take((i + 1 - a) as int).drop_last() =~= t.take((i - a) as int));
        }
        if cs[i] == '/' {
            if count == 0 {
                first = i;
            }
            count = count + 1;
        }
        i = i + 1;
    }
    proof {
        assert(t.take((b - a) as int) =~= t);
    }
    (count, first)
}

fn is_dot_range(cs: &Vec<char>, lo: usize, hi: usize) -> (r: bool)
    requires
        lo <= hi <= cs.len(),
    ensures
        r == is_dot_segment(cs@.subrange(lo as int, hi as int)),
{
    let ghost x = cs@.subrange(lo as int, hi as int);
    assert(seq!['.'].len() == 1 && seq!['.'][0] == '.');
    assert(seq!['.', '.'].len() == 2 && seq!['.', '.'][0] == '.' && seq!['.', '.'][1] == '.');
    if hi - lo == 1 {
        let r = cs[lo] == '.';
        proof {
            if r {
                assert(x =~= seq!['.']);
            } else {
                assert(x[0] != '.');
            }
        }
        r
    } else if hi - lo == 2 {
        let r = cs[lo] == '.' && cs[lo + 1] == '.';
        proof {
            if r {
                assert(x =~= seq!['.', '.']);
            } else {
                assert(x[0] != '.' || x[1] != '.');
            }
        }
        r
    } else {
        false
    }
}

fn range_has_ws(cs: &Vec<char>, lo: usize, hi: usize) -> (r: bool)
    requires
        lo <= hi <= cs.len(),
    ensures
        r == has_ws(cs@.subrange(lo as int, hi as int)),
{
    let ghost x = cs@.subrange(lo as int, hi as int);
    let mut i = lo;
    while i < hi
        invariant
            lo <= i <= hi <= cs.len(),
            x == cs@.subrange(lo as int, hi as int),
            forall|q: int| 0 <= q < i - lo ==> !is_ws(#[trigger] x[q]),
        decreases hi - i,
    {
        if char_is_ws(cs[i]) {
            assert(is_ws(x[(i - lo) as int]));
            return true;
        }
        i = i + 1;
    }
    false
}

/// Count of `c` in a concatenation.
pub proof fn lemma_count_concat(a: Seq<char>, b: Seq<char>, c: char)
    ensures
        count_char(a + b, c) == count_char(a, c) + count_char(b, c),
    decreases b.len(),
{
    if b.len() == 0 {
        assert(a + b =~= a);
    } else {
        lemma_count_concat(a, b.drop_last(), c);
        assert((a + b).drop_last() =~= a + b.drop_last());
    }
}

/// Parsing the slug of a reference whose segments are already in parsed
/// form gives that reference back.
pub proof fn lemma_parse_slug_round_trip(owner: Seq<char>, name: Seq<char>)
    requires
        valid_segment(owner),
        valid_segment(name),
    ensures
        parse_repo_ref(slug_of(owner, name)) == (RepoParse::Parsed { owner, name }),
{
    let s = slug_of(owner, name);
    assert(!is_ws(owner[0]));
    assert(!is_ws(name[name.len() - 1]));
    assert(s[0] == owner[0]);
    assert(s[s.len() - 1] == name[name.len() - 1]);
    lemma_trim_no_edge_ws(s);
    lemma_count_concat(owner, seq!['/'], '/');
    lemma_count_concat(owner + seq!['/'], name, '/');
    assert(count_char(seq!['/'], '/') == 1) by {
        assert(seq!['/'].drop_last() =~= Seq::<char>::empty());
        reveal_with_fuel(count_char, 2);
    }
    assert forall|q: int| 0 <= q < owner.len() implies s[q] != '/' by {
        if s[q] == '/' {
            assert(owner[q] == '/');
            lemma_count_positive(owner, q, '/');
        }
    }
    lemma_first_index(s, '/', owner.len() as int);
    assert(s.take(owner.len() as int) =~= owner);
    assert(s.skip(owner.len() + 1int) =~= name);
    assert(!is_ws(owner[owner.len() - 1]));
    assert(!is_ws(name[0]));
    lemma_trim_no_edge_ws(owner);
    lemma_trim_no_edge_ws(name);
}

pub proof fn lemma_count_positive(s: Seq<char>, q: int, c: char)
    requires
        0 <= q < s.len(),
        s[q] == c,
    ensures
        count_char(s, c) > 0,
    decreases s.len(),
{
    if q < s.len() - 1 {
        lemma_count_positive(s.drop_last(), q, c);
    }
}

proof fn lemma_count_none(s: Seq<char>, c: char)
    requires
        forall|q: int| 0 <= q < s.len() ==> s[q] != c,
    ensures
        count_char(s, c) == 0,
    decreases s.len(),
{
    if s.len() > 0 {
        lemma_count_none(s.drop_last(), c);
    }
}

proof fn lemma_first_index_props(s: Seq<char>, c: char)
    ensures
        0 <= first_index(s, c) <= s.len(),
        first_index(s, c) < s.len() ==> s[first_index(s, c)] == c,
        forall|q: int| 0 <= q < first_index(s, c) ==> s[q] != c,
    decreases s.len(),
{
    if s.len() > 0 && s[0] != c {
        lemma_first_index_props(s.drop_first(), c);
        assert forall|q: int| 0 <= q < first_index(s, c) implies s[q] != c by {
            if q > 0 {
                assert(s[q] == s.drop_first()[q - 1]);
            }
        }
    }
}

proof fn lemma_ws_start_bounds(s: Seq<char>, i: int)
    requires
        0 <= i <= s.len(),
    ensures
        i <= ws_start(s, i) <= s.len(),
    decreases s.len() - i,
{
    if i < s.len() && is_ws(s[i]) {
        lemma_ws_start_bounds(s, i + 1);
    }
}

proof fn lemma_ws_end_bounds(s: Seq<char>, lo: int, j: int)
    requires
        lo <= j,
    ensures
        lo <= ws_end(s, lo, j) <= j,
    decreases j - lo,
{
    if j > lo && is_ws(s[j - 1]) {
        lemma_ws_end_bounds(s, lo, j - 1);
    }
}

/// Trimming keeps a character out when the text has none of it.
proof fn lemma_trim_keeps_out(x: Seq<char>, c: char)
    requires
        forall|q: int| 0 <= q < x.len() ==> x[q] != c,
    ensures
        count_char(trim(x), c) == 0,
{
    lemma_ws_start_bounds(x, 0);
    let a = ws_start(x, 0);
    lemma_ws_end_bounds(x, a, x.len() as int);
    let t = trim(x);
    assert forall|q: int| 0 <= q < t.len() implies t[q] != c by {
        assert(t[q] == x[a + q]);
    }
    lemma_count_none(t, c);
}

/// The segments of a parsed reference are valid segments.
pub proof fn lemma_parsed_segments_valid(s: Seq<char>)
    ensures
        parse_repo_ref(s) matches RepoParse::Parsed { owner, name } ==> valid_segment(owner)
            && valid_segment(name),
{
    if let RepoParse::Parsed { owner, name } = parse_repo_ref(s) {
        let t = trim(s);
        let k = first_index(t, '/');
        lemma_first_index_props(t, '/');
        if k == t.len() {
            lemma_count_none(t, '/');
        }
        assert(k < t.len());
        assert forall|q: int| 0 <= q < t.take(k).len() implies #[trigger] t.take(k)[q] != '/' by {
            assert(t.take(k)[q] == t[q]);
        }
        lemma_trim_keeps_out(t.take(k), '/');
        lemma_count_none(t.take(k), '/');
        assert(t =~= t.take(k) + seq!['/'] + t.skip(k + 1));
        lemma_count_concat(t.take(k), seq!['/'], '/');
        lemma_count_concat(t.take(k) + seq!['/'], t.skip(k + 1), '/');
        assert(count_char(seq!['/'], '/') == 1) by {
            assert(seq!['/'].drop_last() =~= Seq::<char>::empty());
            reveal_with_fuel(count_char, 2);
        }
        assert forall|q: int| 0 <= q < t.skip(k + 1).len() implies #[trigger] t.skip(k + 1)[q] != '/' by {
            if t.skip(k + 1)[q] == '/' {
                lemma_count_positive(t.skip(k + 1), q, '/');
            }
        }
        lemma_trim_keeps_out(t.skip(k + 1), '/');
    }
}

/// Parsing the slug of any parsed reference gives that reference back.
pub proof fn law_parsed_slug_round_trip(s: Seq<char>)
    ensures
        parse_repo_ref(s) matches RepoParse::Parsed { owner, name } ==> parse_repo_ref(
            slug_of(owner, name),
        ) == parse_repo_ref(s),
{
    lemma_parsed_segments_valid(s);
    if let RepoParse::Parsed { owner, name } = parse_repo_ref(s) {
        lemma_parse_slug_round_trip(owner, name);
    }
}

/// A pull request as it appears in the list view.
#[derive(Debug, Clone, PartialEq, Eq)]
pub struct PrSummary {
    pub number: u64,
    pub title: String,
    pub author: String,
    pub draft: bool,
    pub head_ref: String,
    pub base_ref: String,
    pub comments: u32,
    pub created_at: Timestamp,
    pub additions: u32,
    pub deletions: u32,
}

/// Open / closed / merged.
#[derive(Debug, Clone, Copy, PartialEq, Eq)]
pub enum PrState {
    Open,
    Closed,
    Merged,
}

impl PrState {
    pub fn label(self) -> (r: &'static str)
        ensures
            r@ == match self {
                PrState::Open => "OPEN"@,
                PrState::Closed => "CLOSED"@,
                PrState::Merged => "MERGED"@,
            },
    {
        match self {
            PrState::Open => "OPEN",
            PrState::Closed => "CLOSED",
            PrState::Merged => "MERGED",
        }
    }
}

/// Whether GitHub thinks the PR can be merged; `Unknown` while GitHub is
/// still computing the answer.
#[derive(Debug, Clone, Copy, PartialEq, Eq)]
pub enum Mergeable {
    Yes,
    No,
    Unknown,
}

/// Aggregated review status for a PR.
#[derive(Debug, Clone, Copy, PartialEq, Eq)]
pub enum ReviewDecision {
    Approved,
    ChangesRequested,
    ReviewRequired,
    NoDecision,
}

impl ReviewDecision {
    pub fn label(self) -> (r: &'static str)
        ensures
            r@ == match self {
                ReviewDecision::Approved => "APPROVED"@,
                ReviewDecision::ChangesRequested => "CHANGES_REQUESTED"@,
                ReviewDecision::ReviewRequired => "REVIEW_REQUIRED"@,
                ReviewDecision::NoDecision => ""@,
            },
    {
        match self {
            ReviewDecision::Approved => "APPROVED",
            ReviewDecision::ChangesRequested => "CHANGES_REQUESTED",
            ReviewDecision::ReviewRequired => "REVIEW_REQUIRED",
            ReviewDecision::NoDecision => "",
        }
    }
}

/// Compact view of a single review.
#[derive(Debug, Clone, PartialEq, Eq)]
pub struct ReviewSummary {
    pub author: String,
    pub state: ReviewState,
    pub body_excerpt: String,
    pub submitted_at: Timestamp,
}

/// Per-review state.
#[derive(Debug, Clone, Copy, PartialEq, Eq)]
pub enum ReviewState {
    Pending,
    Commented,
    Approved,
    ChangesRequested,
    Dismissed,
}

impl ReviewState {
    pub fn label(self) -> (r: &'static str)
        ensures
            r@ == match self {
                ReviewState::Pending => "PENDING"@,
                ReviewState::Commented => "COMMENTED"@,
                ReviewState::Approved => "APPROVED"@,
                ReviewState::ChangesRequested => "CHANGES_REQUESTED"@,
                ReviewState::Dismissed => "DISMISSED"@,
            },
    {
        match self {
            ReviewState::Pending => "PENDING",
            ReviewState::Commented => "COMMENTED",
            ReviewState::Approved => "APPROVED",
            ReviewState::ChangesRequested => "CHANGES_REQUESTED",
            ReviewState::Dismissed => "DISMISSED",
        }
    }
}

/// Aggregate status of CI checks for the head commit.
#[derive(Debug, Clone, Copy, PartialEq, Eq)]
pub struct ChecksSummary {
    pub state: ChecksState,
    pub passing: u32,
    pub failing: u32,
    pub pending: u32,
}

impl ChecksSummary {
    pub open spec fn total_spec(self) -> int {
        self.passing + self.failing + self.pending
    }

    pub fn total(&self) -> (r: u32)
        requires
            self.total_spec() <= u32::MAX,
        ensures
            r == self.total_spec(),
    {
        self.passing + self.failing + self.pending
    }

    /// `true` when the PR has no checks configured at all.
    pub fn is_empty(&self) -> (r: bool)
        requires
            self.total_spec() <= u32::MAX,
        ensures
            r == (self.total_spec() == 0 && self.state == ChecksState::Unknown),
    {
        self.total() == 0 && matches!(self.state, ChecksState::Unknown)
    }
}

#[derive(Debug, Clone, Copy, PartialEq, Eq)]
pub enum ChecksState {
    Success,
    Failure,
    Pending,
    Unknown,
}

/// Full PR detail.
#[derive(Debug, Clone, PartialEq, Eq)]
pub struct PrDetail {
    pub number: u64,
    pub title: String,
    pub body: String,
    pub state: PrState,
    pub draft: bool,
    pub mergeable: Mergeable,
    pub author: String,
    pub head_ref: String,
    pub base_ref: String,
    pub additions: u32,
    pub deletions: u32,
    pub review_decision: ReviewDecision,
    pub reviews: Vec<ReviewSummary>,
    pub checks: ChecksSummary,
}

/// How a file changed in a PR (REST `files[].status`).
#[derive(Debug, Clone, Copy, PartialEq, Eq)]
pub enum PatchStatus {
    Added,
    Modified,
    Removed,
    Renamed,
    Copied,
    Changed,
    Unchanged,
}

impl PatchStatus {
    pub fn label(self) -> (r: &'static str)
        ensures
            r@ == patch_status_label(self),
    {
        match self {
            PatchStatus::Added => "added",
            PatchStatus::Modified => "modified",
            PatchStatus::Removed => "removed",
            PatchStatus::Renamed => "renamed",
            PatchStatus::Copied => "copied",
            PatchStatus::Changed => "changed",
            PatchStatus::Unchanged => "unchanged",
        }
    }
}

pub open spec fn patch_status_label(s: PatchStatus) -> Seq<char> {
    match s {
        PatchStatus::Added => "added"@,
        PatchStatus::Modified => "modified"@,
        PatchStatus::Removed => "removed"@,
        PatchStatus::Renamed => "renamed"@,
        PatchStatus::Copied => "copied"@,
        PatchStatus::Changed => "changed"@,
        PatchStatus::Unchanged => "unchanged"@,
    }
}

/// One changed file of a PR with its unified-diff text.
#[derive(Debug, Clone, PartialEq, Eq)]
pub struct FilePatch {
    pub path: String,
    pub previous_path: Option<String>,
    pub status: PatchStatus,
    pub additions: u32,
    pub deletions: u32,
    /// `None` when GitHub omits the diff (too large or binary).
    pub patch: Option<String>,
    pub blob_sha: String,
}

/// One inline review comment.
#[derive(Debug, Clone, PartialEq, Eq)]
pub struct ReviewComment {
    pub author: String,
    pub body: String,
    pub created_at: Timestamp,
}

/// An inline review discussion anchored to a file line. `line` is `None`
/// for outdated threads.
#[derive(Debug, Clone, PartialEq, Eq)]
pub struct ReviewThread {
    pub path: String,
    pub line: Option<u32>,
    pub original_line: Option<u32>,
    pub comments: Vec<ReviewComment>,
}

} // verus!
