//! The REST and GraphQL client's decisions: URLs, response statuses,
//! rate-limit headers, the changed-files and PR-detail mappings, errors.

use gh_tui::api::{
    derive_base_url, parse_i64_text, parse_rate_limit, parse_u32_text, request_url,
    response_outcome, ApiError, GetOutcome,
};
use gh_tui::graphql::pr_detail::{
    excerpt, map_checks, map_pr, map_review, pr_detail_from_response, pr_detail_variables, Actor,
    CheckConclusionState, CheckRun, Commit, DateTime, MergeableState, PrDetailError, PrDetailQuery,
    PullRequest, PullRequestCommit, PullRequestCommitConnection, PullRequestReview,
    PullRequestReviewConnection, PullRequestReviewDecision, PullRequestReviewState,
    PullRequestState, Repository, StatusCheckRollup, StatusCheckRollupContext,
    StatusCheckRollupContextConnection, StatusContext, StatusState,
};
use gh_tui::graphql::pr_review_threads as threads_q;
use gh_tui::pr_files::{
    files_error, into_file_patch, into_file_patches, parse_status, pr_files_page_path, pr_files_path,
    PrFilesError,
    RawPrFile,
};
use gh_tui::pulls::{ChecksState, Mergeable, PatchStatus, PrState, RepoRef, ReviewDecision, ReviewState, Timestamp};
use gh_tui::pull_list::{has_next_link, page_from_response, pulls_page_path, RawPull};
use gh_tui::repo::{repo_from_gh_output, RepoResolveError};

// ── base URL ────────────────────────────────────────────────────────────

#[test]
fn base_url_for_github_com() {
    assert_eq!(derive_base_url("github.com"), "https://api.github.com/");
}

#[test]
fn base_url_for_ghe() {
    assert_eq!(derive_base_url("ghe.example.com"), "https://ghe.example.com/api/v3/");
}

#[test]
fn base_url_passes_through_explicit_scheme() {
    assert_eq!(derive_base_url("http://127.0.0.1:1234"), "http://127.0.0.1:1234/");
    assert_eq!(derive_base_url("http://127.0.0.1:1234/"), "http://127.0.0.1:1234/");
}

#[test]
fn request_urls_drop_leading_slashes() {
    assert_eq!(request_url("https://api.github.com/", "/repos/a/b"), "https://api.github.com/repos/a/b");
    assert_eq!(request_url("https://x/", "//y"), "https://x/y");
    assert_eq!(request_url("https://x/", "y"), "https://x/y");
}

// ── statuses ────────────────────────────────────────────────────────────

#[test]
fn statuses_classify_responses() {
    assert_eq!(response_outcome(304, true, "u"), GetOutcome::UseCached);
    assert_eq!(
        response_outcome(304, false, "https://x/y"),
        GetOutcome::Fail(ApiError::StaleNotModified("https://x/y".into()))
    );
    assert_eq!(response_outcome(404, true, "u"), GetOutcome::Fail(ApiError::NotFound));
    assert_eq!(response_outcome(200, false, "u"), GetOutcome::Fresh);
    assert_eq!(response_outcome(204, true, "u"), GetOutcome::Fresh);
    assert_eq!(response_outcome(500, true, "u"), GetOutcome::Fail(ApiError::Status(500)));
    assert_eq!(response_outcome(301, false, "u"), GetOutcome::Fail(ApiError::Status(301)));
}

#[test]
fn error_messages() {
    assert_eq!(ApiError::NotFound.message(), "404 Not Found");
    assert_eq!(ApiError::Status(502).message(), "server returned 502");
    assert_eq!(ApiError::StaleNotModified("u".into()).message(), "304 received but cache had no entry for u");
    assert_eq!(PrFilesError::NotFound(42).message(), "PR #42 not found or no access");
    assert_eq!(PrFilesError::Api(ApiError::Http("down".into())).message(), "api error: HTTP error: down");
    assert_eq!(PrDetailError::RepoNotFound("a/b".into()).message(), "repo `a/b` not found");
    assert_eq!(
        PrDetailError::PrNotFound { repo: "a/b".into(), number: 7 }.message(),
        "PR #7 not found in a/b"
    );
    assert_eq!(
        threads_q::PrReviewThreadsError::PrNotFound { repo: "a/b".into(), number: 7 }.message(),
        "PR #7 not found in `a/b`"
    );
}

// ── rate-limit headers ──────────────────────────────────────────────────

fn s(x: &str) -> Option<String> {
    Some(x.to_string())
}

#[test]
fn rate_limit_headers_parse() {
    let rl = parse_rate_limit(&s("4999"), &s("5000"), &s("1767225600")).unwrap();
    assert_eq!(rl.remaining, 4999);
    assert_eq!(rl.limit, 5000);
    assert_eq!(rl.reset_at, Timestamp { secs: 1767225600, nanos: 0 });
}

#[test]
fn rate_limit_missing_or_malformed_headers_give_nothing() {
    assert!(parse_rate_limit(&None, &s("5000"), &s("1")).is_none());
    assert!(parse_rate_limit(&s("x"), &s("5000"), &s("1")).is_none());
    assert!(parse_rate_limit(&s("1"), &s("-5"), &s("1")).is_none());
    assert!(parse_rate_limit(&s("1"), &s("5000"), &s("soon")).is_none());
    assert!(parse_rate_limit(&s("4294967296"), &s("5000"), &s("1")).is_none());
}

#[test]
fn integer_parsers_follow_std() {
    assert_eq!(parse_u32_text("+7"), Some(7));
    assert_eq!(parse_u32_text("0004294967295"), Some(u32::MAX));
    assert_eq!(parse_u32_text(""), None);
    assert_eq!(parse_u32_text("+"), None);
    assert_eq!(parse_u32_text(" 1"), None);
    assert_eq!(parse_i64_text("-9223372036854775808"), Some(i64::MIN));
    assert_eq!(parse_i64_text("9223372036854775807"), Some(i64::MAX));
    assert_eq!(parse_i64_text("9223372036854775808"), None);
    assert_eq!(parse_i64_text("-"), None);
    assert_eq!(parse_i64_text("-12"), Some(-12));
    for t in ["0", "17", "+3", "-0", "99999999999", "1e3", "--1"] {
        assert_eq!(parse_i64_text(t), t.parse::<i64>().ok(), "{t}");
        assert_eq!(parse_u32_text(t), t.parse::<u32>().ok(), "{t}");
    }
}

// ── changed files ───────────────────────────────────────────────────────

#[test]
fn status_parser_covers_known_values() {
    assert_eq!(parse_status("added"), PatchStatus::Added);
    assert_eq!(parse_status("modified"), PatchStatus::Modified);
    assert_eq!(parse_status("removed"), PatchStatus::Removed);
    assert_eq!(parse_status("renamed"), PatchStatus::Renamed);
    assert_eq!(parse_status("copied"), PatchStatus::Copied);
    assert_eq!(parse_status("changed"), PatchStatus::Changed);
    assert_eq!(parse_status("unchanged"), PatchStatus::Unchanged);
}

#[test]
fn status_parser_falls_back_to_modified() {
    assert_eq!(parse_status("bogus"), PatchStatus::Modified);
}

#[test]
fn empty_patch_string_normalises_to_none() {
    let raw = RawPrFile {
        sha: "abc".into(),
        filename: "f".into(),
        previous_filename: None,
        status: "modified".into(),
        additions: 0,
        deletions: 0,
        patch: Some(String::new()),
    };
    let fp = into_file_patch(raw);
    assert_eq!(fp.patch, None);
}

#[test]
fn renamed_file_keeps_its_previous_name() {
    let raw = RawPrFile {
        sha: "s".into(),
        filename: "new.rs".into(),
        previous_filename: Some("old.rs".into()),
        status: "renamed".into(),
        additions: 2,
        deletions: 1,
        patch: Some("@@ -1 +1 @@\n-a\n+b".into()),
    };
    let v = into_file_patches(vec![raw]);
    assert_eq!(v.len(), 1);
    assert_eq!(v[0].path, "new.rs");
    assert_eq!(v[0].previous_path.as_deref(), Some("old.rs"));
    assert_eq!(v[0].status, PatchStatus::Renamed);
    assert_eq!(v[0].blob_sha, "s");
    assert_eq!(v[0].patch.as_deref(), Some("@@ -1 +1 @@\n-a\n+b"));
}

#[test]
fn files_path_and_not_found() {
    let repo = RepoRef::parse("a/b").unwrap();
    assert_eq!(pr_files_path(&repo, 42), "/repos/a/b/pulls/42/files?per_page=100");
    assert_eq!(files_error(ApiError::NotFound, 9), PrFilesError::NotFound(9));
    assert_eq!(files_error(ApiError::Status(500), 9), PrFilesError::Api(ApiError::Status(500)));
}

// ── PR detail ───────────────────────────────────────────────────────────

fn pull_request() -> PullRequest {
    PullRequest {
        number: 7,
        title: "Add thing".into(),
        body: "Body".into(),
        state: PullRequestState::Merged,
        is_draft: false,
        mergeable: MergeableState::Conflicting,
        author: None,
        head_ref_name: "feat".into(),
        base_ref_name: "main".into(),
        additions: 12,
        deletions: -1,
        review_decision: Some(PullRequestReviewDecision::Approved),
        latest_reviews: Some(PullRequestReviewConnection {
            nodes: Some(vec![
                Some(PullRequestReview {
                    author: Some(Actor { login: "bob".into() }),
                    state: PullRequestReviewState::Approved,
                    body: "  nice work  ".into(),
                    submitted_at: Some(DateTime("2026-01-01T00:00:00Z".into())),
                }),
                None,
            ]),
        }),
        commits: PullRequestCommitConnection {
            nodes: Some(vec![Some(PullRequestCommit {
                commit: Commit {
                    status_check_rollup: Some(StatusCheckRollup {
                        state: StatusState::Failure,
                        contexts: StatusCheckRollupContextConnection {
                            nodes: Some(vec![
                                Some(StatusCheckRollupContext::CheckRun(CheckRun {
                                    conclusion: Some(CheckConclusionState::Success),
                                })),
                                Some(StatusCheckRollupContext::CheckRun(CheckRun {
                                    conclusion: Some(CheckConclusionState::TimedOut),
                                })),
                                Some(StatusCheckRollupContext::CheckRun(CheckRun { conclusion: None })),
                                Some(StatusCheckRollupContext::CheckRun(CheckRun {
                                    conclusion: Some(CheckConclusionState::Skipped),
                                })),
                                Some(StatusCheckRollupContext::StatusContext(StatusContext {
                                    state: StatusState::Expected,
                                })),
                                Some(StatusCheckRollupContext::Unknown),
                                None,
                            ]),
                        },
                    }),
                },
            })]),
        },
    }
}

#[test]
fn detail_maps_fields_reviews_and_checks() {
    let d = map_pr(pull_request());
    assert_eq!(d.number, 7);
    assert_eq!(d.title, "Add thing");
    assert_eq!(d.state, PrState::Merged);
    assert_eq!(d.mergeable, Mergeable::No);
    assert_eq!(d.author, "<unknown>");
    assert_eq!(d.additions, 12);
    assert_eq!(d.deletions, 0);
    assert_eq!(d.review_decision, ReviewDecision::Approved);
    assert_eq!(d.reviews.len(), 1);
    assert_eq!(d.reviews[0].author, "bob");
    assert_eq!(d.reviews[0].state, ReviewState::Approved);
    assert_eq!(d.reviews[0].body_excerpt, "nice work");
    assert_eq!(d.reviews[0].submitted_at, Timestamp { secs: 1767225600, nanos: 0 });
    assert_eq!(d.checks.state, ChecksState::Failure);
    assert_eq!((d.checks.passing, d.checks.failing, d.checks.pending), (1, 1, 2));
}

#[test]
fn checks_without_rollup_are_unknown() {
    let conn = PullRequestCommitConnection { nodes: Some(vec![None]) };
    let c = map_checks(&conn);
    assert_eq!(c.state, ChecksState::Unknown);
    assert_eq!(c.total(), 0);
}

#[test]
fn excerpts_are_trimmed_and_cut() {
    assert_eq!(excerpt("  short  ", 200), "short");
    assert_eq!(excerpt("abcdef", 3), "abc…");
    assert_eq!(excerpt("abc", 3), "abc");
    assert_eq!(excerpt("", 3), "");
    let review = PullRequestReview {
        author: None,
        state: PullRequestReviewState::Commented,
        body: "x".repeat(250),
        submitted_at: None,
    };
    let r = map_review(&review);
    assert_eq!(r.author, "<unknown>");
    assert_eq!(r.body_excerpt.chars().count(), 201);
    assert!(r.body_excerpt.ends_with('…'));
}

#[test]
fn detail_response_errors() {
    let repo = RepoRef::parse("a/b").unwrap();
    let none = PrDetailQuery { repository: None };
    assert_eq!(pr_detail_from_response(none, &repo, 7).unwrap_err(), PrDetailError::RepoNotFound("a/b".into()));
    let no_pr = PrDetailQuery { repository: Some(Repository { pull_request: None }) };
    assert_eq!(
        pr_detail_from_response(no_pr, &repo, 7).unwrap_err(),
        PrDetailError::PrNotFound { repo: "a/b".into(), number: 7 }
    );
    let ok = PrDetailQuery { repository: Some(Repository { pull_request: Some(pull_request()) }) };
    assert_eq!(pr_detail_from_response(ok, &repo, 7).unwrap().number, 7);
    let vars = pr_detail_variables(&repo, u64::MAX);
    assert_eq!(vars.number, i32::MAX);
    assert_eq!(vars.owner, "a");
}

// ── review threads ──────────────────────────────────────────────────────

fn comment(author: Option<&str>, body: &str) -> Option<threads_q::PullRequestReviewComment> {
    Some(threads_q::PullRequestReviewComment {
        author: author.map(|a| threads_q::Actor { login: a.into() }),
        body: body.into(),
        created_at: threads_q::DateTime("2026-01-01T01:00:00Z".into()),
    })
}

#[test]
fn review_threads_map_lines_and_authors() {
    let repo = RepoRef::parse("a/b").unwrap();
    let resp = threads_q::PrReviewThreadsQuery {
        repository: Some(threads_q::Repository {
            pull_request: Some(threads_q::PullRequest {
                review_threads: threads_q::PullRequestReviewThreadConnection {
                    nodes: Some(vec![
                        Some(threads_q::PullRequestReviewThread {
                            path: "src/a.rs".into(),
                            line: Some(12),
                            original_line: Some(10),
                            comments: threads_q::PullRequestReviewCommentConnection {
                                nodes: Some(vec![comment(Some("alice"), "nit"), None, comment(None, "agree")]),
                            },
                        }),
                        None,
                        Some(threads_q::PullRequestReviewThread {
                            path: "src/b.rs".into(),
                            line: None,
                            original_line: Some(-1),
                            comments: threads_q::PullRequestReviewCommentConnection { nodes: None },
                        }),
                    ]),
                },
            }),
        }),
    };
    let ts = threads_q::review_threads_from_response(resp, &repo, 7).unwrap();
    assert_eq!(ts.len(), 2);
    assert_eq!(ts[0].path, "src/a.rs");
    assert_eq!(ts[0].line, Some(12));
    assert_eq!(ts[0].comments.len(), 2);
    assert_eq!(ts[0].comments[0].author, "alice");
    assert_eq!(ts[0].comments[1].author, "<ghost>");
    assert_eq!(ts[0].comments[0].created_at, Timestamp { secs: 1767229200, nanos: 0 });
    assert_eq!(ts[1].line, None);
    assert_eq!(ts[1].original_line, None);
    assert!(ts[1].comments.is_empty());
    let missing = threads_q::PrReviewThreadsQuery { repository: None };
    assert_eq!(
        threads_q::review_threads_from_response(missing, &repo, 7).unwrap_err(),
        threads_q::PrReviewThreadsError::RepoNotFound("a/b".into())
    );
}

// ── repository from the working directory ───────────────────────────────

#[test]
fn gh_repo_view_output_is_read() {
    let ok = repo_from_gh_output(true, "exit status: 0", "cli/cli\n", "").unwrap();
    assert_eq!(ok.slug(), "cli/cli");
    assert_eq!(
        repo_from_gh_output(false, "exit status: 1", "", "no git remotes found").unwrap_err(),
        RepoResolveError::NotInRepo
    );
    assert_eq!(
        repo_from_gh_output(false, "exit status: 1", "", "  boom ").unwrap_err(),
        RepoResolveError::GhFailed("boom".into())
    );
    assert_eq!(
        repo_from_gh_output(false, "exit status: 2", "", "").unwrap_err(),
        RepoResolveError::GhFailed("exit exit status: 2".into())
    );
    assert_eq!(
        repo_from_gh_output(true, "", "not-a-slug", "").unwrap_err(),
        RepoResolveError::ParseFailed("not-a-slug".into())
    );
    assert_eq!(RepoResolveError::GhMissing.message(), "`gh` is not installed");
}

// ── PR list pages ───────────────────────────────────────────────────────

#[test]
fn next_link_drives_has_more() {
    let next = Some(r#"<https://api.github.com/repos/foo/bar/pulls?page=2>; rel="next""#.to_string());
    let prev = Some(r#"<https://api.github.com/repos/foo/bar/pulls?page=1>; rel="prev""#.to_string());
    assert!(has_next_link(&next));
    assert!(!has_next_link(&prev));
    assert!(!has_next_link(&None));
    let repo = RepoRef::parse("foo/bar").unwrap();
    assert_eq!(
        pulls_page_path(&repo, 2),
        "/repos/foo/bar/pulls?state=open&sort=created&direction=desc&per_page=30&page=2"
    );
    let raw = RawPull {
        number: 9,
        title: None,
        user_login: None,
        draft: None,
        head_ref: "h".into(),
        base_ref: "b".into(),
        comments: Some(5_000_000_000),
        created_at: Some("2026-01-01T00:00:00Z".into()),
        additions: Some(3),
        deletions: None,
    };
    let mut bad = raw.clone();
    bad.created_at = Some("yesterday".into());
    let err = page_from_response(1, vec![raw.clone(), bad], &next).unwrap_err();
    assert_eq!(err.message(), "api error: decode error: invalid `created_at`: yesterday");
    let p = page_from_response(1, vec![raw], &next).unwrap();
    assert_eq!(p.page, 1);
    assert!(p.has_more);
    assert_eq!(p.items[0].title, "");
    assert_eq!(p.items[0].author, "<unknown>");
    assert_eq!(p.items[0].comments, u32::MAX);
    assert_eq!(p.items[0].additions, 3);
    assert_eq!(p.items[0].deletions, 0);
    assert_eq!(p.items[0].created_at, Timestamp { secs: 1767225600, nanos: 0 });
}

#[test]
fn files_pages_are_numbered_after_the_page_size() {
    let repo = RepoRef::parse("foo/bar").unwrap();
    assert_eq!(pr_files_page_path(&repo, 3, 1), "/repos/foo/bar/pulls/3/files?per_page=100&page=1");
    assert_eq!(pr_files_page_path(&repo, 3, 2), "/repos/foo/bar/pulls/3/files?per_page=100&page=2");
}

#[test]
fn parsed_references_round_trip_through_their_slug() {
    for s in ["a/b", "  cli/cli  ", "owner / name"] {
        let r = RepoRef::parse(s).unwrap();
        assert_eq!(RepoRef::parse(&r.slug()).unwrap(), r);
    }
}

#[test]
fn rate_limit_reset_must_be_a_chrono_date() {
    let s = |x: &str| Some(x.to_string());
    let last = parse_rate_limit(&s("1"), &s("5000"), &s("8210266876799")).unwrap();
    assert_eq!(last.reset_at, Timestamp { secs: 8210266876799, nanos: 0 });
    assert!(parse_rate_limit(&s("1"), &s("5000"), &s("8210266876800")).is_none());
    assert!(parse_rate_limit(&s("1"), &s("5000"), &s("-8334601228800")).is_some());
    assert!(parse_rate_limit(&s("1"), &s("5000"), &s("-8334601228801")).is_none());
}
