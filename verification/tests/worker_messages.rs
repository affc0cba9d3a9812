//! The messages finished background work turns into.

use gh_tui::auth::AuthOutcome;
use gh_tui::markdown::{render_chunks, BodyChunk};
use gh_tui::msg::Msg;
use gh_tui::pulls::{
    ChecksState, ChecksSummary, FilePatch, Mergeable, PatchStatus, PrDetail, PrState, RepoRef,
    ReviewComment, ReviewDecision, ReviewThread, Timestamp,
};
use gh_tui::repo::RepoResolveError;
use gh_tui::workers::{auth_message, body_layout, detail_message, diff_message, fits_layout, repo_message};

fn detail() -> PrDetail {
    PrDetail {
        number: 3,
        title: "t".into(),
        body: "b".into(),
        state: PrState::Open,
        draft: false,
        mergeable: Mergeable::Unknown,
        author: "a".into(),
        head_ref: "h".into(),
        base_ref: "m".into(),
        additions: 0,
        deletions: 0,
        review_decision: ReviewDecision::NoDecision,
        reviews: Vec::new(),
        checks: ChecksSummary { state: ChecksState::Unknown, passing: 0, failing: 0, pending: 0 },
    }
}

#[test]
fn auth_outcomes_become_messages() {
    let tok = AuthOutcome::Token { token: "t".into(), host: "github.com".into(), user: None };
    assert!(matches!(auth_message(tok.clone(), None), Msg::AuthReady { ref host, user: None } if host == "github.com"));
    match auth_message(tok, Some("bad host".into())) {
        Msg::AuthMissing { reason } => assert_eq!(reason, "client init failed: bad host"),
        other => panic!("unexpected {other:?}"),
    }
    match auth_message(AuthOutcome::Missing { reason: "no gh".into() }, None) {
        Msg::AuthMissing { reason } => assert_eq!(reason, "no gh"),
        other => panic!("unexpected {other:?}"),
    }
}

#[test]
fn repo_lookups_become_messages() {
    let r = RepoRef::parse("a/b").unwrap();
    assert!(matches!(repo_message(Ok(r)), Msg::RepoResolved(_)));
    match repo_message(Err(RepoResolveError::NotInRepo)) {
        Msg::RepoResolveFailed(t) => assert_eq!(t, "not in a GitHub repo (cwd has no GitHub remote)"),
        other => panic!("unexpected {other:?}"),
    }
}

#[test]
fn body_layout_sums_heights_and_lists_images() {
    let chunks = render_chunks("one\n\n![x](u1)\n\ntwo\n\n![y](u1)");
    let (rows, urls) = body_layout(&chunks);
    // "one" + blank, image, "two" + blank, image.
    assert_eq!(rows, 2 + 12 + 2 + 12);
    assert_eq!(urls, vec!["u1", "u1"]);
    let many = vec![BodyChunk::Mermaid { source: String::new() }; 5000];
    assert_eq!(body_layout(&many).0, u16::MAX);
}

#[test]
fn detail_message_carries_layout() {
    let chunks = render_chunks("hello");
    match detail_message(detail(), &chunks, Vec::new()) {
        Msg::PrDetailReady { detail, body_lines, image_urls, mermaid_blocks } => {
            assert_eq!(detail.number, 3);
            assert_eq!(body_lines, 2);
            assert!(image_urls.is_empty());
            assert!(mermaid_blocks.is_empty());
        },
        other => panic!("unexpected {other:?}"),
    }
}

#[test]
fn diff_results_become_messages() {
    let repo = RepoRef::parse("a/b").unwrap();
    let files = vec![FilePatch {
        path: "a.rs".into(),
        previous_path: None,
        status: PatchStatus::Added,
        additions: 1,
        deletions: 0,
        patch: Some("@@ -0,0 +1 @@\n+x".into()),
        blob_sha: "s".into(),
    }];
    let threads = vec![ReviewThread {
        path: "a.rs".into(),
        line: Some(1),
        original_line: Some(1),
        comments: vec![ReviewComment { author: "z".into(), body: "hm".into(), created_at: Timestamp { secs: 0, nanos: 0 } }],
    }];
    assert!(fits_layout(&files, &threads));
    match diff_message(repo.clone(), 3, Ok(files), Some(threads)) {
        Msg::DiffReady { number, file_offsets, total_lines, threads, .. } => {
            assert_eq!(number, 3);
            assert_eq!(file_offsets, vec![0]);
            assert_eq!(total_lines, 5);
            assert_eq!(threads.len(), 1);
        },
        other => panic!("unexpected {other:?}"),
    }
    assert!(matches!(diff_message(repo, 3, Err("404".into()), None), Msg::DiffFailed(ref e) if e == "404"));
}

#[test]
fn body_layout_saturates_for_any_number_of_chunks() {
    let many = vec![BodyChunk::Image { url: "u".into(), alt: String::new() }; 70000];
    let (rows, urls) = body_layout(&many);
    assert_eq!(rows, u16::MAX);
    assert_eq!(urls.len(), 70000);
}
