//! The reducer: every message's effect on the state and the commands it
//! emits.

use gh_tui::auth::AuthState;
use gh_tui::cmd::Cmd;
use gh_tui::msg::{JumpDirection, Msg, SelectionJump};
use gh_tui::pulls::{PrSummary, RepoRef, Timestamp};
use gh_tui::reducer::{compute_review_offsets, initial_commands, reduce};
use gh_tui::state::{DiffViewMode, PrefetchedDiff, Screen, State};

fn repo() -> RepoRef {
    RepoRef::parse("a/b").unwrap()
}

fn pr(n: u64) -> PrSummary {
    PrSummary {
        number: n,
        title: format!("pr {n}"),
        author: "alice".into(),
        draft: false,
        head_ref: "feat".into(),
        base_ref: "main".into(),
        comments: 0,
        created_at: Timestamp { secs: 1767225600, nanos: 0 },
        additions: 0,
        deletions: 0,
    }
}

fn authenticated() -> State {
    State {
        auth: AuthState::Authenticated {
            host: "github.com".into(),
            user: Some("alice".into()),
        },
        ..State::default()
    }
}

// ── existing Phase 1/2 tests, kept ─────────────────────────────────

#[test]
fn quit_msg_sets_should_quit() {
    let (state, cmds) = reduce(State::default(), Msg::Quit);
    assert!(state.should_quit);
    assert!(cmds.is_empty());
}

#[test]
fn auth_ready_transitions_auth_state() {
    let (state, _) = reduce(
        State::default(),
        Msg::AuthReady {
            host: "github.com".into(),
            user: Some("alice".into()),
        },
    );
    assert_eq!(
        state.auth,
        AuthState::Authenticated {
            host: "github.com".into(),
            user: Some("alice".into()),
        }
    );
}

#[test]
fn auth_missing_transitions_auth_state() {
    let (state, _) = reduce(
        State::default(),
        Msg::AuthMissing {
            reason: "gh not installed".into(),
        },
    );
    assert!(matches!(state.auth, AuthState::Missing { .. }));
}

#[test]
fn tick_is_no_op() {
    let (state, cmds) = reduce(State::default(), Msg::Tick);
    assert!(!state.should_quit);
    assert!(cmds.is_empty());
}

#[test]
fn initial_commands_includes_auth() {
    let cmds = initial_commands();
    assert_eq!(cmds.len(), 1);
    assert!(matches!(cmds[0], Cmd::AuthenticateFromGh));
}

#[test]
fn pending_changed_sets_state_pending() {
    let (state, _) = reduce(State::default(), Msg::PendingChanged("2d3".into()));
    assert_eq!(state.pending, "2d3");
}

// ── Phase 3 ────────────────────────────────────────────────────────

fn pr_list_state(items: Vec<PrSummary>, selected: usize) -> State {
    State {
        screen: Screen::PrList {
            repo: repo(),
            items,
            selected,
            pages_loaded: 1,
            has_more: false,
            loading_next: false,
        },
        ..State::default()
    }
}

fn pr_list_state_with_more(items: Vec<PrSummary>, selected: usize) -> State {
    State {
        screen: Screen::PrList {
            repo: repo(),
            items,
            selected,
            pages_loaded: 1,
            has_more: true,
            loading_next: false,
        },
        ..State::default()
    }
}

fn loading_first_page(repo: gh_tui::pulls::RepoRef) -> State {
    // Helper for tests: the binary transitions to Loading before the
    // first fetch returns; we simulate that here.
    State {
        screen: Screen::Loading { repo },
        auth: AuthState::Authenticated {
            host: "github.com".into(),
            user: Some("alice".into()),
        },
        ..State::default()
    }
}

#[test]
fn repo_resolved_with_auth_emits_first_page_fetch() {
    let (state, cmds) = reduce(authenticated(), Msg::RepoResolved(repo()));
    assert!(matches!(state.screen, Screen::Loading { .. }));
    assert_eq!(cmds.len(), 1);
    assert!(matches!(cmds[0], Cmd::FetchPrPage { page: 1, .. }));
}

#[test]
fn repo_resolved_without_auth_waits() {
    let (state, cmds) = reduce(State::default(), Msg::RepoResolved(repo()));
    assert!(matches!(state.screen, Screen::Loading { .. }));
    assert!(cmds.is_empty(), "must not fetch before auth resolves");
}

#[test]
fn auth_ready_after_repo_kicks_off_first_page_fetch() {
    // Repo arrives first, auth still Unknown → no Cmd.
    let (s1, _) = reduce(State::default(), Msg::RepoResolved(repo()));
    // Auth then resolves → reducer emits the deferred FetchPrPage.
    let (_, cmds) = reduce(
        s1,
        Msg::AuthReady {
            host: "github.com".into(),
            user: Some("alice".into()),
        },
    );
    assert_eq!(cmds.len(), 1);
    assert!(matches!(cmds[0], Cmd::FetchPrPage { page: 1, .. }));
}

#[test]
fn auth_missing_during_loading_transitions_to_error() {
    let (s1, _) = reduce(State::default(), Msg::RepoResolved(repo()));
    let (s2, _) = reduce(
        s1,
        Msg::AuthMissing {
            reason: "no gh".into(),
        },
    );
    assert!(matches!(s2.screen, Screen::Error { .. }));
}

#[test]
fn first_page_ready_transitions_to_pr_list() {
    let (state, _) = reduce(
        loading_first_page(repo()),
        Msg::PrPageReady {
            repo: repo(),
            page: 1,
            items: vec![pr(1), pr(2), pr(3)],
            has_more: true,
        },
    );
    let Screen::PrList {
        items,
        selected,
        pages_loaded,
        has_more,
        loading_next,
        ..
    } = state.screen
    else {
        panic!("expected PrList");
    };
    assert_eq!(items.len(), 3);
    assert_eq!(selected, 0);
    assert_eq!(pages_loaded, 1);
    assert!(has_more);
    assert!(!loading_next);
}

#[test]
fn second_page_ready_appends_items() {
    let s1 = pr_list_state_with_more(vec![pr(1), pr(2)], 0);
    // Mark loading_next so the test mirrors how the reducer would have
    // gated the in-flight request before the page arrives.
    let s1 = State {
        screen: match s1.screen {
            Screen::PrList {
                repo,
                items,
                selected,
                pages_loaded,
                has_more,
                ..
            } => Screen::PrList {
                repo,
                items,
                selected,
                pages_loaded,
                has_more,
                loading_next: true,
            },
            _ => unreachable!(),
        },
        ..s1
    };
    let (s2, _) = reduce(
        s1,
        Msg::PrPageReady {
            repo: repo(),
            page: 2,
            items: vec![pr(3), pr(4), pr(5)],
            has_more: false,
        },
    );
    let Screen::PrList {
        items,
        pages_loaded,
        has_more,
        loading_next,
        ..
    } = s2.screen
    else {
        panic!("expected PrList");
    };
    assert_eq!(items.len(), 5);
    assert_eq!(pages_loaded, 2);
    assert!(!has_more);
    assert!(!loading_next);
}

#[test]
fn out_of_order_page_is_dropped() {
    let s = pr_list_state_with_more(vec![pr(1), pr(2)], 0);
    let (s2, _) = reduce(
        s,
        Msg::PrPageReady {
            repo: repo(),
            page: 5, // skipped pages 2,3,4 — stale
            items: vec![pr(99)],
            has_more: false,
        },
    );
    let Screen::PrList {
        items,
        pages_loaded,
        ..
    } = s2.screen
    else {
        panic!("expected PrList");
    };
    assert_eq!(items.len(), 2, "stale page must not append");
    assert_eq!(pages_loaded, 1);
}

#[test]
fn selection_near_boundary_triggers_next_page_fetch() {
    let items = (1..=30).map(pr).collect::<Vec<_>>();
    let s = pr_list_state_with_more(items, 24); // 30 items, selected 24
    let (s2, cmds) = reduce(s, Msg::SelectionDelta(1)); // → 25, remaining 5
    let Screen::PrList { loading_next, .. } = s2.screen else {
        panic!()
    };
    assert!(loading_next, "should set loading_next");
    assert_eq!(cmds.len(), 1);
    assert!(matches!(cmds[0], Cmd::FetchPrPage { page: 2, .. }));
}

#[test]
fn selection_far_from_boundary_does_not_fetch() {
    let items = (1..=30).map(pr).collect::<Vec<_>>();
    let s = pr_list_state_with_more(items, 0);
    let (s2, cmds) = reduce(s, Msg::SelectionDelta(1));
    let Screen::PrList { loading_next, .. } = s2.screen else {
        panic!()
    };
    assert!(!loading_next);
    assert!(cmds.is_empty());
}

#[test]
fn loading_next_blocks_concurrent_fetches() {
    let items = (1..=30).map(pr).collect::<Vec<_>>();
    let s = State {
        screen: Screen::PrList {
            repo: repo(),
            items,
            selected: 25,
            pages_loaded: 1,
            has_more: true,
            loading_next: true, // already in flight
        },
        ..State::default()
    };
    let (_, cmds) = reduce(s, Msg::SelectionDelta(1));
    assert!(cmds.is_empty(), "must not fetch while loading_next");
}

#[test]
fn last_page_clears_has_more() {
    // After the last page arrives, scrolling near boundary doesn't fetch.
    let items = (1..=30).map(pr).collect::<Vec<_>>();
    let s = pr_list_state(items, 25);
    let (_, cmds) = reduce(s, Msg::SelectionDelta(1));
    assert!(cmds.is_empty());
}

#[test]
fn pr_list_failed_transitions_to_error() {
    let (state, _) = reduce(authenticated(), Msg::PrListFailed("404".into()));
    assert!(matches!(state.screen, Screen::Error { .. }));
}

#[test]
fn repo_resolve_failed_transitions_to_error() {
    let (state, _) = reduce(
        State::default(),
        Msg::RepoResolveFailed("not in a repo".into()),
    );
    assert!(matches!(state.screen, Screen::Error { .. }));
}

#[test]
fn selection_down_increments() {
    let s = pr_list_state(vec![pr(1), pr(2), pr(3)], 0);
    let (state, _) = reduce(s, Msg::SelectionDelta(1));
    let Screen::PrList { selected, .. } = state.screen else {
        panic!("expected PrList");
    };
    assert_eq!(selected, 1);
}

#[test]
fn selection_up_at_zero_stays_zero() {
    let s = pr_list_state(vec![pr(1), pr(2)], 0);
    let (state, _) = reduce(s, Msg::SelectionDelta(-1));
    let Screen::PrList { selected, .. } = state.screen else {
        panic!("expected PrList");
    };
    assert_eq!(selected, 0);
}

#[test]
fn selection_down_at_end_stays() {
    let s = pr_list_state(vec![pr(1), pr(2)], 1);
    let (state, _) = reduce(s, Msg::SelectionDelta(5));
    let Screen::PrList { selected, .. } = state.screen else {
        panic!("expected PrList");
    };
    assert_eq!(selected, 1);
}

#[test]
fn selection_jump_first_last() {
    let mk = |sel| pr_list_state(vec![pr(1), pr(2), pr(3), pr(4)], sel);
    let (s, _) = reduce(mk(2), Msg::SelectionJump(SelectionJump::First));
    let Screen::PrList { selected, .. } = s.screen else {
        panic!()
    };
    assert_eq!(selected, 0);

    let (s, _) = reduce(mk(0), Msg::SelectionJump(SelectionJump::Last));
    let Screen::PrList { selected, .. } = s.screen else {
        panic!()
    };
    assert_eq!(selected, 3);
}

#[test]
fn selection_on_empty_list_is_noop() {
    let s = pr_list_state(vec![], 0);
    let (state, _) = reduce(s, Msg::SelectionDelta(1));
    let Screen::PrList { selected, .. } = state.screen else {
        panic!("expected PrList");
    };
    assert_eq!(selected, 0);
}

#[test]
fn selection_msg_outside_pr_list_is_noop() {
    // In Welcome screen, selection deltas don't crash and don't mutate.
    let (state, _) = reduce(State::default(), Msg::SelectionDelta(3));
    assert!(matches!(state.screen, Screen::Welcome));
}

#[test]
fn rate_limit_update_sets_state() {
    let rl = gh_tui::rate_limit::RateLimit {
        remaining: 4998,
        limit: 5000,
        reset_at: Timestamp { secs: 1767225600, nanos: 0 },
    };
    let (state, cmds) = reduce(State::default(), Msg::RateLimitUpdate(rl));
    assert_eq!(state.rate_limit, Some(rl));
    assert!(cmds.is_empty());
}

// ── Phase 4: PR detail ─────────────────────────────────────────────

fn pr_detail(number: u64) -> gh_tui::pulls::PrDetail {
    gh_tui::pulls::PrDetail {
        number,
        title: format!("pr {number}"),
        body: String::new(),
        state: gh_tui::pulls::PrState::Open,
        draft: false,
        mergeable: gh_tui::pulls::Mergeable::Yes,
        author: "alice".into(),
        head_ref: "feat".into(),
        base_ref: "main".into(),
        additions: 10,
        deletions: 2,
        review_decision: gh_tui::pulls::ReviewDecision::NoDecision,
        reviews: Vec::new(),
        checks: gh_tui::pulls::ChecksSummary {
            state: gh_tui::pulls::ChecksState::Unknown,
            passing: 0,
            failing: 0,
            pending: 0,
        },
    }
}

#[test]
fn open_selected_pr_pushes_to_nav_stack_and_emits_fetch() {
    let s = pr_list_state(vec![pr(1), pr(2), pr(3)], 1);
    let (s2, cmds) = reduce(s, Msg::OpenSelectedPr);
    assert!(matches!(s2.screen, Screen::LoadingDetail { number: 2, .. }));
    assert_eq!(s2.nav_stack.len(), 1, "prior PrList should be on stack");
    assert!(matches!(s2.nav_stack[0], Screen::PrList { .. }));
    assert_eq!(cmds.len(), 1);
    assert!(matches!(cmds[0], Cmd::FetchPrDetail { number: 2, .. }));
}

#[test]
fn open_selected_pr_outside_pr_list_is_noop() {
    let (s, cmds) = reduce(State::default(), Msg::OpenSelectedPr);
    assert!(matches!(s.screen, Screen::Welcome));
    assert!(cmds.is_empty());
    assert!(s.nav_stack.is_empty());
}

#[test]
fn open_selected_pr_with_empty_list_is_noop() {
    let s = pr_list_state(vec![], 0);
    let (s2, cmds) = reduce(s, Msg::OpenSelectedPr);
    assert!(matches!(s2.screen, Screen::PrList { .. }));
    assert!(cmds.is_empty());
}

#[test]
fn open_selected_pr_in_pr_detail_opens_diff() {
    // `l` (and Enter) from PR detail acts as the screen's primary
    // forward — same effect as Tab.
    let (s2, cmds) = reduce(pr_detail_state(7), Msg::OpenSelectedPr);
    assert!(matches!(s2.screen, Screen::LoadingDiff { number: 7, .. }));
    assert_eq!(s2.nav_stack.len(), 1);
    assert!(matches!(s2.nav_stack[0], Screen::PrDetail { .. }));
    assert_eq!(cmds.len(), 1);
    assert!(matches!(cmds[0], Cmd::FetchPrDiff { number: 7, .. }));
}

#[test]
fn pr_detail_ready_transitions_to_pr_detail() {
    let s = State {
        screen: Screen::LoadingDetail {
            repo: repo(),
            number: 7,
        },
        nav_stack: vec![Screen::PrList {
            repo: repo(),
            items: vec![pr(7)],
            selected: 0,
            pages_loaded: 1,
            has_more: false,
            loading_next: false,
        }],
        ..State::default()
    };
    let (s2, cmds) = reduce(
        s,
        Msg::PrDetailReady {
            detail: pr_detail(7),
            body_lines: 0,
            image_urls: Vec::new(),
            mermaid_blocks: Vec::new(),
        },
    );
    let Screen::PrDetail {
        detail,
        scroll,
        prefetched_diff,
        ..
    } = s2.screen
    else {
        panic!("expected PrDetail");
    };
    assert_eq!(detail.number, 7);
    assert_eq!(scroll, 0);
    assert!(prefetched_diff.is_none(), "prefetch starts empty");
    // Phase 6 PR #1: PrDetailReady eagerly emits the diff fetch so
    // pressing Tab/`l` later finds the result already in hand.
    assert!(
        cmds.iter()
            .any(|c| matches!(c, Cmd::FetchPrDiff { number: 7, .. })),
        "expected eager diff prefetch, got {cmds:?}"
    );
}

#[test]
fn diff_ready_during_pr_detail_stashes_into_prefetched_diff() {
    let s = State {
        screen: Screen::PrDetail {
            repo: repo(),
            detail: pr_detail(7),
            scroll: 0,
            review_offsets: Vec::new(),
            total_lines: 0,
            prefetched_diff: None,
        },
        ..State::default()
    };
    let (s2, _) = reduce(
        s,
        Msg::DiffReady {
            repo: repo(),
            number: 7,
            files: vec![file_patch("a.rs")],
            threads: Vec::new(),
            file_offsets: vec![0],
            total_lines: 0,
        },
    );
    let Screen::PrDetail {
        prefetched_diff, ..
    } = s2.screen
    else {
        panic!("expected PrDetail (prefetch arrived in background)");
    };
    let stash = prefetched_diff.expect("prefetched diff should be stashed");
    assert_eq!(stash.files.len(), 1);
    assert_eq!(stash.file_offsets, vec![0]);
}

#[test]
fn diff_ready_during_pr_detail_for_stale_number_is_dropped() {
    let s = State {
        screen: Screen::PrDetail {
            repo: repo(),
            detail: pr_detail(7),
            scroll: 0,
            review_offsets: Vec::new(),
            total_lines: 0,
            prefetched_diff: None,
        },
        ..State::default()
    };
    let (s2, _) = reduce(
        s,
        Msg::DiffReady {
            repo: repo(),
            number: 99,
            files: vec![file_patch("x.rs")],
            threads: Vec::new(),
            file_offsets: vec![0],
            total_lines: 0,
        },
    );
    let Screen::PrDetail {
        prefetched_diff, ..
    } = s2.screen
    else {
        panic!("expected PrDetail");
    };
    assert!(
        prefetched_diff.is_none(),
        "stale prefetch (number mismatch) must be dropped"
    );
}

#[test]
fn open_diff_with_prefetched_diff_skips_loading_diff() {
    let prefetched = PrefetchedDiff {
        files: vec![file_patch("a.rs")],
        threads: Vec::new(),
        file_offsets: vec![0],
        total_lines: 0,
    };
    let s = State {
        screen: Screen::PrDetail {
            repo: repo(),
            detail: pr_detail(7),
            scroll: 0,
            review_offsets: Vec::new(),
            total_lines: 0,
            prefetched_diff: Some(prefetched),
        },
        ..State::default()
    };
    let (s2, cmds) = reduce(s, Msg::OpenDiff);
    // Fast path: straight to DiffView with the prefetched payload,
    // no LoadingDiff flicker, no fetch command emitted.
    assert!(
        matches!(s2.screen, Screen::DiffView { number: 7, .. }),
        "expected DiffView (skipped LoadingDiff), got {:?}",
        s2.screen
    );
    assert!(
        !cmds.iter().any(|c| matches!(c, Cmd::FetchPrDiff { .. })),
        "fast path must not re-fetch; got {cmds:?}"
    );
}

#[test]
fn open_diff_without_prefetch_takes_loading_path() {
    let (s2, cmds) = reduce(pr_detail_state(7), Msg::OpenDiff);
    // Cold path: prefetch is None (e.g. it's still in flight) so we
    // fall back to LoadingDiff and emit FetchPrDiff.
    assert!(matches!(s2.screen, Screen::LoadingDiff { number: 7, .. }));
    assert!(cmds.iter().any(|c| matches!(c, Cmd::FetchPrDiff { .. })));
}

#[test]
fn pr_detail_ready_for_stale_number_is_dropped() {
    // We're loading #7 but a #99 detail arrives — drop it.
    let s = State {
        screen: Screen::LoadingDetail {
            repo: repo(),
            number: 7,
        },
        ..State::default()
    };
    let (s2, _) = reduce(
        s,
        Msg::PrDetailReady {
            detail: pr_detail(99),
            body_lines: 0,
            image_urls: Vec::new(),
            mermaid_blocks: Vec::new(),
        },
    );
    assert!(matches!(s2.screen, Screen::LoadingDetail { number: 7, .. }));
}

#[test]
fn pr_detail_failed_transitions_to_error_keeping_nav_stack() {
    let prior = Screen::PrList {
        repo: repo(),
        items: vec![pr(7)],
        selected: 0,
        pages_loaded: 1,
        has_more: false,
        loading_next: false,
    };
    let s = State {
        screen: Screen::LoadingDetail {
            repo: repo(),
            number: 7,
        },
        nav_stack: vec![prior],
        ..State::default()
    };
    let (s2, _) = reduce(s, Msg::PrDetailFailed("rate limited".into()));
    assert!(matches!(s2.screen, Screen::Error { .. }));
    assert_eq!(s2.nav_stack.len(), 1, "stack survives so Back recovers");
}

#[test]
fn pr_detail_failed_outside_loading_is_noop() {
    let (s, _) = reduce(State::default(), Msg::PrDetailFailed("boom".into()));
    assert!(matches!(s.screen, Screen::Welcome));
}

#[test]
fn back_from_pr_detail_pops_to_pr_list() {
    let prior = Screen::PrList {
        repo: repo(),
        items: vec![pr(7), pr(8)],
        selected: 1,
        pages_loaded: 1,
        has_more: false,
        loading_next: false,
    };
    let s = State {
        screen: Screen::PrDetail {
            repo: repo(),
            detail: pr_detail(7),
            scroll: 5,
            review_offsets: Vec::new(),
            total_lines: 0,
            prefetched_diff: None,
        },
        nav_stack: vec![prior],
        ..State::default()
    };
    let (s2, _) = reduce(s, Msg::Back);
    let Screen::PrList { selected, .. } = s2.screen else {
        panic!("expected PrList");
    };
    assert_eq!(selected, 1, "selection preserved across detail round-trip");
    assert!(s2.nav_stack.is_empty());
}

#[test]
fn back_from_loading_detail_pops_to_pr_list() {
    let prior = Screen::PrList {
        repo: repo(),
        items: vec![pr(7)],
        selected: 0,
        pages_loaded: 1,
        has_more: false,
        loading_next: false,
    };
    let s = State {
        screen: Screen::LoadingDetail {
            repo: repo(),
            number: 7,
        },
        nav_stack: vec![prior],
        ..State::default()
    };
    let (s2, _) = reduce(s, Msg::Back);
    assert!(matches!(s2.screen, Screen::PrList { .. }));
}

#[test]
fn back_from_error_pops_to_pr_list() {
    let prior = Screen::PrList {
        repo: repo(),
        items: vec![pr(7)],
        selected: 0,
        pages_loaded: 1,
        has_more: false,
        loading_next: false,
    };
    let s = State {
        screen: Screen::Error {
            message: "boom".into(),
            hint: None,
        },
        nav_stack: vec![prior],
        ..State::default()
    };
    let (s2, _) = reduce(s, Msg::Back);
    assert!(matches!(s2.screen, Screen::PrList { .. }));
}

#[test]
fn body_scroll_in_pr_detail_increments_scroll() {
    let s = State {
        screen: Screen::PrDetail {
            repo: repo(),
            detail: pr_detail(7),
            scroll: 5,
            review_offsets: Vec::new(),
            total_lines: 100,
            prefetched_diff: None,
        },
        ..State::default()
    };
    let (s2, _) = reduce(s, Msg::SelectionDelta(3));
    let Screen::PrDetail { scroll, .. } = s2.screen else {
        panic!("expected PrDetail")
    };
    assert_eq!(scroll, 8);
}

#[test]
fn body_scroll_at_zero_does_not_underflow() {
    let s = State {
        screen: Screen::PrDetail {
            repo: repo(),
            detail: pr_detail(7),
            scroll: 0,
            review_offsets: Vec::new(),
            total_lines: 0,
            prefetched_diff: None,
        },
        ..State::default()
    };
    let (s2, _) = reduce(s, Msg::SelectionDelta(-5));
    let Screen::PrDetail { scroll, .. } = s2.screen else {
        panic!("expected PrDetail")
    };
    assert_eq!(scroll, 0);
}

#[test]
fn body_scroll_jump_first_resets_scroll() {
    let s = State {
        screen: Screen::PrDetail {
            repo: repo(),
            detail: pr_detail(7),
            scroll: 42,
            review_offsets: Vec::new(),
            total_lines: 0,
            prefetched_diff: None,
        },
        ..State::default()
    };
    let (s2, _) = reduce(s, Msg::SelectionJump(SelectionJump::First));
    let Screen::PrDetail { scroll, .. } = s2.screen else {
        panic!("expected PrDetail")
    };
    assert_eq!(scroll, 0);
}

fn detail_with_reviews(n_reviews: usize) -> State {
    State {
        screen: Screen::PrDetail {
            repo: repo(),
            detail: pr_detail(7),
            scroll: 0,
            review_offsets: compute_review_offsets(10, n_reviews),
            total_lines: 0,
            prefetched_diff: None,
        },
        ..State::default()
    }
}

#[test]
fn review_jump_next_advances_to_first_offset() {
    let s = detail_with_reviews(3);
    let (s2, _) = reduce(
        s,
        Msg::SectionJump {
            count: 1,
            direction: JumpDirection::Next,
        },
    );
    let Screen::PrDetail {
        scroll,
        review_offsets,
        prefetched_diff: None,
        ..
    } = s2.screen
    else {
        panic!()
    };
    assert_eq!(scroll, review_offsets[0]);
}

#[test]
fn review_jump_next_with_count_skips() {
    let s = detail_with_reviews(5);
    let (s2, _) = reduce(
        s,
        Msg::SectionJump {
            count: 3,
            direction: JumpDirection::Next,
        },
    );
    let Screen::PrDetail {
        scroll,
        review_offsets,
        prefetched_diff: None,
        ..
    } = s2.screen
    else {
        panic!()
    };
    assert_eq!(scroll, review_offsets[2]);
}

#[test]
fn review_jump_at_last_review_stays() {
    let mut s = detail_with_reviews(3);
    if let Screen::PrDetail {
        scroll,
        review_offsets,
        prefetched_diff: None,
        ..
    } = &mut s.screen
    {
        *scroll = review_offsets[2];
    }
    let (s2, _) = reduce(
        s,
        Msg::SectionJump {
            count: 1,
            direction: JumpDirection::Next,
        },
    );
    let Screen::PrDetail {
        scroll,
        review_offsets,
        prefetched_diff: None,
        ..
    } = s2.screen
    else {
        panic!()
    };
    assert_eq!(scroll, review_offsets[2], "last review is a fixed point");
}

#[test]
fn review_jump_prev_returns_to_earlier_offset() {
    let mut s = detail_with_reviews(3);
    if let Screen::PrDetail {
        scroll,
        review_offsets,
        prefetched_diff: None,
        ..
    } = &mut s.screen
    {
        *scroll = review_offsets[2];
    }
    let (s2, _) = reduce(
        s,
        Msg::SectionJump {
            count: 1,
            direction: JumpDirection::Prev,
        },
    );
    let Screen::PrDetail {
        scroll,
        review_offsets,
        prefetched_diff: None,
        ..
    } = s2.screen
    else {
        panic!()
    };
    assert_eq!(scroll, review_offsets[1]);
}

#[test]
fn review_jump_with_no_reviews_is_noop() {
    let s = detail_with_reviews(0);
    let (s2, _) = reduce(
        s,
        Msg::SectionJump {
            count: 1,
            direction: JumpDirection::Next,
        },
    );
    let Screen::PrDetail { scroll, .. } = s2.screen else {
        panic!()
    };
    assert_eq!(scroll, 0, "no offsets → no movement");
}

#[test]
fn body_scroll_jump_last_clamps_to_total_lines_minus_one() {
    // `G` (DocEnd) used to set scroll = u16::MAX which left the user
    // stuck 65k presses past the content end. Now it clamps to the
    // real bottom: total_lines.saturating_sub(1).
    let s = State {
        screen: Screen::PrDetail {
            repo: repo(),
            detail: pr_detail(7),
            scroll: 0,
            review_offsets: Vec::new(),
            total_lines: 50,
            prefetched_diff: None,
        },
        ..State::default()
    };
    let (s2, _) = reduce(s, Msg::SelectionJump(SelectionJump::Last));
    let Screen::PrDetail { scroll, .. } = s2.screen else {
        panic!("expected PrDetail")
    };
    assert_eq!(scroll, 49);
}

#[test]
fn body_scroll_after_jump_last_can_step_back_up() {
    // Regression: after the clamp fix, a single `k` after `G` actually
    // moves up by 1 (was previously stuck near u16::MAX).
    let s = State {
        screen: Screen::PrDetail {
            repo: repo(),
            detail: pr_detail(7),
            scroll: 0,
            review_offsets: Vec::new(),
            total_lines: 50,
            prefetched_diff: None,
        },
        ..State::default()
    };
    let (s2, _) = reduce(s, Msg::SelectionJump(SelectionJump::Last));
    let (s3, _) = reduce(s2, Msg::SelectionDelta(-1));
    let Screen::PrDetail { scroll, .. } = s3.screen else {
        panic!("expected PrDetail")
    };
    assert_eq!(scroll, 48);
}

#[test]
fn body_scroll_delta_clamps_to_total_lines() {
    // A large positive delta clamps to total_lines - 1 (was previously
    // allowed to drift up to u16::MAX).
    let s = State {
        screen: Screen::PrDetail {
            repo: repo(),
            detail: pr_detail(7),
            scroll: 0,
            review_offsets: Vec::new(),
            total_lines: 50,
            prefetched_diff: None,
        },
        ..State::default()
    };
    let (s2, _) = reduce(s, Msg::SelectionDelta(1000));
    let Screen::PrDetail { scroll, .. } = s2.screen else {
        panic!("expected PrDetail")
    };
    assert_eq!(scroll, 49);
}

#[test]
fn back_with_empty_nav_stack_returns_to_welcome() {
    let s = State {
        screen: Screen::PrDetail {
            repo: repo(),
            detail: pr_detail(7),
            scroll: 0,
            review_offsets: Vec::new(),
            total_lines: 0,
            prefetched_diff: None,
        },
        ..State::default()
    };
    let (s2, _) = reduce(s, Msg::Back);
    assert!(matches!(s2.screen, Screen::Welcome));
}

#[test]
fn rate_limit_update_overwrites_previous() {
    let rl1 = gh_tui::rate_limit::RateLimit {
        remaining: 5000,
        limit: 5000,
        reset_at: Timestamp { secs: 1767225600, nanos: 0 },
    };
    let rl2 = gh_tui::rate_limit::RateLimit {
        remaining: 4500,
        limit: 5000,
        reset_at: Timestamp { secs: 1767229200, nanos: 0 },
    };
    let (s, _) = reduce(State::default(), Msg::RateLimitUpdate(rl1));
    let (s, _) = reduce(s, Msg::RateLimitUpdate(rl2));
    assert_eq!(s.rate_limit, Some(rl2));
}

// ── Phase 5: PR diff view ──────────────────────────────────────────

fn pr_detail_state(number: u64) -> State {
    State {
        screen: Screen::PrDetail {
            repo: repo(),
            detail: pr_detail(number),
            scroll: 0,
            review_offsets: Vec::new(),
            total_lines: 0,
            prefetched_diff: None,
        },
        ..State::default()
    }
}

fn file_patch(path: &str) -> gh_tui::pulls::FilePatch {
    gh_tui::pulls::FilePatch {
        path: path.into(),
        previous_path: None,
        status: gh_tui::pulls::PatchStatus::Modified,
        additions: 1,
        deletions: 1,
        patch: Some("@@ -1 +1 @@\n-old\n+new".into()),
        blob_sha: "deadbeef".into(),
    }
}

#[test]
fn open_diff_in_pr_detail_pushes_nav_and_emits_fetch() {
    let (s2, cmds) = reduce(pr_detail_state(7), Msg::OpenDiff);
    assert!(matches!(s2.screen, Screen::LoadingDiff { number: 7, .. }));
    assert_eq!(s2.nav_stack.len(), 1, "prior PrDetail should be on stack");
    assert!(matches!(s2.nav_stack[0], Screen::PrDetail { .. }));
    assert_eq!(cmds.len(), 1);
    assert!(matches!(cmds[0], Cmd::FetchPrDiff { number: 7, .. }));
}

#[test]
fn open_diff_outside_pr_detail_is_noop() {
    let (s, cmds) = reduce(State::default(), Msg::OpenDiff);
    assert!(matches!(s.screen, Screen::Welcome));
    assert!(cmds.is_empty());
    assert!(s.nav_stack.is_empty());
}

#[test]
fn diff_ready_transitions_to_diff_view() {
    let s = State {
        screen: Screen::LoadingDiff {
            repo: repo(),
            number: 7,
        },
        ..State::default()
    };
    let (s2, _) = reduce(
        s,
        Msg::DiffReady {
            repo: repo(),
            number: 7,
            files: vec![file_patch("a.rs"), file_patch("b.rs")],
            file_offsets: vec![0, 12],
            total_lines: 0,
            threads: Vec::new(),
        },
    );
    let Screen::DiffView {
        files,
        scroll,
        file_offsets,
        ..
    } = s2.screen
    else {
        panic!("expected DiffView");
    };
    assert_eq!(files.len(), 2);
    assert_eq!(scroll, 0);
    assert_eq!(file_offsets, vec![0, 12]);
}

#[test]
fn diff_ready_for_stale_number_is_dropped() {
    let s = State {
        screen: Screen::LoadingDiff {
            repo: repo(),
            number: 7,
        },
        ..State::default()
    };
    let (s2, _) = reduce(
        s,
        Msg::DiffReady {
            repo: repo(),
            number: 99,
            files: vec![file_patch("x.rs")],
            file_offsets: vec![0],
            total_lines: 0,
            threads: Vec::new(),
        },
    );
    assert!(matches!(s2.screen, Screen::LoadingDiff { number: 7, .. }));
}

#[test]
fn diff_ready_with_threads_includes_threads_in_state() {
    let s = State {
        screen: Screen::LoadingDiff {
            repo: repo(),
            number: 7,
        },
        ..State::default()
    };
    let thread = gh_tui::pulls::ReviewThread {
        path: "src/foo.rs".into(),
        line: Some(42),
        original_line: Some(42),
        comments: vec![gh_tui::pulls::ReviewComment {
            author: "alice".into(),
            body: "looks good".into(),
            created_at: Timestamp { secs: 1767225600, nanos: 0 },
        }],
    };
    let (s2, _) = reduce(
        s,
        Msg::DiffReady {
            repo: repo(),
            number: 7,
            files: vec![file_patch("src/foo.rs")],
            threads: vec![thread.clone()],
            file_offsets: vec![0],
            total_lines: 0,
        },
    );
    let Screen::DiffView { threads, .. } = s2.screen else {
        panic!("expected DiffView");
    };
    assert_eq!(threads, vec![thread]);
}

#[test]
fn diff_failed_transitions_to_error_keeping_nav_stack() {
    let prior = Screen::PrDetail {
        repo: repo(),
        detail: pr_detail(7),
        scroll: 0,
        review_offsets: Vec::new(),
        total_lines: 0,
        prefetched_diff: None,
    };
    let s = State {
        screen: Screen::LoadingDiff {
            repo: repo(),
            number: 7,
        },
        nav_stack: vec![prior],
        ..State::default()
    };
    let (s2, _) = reduce(s, Msg::DiffFailed("rate limited".into()));
    assert!(matches!(s2.screen, Screen::Error { .. }));
    assert_eq!(s2.nav_stack.len(), 1, "stack survives so Back recovers");
}

#[test]
fn back_from_diff_view_pops_to_pr_detail() {
    let prior = Screen::PrDetail {
        repo: repo(),
        detail: pr_detail(7),
        scroll: 0,
        review_offsets: Vec::new(),
        total_lines: 0,
        prefetched_diff: None,
    };
    let s = State {
        screen: Screen::DiffView {
            repo: repo(),
            number: 7,
            files: vec![file_patch("a.rs")],
            scroll: 5,
            file_offsets: vec![0],
            total_lines: 0,
            threads: Vec::new(),
            view_mode: DiffViewMode::default(),
        },
        nav_stack: vec![prior],
        ..State::default()
    };
    let (s2, _) = reduce(s, Msg::Back);
    assert!(matches!(s2.screen, Screen::PrDetail { .. }));
    assert!(s2.nav_stack.is_empty());
}

#[test]
fn selection_delta_in_diff_view_scrolls() {
    let s = State {
        screen: Screen::DiffView {
            repo: repo(),
            number: 7,
            files: vec![file_patch("a.rs")],
            scroll: 5,
            file_offsets: vec![0],
            total_lines: 100,
            threads: Vec::new(),
            view_mode: DiffViewMode::default(),
        },
        ..State::default()
    };
    let (s2, _) = reduce(s, Msg::SelectionDelta(3));
    let Screen::DiffView { scroll, .. } = s2.screen else {
        panic!("expected DiffView");
    };
    assert_eq!(scroll, 8);
}

#[test]
fn selection_delta_in_diff_view_at_zero_does_not_underflow() {
    let s = State {
        screen: Screen::DiffView {
            repo: repo(),
            number: 7,
            files: vec![file_patch("a.rs")],
            scroll: 0,
            file_offsets: vec![0],
            total_lines: 0,
            threads: Vec::new(),
            view_mode: DiffViewMode::default(),
        },
        ..State::default()
    };
    let (s2, _) = reduce(s, Msg::SelectionDelta(-5));
    let Screen::DiffView { scroll, .. } = s2.screen else {
        panic!("expected DiffView");
    };
    assert_eq!(scroll, 0);
}

#[test]
fn section_jump_next_in_diff_view_advances_to_next_file() {
    let s = State {
        screen: Screen::DiffView {
            repo: repo(),
            number: 7,
            files: vec![file_patch("a.rs"), file_patch("b.rs"), file_patch("c.rs")],
            scroll: 0,
            file_offsets: vec![0, 10, 20],
            total_lines: 0,
            threads: Vec::new(),
            view_mode: DiffViewMode::default(),
        },
        ..State::default()
    };
    let (s2, _) = reduce(
        s,
        Msg::SectionJump {
            count: 1,
            direction: JumpDirection::Next,
        },
    );
    let Screen::DiffView { scroll, .. } = s2.screen else {
        panic!("expected DiffView");
    };
    assert_eq!(scroll, 10);
}

#[test]
fn toggle_diff_view_mode_in_diff_view_flips_mode() {
    let s = State {
        screen: Screen::DiffView {
            repo: repo(),
            number: 7,
            files: vec![file_patch("a.rs")],
            scroll: 0,
            file_offsets: vec![0],
            total_lines: 0,
            threads: Vec::new(),
            view_mode: DiffViewMode::Unified,
        },
        ..State::default()
    };
    let (s2, _) = reduce(s, Msg::ToggleDiffViewMode);
    let Screen::DiffView { view_mode, .. } = s2.screen else {
        panic!("expected DiffView");
    };
    assert_eq!(view_mode, DiffViewMode::Split);
    let (s3, _) = reduce(
        State {
            screen: Screen::DiffView {
                repo: repo(),
                number: 7,
                files: vec![file_patch("a.rs")],
                scroll: 0,
                file_offsets: vec![0],
                total_lines: 0,
                threads: Vec::new(),
                view_mode,
            },
            ..State::default()
        },
        Msg::ToggleDiffViewMode,
    );
    let Screen::DiffView { view_mode, .. } = s3.screen else {
        panic!("expected DiffView");
    };
    assert_eq!(
        view_mode,
        DiffViewMode::Unified,
        "second toggle returns home"
    );
}

#[test]
fn toggle_diff_view_mode_outside_diff_view_is_noop() {
    let (s, _) = reduce(State::default(), Msg::ToggleDiffViewMode);
    assert!(matches!(s.screen, Screen::Welcome));
}

#[test]
fn toggle_diff_view_mode_preserves_scroll_and_offsets() {
    let s = State {
        screen: Screen::DiffView {
            repo: repo(),
            number: 7,
            files: vec![file_patch("a.rs"), file_patch("b.rs")],
            scroll: 42,
            file_offsets: vec![0, 30],
            total_lines: 0,
            threads: Vec::new(),
            view_mode: DiffViewMode::Unified,
        },
        ..State::default()
    };
    let (s2, _) = reduce(s, Msg::ToggleDiffViewMode);
    let Screen::DiffView {
        view_mode,
        scroll,
        file_offsets,
        ..
    } = s2.screen
    else {
        panic!("expected DiffView");
    };
    assert_eq!(view_mode, DiffViewMode::Split);
    assert_eq!(scroll, 42, "scroll preserved across toggle");
    assert_eq!(file_offsets, vec![0, 30], "offsets preserved across toggle");
}

#[test]
fn section_jump_with_no_files_is_noop() {
    let s = State {
        screen: Screen::DiffView {
            repo: repo(),
            number: 7,
            files: vec![],
            scroll: 0,
            file_offsets: vec![],
            total_lines: 0,
            threads: Vec::new(),
            view_mode: DiffViewMode::default(),
        },
        ..State::default()
    };
    let (s2, _) = reduce(
        s,
        Msg::SectionJump {
            count: 1,
            direction: JumpDirection::Next,
        },
    );
    let Screen::DiffView { scroll, .. } = s2.screen else {
        panic!("expected DiffView");
    };
    assert_eq!(scroll, 0);
}


#[test]
fn review_jump_works_after_the_diff_is_prefetched() {
    let mut s = detail_with_reviews(3);
    if let Screen::PrDetail { prefetched_diff, .. } = &mut s.screen {
        *prefetched_diff = Some(PrefetchedDiff {
            files: vec![file_patch("a.rs")],
            threads: Vec::new(),
            file_offsets: vec![0],
            total_lines: 3,
        });
    }
    let (s2, cmds) = reduce(
        s,
        Msg::SectionJump {
            count: 1,
            direction: JumpDirection::Next,
        },
    );
    assert!(cmds.is_empty());
    let Screen::PrDetail {
        scroll,
        review_offsets,
        prefetched_diff: Some(_),
        ..
    } = s2.screen
    else {
        panic!("expected PrDetail with the prefetched diff kept")
    };
    assert_eq!(scroll, review_offsets[0]);
}
