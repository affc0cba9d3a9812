//! Repository references, labels, auth state, the rate-limit tier and the
//! key-to-message mapping.

use gh_tui::action::{Action, Direction, Motion, Operator};
use gh_tui::auth::{
    auth_from_env, auth_from_gh, first_token, gh_spawn_failure, host_or_default,
    token_from_gh_output, AuthOutcome, AuthState,
};
use gh_tui::input_map::action_to_msg;
use gh_tui::msg::{JumpDirection, Msg, SelectionJump};
use gh_tui::pulls::{
    ChecksState, ChecksSummary, ParseRepoRefError, PatchStatus, PrState, RepoRef, ReviewDecision,
    ReviewState, Timestamp,
};
use gh_tui::rate_limit::{RateLimit, Tier};
use gh_tui::reducer::{compute_review_offsets, initial_commands, next_section_scroll, total_pr_detail_lines};
use gh_tui::cmd::Cmd;
use gh_tui::state::Mode;

#[test]
fn parse_valid() {
    let r = RepoRef::parse("JonathanBerhe/gh-tui").unwrap();
    assert_eq!(r.owner, "JonathanBerhe");
    assert_eq!(r.name, "gh-tui");
}

#[test]
fn parse_trims_whitespace() {
    let r = RepoRef::parse("  cli/cli  ").unwrap();
    assert_eq!(r.slug(), "cli/cli");
}

#[test]
fn parse_rejects_no_slash() {
    assert!(matches!(RepoRef::parse("foobar"), Err(ParseRepoRefError::BadShape(_))));
}

#[test]
fn parse_rejects_too_many_slashes() {
    assert!(matches!(RepoRef::parse("a/b/c"), Err(ParseRepoRefError::BadShape(_))));
}

#[test]
fn parse_rejects_empty_owner() {
    assert!(matches!(RepoRef::parse("/name"), Err(ParseRepoRefError::EmptySegment(_))));
}

#[test]
fn parse_rejects_empty_name() {
    assert!(matches!(RepoRef::parse("owner/"), Err(ParseRepoRefError::EmptySegment(_))));
}

#[test]
fn parse_rejects_dot_segments() {
    assert!(matches!(RepoRef::parse("./.."), Err(ParseRepoRefError::InvalidChar(_))));
    assert!(matches!(RepoRef::parse("owner/.."), Err(ParseRepoRefError::InvalidChar(_))));
}

#[test]
fn parse_rejects_whitespace_in_segments() {
    assert!(matches!(RepoRef::parse("own er/name"), Err(ParseRepoRefError::InvalidChar(_))));
}

#[test]
fn slug_round_trip() {
    let r = RepoRef::parse("a/b").unwrap();
    assert_eq!(RepoRef::parse(&r.slug()).unwrap(), r);
}

#[test]
fn slug_round_trip_on_other_names() {
    for s in ["cli/cli", "rust-lang/rust", "a.b/c_d"] {
        let r = RepoRef::parse(s).unwrap();
        assert_eq!(r.slug(), s);
        assert_eq!(RepoRef::parse(&r.slug()).unwrap(), r);
    }
}

fn rl(remaining: u32) -> RateLimit {
    RateLimit { remaining, limit: 5000, reset_at: Timestamp { secs: 1767225600, nanos: 0 } }
}

#[test]
fn tier_thresholds() {
    assert_eq!(rl(0).tier(), Tier::Critical);
    assert_eq!(rl(19).tier(), Tier::Critical);
    assert_eq!(rl(20).tier(), Tier::Warning);
    assert_eq!(rl(100).tier(), Tier::Warning);
    assert_eq!(rl(101).tier(), Tier::Healthy);
    assert_eq!(rl(5000).tier(), Tier::Healthy);
}

#[test]
fn labels_match_github_names() {
    assert_eq!(PrState::Open.label(), "OPEN");
    assert_eq!(PrState::Merged.label(), "MERGED");
    assert_eq!(ReviewDecision::ChangesRequested.label(), "CHANGES_REQUESTED");
    assert_eq!(ReviewDecision::NoDecision.label(), "");
    assert_eq!(ReviewState::Dismissed.label(), "DISMISSED");
    assert_eq!(PatchStatus::Renamed.label(), "renamed");
    assert_eq!(Mode::Normal.label(), "NORMAL");
    assert_eq!(Mode::Command.label(), "COMMAND");
    assert_eq!(Operator::Delete.key(), 'd');
}

#[test]
fn checks_total_and_emptiness() {
    let c = ChecksSummary { state: ChecksState::Success, passing: 3, failing: 1, pending: 2 };
    assert_eq!(c.total(), 6);
    assert!(!c.is_empty());
    let none = ChecksSummary { state: ChecksState::Unknown, passing: 0, failing: 0, pending: 0 };
    assert!(none.is_empty());
    let zero_but_known = ChecksSummary { state: ChecksState::Pending, passing: 0, failing: 0, pending: 0 };
    assert!(!zero_but_known.is_empty());
}

#[test]
fn auth_summary_texts() {
    assert_eq!(AuthState::Unknown.summary(), "loading auth…");
    let a = AuthState::Authenticated { host: "github.com".into(), user: Some("alice".into()) };
    assert_eq!(a.summary(), "@alice on github.com");
    assert!(a.is_authenticated());
    let b = AuthState::Authenticated { host: "ghe.test".into(), user: None };
    assert_eq!(b.summary(), "authenticated on ghe.test");
    let m = AuthState::Missing { reason: "no gh".into() };
    assert_eq!(m.summary(), "no auth — no gh");
    assert!(!m.is_authenticated());
}

#[test]
fn auth_detection_decisions() {
    assert_eq!(host_or_default(None), "github.com");
    assert_eq!(host_or_default(Some(String::new())), "github.com");
    assert_eq!(host_or_default(Some("ghe.test".into())), "ghe.test");
    assert_eq!(first_token(Some(String::new()), Some("t2".into())), Some("t2".to_string()));
    assert_eq!(first_token(Some("t1".into()), Some("t2".into())), Some("t1".to_string()));
    assert_eq!(first_token(None, None), None);
    assert_eq!(token_from_gh_output(true, "exit status: 0", "  tok\n", ""), Ok(Some("tok".to_string())));
    assert_eq!(token_from_gh_output(true, "exit status: 0", " \n", ""), Ok(None));
    assert_eq!(token_from_gh_output(false, "exit status: 1", "", "  not logged in \n"), Err("not logged in".to_string()));
    assert_eq!(token_from_gh_output(false, "exit status: 4", "", ""), Err("gh exited with exit status: 4".to_string()));
    assert_eq!(gh_spawn_failure(true, "not found"), "`gh` not installed");
    assert_eq!(gh_spawn_failure(false, "permission denied"), "failed to run `gh`: permission denied");
    let env = auth_from_env("github.com".into(), Some("t".into())).unwrap();
    assert!(env.is_authenticated());
    assert!(auth_from_env("github.com".into(), None).is_none());
    assert_eq!(
        auth_from_gh("h".into(), Ok(None)),
        AuthOutcome::Missing { reason: "run `gh auth login`".into() }
    );
    assert_eq!(auth_from_gh("h".into(), Err("boom".into())), AuthOutcome::Missing { reason: "boom".into() });
    assert_eq!(
        auth_from_gh("h".into(), Ok(Some("tok".into()))),
        AuthOutcome::Token { token: "tok".into(), host: "h".into(), user: None }
    );
}

#[test]
fn initial_commands_authenticate_first() {
    let cmds = initial_commands();
    assert_eq!(cmds.len(), 1);
    assert!(matches!(cmds[0], Cmd::AuthenticateFromGh));
}

#[test]
fn review_offsets_and_detail_height() {
    assert_eq!(compute_review_offsets(10, 3), vec![13, 16, 19]);
    assert_eq!(total_pr_detail_lines(10, 0), 10);
    assert_eq!(total_pr_detail_lines(10, 2), 19);
}

#[test]
fn section_scroll_moves_between_offsets() {
    let offsets = vec![5u16, 10, 20];
    assert_eq!(next_section_scroll(0, &offsets, 1, JumpDirection::Next), 5);
    assert_eq!(next_section_scroll(5, &offsets, 2, JumpDirection::Next), 20);
    assert_eq!(next_section_scroll(20, &offsets, 1, JumpDirection::Next), 20);
    assert_eq!(next_section_scroll(20, &offsets, 1, JumpDirection::Prev), 10);
}

#[test]
fn actions_map_to_messages() {
    assert!(matches!(action_to_msg(Action::Quit), Some(Msg::Quit)));
    assert!(matches!(
        action_to_msg(Action::Move { count: 3, motion: Motion::Down }),
        Some(Msg::SelectionDelta(3))
    ));
    assert!(matches!(
        action_to_msg(Action::Move { count: 2, motion: Motion::Up }),
        Some(Msg::SelectionDelta(-2))
    ));
    assert!(matches!(
        action_to_msg(Action::Move { count: 1, motion: Motion::DocStart }),
        Some(Msg::SelectionJump(SelectionJump::First))
    ));
    assert!(matches!(action_to_msg(Action::Unbound), None));
    assert!(matches!(
        action_to_msg(Action::JumpSection { count: 2, direction: Direction::Prev }),
        Some(Msg::SectionJump { count: 2, direction: JumpDirection::Prev })
    ));
}
