//! The key resolver: counts, operators, motions and the pending display.

use gh_tui::action::{Action, Motion, Operator};
use gh_tui::keys::{KeyCode, KeyEvent, KeyModifiers};
use gh_tui::resolver::{Resolution, Resolver};

fn k(code: KeyCode) -> KeyEvent {
    KeyEvent::new(code, KeyModifiers::none())
}

fn ch(c: char) -> KeyEvent {
    k(KeyCode::Char(c))
}

fn ctrl(c: char) -> KeyEvent {
    KeyEvent::new(KeyCode::Char(c), KeyModifiers::control())
}

fn feed_seq(keys: &[KeyEvent]) -> Vec<Resolution> {
    let mut r = Resolver::new();
    keys.iter().map(|k| r.feed(*k)).collect()
}

fn final_action(keys: &[KeyEvent]) -> Action {
    let mut r = Resolver::new();
    let mut last = Resolution::Pending;
    for key in keys {
        last = r.feed(*key);
    }
    match last {
        Resolution::Action(a) => a,
        other => panic!("expected Action, got {other:?}"),
    }
}

// ── quit ────────────────────────────────────────────────────────────

#[test]
fn q_quits() {
    assert_eq!(final_action(&[ch('q')]), Action::Quit);
}

#[test]
fn ctrl_c_quits() {
    assert_eq!(final_action(&[ctrl('c')]), Action::Quit);
}

#[test]
fn ctrl_q_does_not_quit() {
    // Ctrl+Q is not bound; with no pending state, returns Action::Unbound.
    assert_eq!(final_action(&[ctrl('q')]), Action::Unbound);
}

#[test]
fn ctrl_c_quits_even_mid_command() {
    let mut r = Resolver::new();
    assert_eq!(r.feed(ch('d')), Resolution::Pending);
    assert_eq!(r.feed(ctrl('c')), Resolution::Action(Action::Quit));
}

// ── escape / cancel ─────────────────────────────────────────────────

#[test]
fn esc_on_empty_is_none() {
    assert_eq!(final_action(&[k(KeyCode::Esc)]), Action::Unbound);
}

#[test]
fn esc_mid_command_cancels_and_resets() {
    let mut r = Resolver::new();
    assert_eq!(r.feed(ch('d')), Resolution::Pending);
    assert_eq!(r.feed(k(KeyCode::Esc)), Resolution::Cancel);
    // Resolver is now empty: a fresh `j` should produce Move(Down, 1).
    assert_eq!(
        r.feed(ch('j')),
        Resolution::Action(Action::Move {
            count: 1,
            motion: Motion::Down
        })
    );
}

// ── single-key motions ──────────────────────────────────────────────

#[test]
fn j_moves_down() {
    assert_eq!(
        final_action(&[ch('j')]),
        Action::Move {
            count: 1,
            motion: Motion::Down
        }
    );
}

#[test]
fn k_moves_up() {
    assert_eq!(
        final_action(&[ch('k')]),
        Action::Move {
            count: 1,
            motion: Motion::Up
        }
    );
}

#[test]
fn h_moves_left() {
    assert_eq!(
        final_action(&[ch('h')]),
        Action::Move {
            count: 1,
            motion: Motion::Left
        }
    );
}

#[test]
fn l_moves_right() {
    assert_eq!(
        final_action(&[ch('l')]),
        Action::Move {
            count: 1,
            motion: Motion::Right
        }
    );
}

#[test]
fn arrow_keys_match_hjkl() {
    assert_eq!(
        to_motion(final_action(&[k(KeyCode::Down)])),
        Some(Motion::Down)
    );
    assert_eq!(
        to_motion(final_action(&[k(KeyCode::Up)])),
        Some(Motion::Up)
    );
    assert_eq!(
        to_motion(final_action(&[k(KeyCode::Left)])),
        Some(Motion::Left)
    );
    assert_eq!(
        to_motion(final_action(&[k(KeyCode::Right)])),
        Some(Motion::Right)
    );
}

#[test]
fn capital_g_goes_to_doc_end() {
    assert_eq!(
        final_action(&[ch('G')]),
        Action::Move {
            count: 1,
            motion: Motion::DocEnd
        }
    );
}

#[test]
fn dollar_goes_to_line_end() {
    assert_eq!(
        final_action(&[ch('$')]),
        Action::Move {
            count: 1,
            motion: Motion::LineEnd
        }
    );
}

// ── multi-key motions ───────────────────────────────────────────────

#[test]
fn gg_goes_to_doc_start() {
    let r = feed_seq(&[ch('g'), ch('g')]);
    assert_eq!(r[0], Resolution::Pending);
    assert_eq!(
        r[1],
        Resolution::Action(Action::Move {
            count: 1,
            motion: Motion::DocStart
        })
    );
}

#[test]
fn g_then_other_cancels() {
    let r = feed_seq(&[ch('g'), ch('x')]);
    assert_eq!(r[0], Resolution::Pending);
    assert_eq!(r[1], Resolution::Cancel);
}

// ── counts ──────────────────────────────────────────────────────────

#[test]
fn count_then_motion() {
    let r = feed_seq(&[ch('1'), ch('0'), ch('j')]);
    assert_eq!(r[0], Resolution::Pending);
    assert_eq!(r[1], Resolution::Pending);
    assert_eq!(
        r[2],
        Resolution::Action(Action::Move {
            count: 10,
            motion: Motion::Down
        })
    );
}

#[test]
fn count_with_gg() {
    let r = feed_seq(&[ch('5'), ch('g'), ch('g')]);
    assert_eq!(r[0], Resolution::Pending);
    assert_eq!(r[1], Resolution::Pending);
    assert_eq!(
        r[2],
        Resolution::Action(Action::Move {
            count: 5,
            motion: Motion::DocStart
        })
    );
}

#[test]
fn bare_zero_is_line_start_motion() {
    assert_eq!(
        final_action(&[ch('0')]),
        Action::Move {
            count: 1,
            motion: Motion::LineStart
        }
    );
}

#[test]
fn zero_after_digit_is_a_digit() {
    // `10j` — the `0` extends the count, doesn't fire LineStart.
    assert_eq!(
        final_action(&[ch('1'), ch('0'), ch('j')]),
        Action::Move {
            count: 10,
            motion: Motion::Down
        }
    );
}

#[test]
fn three_digit_count() {
    assert_eq!(
        final_action(&[ch('1'), ch('2'), ch('3'), ch('j')]),
        Action::Move {
            count: 123,
            motion: Motion::Down
        }
    );
}

// ── operators ───────────────────────────────────────────────────────

#[test]
fn dw_deletes_word_forward() {
    let r = feed_seq(&[ch('d'), ch('w')]);
    assert_eq!(r[0], Resolution::Pending);
    assert_eq!(
        r[1],
        Resolution::Action(Action::Operate {
            count: 1,
            op: Operator::Delete,
            motion: Motion::WordForward
        })
    );
}

#[test]
fn yw_yanks_word() {
    assert_eq!(
        final_action(&[ch('y'), ch('w')]),
        Action::Operate {
            count: 1,
            op: Operator::Yank,
            motion: Motion::WordForward
        }
    );
}

#[test]
fn cw_changes_word() {
    assert_eq!(
        final_action(&[ch('c'), ch('w')]),
        Action::Operate {
            count: 1,
            op: Operator::Change,
            motion: Motion::WordForward
        }
    );
}

#[test]
fn dd_operates_on_current_line() {
    assert_eq!(
        final_action(&[ch('d'), ch('d')]),
        Action::Operate {
            count: 1,
            op: Operator::Delete,
            motion: Motion::CurrentLine
        }
    );
}

#[test]
fn yy_operates_on_current_line() {
    assert_eq!(
        final_action(&[ch('y'), ch('y')]),
        Action::Operate {
            count: 1,
            op: Operator::Yank,
            motion: Motion::CurrentLine
        }
    );
}

#[test]
fn cc_operates_on_current_line() {
    assert_eq!(
        final_action(&[ch('c'), ch('c')]),
        Action::Operate {
            count: 1,
            op: Operator::Change,
            motion: Motion::CurrentLine
        }
    );
}

#[test]
fn d_then_y_cancels() {
    // Conflicting operator mid-command.
    let r = feed_seq(&[ch('d'), ch('y')]);
    assert_eq!(r[0], Resolution::Pending);
    assert_eq!(r[1], Resolution::Cancel);
}

// ── operator + count + motion ───────────────────────────────────────

#[test]
fn d3w_deletes_three_words() {
    assert_eq!(
        final_action(&[ch('d'), ch('3'), ch('w')]),
        Action::Operate {
            count: 3,
            op: Operator::Delete,
            motion: Motion::WordForward
        }
    );
}

#[test]
fn pre_count_operator_motion() {
    // `2dw` — pre-count multiplies into the operator's effect.
    assert_eq!(
        final_action(&[ch('2'), ch('d'), ch('w')]),
        Action::Operate {
            count: 2,
            op: Operator::Delete,
            motion: Motion::WordForward
        }
    );
}

#[test]
fn pre_count_operator_post_count_motion_multiplies() {
    // `2d3w` — counts multiply (vim semantics): delete 6 words.
    assert_eq!(
        final_action(&[ch('2'), ch('d'), ch('3'), ch('w')]),
        Action::Operate {
            count: 6,
            op: Operator::Delete,
            motion: Motion::WordForward
        }
    );
}

#[test]
fn count_then_dd() {
    // `3dd` — delete 3 lines.
    assert_eq!(
        final_action(&[ch('3'), ch('d'), ch('d')]),
        Action::Operate {
            count: 3,
            op: Operator::Delete,
            motion: Motion::CurrentLine
        }
    );
}

#[test]
fn d_zero_targets_line_start() {
    // `d0` — delete to line start.
    assert_eq!(
        final_action(&[ch('d'), ch('0')]),
        Action::Operate {
            count: 1,
            op: Operator::Delete,
            motion: Motion::LineStart
        }
    );
}

#[test]
fn d_dollar_targets_line_end() {
    assert_eq!(
        final_action(&[ch('d'), ch('$')]),
        Action::Operate {
            count: 1,
            op: Operator::Delete,
            motion: Motion::LineEnd
        }
    );
}

#[test]
fn d_gg_targets_doc_start() {
    let r = feed_seq(&[ch('d'), ch('g'), ch('g')]);
    assert_eq!(r[0], Resolution::Pending);
    assert_eq!(r[1], Resolution::Pending);
    assert_eq!(
        r[2],
        Resolution::Action(Action::Operate {
            count: 1,
            op: Operator::Delete,
            motion: Motion::DocStart
        })
    );
}

// ── pending display ─────────────────────────────────────────────────

#[test]
fn pending_display_empty_initially() {
    let r = Resolver::new();
    assert_eq!(r.pending_display(), "");
}

#[test]
fn pending_display_renders_in_progress_command() {
    let mut r = Resolver::new();
    r.feed(ch('1'));
    r.feed(ch('2'));
    r.feed(ch('d'));
    r.feed(ch('3'));
    assert_eq!(r.pending_display(), "12d3");
    r.feed(ch('w'));
    assert_eq!(r.pending_display(), "");
}

#[test]
fn pending_display_g_partial() {
    let mut r = Resolver::new();
    r.feed(ch('g'));
    assert_eq!(r.pending_display(), "g");
}

// ── reset behaviour ─────────────────────────────────────────────────

#[test]
fn resolver_clean_after_action() {
    let mut r = Resolver::new();
    r.feed(ch('5'));
    r.feed(ch('j'));
    // After completion, fresh keys start a new command.
    assert_eq!(
        r.feed(ch('k')),
        Resolution::Action(Action::Move {
            count: 1,
            motion: Motion::Up
        })
    );
}

/// Helper: extract the motion from a Move/Operate action for arrow-key tests.
fn to_motion(a: Action) -> Option<Motion> {
    match a {
        Action::Move { motion, .. } | Action::Operate { motion, .. } => Some(motion),
        _ => None,
    }
}

