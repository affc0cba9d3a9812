//! Properties of the library that span several calls or hold of every
//! state: the reducer's navigation and scrolling, the key resolver, and the
//! layout of the diff view.

use vstd::prelude::*;

use crate::cmd::Cmd;
use crate::msg::{JumpDirection, Msg, SelectionJump};
use crate::reducer::{last_line, reduce_rel, section_target};
use crate::state::{Screen, State};
use crate::action::{Action as KeyAction, Motion, Operator};
use crate::keys::{KeyCode, KeyEvent};
use crate::resolver::{display_of, feed_step, motion_of, operator_of, PendingCommand, Resolution};
use crate::diff::placement::{
    files_thread_lines, lemma_anchor_row_in, lemma_anchors_below, lemma_lines_placed, lemma_merged_at,
    lemma_merged_len, lemma_pending_placed, thread_rows_fit,
};
use crate::diff::threads::{anchor_row, filler_row, insert_at, merged, note_row, notes_at, pending, thread_notes};
use crate::diff::split::{self, SplitRow};
use crate::diff::unified::{files_rows, header_row, lemma_files_rows_len, lemma_header_row_at, rendered};
use crate::diff::{
    body_lines, diff_anchors, diff_lines, file_height, header_index, lemma_rows_before_monotone,
    has_patch_text, header_line, heights_before,
    patch_lines, plain_height, rows_before, sat32, drawn_before, files_anchors, split_anchors,
    thread_anchor, digits_value,
};
use crate::pulls::{FilePatch, ReviewThread};
use crate::style::Style;
use crate::text::lines;

verus! {

/// Opening the selected PR and going back returns to the same list, with
/// the selection preserved.
pub proof fn law_open_then_back_restores_list(
    s0: State,
    s1: State,
    c1: Seq<Cmd>,
    s2: State,
    c2: Seq<Cmd>,
)
    requires
        s0.screen matches Screen::PrList { items, selected, .. } && selected < items.len(),
        reduce_rel(s0, Msg::OpenSelectedPr, s1, c1),
        reduce_rel(s1, Msg::Back, s2, c2),
    ensures
        s2 == (State { nav_stack: s2.nav_stack, ..s0 }),
        s2.nav_stack@ == s0.nav_stack@,
{
    assert(s1.nav_stack@.drop_last() =~= s0.nav_stack@);
}

/// Opening the diff and going back returns to the same PR detail screen;
/// only a prefetched diff, consumed by the opening, is gone.
pub proof fn law_open_diff_then_back_restores_detail(
    s0: State,
    s1: State,
    c1: Seq<Cmd>,
    s2: State,
    c2: Seq<Cmd>,
)
    requires
        s0.screen is PrDetail,
        reduce_rel(s0, Msg::OpenDiff, s1, c1),
        reduce_rel(s1, Msg::Back, s2, c2),
    ensures
        s2.nav_stack@ == s0.nav_stack@,
        match s0.screen {
            Screen::PrDetail { repo, detail, scroll, total_lines, review_offsets, .. } => s2 == (
            State {
                screen: Screen::PrDetail {
                    repo,
                    detail,
                    scroll,
                    total_lines,
                    review_offsets,
                    prefetched_diff: None,
                },
                nav_stack: s2.nav_stack,
                ..s0
            }),
            _ => false,
        },
{
    assert(s1.nav_stack@.drop_last() =~= s0.nav_stack@);
}

/// After a scroll move or a first/last jump in a scrolling screen, the
/// scroll position lies within the content: at most `total_lines - 1`
/// (and `0` for empty content).
pub proof fn law_scroll_stays_in_content(s0: State, msg: Msg, s1: State, cmds: Seq<Cmd>)
    requires
        msg is SelectionDelta || msg is SelectionJump,
        reduce_rel(s0, msg, s1, cmds),
    ensures
        match s1.screen {
            Screen::PrDetail { scroll, total_lines, .. } => s0.screen is PrDetail ==> scroll
                <= last_line(total_lines),
            Screen::DiffView { scroll, total_lines, .. } => s0.screen is DiffView ==> scroll
                <= last_line(total_lines),
            _ => true,
        },
{
}

/// A selection move in a non-empty list keeps the selection on an item.
pub proof fn law_selection_stays_in_list(s0: State, delta: i32, s1: State, cmds: Seq<Cmd>)
    requires
        s0.screen matches Screen::PrList { items, .. } && items.len() > 0,
        reduce_rel(s0, Msg::SelectionDelta(delta), s1, cmds),
    ensures
        s1.screen matches Screen::PrList { items, selected, .. } && selected < items.len(),
{
}

/// While a next-page fetch is in flight, selection moves fetch nothing.
pub proof fn law_one_page_fetch_in_flight(s0: State, delta: i32, s1: State, cmds: Seq<Cmd>)
    requires
        s0.screen matches Screen::PrList { loading_next, .. } && loading_next,
        reduce_rel(s0, Msg::SelectionDelta(delta), s1, cmds),
    ensures
        cmds.len() == 0,
{
}

/// A PR list fetch is only requested once auth has resolved: a resolved
/// repo emits the first-page fetch exactly when authenticated.
pub proof fn law_fetch_waits_for_auth(s0: State, msg: Msg, s1: State, cmds: Seq<Cmd>)
    requires
        msg is RepoResolved,
        reduce_rel(s0, msg, s1, cmds),
    ensures
        cmds.len() > 0 <==> s0.auth is Authenticated,
{
}

/// A detail response for another PR than the one being loaded leaves the
/// state unchanged and requests nothing.
pub proof fn law_stale_detail_is_dropped(s0: State, msg: Msg, s1: State, cmds: Seq<Cmd>)
    requires
        msg matches Msg::PrDetailReady { detail, .. } && (s0.screen matches Screen::LoadingDetail {
            number,
            ..
        } ==> detail.number != number),
        reduce_rel(s0, msg, s1, cmds),
    ensures
        s1 == s0,
        cmds.len() == 0,
{
}

/// A diff response for another PR than the one on screen changes nothing.
pub proof fn law_stale_diff_is_dropped(s0: State, msg: Msg, s1: State, cmds: Seq<Cmd>)
    requires
        msg matches Msg::DiffReady { repo, number, .. } && match s0.screen {
            Screen::LoadingDiff { repo: cur, number: n } => !(cur.same_repo(repo) && n == number),
            Screen::PrDetail { repo: cur, detail, .. } => !(cur.same_repo(repo) && detail.number
                == number),
            _ => true,
        },
        reduce_rel(s0, msg, s1, cmds),
    ensures
        s1 == s0,
        cmds.len() == 0,
{
}

/// Toggling the diff layout twice gives the original state back.
pub proof fn law_toggle_twice_is_identity(
    s0: State,
    s1: State,
    c1: Seq<Cmd>,
    s2: State,
    c2: Seq<Cmd>,
)
    requires
        reduce_rel(s0, Msg::ToggleDiffViewMode, s1, c1),
        reduce_rel(s1, Msg::ToggleDiffViewMode, s2, c2),
    ensures
        s2 == s0,
{
}

/// Only `Quit` changes whether the application should quit, and `Quit`
/// requests nothing.
pub proof fn law_only_quit_quits(s0: State, msg: Msg, s1: State, cmds: Seq<Cmd>)
    requires
        reduce_rel(s0, msg, s1, cmds),
    ensures
        msg is Quit ==> s1.should_quit && cmds.len() == 0,
        !(msg is Quit) ==> s1.should_quit == s0.should_quit,
{
}

/// The navigation stack grows only by opening a PR or its diff, shrinks
/// only by `Back`, and changes by at most one screen per message; errors
/// keep it, so `Back` recovers from them.
pub proof fn law_nav_stack_discipline(s0: State, msg: Msg, s1: State, cmds: Seq<Cmd>)
    requires
        reduce_rel(s0, msg, s1, cmds),
    ensures
        s1.nav_stack@.len() == s0.nav_stack@.len() || (s1.nav_stack@.len() == s0.nav_stack@.len()
            + 1 && (msg is OpenSelectedPr || msg is OpenDiff)) || (s1.nav_stack@.len()
            == s0.nav_stack@.len() - 1 && msg is Back),
        !(msg is OpenSelectedPr || msg is OpenDiff || msg is Back) ==> s1.nav_stack
            == s0.nav_stack,
{
}

/// A section jump lands exactly on a section start: a file header in the
/// diff view, a review in the PR detail (whether or not the diff has been
/// prefetched).
pub proof fn law_section_jump_lands_on_section(
    s0: State,
    count: usize,
    direction: JumpDirection,
    s1: State,
    cmds: Seq<Cmd>,
)
    requires
        (s0.screen matches Screen::DiffView { file_offsets, .. } && file_offsets.len() > 0)
            || (s0.screen matches Screen::PrDetail { review_offsets, .. } && review_offsets.len()
            > 0),
        reduce_rel(s0, Msg::SectionJump { count, direction }, s1, cmds),
    ensures
        cmds.len() == 0,
        s0.screen is DiffView ==> (s1.screen matches Screen::DiffView { scroll, file_offsets, .. }
            && exists|i: int| 0 <= i < file_offsets.len() && file_offsets@[i] == scroll),
        s0.screen is PrDetail ==> (s1.screen matches Screen::PrDetail { scroll, review_offsets, .. }
            && exists|i: int| 0 <= i < review_offsets.len() && review_offsets@[i] == scroll),
{
    assert(s1.screen == crate::reducer::section_jumped_screen(s0.screen, count, direction));
    match s0.screen {
        Screen::DiffView { scroll, file_offsets, .. } => {
            let t = section_target(file_offsets@, scroll, count as nat, direction);
            crate::reducer::lemma_section_target_in_range(file_offsets@, scroll, count as nat, direction);
            if let Screen::DiffView { scroll: s, file_offsets: fo, .. } = s1.screen {
                assert(fo == file_offsets);
                assert(0 <= t < fo.len() && fo@[t] == s);
            }
        },
        Screen::PrDetail { scroll, review_offsets, .. } => {
            let t = section_target(review_offsets@, scroll, count as nat, direction);
            crate::reducer::lemma_section_target_in_range(review_offsets@, scroll, count as nat, direction);
            if let Screen::PrDetail { scroll: s, review_offsets: ro, .. } = s1.screen {
                assert(ro == review_offsets);
                assert(0 <= t < ro.len() && ro@[t] == s);
            }
        },
        _ => {},
    }
}

} // verus!

verus! {

// ── key resolver ────────────────────────────────────────────────────────


/// Whenever a key resolves to an action or cancels, the resolver is left
/// empty, so the next key starts a new command.
pub proof fn law_resolved_key_leaves_resolver_empty(p: PendingCommand, key: KeyEvent)
    ensures
        (feed_step(p, key).1 is Action || feed_step(p, key).1 is Cancel)
            ==> feed_step(p, key).0.is_empty_spec(),
{
}

/// Ctrl+C quits from any state and clears the pending command.
pub proof fn law_ctrl_c_always_quits(p: PendingCommand, key: KeyEvent)
    requires
        key.code == KeyCode::Char('c'),
        key.modifiers.control,
    ensures
        feed_step(p, key) == (PendingCommand::empty(), Resolution::Action(KeyAction::Quit)),
{
}

/// Esc clears any pending command: it cancels a partial one and is
/// unbound on an empty resolver.
pub proof fn law_esc_resets(p: PendingCommand, key: KeyEvent)
    requires
        key.code == KeyCode::Esc,
    ensures
        feed_step(p, key).0 == PendingCommand::empty(),
        feed_step(p, key).1 == if p.is_empty_spec() {
            Resolution::Action(KeyAction::Unbound)
        } else {
            Resolution::Cancel
        },
{
}

/// `<a><op><b><motion>` operates `a * b` times on the motion.
pub proof fn law_counts_multiply(a: usize, op: Operator, b: usize, key: KeyEvent, m: Motion)
    requires
        motion_of(key.code) == Some(m),
        a * b <= usize::MAX,
    ensures
        feed_step(
            PendingCommand { count1: Some(a), operator: Some(op), count2: Some(b), g_partial: false },
            key,
        ) == (
            PendingCommand::empty(),
            Resolution::Action(KeyAction::Operate { count: (a * b) as usize, op, motion: m }),
        ),
{
}

/// A digit extends the count being typed: `n` becomes `10 * n + d`.
pub proof fn law_digit_extends_count(p: PendingCommand, key: KeyEvent, c: char)
    requires
        key.code == KeyCode::Char(c),
        '1' <= c <= '9',
        !p.g_partial,
        p.operator is None,
        p.count1 matches Some(n) ==> n * 10 + (c as int - '0' as int) <= usize::MAX,
    ensures
        feed_step(p, key).1 == Resolution::Pending,
        feed_step(p, key).0.count1 == Some(
            (match p.count1 {
                Some(n) => n * 10,
                None => 0,
            } + (c as int - '0' as int)) as usize,
        ),
{
}

proof fn lemma_decimal_append(n: nat, d: nat)
    requires
        n > 0,
        d < 10,
    ensures
        crate::text::decimal(n * 10 + d) == crate::text::decimal(n).push(crate::text::digit_char(d)),
{
    let m = n * 10 + d;
    assert(m / 10 == n && m % 10 == d) by (nonlinear_arith)
        requires
            m == n * 10 + d,
            d < 10,
    ;
    assert(m >= 10) by (nonlinear_arith)
        requires
            m == n * 10 + d,
            n > 0,
    ;
}

/// Typing a digit of a count adds exactly that digit to the status-bar
/// display, so the display shows the count's digits as they were typed
/// (counts built by typing are never `0`: a leading `0` is the line-start
/// motion).
pub proof fn law_display_shows_typed_digits(p: PendingCommand, key: KeyEvent, c: char)
    requires
        key.code == KeyCode::Char(c),
        '0' <= c <= '9',
        !p.g_partial,
        p.operator is None ==> p.count2 is None,
        (if p.operator is None {
            p.count1
        } else {
            p.count2
        }) matches Some(n) ==> 0 < n && n * 10 + (c as int - '0' as int) <= usize::MAX,
        (if p.operator is None {
            p.count1
        } else {
            p.count2
        }) is None ==> c != '0',
    ensures
        feed_step(p, key).1 == Resolution::Pending,
        display_of(feed_step(p, key).0) == display_of(p) + seq![c],
{
    let d = (c as int - '0' as int) as nat;
    assert(crate::text::digit_char(d) == c);
    let target = if p.operator is None {
        p.count1
    } else {
        p.count2
    };
    match target {
        Some(n) => {
            lemma_decimal_append(n as nat, d);
        },
        None => {
            assert(crate::text::decimal(d) == seq![c]);
        },
    }
}

/// The status bar shows nothing exactly when no command is pending.
pub proof fn law_display_empty_iff_idle(p: PendingCommand)
    ensures
        (display_of(p).len() == 0) == p.is_empty_spec(),
{
    if let Some(c) = p.count1 {
        crate::text::lemma_decimal_nonempty(c as nat);
    }
    if let Some(c) = p.count2 {
        crate::text::lemma_decimal_nonempty(c as nat);
    }
}

} // verus!

verus! {

proof fn lemma_no_pending(base: Seq<Seq<(Seq<char>, Style)>>, j: int)
    requires
        0 <= j <= base.len(),
    ensures
        merged(base, Seq::empty(), j) == base.take(j),
    decreases j,
{
    if j > 0 {
        lemma_no_pending(base, j - 1);
        assert(notes_at(Seq::empty(), j) =~= Seq::<(Seq<char>, Seq<char>, bool)>::empty());
        assert(base.take(j) =~= base.take(j - 1) + seq![base[j - 1]]);
    }
}

proof fn lemma_pending_none(
    anchors: Seq<(Seq<char>, u32, int)>,
    ts: Seq<ReviewThread>,
    n: int,
    k: int,
)
    requires
        ts.len() == 0,
        k <= 0,
    ensures
        pending(anchors, ts, n, k) == Seq::<(int, (Seq<char>, Seq<char>, bool))>::empty(),
{
}

/// Without review threads the unified view is exactly the files' rows.
pub proof fn law_no_threads_no_pseudo_lines(files: Seq<FilePatch>)
    ensures
        rendered(files, Seq::empty()) == files_rows(files, files.len() as int),
{
    let base = files_rows(files, files.len() as int);
    lemma_pending_none(crate::diff::diff_anchors(files), Seq::empty(), base.len() as int, 0);
    lemma_no_pending(base, base.len() as int);
    assert(base.take(base.len() as int) =~= base);
}

/// No patch has more than `u32::MAX` lines (the layout counts them in
/// `u32`).
pub open spec fn counts_fit(files: Seq<FilePatch>) -> bool {
    forall|i: int| 0 <= i < files.len() ==> (#[trigger] patch_lines(files[i])).len() <= u32::MAX
}

proof fn lemma_heights_match_rows(files: Seq<FilePatch>, i: int)
    requires
        0 <= i <= files.len(),
        counts_fit(files),
    ensures
        heights_before(files, Seq::empty(), i) + i == rows_before(files, i) + if i > 0 {
            1int
        } else {
            0
        },
    decreases i,
{
    if i > 0 {
        lemma_heights_match_rows(files, i - 1);
        let f = files[i - 1];
        assert(patch_lines(f).len() <= u32::MAX);
        assert(file_height(files, i - 1, Seq::empty()) == plain_height(f));
    }
}

/// The thread lines the layout counts for `files[..i]` are its heights
/// with threads less those without.
proof fn lemma_heights_with_threads(files: Seq<FilePatch>, ts: Seq<ReviewThread>, i: int)
    requires
        0 <= i <= files.len(),
    ensures
        heights_before(files, ts, i) == heights_before(files, Seq::empty(), i) + files_thread_lines(
            files,
            ts,
            i,
            ts.len() as int,
        ),
    decreases i,
{
    if i > 0 {
        lemma_heights_with_threads(files, ts, i - 1);
        let f = files[i - 1];
        assert(file_height(files, i - 1, Seq::empty()) == 2 + body_lines(f));
    }
}

/// The offset the layout computes for file `i` is the row of its header in
/// the unified view with its review threads inserted, while no count
/// saturates.
pub proof fn law_offsets_point_at_headers(files: Seq<FilePatch>, ts: Seq<ReviewThread>, i: int)
    requires
        0 <= i < files.len(),
        counts_fit(files),
        thread_rows_fit(ts),
    ensures
        header_line(files, ts, i) < rendered(files, ts).len(),
        rendered(files, ts)[header_line(files, ts, i)] == header_row(files[i]),
{
    let base = files_rows(files, files.len() as int);
    lemma_files_rows_len(files, files.len() as int);
    let n = base.len() as int;
    let anchors = diff_anchors(files);
    let p = pending(anchors, ts, n, ts.len() as int);
    lemma_heights_with_threads(files, ts, i);
    lemma_heights_match_rows(files, i);
    lemma_lines_placed(files, ts, i, ts.len() as int);
    lemma_pending_placed(anchors, ts, n, ts.len() as int, header_index(files, i));
    lemma_header_row_at(files, i);
    lemma_rows_before_monotone(files, 0, i);
    lemma_merged_at(base, p, n, header_index(files, i));
}

/// The layout's header lines start at `0` and strictly increase from file
/// to file.
pub proof fn law_offsets_increase(files: Seq<FilePatch>, ts: Seq<ReviewThread>, i: int)
    requires
        0 <= i,
        i + 1 < files.len(),
    ensures
        header_line(files, ts, 0) == 0,
        header_line(files, ts, i) < header_line(files, ts, i + 1),
{
    crate::diff::lemma_thread_lines_nonneg(files, i, ts, ts.len() as int);
}

/// The total the layout computes is the number of rows of the unified
/// view with its review threads inserted (same conditions).
pub proof fn law_total_matches_rows(files: Seq<FilePatch>, ts: Seq<ReviewThread>)
    requires
        counts_fit(files),
        thread_rows_fit(ts),
    ensures
        diff_lines(files, ts) == rendered(files, ts).len(),
{
    let base = files_rows(files, files.len() as int);
    lemma_files_rows_len(files, files.len() as int);
    let n = base.len() as int;
    let anchors = diff_anchors(files);
    let p = pending(anchors, ts, n, ts.len() as int);
    lemma_merged_len(base, p, n);
    lemma_pending_placed(anchors, ts, n, ts.len() as int, n);
    lemma_lines_placed(files, ts, files.len() as int, ts.len() as int);
    lemma_heights_with_threads(files, ts, files.len() as int);
    lemma_heights_match_rows(files, files.len() as int);
}

} // verus!

verus! {

// ── where one thread's comments go ──────────────────────────────────────

proof fn lemma_notes_at_block(notes: Seq<(Seq<char>, Seq<char>, bool)>, a: int, j: int)
    ensures
        notes_at(notes.map_values(|x: (Seq<char>, Seq<char>, bool)| (a, x)), j) == if j == a {
            notes
        } else {
            Seq::empty()
        },
    decreases notes.len(),
{
    if notes.len() > 0 {
        let q = notes.map_values(|x: (Seq<char>, Seq<char>, bool)| (a, x));
        assert(q.drop_last() =~= notes.drop_last().map_values(
            |x: (Seq<char>, Seq<char>, bool)| (a, x),
        ));
        lemma_notes_at_block(notes.drop_last(), a, j);
        if j == a {
            assert(notes =~= notes.drop_last() + seq![notes.last()]);
        }
    } else {
        assert(notes.map_values(|x: (Seq<char>, Seq<char>, bool)| (a, x)) =~= Seq::<
            (int, (Seq<char>, Seq<char>, bool)),
        >::empty());
    }
}

proof fn lemma_merged_block(
    base: Seq<Seq<(Seq<char>, Style)>>,
    notes: Seq<(Seq<char>, Seq<char>, bool)>,
    a: int,
    j: int,
)
    requires
        1 <= a <= base.len(),
        0 <= j <= base.len(),
    ensures
        merged(base, notes.map_values(|x: (Seq<char>, Seq<char>, bool)| (a, x)), j) == if j < a {
            base.take(j)
        } else {
            base.take(a) + notes.map_values(|x: (Seq<char>, Seq<char>, bool)| note_row(x))
                + base.subrange(a, j)
        },
    decreases j,
{
    let p = notes.map_values(|x: (Seq<char>, Seq<char>, bool)| (a, x));
    if j == 0 {
        assert(base.take(0) =~= Seq::<Seq<(Seq<char>, Style)>>::empty());
    } else {
        lemma_merged_block(base, notes, a, j - 1);
        lemma_notes_at_block(notes, a, j);
        let nr = notes.map_values(|x: (Seq<char>, Seq<char>, bool)| note_row(x));
        if j < a {
            assert(notes_at(p, j).map_values(|x: (Seq<char>, Seq<char>, bool)| note_row(x)) =~= Seq::<
                Seq<(Seq<char>, Style)>,
            >::empty());
            assert(base.take(j) =~= base.take(j - 1) + seq![base[j - 1]]);
        } else if j == a {
            assert(base.take(j) =~= base.take(j - 1) + seq![base[j - 1]]);
            assert(base.subrange(a, j) =~= Seq::<Seq<(Seq<char>, Style)>>::empty());
        } else {
            assert(notes_at(p, j).map_values(|x: (Seq<char>, Seq<char>, bool)| note_row(x)) =~= Seq::<
                Seq<(Seq<char>, Style)>,
            >::empty());
            assert(base.subrange(a, j) =~= base.subrange(a, j - 1) + seq![base[j - 1]]);
        }
    }
}

proof fn lemma_split_notes_block(
    base: Seq<SplitRow>,
    notes: Seq<(Seq<char>, Seq<char>, bool)>,
    a: int,
    j: int,
)
    requires
        1 <= a <= base.len(),
        0 <= j <= base.len(),
    ensures
        split::merged(base, notes.map_values(|x: (Seq<char>, Seq<char>, bool)| (a, x)), j) == if j
            < a {
            base.take(j)
        } else {
            base.take(a) + notes.map_values(
                |x: (Seq<char>, Seq<char>, bool)| (filler_row(), note_row(x)),
            ) + base.subrange(a, j)
        },
    decreases j,
{
    let p = notes.map_values(|x: (Seq<char>, Seq<char>, bool)| (a, x));
    if j == 0 {
        assert(base.take(0) =~= Seq::<SplitRow>::empty());
    } else {
        lemma_split_notes_block(base, notes, a, j - 1);
        lemma_notes_at_block(notes, a, j);
        if j < a {
            assert(notes_at(p, j).map_values(
                |x: (Seq<char>, Seq<char>, bool)| (filler_row(), note_row(x)),
            ) =~= Seq::<SplitRow>::empty());
            assert(base.take(j) =~= base.take(j - 1) + seq![base[j - 1]]);
        } else if j == a {
            assert(base.take(j) =~= base.take(j - 1) + seq![base[j - 1]]);
            assert(base.subrange(a, j) =~= Seq::<SplitRow>::empty());
        } else {
            assert(notes_at(p, j).map_values(
                |x: (Seq<char>, Seq<char>, bool)| (filler_row(), note_row(x)),
            ) =~= Seq::<SplitRow>::empty());
            assert(base.subrange(a, j) =~= base.subrange(a, j - 1) + seq![base[j - 1]]);
        }
    }
}

proof fn lemma_split_no_notes(base: Seq<SplitRow>, j: int)
    requires
        0 <= j <= base.len(),
    ensures
        split::merged(base, Seq::empty(), j) == base.take(j),
    decreases j,
{
    if j > 0 {
        lemma_split_no_notes(base, j - 1);
        assert(notes_at(Seq::empty(), j) =~= Seq::<(Seq<char>, Seq<char>, bool)>::empty());
        assert(base.take(j) =~= base.take(j - 1) + seq![base[j - 1]]);
    }
}

/// One current thread's pseudo-lines go directly below the first row of
/// the unified view that shows its new-file line of its path (see
/// [`thread_anchor`]), and nowhere else; a thread no row shows adds
/// nothing.
pub proof fn law_thread_follows_its_row(files: Seq<FilePatch>, t: ReviewThread)
    ensures
        thread_anchor(files, t) matches Some(r) ==> rendered(files, seq![t]) == files_rows(
            files,
            files.len() as int,
        ).take(r + 1) + thread_notes(t).map_values(
            |x: (Seq<char>, Seq<char>, bool)| note_row(x),
        ) + files_rows(files, files.len() as int).skip(r + 1),
        thread_anchor(files, t) is None ==> rendered(files, seq![t]) == files_rows(
            files,
            files.len() as int,
        ),
{
    let base = files_rows(files, files.len() as int);
    lemma_files_rows_len(files, files.len() as int);
    let n = base.len() as int;
    let anchors = diff_anchors(files);
    let ts = seq![t];
    assert(ts[0] == t);
    assert(pending(anchors, ts, n, 0) =~= Seq::<(int, (Seq<char>, Seq<char>, bool))>::empty());
    match thread_anchor(files, t) {
        Some(r) => {
            lemma_anchors_below(files, 0, false);
            crate::diff::lemma_drawn_before(files, files.len() as int);
            lemma_anchor_row_in(anchors, t.path@, t.line->0);
            assert(files_anchors(files, 0, drawn_before(files, 0, false), false) == anchors);
            assert(0 <= r < n);
            assert(insert_at(anchors, t, n) == Some(r + 1));
            assert(pending(anchors, ts, n, 1) =~= thread_notes(t).map_values(
                |x: (Seq<char>, Seq<char>, bool)| (r + 1, x),
            ));
            lemma_merged_block(base, thread_notes(t), r + 1, n);
            assert(base.subrange(r + 1, n) =~= base.skip(r + 1));
        },
        None => {
            assert(insert_at(anchors, t, n) is None);
            assert(pending(anchors, ts, n, 1) =~= Seq::<(int, (Seq<char>, Seq<char>, bool))>::empty());
            lemma_no_pending(base, n);
            assert(base.take(n) =~= base);
        },
    }
}

/// The row of the split view below which a current thread goes: the first
/// row whose right side shows its new-file line of its path.
pub open spec fn split_thread_anchor(files: Seq<FilePatch>, t: ReviewThread) -> Option<int> {
    match t.line {
        Some(l) => anchor_row(split_anchors(files), t.path@, l),
        None => None,
    }
}

/// One current thread's `(filler, pseudo-line)` rows go directly below the
/// first split row whose right side shows its new-file line of its path,
/// and nowhere else; a thread no row shows adds nothing.
pub proof fn law_split_thread_follows_its_row(files: Seq<FilePatch>, t: ReviewThread)
    ensures
        split_thread_anchor(files, t) matches Some(r) ==> split::rendered(files, seq![t])
            == split::files_rows(files, files.len() as int).take(r + 1) + thread_notes(t).map_values(
            |x: (Seq<char>, Seq<char>, bool)| (filler_row(), note_row(x)),
        ) + split::files_rows(files, files.len() as int).skip(r + 1),
        split_thread_anchor(files, t) is None ==> split::rendered(files, seq![t]) == split::files_rows(
            files,
            files.len() as int,
        ),
{
    let base = split::files_rows(files, files.len() as int);
    split::lemma_rows_match_tags(files, files.len() as int);
    let n = base.len() as int;
    let anchors = split_anchors(files);
    let ts = seq![t];
    assert(ts[0] == t);
    assert(pending(anchors, ts, n, 0) =~= Seq::<(int, (Seq<char>, Seq<char>, bool))>::empty());
    match split_thread_anchor(files, t) {
        Some(r) => {
            lemma_anchors_below(files, 0, true);
            lemma_anchor_row_in(anchors, t.path@, t.line->0);
            assert(files_anchors(files, 0, drawn_before(files, 0, true), true) == anchors);
            assert(0 <= r < n);
            assert(insert_at(anchors, t, n) == Some(r + 1));
            assert(pending(anchors, ts, n, 1) =~= thread_notes(t).map_values(
                |x: (Seq<char>, Seq<char>, bool)| (r + 1, x),
            ));
            lemma_split_notes_block(base, thread_notes(t), r + 1, n);
            assert(base.subrange(r + 1, n) =~= base.skip(r + 1));
        },
        None => {
            assert(insert_at(anchors, t, n) is None);
            assert(pending(anchors, ts, n, 1) =~= Seq::<(int, (Seq<char>, Seq<char>, bool))>::empty());
            lemma_split_no_notes(base, n);
            assert(base.take(n) =~= base);
        },
    }
}

} // verus!

verus! {

// ── the status-bar display over typed keys ──────────────────────────────

/// The pending command after feeding `keys` in turn from `p`.
pub open spec fn feed_all(p: PendingCommand, keys: Seq<KeyEvent>) -> PendingCommand
    decreases keys.len(),
{
    if keys.len() == 0 {
        p
    } else {
        feed_step(feed_all(p, keys.drop_last()), keys.last()).0
    }
}

pub open spec fn key_char(k: KeyEvent) -> char {
    match k.code {
        KeyCode::Char(c) => c,
        _ => ' ',
    }
}

/// The characters of the keys typed.
pub open spec fn typed(keys: Seq<KeyEvent>) -> Seq<char> {
    keys.map_values(|k: KeyEvent| key_char(k))
}

/// Keys typing a count: digits, the first not `0`.
pub open spec fn count_keys(keys: Seq<KeyEvent>) -> bool {
    &&& keys.len() > 0
    &&& forall|i: int|
        0 <= i < keys.len() ==> (#[trigger] keys[i]).code is Char && '0' <= key_char(keys[i]) <= '9'
    &&& key_char(keys[0]) != '0'
}

/// The count being typed: before the operator, or after it.
pub open spec fn target_of(p: PendingCommand) -> Option<usize> {
    if p.operator is None {
        p.count1
    } else {
        p.count2
    }
}

pub open spec fn with_target(p: PendingCommand, v: int) -> PendingCommand {
    if p.operator is None {
        PendingCommand { count1: Some(v as usize), ..p }
    } else {
        PendingCommand { count2: Some(v as usize), ..p }
    }
}

proof fn lemma_feed_all_concat(p: PendingCommand, a: Seq<KeyEvent>, b: Seq<KeyEvent>)
    ensures
        feed_all(p, a + b) == feed_all(feed_all(p, a), b),
    decreases b.len(),
{
    if b.len() == 0 {
        assert(a + b =~= a);
    } else {
        assert((a + b).drop_last() =~= a + b.drop_last());
        lemma_feed_all_concat(p, a, b.drop_last());
    }
}

proof fn lemma_prefix_value(s: Seq<char>, k: int)
    requires
        0 <= k <= s.len(),
        forall|i: int| 0 <= i < s.len() ==> '0' <= #[trigger] s[i] <= '9',
    ensures
        0 <= digits_value(s.take(k)) <= digits_value(s),
    decreases s.len(),
{
    if k == s.len() {
        assert(s.take(k) =~= s);
        if s.len() > 0 {
            lemma_prefix_value(s.drop_last(), k - 1);
            assert(s.drop_last().take(k - 1) =~= s.drop_last());
        }
    } else {
        lemma_prefix_value(s.drop_last(), k);
        lemma_prefix_value(s.drop_last(), s.len() - 1);
        assert(s.drop_last().take(k) =~= s.take(k));
        assert(s.drop_last().take(s.len() - 1) =~= s.drop_last());
    }
}

/// Typing a count shows its digits and sets the count being typed.
#[verifier::rlimit(50)]
proof fn lemma_count_run(p: PendingCommand, keys: Seq<KeyEvent>, k: int)
    requires
        count_keys(keys),
        1 <= k <= keys.len(),
        !p.g_partial,
        target_of(p) is None,
        p.operator is None ==> p.count2 is None,
        digits_value(typed(keys)) <= usize::MAX,
    ensures
        feed_all(p, keys.take(k)) == with_target(p, digits_value(typed(keys).take(k))),
        display_of(feed_all(p, keys.take(k))) == display_of(p) + typed(keys).take(k),
        0 < digits_value(typed(keys).take(k)) <= usize::MAX,
    decreases k,
{
    let cs = typed(keys);
    assert forall|i: int| 0 <= i < cs.len() implies '0' <= #[trigger] cs[i] <= '9' by {
        assert(keys[i].code is Char);
    }
    lemma_prefix_value(cs, k);
    let key = keys[k - 1];
    let c = key_char(key);
    assert(key.code is Char);
    assert(key.code == KeyCode::Char(c));
    assert(keys.take(k).drop_last() =~= keys.take(k - 1));
    assert(keys.take(k).last() == key);
    assert(cs.take(k).drop_last() =~= cs.take(k - 1));
    assert(cs.take(k).last() == c);
    if k == 1 {
        assert(keys.take(0) =~= Seq::<KeyEvent>::empty());
        assert(cs.take(0) =~= Seq::<char>::empty());
        assert(c != '0');
        law_display_shows_typed_digits(p, key, c);
        assert(cs.take(1) =~= seq![c]);
    } else {
        lemma_count_run(p, keys, k - 1);
        let q = feed_all(p, keys.take(k - 1));
        let v = digits_value(cs.take(k - 1));
        law_display_shows_typed_digits(q, key, c);
        assert(cs.take(k) =~= cs.take(k - 1).push(c));
    }
}

proof fn lemma_op_key(p: PendingCommand, key: KeyEvent)
    requires
        operator_of(key.code) is Some,
        !key.modifiers.control,
        !p.g_partial,
        p.operator is None,
        p.count2 is None,
    ensures
        feed_step(p, key).0 == (PendingCommand { operator: operator_of(key.code), ..p }),
        display_of(feed_step(p, key).0) == display_of(p) + seq![key_char(key)],
{
    let o = operator_of(key.code)->0;
    assert(key_char(key) == o.key_spec());
    assert(display_of(feed_step(p, key).0) =~= display_of(p) + seq![key_char(key)]);
}

proof fn lemma_g_key(p: PendingCommand, key: KeyEvent)
    requires
        key.code == KeyCode::Char('g'),
        !p.g_partial,
    ensures
        feed_step(p, key).0 == (PendingCommand { g_partial: true, ..p }),
        display_of(feed_step(p, key).0) == display_of(p) + seq!['g'],
{
    assert(display_of(feed_step(p, key).0) =~= display_of(p) + seq!['g']);
}

/// Typing a count, then an operator, a second count and `g` (each part
/// optional, in this order) from an empty resolver leaves the status bar
/// showing exactly the keys typed, while the counts fit in `usize`.
#[verifier::rlimit(60)]
pub proof fn law_display_shows_keys_typed(
    d1: Seq<KeyEvent>,
    op: Seq<KeyEvent>,
    d2: Seq<KeyEvent>,
    g: Seq<KeyEvent>,
)
    requires
        d1.len() > 0 ==> count_keys(d1) && digits_value(typed(d1)) <= usize::MAX,
        op.len() <= 1,
        op.len() == 1 ==> operator_of(op[0].code) is Some && !op[0].modifiers.control,
        d2.len() > 0 ==> op.len() == 1 && count_keys(d2) && digits_value(typed(d2)) <= usize::MAX,
        g.len() <= 1,
        g.len() == 1 ==> g[0].code == KeyCode::Char('g'),
    ensures
        display_of(feed_all(PendingCommand::empty(), d1 + op + d2 + g)) == typed(d1 + op + d2 + g),
{
    let e = PendingCommand::empty();
    lemma_feed_all_concat(e, d1, op);
    lemma_feed_all_concat(e, d1 + op, d2);
    lemma_feed_all_concat(e, d1 + op + d2, g);
    let p1 = feed_all(e, d1);
    if d1.len() > 0 {
        lemma_count_run(e, d1, d1.len() as int);
        assert(d1.take(d1.len() as int) =~= d1);
        assert(typed(d1).take(d1.len() as int) =~= typed(d1));
    }
    assert(display_of(e) =~= Seq::<char>::empty());
    assert(display_of(p1) == typed(d1));
    assert(p1.operator is None && p1.count2 is None && !p1.g_partial);
    let p2 = feed_all(p1, op);
    if op.len() == 1 {
        assert(op.drop_last() =~= Seq::<KeyEvent>::empty());
        assert(op.last() == op[0]);
        assert(feed_all(p1, op.drop_last()) == p1);
        lemma_op_key(p1, op[0]);
        assert(p2 == (PendingCommand { operator: operator_of(op[0].code), ..p1 }));
        assert(typed(op) =~= seq![key_char(op[0])]);
    } else {
        assert(op =~= Seq::<KeyEvent>::empty());
        assert(p2 == p1);
        assert(typed(op) =~= Seq::<char>::empty());
    }
    assert(display_of(p2) == typed(d1) + typed(op));
    assert(!p2.g_partial);
    let p3 = feed_all(p2, d2);
    if d2.len() > 0 {
        assert(target_of(p2) is None);
        lemma_count_run(p2, d2, d2.len() as int);
        assert(d2.take(d2.len() as int) =~= d2);
        assert(typed(d2).take(d2.len() as int) =~= typed(d2));
    } else {
        assert(d2 =~= Seq::<KeyEvent>::empty());
        assert(typed(d2) =~= Seq::<char>::empty());
    }
    assert(display_of(p3) =~= typed(d1) + typed(op) + typed(d2));
    assert(!p3.g_partial);
    let p4 = feed_all(p3, g);
    if g.len() == 1 {
        assert(g.drop_last() =~= Seq::<KeyEvent>::empty());
        assert(g.last() == g[0]);
        assert(feed_all(p3, g.drop_last()) == p3);
        lemma_g_key(p3, g[0]);
        assert(typed(g) =~= seq![key_char(g[0])]);
    } else {
        assert(g =~= Seq::<KeyEvent>::empty());
        assert(typed(g) =~= Seq::<char>::empty());
    }
    assert(typed(d1 + op + d2 + g) =~= typed(d1) + typed(op) + typed(d2) + typed(g));
}

} // verus!
