//! The reducer: given a state and a message, the next state and the
//! commands to run.

use vstd::prelude::*;

use crate::auth::AuthState;
use crate::cmd::Cmd;
use crate::msg::{JumpDirection, Msg, SelectionJump};
use crate::pulls::{FilePatch, PrDetail, PrSummary, RepoRef, ReviewThread};
use crate::state::{DiffViewMode, PrefetchedDiff, Screen, State};

verus! {

/// Fetch the next page when the selection comes within this many items of
/// the loaded end.
pub const PAGINATION_LOAD_THRESHOLD: usize = 5;

/// Rendered height of one review entry (header, excerpt, blank).
pub const REVIEW_BLOCK_HEIGHT: u16 = 3;

/// Separator, "Reviews" header and blank between body and reviews.
pub const REVIEWS_HEADER_OFFSET: u16 = 3;

/// Commands to run at startup: auth detection always fires.
pub fn initial_commands() -> (r: Vec<Cmd>)
    ensures
        r@ == seq![Cmd::AuthenticateFromGh],
{
    let mut v: Vec<Cmd> = Vec::new();
    v.push(Cmd::AuthenticateFromGh);
    v
}

// ── arithmetic on u16 line counts ───────────────────────────────────────

/// Saturation into the `u16` range for non-negative values.
pub open spec fn sat16(x: int) -> int {
    if x > u16::MAX {
        u16::MAX as int
    } else {
        x
    }
}

/// Saturating `u16` subtraction of one.
pub open spec fn last_line(total: u16) -> u16 {
    if total == 0 {
        0
    } else {
        (total - 1) as u16
    }
}

pub open spec fn min_int(a: int, b: int) -> int {
    if a <= b {
        a
    } else {
        b
    }
}

/// Total rendered line count of the PR detail body and its reviews block.
pub open spec fn pr_detail_lines(body_lines: u16, n_reviews: nat) -> int {
    if n_reviews == 0 {
        body_lines as int
    } else {
        sat16(
            sat16(body_lines + REVIEWS_HEADER_OFFSET) + sat16(
                min_int(n_reviews as int, u16::MAX as int) * REVIEW_BLOCK_HEIGHT,
            ),
        )
    }
}

/// Line offset of the `i`-th review entry.
pub open spec fn review_offset(body_lines: u16, i: int) -> int {
    sat16(
        sat16(body_lines + REVIEWS_HEADER_OFFSET) + sat16(
            REVIEW_BLOCK_HEIGHT * min_int(i, u16::MAX as int),
        ),
    )
}

fn sat_add16(a: u16, b: u16) -> (r: u16)
    ensures
        r == sat16(a + b),
{
    let s = a as u32 + b as u32;
    if s > 65535 {
        65535
    } else {
        s as u16
    }
}

fn clamp_count16(n: usize) -> (r: u16)
    ensures
        r == min_int(n as int, u16::MAX as int),
{
    if n > 65535 {
        65535
    } else {
        n as u16
    }
}

fn sat_mul3(a: u16) -> (r: u16)
    ensures
        r == sat16(a * REVIEW_BLOCK_HEIGHT),
{
    let p = a as u32 * 3;
    if p > 65535 {
        65535
    } else {
        p as u16
    }
}

pub fn total_pr_detail_lines(body_lines: u16, n_reviews: usize) -> (r: u16)
    ensures
        r == pr_detail_lines(body_lines, n_reviews as nat),
{
    if n_reviews == 0 {
        return body_lines;
    }
    let block_total = sat_mul3(clamp_count16(n_reviews));
    sat_add16(sat_add16(body_lines, REVIEWS_HEADER_OFFSET), block_total)
}

/// Line offset of each review entry; empty without reviews.
pub fn compute_review_offsets(body_lines: u16, n_reviews: usize) -> (r: Vec<u16>)
    ensures
        r.len() == n_reviews,
        forall|i: int| 0 <= i < n_reviews ==> #[trigger] r[i] == review_offset(body_lines, i),
{
    let mut out: Vec<u16> = Vec::new();
    let base = sat_add16(body_lines, REVIEWS_HEADER_OFFSET);
    let mut i: usize = 0;
    while i < n_reviews
        invariant
            i <= n_reviews,
            out.len() == i,
            base == sat16(body_lines + REVIEWS_HEADER_OFFSET),
            forall|k: int| 0 <= k < i ==> #[trigger] out[k] == review_offset(body_lines, k),
        decreases n_reviews - i,
    {
        let step = sat_mul3(clamp_count16(i));
        out.push(sat_add16(base, step));
        i = i + 1;
    }
    out
}

// ── section jumps ───────────────────────────────────────────────────────

/// First index at or after `k` whose offset is strictly greater than
/// `cur`, or `offs.len()` when there is none.
pub open spec fn first_after(offs: Seq<u16>, cur: u16, k: int) -> int
    decreases offs.len() - k,
{
    if k >= offs.len() {
        offs.len() as int
    } else if offs[k] > cur {
        k
    } else {
        first_after(offs, cur, k + 1)
    }
}

/// Last index below `k` whose offset is strictly less than `cur`, or `-1`.
pub open spec fn last_before(offs: Seq<u16>, cur: u16, k: int) -> int
    decreases k,
{
    if k <= 0 {
        -1
    } else if offs[k - 1] < cur {
        k - 1
    } else {
        last_before(offs, cur, k - 1)
    }
}

/// Where a `Next` jump starts: the first section after `cur`, else the last.
pub open spec fn next_start(offs: Seq<u16>, cur: u16) -> int {
    let f = first_after(offs, cur, 0);
    if f < offs.len() {
        f
    } else {
        offs.len() - 1
    }
}

/// Where a `Prev` jump starts: the last section before `cur`, else the first.
pub open spec fn prev_start(offs: Seq<u16>, cur: u16) -> int {
    let l = last_before(offs, cur, offs.len() as int);
    if l >= 0 {
        l
    } else {
        0
    }
}

/// The index a `count`-fold jump lands on (a count of 0 counts as 1);
/// both directions saturate at the ends.
pub open spec fn section_target(offs: Seq<u16>, cur: u16, count: nat, dir: JumpDirection) -> int {
    let c = if count == 0 {
        1
    } else {
        count as int
    };
    match dir {
        JumpDirection::Next => min_int(next_start(offs, cur) + c - 1, offs.len() - 1),
        JumpDirection::Prev => {
            let t = prev_start(offs, cur) - (c - 1);
            if t < 0 {
                0
            } else {
                t
            }
        },
    }
}

/// The section jump is computable without overflow (the one case where
/// the arithmetic of the jump would exceed `usize`).
pub open spec fn section_jump_fits(offs: Seq<u16>, cur: u16, count: nat, dir: JumpDirection) -> bool {
    dir == JumpDirection::Next ==> next_start(offs, cur) + (if count == 0 {
        1
    } else {
        count as int
    }) - 1 <= usize::MAX
}

proof fn lemma_first_after_bounds(offs: Seq<u16>, cur: u16, k: int)
    requires
        0 <= k <= offs.len(),
    ensures
        k <= first_after(offs, cur, k) <= offs.len(),
        first_after(offs, cur, k) < offs.len() ==> offs[first_after(offs, cur, k)] > cur,
    decreases offs.len() - k,
{
    if k < offs.len() && offs[k] <= cur {
        lemma_first_after_bounds(offs, cur, k + 1);
    }
}

proof fn lemma_last_before_bounds(offs: Seq<u16>, cur: u16, k: int)
    requires
        0 <= k <= offs.len(),
    ensures
        -1 <= last_before(offs, cur, k) < k,
    decreases k,
{
    if k > 0 && offs[k - 1] >= cur {
        lemma_last_before_bounds(offs, cur, k - 1);
    }
}

/// The scroll position of the `count`-th next/previous section relative
/// to `current`. `offsets` are the section start lines.
pub fn next_section_scroll(
    current: u16,
    offsets: &Vec<u16>,
    count: usize,
    direction: JumpDirection,
) -> (r: u16)
    requires
        offsets.len() > 0,
        section_jump_fits(offsets@, current, count as nat, direction),
    ensures
        0 <= section_target(offsets@, current, count as nat, direction) < offsets.len(),
        r == offsets@[section_target(offsets@, current, count as nat, direction)],
{
    let count = if count == 0 {
        1
    } else {
        count
    };
    let n = offsets.len();
    match direction {
        JumpDirection::Next => {
            let mut k: usize = 0;
            while k < n && offsets[k] <= current
                invariant
                    k <= n == offsets.len(),
                    first_after(offsets@, current, k as int) == first_after(offsets@, current, 0),
                decreases n - k,
            {
                k = k + 1;
            }
            proof {
                lemma_first_after_bounds(offsets@, current, 0);
            }
            assert(first_after(offsets@, current, k as int) == k);
            let start = if k < n {
                k
            } else {
                n - 1
            };
            assert(start == next_start(offsets@, current));
            let mut target = start + (count - 1);
            if target > n - 1 {
                target = n - 1;
            }
            offsets[target]
        },
        JumpDirection::Prev => {
            let mut k: usize = n;
            while k > 0 && offsets[k - 1] >= current
                invariant
                    k <= n == offsets.len(),
                    last_before(offsets@, current, k as int) == last_before(
                        offsets@,
                        current,
                        n as int,
                    ),
                decreases k,
            {
                k = k - 1;
            }
            proof {
                lemma_last_before_bounds(offsets@, current, n as int);
            }
            assert(last_before(offsets@, current, k as int) == k - 1);
            let start = if k > 0 {
                k - 1
            } else {
                0
            };
            assert(start == prev_start(offsets@, current));
            let target = if start >= count - 1 {
                start - (count - 1)
            } else {
                0
            };
            offsets[target]
        },
    }
}

/// The jump target is an index of the offsets.
pub proof fn lemma_section_target_in_range(offs: Seq<u16>, cur: u16, count: nat, dir: JumpDirection)
    requires
        offs.len() > 0,
    ensures
        0 <= section_target(offs, cur, count, dir) < offs.len(),
{
    lemma_first_after_bounds(offs, cur, 0);
    lemma_last_before_bounds(offs, cur, offs.len() as int);
}

// ── the transition relation ─────────────────────────────────────────────

/// `sc` is an error screen whose message is `prefix + reason` and whose
/// hint is `hint`.
pub open spec fn is_error_screen(
    sc: Screen,
    prefix: Seq<char>,
    reason: Seq<char>,
    hint: Option<Seq<char>>,
) -> bool {
    &&& sc matches Screen::Error { message, hint: h }
    &&& message@ == prefix + reason
    &&& match (h, hint) {
        (Some(a), Some(b)) => a@ == b,
        (None, None) => true,
        _ => false,
    }
}

/// The screen is replaced by an error screen when `cond`, and kept
/// otherwise; nothing else changes.
pub open spec fn error_when(
    s0: State,
    s1: State,
    cond: bool,
    prefix: Seq<char>,
    reason: Seq<char>,
    hint: Option<Seq<char>>,
) -> bool {
    &&& s1 == (State { screen: s1.screen, ..s0 })
    &&& if cond {
        is_error_screen(s1.screen, prefix, reason, hint)
    } else {
        s1.screen == s0.screen
    }
}

/// Commands that fetch each image of a PR body.
pub open spec fn image_cmds(urls: Seq<String>) -> Seq<Cmd> {
    urls.map_values(|u: String| Cmd::FetchImage { url: u })
}

/// Commands that render each Mermaid diagram of a PR body.
pub open spec fn mermaid_cmds(blocks: Seq<(String, String)>) -> Seq<Cmd> {
    blocks.map_values(|b: (String, String)| Cmd::RenderMermaid { hash: b.0, source: b.1 })
}

/// What the primary forward action does from a PR list.
pub open spec fn open_selected_rel(s0: State, s1: State, cmds: Seq<Cmd>) -> bool {
    match s0.screen {
        Screen::PrList { repo, items, selected, .. } => if selected < items.len() {
            let number = items[selected as int].number;
            &&& s1 == (State {
                screen: Screen::LoadingDetail { repo, number },
                nav_stack: s1.nav_stack,
                ..s0
            })
            &&& s1.nav_stack@ == s0.nav_stack@.push(s0.screen)
            &&& cmds == seq![Cmd::FetchPrDetail { repo, number }]
        } else {
            s1 == s0 && cmds.len() == 0
        },
        Screen::PrDetail { .. } => open_diff_rel(s0, s1, cmds),
        _ => s1 == s0 && cmds.len() == 0,
    }
}

/// Opening the diff from PR detail: straight to the diff view when a
/// prefetched diff is in hand (no command), else to the loading screen
/// with a fetch. The prior screen, without its prefetched diff, is pushed.
pub open spec fn open_diff_rel(s0: State, s1: State, cmds: Seq<Cmd>) -> bool {
    match s0.screen {
        Screen::PrDetail {
            repo,
            detail,
            scroll,
            total_lines,
            review_offsets,
            prefetched_diff,
        } => {
            let prior = Screen::PrDetail {
                repo,
                detail,
                scroll,
                total_lines,
                review_offsets,
                prefetched_diff: None,
            };
            let number = detail.number;
            &&& s1 == (State { screen: s1.screen, nav_stack: s1.nav_stack, ..s0 })
            &&& s1.nav_stack@ == s0.nav_stack@.push(prior)
            &&& match prefetched_diff {
                Some(d) => {
                    &&& s1.screen == (Screen::DiffView {
                        repo,
                        number,
                        files: d.files,
                        threads: d.threads,
                        scroll: 0,
                        total_lines: d.total_lines,
                        file_offsets: d.file_offsets,
                        view_mode: DiffViewMode::Unified,
                    })
                    &&& cmds.len() == 0
                },
                None => {
                    &&& s1.screen == (Screen::LoadingDiff { repo, number })
                    &&& cmds == seq![Cmd::FetchPrDiff { repo, number }]
                },
            }
        },
        _ => s1 == s0 && cmds.len() == 0,
    }
}

/// A page of PRs: the first page replaces the loading screen, the next
/// sequential page of the active repo is appended, anything else is stale.
pub open spec fn page_ready_rel(
    s0: State,
    s1: State,
    repo: RepoRef,
    page: u32,
    items: Seq<PrSummary>,
    has_more: bool,
) -> bool {
    &&& s1 == (State { screen: s1.screen, ..s0 })
    &&& match s0.screen {
        Screen::Loading { repo: cur } => if cur.same_repo(repo) && page == 1 {
            s1.screen matches Screen::PrList {
                repo: r,
                items: it,
                selected,
                pages_loaded,
                has_more: hm,
                loading_next,
            } && r == repo && it@ == items && selected == 0 && pages_loaded == 1 && hm == has_more
                && !loading_next
        } else {
            s1.screen == s0.screen
        },
        Screen::PrList { repo: cur, items: old_items, selected, pages_loaded, .. } => if cur.same_repo(
            repo,
        ) && page == pages_loaded + 1 {
            s1.screen matches Screen::PrList {
                repo: r,
                items: it,
                selected: sel,
                pages_loaded: pl,
                has_more: hm,
                loading_next,
            } && r == cur && it@ == old_items@ + items && sel == selected && pl == page && hm
                == has_more && !loading_next
        } else {
            s1.screen == s0.screen
        },
        _ => s1.screen == s0.screen,
    }
}

/// PR detail landed: consumed only while loading that very PR.
pub open spec fn detail_ready_rel(
    s0: State,
    s1: State,
    cmds: Seq<Cmd>,
    detail: PrDetail,
    body_lines: u16,
    image_urls: Seq<String>,
    mermaid_blocks: Seq<(String, String)>,
) -> bool {
    &&& s1 == (State { screen: s1.screen, ..s0 })
    &&& match s0.screen {
        Screen::LoadingDetail { repo, number } => if detail.number == number {
            let n = detail.reviews.len();
            &&& s1.screen matches Screen::PrDetail {
                repo: r,
                detail: d,
                scroll,
                total_lines,
                review_offsets,
                prefetched_diff,
            }
            &&& r == repo && d == detail && scroll == 0
            &&& total_lines == pr_detail_lines(body_lines, n as nat)
            &&& review_offsets@.len() == n
            &&& forall|i: int|
                0 <= i < n ==> #[trigger] review_offsets@[i] == review_offset(body_lines, i)
            &&& prefetched_diff is None
            &&& cmds == seq![Cmd::FetchPrDiff { repo, number }] + image_cmds(image_urls)
                + mermaid_cmds(mermaid_blocks)
        } else {
            s1.screen == s0.screen && cmds.len() == 0
        },
        _ => s1.screen == s0.screen && cmds.len() == 0,
    }
}

/// The diff landed: shown when waiting for it, stashed when the detail of
/// that PR is still on screen, dropped otherwise.
pub open spec fn diff_ready_rel(
    s0: State,
    s1: State,
    repo: RepoRef,
    number: u64,
    files: Vec<FilePatch>,
    threads: Vec<ReviewThread>,
    file_offsets: Vec<u16>,
    total_lines: u16,
) -> bool {
    &&& s1 == (State { screen: s1.screen, ..s0 })
    &&& match s0.screen {
        Screen::LoadingDiff { repo: cur, number: n } => if cur.same_repo(repo) && n == number {
            s1.screen == (Screen::DiffView {
                repo,
                number,
                files,
                threads,
                scroll: 0,
                total_lines,
                file_offsets,
                view_mode: DiffViewMode::Unified,
            })
        } else {
            s1.screen == s0.screen
        },
        Screen::PrDetail {
            repo: cur,
            detail,
            scroll,
            total_lines: tl,
            review_offsets,
            prefetched_diff: _,
        } => if cur.same_repo(repo) && detail.number == number {
            s1.screen == (Screen::PrDetail {
                repo: cur,
                detail,
                scroll,
                total_lines: tl,
                review_offsets,
                prefetched_diff: Some(PrefetchedDiff { files, threads, file_offsets, total_lines }),
            })
        } else {
            s1.screen == s0.screen
        },
        _ => s1.screen == s0.screen,
    }
}

/// New list selection for a move by `delta`, clamped to the list.
pub open spec fn moved_selection(selected: usize, delta: i32, len: nat) -> int {
    let n = selected + delta;
    if n < 0 {
        0
    } else if n > len - 1 {
        len - 1
    } else {
        n
    }
}

/// New scroll for a move by `delta`, clamped to `[0, total_lines - 1]`.
pub open spec fn moved_scroll(scroll: u16, delta: i32, total_lines: u16) -> int {
    let n = scroll + delta;
    let raw = if n < 0 {
        0
    } else if n > u16::MAX {
        u16::MAX as int
    } else {
        n
    };
    min_int(raw, last_line(total_lines) as int)
}

/// Whether a selection move lands close enough to the loaded end to
/// fetch the next page.
pub open spec fn wants_next_page(len: nat, new_selected: int, has_more: bool, loading_next: bool) -> bool {
    len - new_selected <= PAGINATION_LOAD_THRESHOLD && has_more && !loading_next
}

pub open spec fn selection_delta_rel(s0: State, s1: State, cmds: Seq<Cmd>, delta: i32) -> bool {
    &&& s1 == (State { screen: s1.screen, ..s0 })
    &&& match s0.screen {
        Screen::PrList { repo, items, selected, pages_loaded, has_more, loading_next } => if items.len()
            > 0 {
            let sel = moved_selection(selected, delta, items@.len());
            let fetch = wants_next_page(items@.len(), sel, has_more, loading_next);
            &&& s1.screen == (Screen::PrList {
                repo,
                items,
                selected: sel as usize,
                pages_loaded,
                has_more,
                loading_next: loading_next || fetch,
            })
            &&& cmds == if fetch {
                seq![Cmd::FetchPrPage { repo, page: (pages_loaded + 1) as u32 }]
            } else {
                Seq::empty()
            }
        } else {
            s1.screen == s0.screen && cmds.len() == 0
        },
        Screen::PrDetail {
            repo,
            detail,
            scroll,
            total_lines,
            review_offsets,
            prefetched_diff,
        } => {
            &&& s1.screen == (Screen::PrDetail {
                repo,
                detail,
                scroll: moved_scroll(scroll, delta, total_lines) as u16,
                total_lines,
                review_offsets,
                prefetched_diff,
            })
            &&& cmds.len() == 0
        },
        Screen::DiffView {
            repo,
            number,
            files,
            threads,
            scroll,
            total_lines,
            file_offsets,
            view_mode,
        } => {
            &&& s1.screen == (Screen::DiffView {
                repo,
                number,
                files,
                threads,
                scroll: moved_scroll(scroll, delta, total_lines) as u16,
                total_lines,
                file_offsets,
                view_mode,
            })
            &&& cmds.len() == 0
        },
        _ => s1.screen == s0.screen && cmds.len() == 0,
    }
}

/// The screen after a first/last jump.
pub open spec fn jumped_screen(sc: Screen, jump: SelectionJump) -> Screen {
    match sc {
        Screen::PrList { repo, items, selected, pages_loaded, has_more, loading_next } => if items.len()
            > 0 {
            Screen::PrList {
                repo,
                items,
                selected: match jump {
                    SelectionJump::First => 0,
                    SelectionJump::Last => (items.len() - 1) as usize,
                },
                pages_loaded,
                has_more,
                loading_next,
            }
        } else {
            sc
        },
        Screen::PrDetail {
            repo,
            detail,
            scroll,
            total_lines,
            review_offsets,
            prefetched_diff,
        } => Screen::PrDetail {
            repo,
            detail,
            scroll: match jump {
                SelectionJump::First => 0,
                SelectionJump::Last => last_line(total_lines),
            },
            total_lines,
            review_offsets,
            prefetched_diff,
        },
        Screen::DiffView {
            repo,
            number,
            files,
            threads,
            scroll,
            total_lines,
            file_offsets,
            view_mode,
        } => Screen::DiffView {
            repo,
            number,
            files,
            threads,
            scroll: match jump {
                SelectionJump::First => 0,
                SelectionJump::Last => last_line(total_lines),
            },
            total_lines,
            file_offsets,
            view_mode,
        },
        _ => sc,
    }
}

/// The screen after a section jump: reviews in PR detail, files in the
/// diff view.
pub open spec fn section_jumped_screen(sc: Screen, count: usize, dir: JumpDirection) -> Screen {
    match sc {
        Screen::PrDetail {
            repo,
            detail,
            scroll,
            total_lines,
            review_offsets,
            prefetched_diff,
        } => if review_offsets.len() > 0 {
            Screen::PrDetail {
                repo,
                detail,
                scroll: review_offsets@[section_target(review_offsets@, scroll, count as nat, dir)],
                total_lines,
                review_offsets,
                prefetched_diff,
            }
        } else {
            sc
        },
        Screen::DiffView {
            repo,
            number,
            files,
            threads,
            scroll,
            total_lines,
            file_offsets,
            view_mode,
        } => if file_offsets.len() > 0 {
            Screen::DiffView {
                repo,
                number,
                files,
                threads,
                scroll: file_offsets@[section_target(file_offsets@, scroll, count as nat, dir)],
                total_lines,
                file_offsets,
                view_mode,
            }
        } else {
            sc
        },
        _ => sc,
    }
}

/// The messages on which the reducer's arithmetic stays in range: a
/// next-page fetch needs a page number above `pages_loaded`, and a
/// section jump must not overflow its index arithmetic.
pub open spec fn reduce_defined(s0: State, msg: Msg) -> bool {
    match msg {
        Msg::SelectionDelta(delta) => match s0.screen {
            Screen::PrList { items, selected, pages_loaded, has_more, loading_next, .. } => (
            items.len() > 0 && wants_next_page(
                items@.len(),
                moved_selection(selected, delta, items@.len()),
                has_more,
                loading_next,
            )) ==> pages_loaded < u32::MAX,
            _ => true,
        },
        Msg::SectionJump { count, direction } => match s0.screen {
            Screen::PrDetail { scroll, review_offsets, .. } => review_offsets.len() > 0
                ==> section_jump_fits(
                review_offsets@,
                scroll,
                count as nat,
                direction,
            ),
            Screen::DiffView { scroll, file_offsets, .. } => file_offsets.len() > 0
                ==> section_jump_fits(file_offsets@, scroll, count as nat, direction),
            _ => true,
        },
        _ => true,
    }
}

/// The transition relation of the reducer: `s1` and `cmds` are what
/// `reduce(s0, msg)` returns.
pub open spec fn reduce_rel(s0: State, msg: Msg, s1: State, cmds: Seq<Cmd>) -> bool {
    match msg {
        Msg::Quit => s1 == (State { should_quit: true, ..s0 }) && cmds.len() == 0,
        Msg::Tick => s1 == s0 && cmds.len() == 0,
        Msg::AuthReady { host, user } => {
            &&& s1 == (State { auth: AuthState::Authenticated { host, user }, ..s0 })
            &&& cmds == match s0.screen {
                Screen::Loading { repo } => seq![Cmd::FetchPrPage { repo, page: 1 }],
                _ => Seq::empty(),
            }
        },
        Msg::AuthMissing { reason } => {
            &&& error_when(
                State { auth: AuthState::Missing { reason }, ..s0 },
                s1,
                s0.screen is Loading,
                "auth failed: "@,
                reason@,
                Some("run `gh auth login`"@),
            )
            &&& cmds.len() == 0
        },
        Msg::PendingChanged(buf) => s1 == (State { pending: buf, ..s0 }) && cmds.len() == 0,
        Msg::RepoResolved(repo) => {
            &&& s1 == (State { screen: Screen::Loading { repo }, ..s0 })
            &&& cmds == if s0.auth is Authenticated {
                seq![Cmd::FetchPrPage { repo, page: 1 }]
            } else {
                Seq::empty()
            }
        },
        Msg::RepoResolveFailed(reason) => {
            &&& error_when(
                s0,
                s1,
                true,
                "could not determine repo: "@,
                reason@,
                Some("pass `owner/name` or run from a clone"@),
            )
            &&& cmds.len() == 0
        },
        Msg::PrPageReady { repo, page, items, has_more } => {
            &&& page_ready_rel(s0, s1, repo, page, items@, has_more)
            &&& cmds.len() == 0
        },
        Msg::PrListFailed(reason) => {
            &&& error_when(s0, s1, true, "PR list failed: "@, reason@, None)
            &&& cmds.len() == 0
        },
        Msg::OpenSelectedPr => open_selected_rel(s0, s1, cmds),
        Msg::PrDetailReady { detail, body_lines, image_urls, mermaid_blocks } => detail_ready_rel(
            s0,
            s1,
            cmds,
            detail,
            body_lines,
            image_urls@,
            mermaid_blocks@,
        ),
        Msg::ImageReady { .. } => s1 == s0 && cmds.len() == 0,
        Msg::PrDetailFailed(reason) => {
            &&& error_when(
                s0,
                s1,
                s0.screen is LoadingDetail,
                "PR detail failed: "@,
                reason@,
                None,
            )
            &&& cmds.len() == 0
        },
        Msg::OpenDiff => if s0.screen is PrDetail {
            open_diff_rel(s0, s1, cmds)
        } else {
            s1 == s0 && cmds.len() == 0
        },
        Msg::DiffReady { repo, number, files, threads, file_offsets, total_lines } => {
            &&& diff_ready_rel(s0, s1, repo, number, files, threads, file_offsets, total_lines)
            &&& cmds.len() == 0
        },
        Msg::DiffFailed(reason) => {
            &&& error_when(
                s0,
                s1,
                s0.screen is LoadingDiff,
                "PR diff failed: "@,
                reason@,
                None,
            )
            &&& cmds.len() == 0
        },
        Msg::ToggleDiffViewMode => {
            &&& s1 == (State {
                screen: match s0.screen {
                    Screen::DiffView {
                        repo,
                        number,
                        files,
                        threads,
                        scroll,
                        total_lines,
                        file_offsets,
                        view_mode,
                    } => Screen::DiffView {
                        repo,
                        number,
                        files,
                        threads,
                        scroll,
                        total_lines,
                        file_offsets,
                        view_mode: view_mode.flip(),
                    },
                    _ => s0.screen,
                },
                ..s0
            })
            &&& cmds.len() == 0
        },
        Msg::Back => {
            &&& s1 == (State {
                screen: if s0.nav_stack.len() > 0 {
                    s0.nav_stack@.last()
                } else {
                    Screen::Welcome
                },
                nav_stack: s1.nav_stack,
                ..s0
            })
            &&& s1.nav_stack@ == if s0.nav_stack.len() > 0 {
                s0.nav_stack@.drop_last()
            } else {
                s0.nav_stack@
            }
            &&& cmds.len() == 0
        },
        Msg::SelectionDelta(delta) => selection_delta_rel(s0, s1, cmds, delta),
        Msg::SelectionJump(jump) => {
            &&& s1 == (State { screen: jumped_screen(s0.screen, jump), ..s0 })
            &&& cmds.len() == 0
        },
        Msg::SectionJump { count, direction } => {
            &&& s1 == (State { screen: section_jumped_screen(s0.screen, count, direction), ..s0 })
            &&& cmds.len() == 0
        },
        Msg::RateLimitUpdate(rl) => s1 == (State { rate_limit: Some(rl), ..s0 }) && cmds.len()
            == 0,
    }
}

// ── the reducer ─────────────────────────────────────────────────────────

pub open spec fn opt_view(o: Option<&str>) -> Option<Seq<char>> {
    match o {
        Some(x) => Some(x@),
        None => None,
    }
}

fn error_screen(prefix: &str, reason: &str, hint: Option<&str>) -> (sc: Screen)
    ensures
        is_error_screen(sc, prefix@, reason@, opt_view(hint)),
{
    let mut message = prefix.to_owned();
    message.append(reason);
    let hint = match hint {
        Some(h) => Some(h.to_owned()),
        None => None,
    };
    Screen::Error { message, hint }
}

/// Applies `msg` to `state`: the next state and the commands to dispatch.
pub fn reduce(state: State, msg: Msg) -> (r: (State, Vec<Cmd>))
    requires
        reduce_defined(state, msg),
    ensures
        reduce_rel(state, msg, r.0, r.1@),
{
    match msg {
        Msg::Quit => {
            let mut s = state;
            s.should_quit = true;
            (s, Vec::new())
        },
        Msg::Tick => (state, Vec::new()),
        Msg::AuthReady { host, user } => {
            let mut cmds: Vec<Cmd> = Vec::new();
            match &state.screen {
                Screen::Loading { repo } => {
                    cmds.push(Cmd::FetchPrPage { repo: repo.duplicate(), page: 1 });
                },
                _ => {},
            }
            let mut s = state;
            s.auth = AuthState::Authenticated { host, user };
            (s, cmds)
        },
        Msg::AuthMissing { reason } => {
            let loading = matches!(state.screen, Screen::Loading { .. });
            let mut s = state;
            if loading {
                s.screen = error_screen("auth failed: ", reason.as_str(), Some("run `gh auth login`"));
            }
            s.auth = AuthState::Missing { reason };
            (s, Vec::new())
        },
        Msg::PendingChanged(buf) => {
            let mut s = state;
            s.pending = buf;
            (s, Vec::new())
        },
        Msg::RepoResolved(repo) => {
            let mut cmds: Vec<Cmd> = Vec::new();
            if state.auth.is_authenticated() {
                cmds.push(Cmd::FetchPrPage { repo: repo.duplicate(), page: 1 });
            }
            let mut s = state;
            s.screen = Screen::Loading { repo };
            (s, cmds)
        },
        Msg::RepoResolveFailed(reason) => {
            let mut s = state;
            s.screen = error_screen(
                "could not determine repo: ",
                reason.as_str(),
                Some("pass `owner/name` or run from a clone"),
            );
            (s, Vec::new())
        },
        Msg::PrPageReady { repo, page, items, has_more } => (
            on_page_ready(state, repo, page, items, has_more),
            Vec::new(),
        ),
        Msg::PrListFailed(reason) => {
            let mut s = state;
            s.screen = error_screen("PR list failed: ", reason.as_str(), None);
            (s, Vec::new())
        },
        Msg::OpenSelectedPr => on_open_selected(state),
        Msg::PrDetailReady { detail, body_lines, image_urls, mermaid_blocks } => on_detail_ready(
            state,
            detail,
            body_lines,
            image_urls,
            mermaid_blocks,
        ),
        Msg::ImageReady { .. } => (state, Vec::new()),
        Msg::PrDetailFailed(reason) => {
            let loading = matches!(state.screen, Screen::LoadingDetail { .. });
            let mut s = state;
            if loading {
                s.screen = error_screen("PR detail failed: ", reason.as_str(), None);
            }
            (s, Vec::new())
        },
        Msg::OpenDiff => {
            if matches!(state.screen, Screen::PrDetail { .. }) {
                open_diff_from_pr_detail(state)
            } else {
                (state, Vec::new())
            }
        },
        Msg::DiffReady { repo, number, files, threads, file_offsets, total_lines } => (
            on_diff_ready(state, repo, number, files, threads, file_offsets, total_lines),
            Vec::new(),
        ),
        Msg::DiffFailed(reason) => {
            let loading = matches!(state.screen, Screen::LoadingDiff { .. });
            let mut s = state;
            if loading {
                s.screen = error_screen("PR diff failed: ", reason.as_str(), None);
            }
            (s, Vec::new())
        },
        Msg::ToggleDiffViewMode => {
            let State { mode, pending, auth, screen, nav_stack, rate_limit, should_quit } = state;
            let screen = match screen {
                Screen::DiffView {
                    repo,
                    number,
                    files,
                    threads,
                    scroll,
                    total_lines,
                    file_offsets,
                    view_mode,
                } => Screen::DiffView {
                    repo,
                    number,
                    files,
                    threads,
                    scroll,
                    total_lines,
                    file_offsets,
                    view_mode: view_mode.toggled(),
                },
                other => other,
            };
            (State { mode, pending, auth, screen, nav_stack, rate_limit, should_quit }, Vec::new())
        },
        Msg::Back => {
            let State { mode, pending, auth, screen: _, nav_stack, rate_limit, should_quit } =
                state;
            let mut nav_stack = nav_stack;
            let screen = match nav_stack.pop() {
                Some(prior) => prior,
                None => Screen::Welcome,
            };
            (State { mode, pending, auth, screen, nav_stack, rate_limit, should_quit }, Vec::new())
        },
        Msg::SelectionDelta(delta) => on_selection_delta(state, delta),
        Msg::SelectionJump(jump) => {
            let State { mode, pending, auth, screen, nav_stack, rate_limit, should_quit } = state;
            let screen = jump_screen(screen, jump);
            (State { mode, pending, auth, screen, nav_stack, rate_limit, should_quit }, Vec::new())
        },
        Msg::SectionJump { count, direction } => {
            let State { mode, pending, auth, screen, nav_stack, rate_limit, should_quit } = state;
            let screen = section_jump_screen(screen, count, direction);
            (State { mode, pending, auth, screen, nav_stack, rate_limit, should_quit }, Vec::new())
        },
        Msg::RateLimitUpdate(rl) => {
            let mut s = state;
            s.rate_limit = Some(rl);
            (s, Vec::new())
        },
    }
}

fn on_page_ready(
    state: State,
    repo: RepoRef,
    page: u32,
    items: Vec<PrSummary>,
    has_more: bool,
) -> (s1: State)
    ensures
        page_ready_rel(state, s1, repo, page, items@, has_more),
{
    let State { mode, pending, auth, screen, nav_stack, rate_limit, should_quit } = state;
    let screen = match screen {
        Screen::Loading { repo: cur } => {
            if cur.same_as(&repo) && page == 1 {
                Screen::PrList {
                    repo,
                    items,
                    selected: 0,
                    pages_loaded: 1,
                    has_more,
                    loading_next: false,
                }
            } else {
                Screen::Loading { repo: cur }
            }
        },
        Screen::PrList {
            repo: cur,
            items: cur_items,
            selected,
            pages_loaded,
            has_more: cur_has_more,
            loading_next,
        } => {
            if cur.same_as(&repo) && (page as u64) == (pages_loaded as u64) + 1 {
                let mut cur_items = cur_items;
                let mut items = items;
                cur_items.append(&mut items);
                Screen::PrList {
                    repo: cur,
                    items: cur_items,
                    selected,
                    pages_loaded: page,
                    has_more,
                    loading_next: false,
                }
            } else {
                Screen::PrList {
                    repo: cur,
                    items: cur_items,
                    selected,
                    pages_loaded,
                    has_more: cur_has_more,
                    loading_next,
                }
            }
        },
        other => other,
    };
    State { mode, pending, auth, screen, nav_stack, rate_limit, should_quit }
}

fn on_open_selected(state: State) -> (r: (State, Vec<Cmd>))
    ensures
        open_selected_rel(state, r.0, r.1@),
{
    if matches!(state.screen, Screen::PrDetail { .. }) {
        return open_diff_from_pr_detail(state);
    }
    let State { mode, pending, auth, screen, nav_stack, rate_limit, should_quit } = state;
    let mut nav_stack = nav_stack;
    match screen {
        Screen::PrList { repo, items, selected, pages_loaded, has_more, loading_next } => {
            if selected < items.len() {
                let number = items[selected].number;
                let next_repo = repo.duplicate();
                let cmd_repo = repo.duplicate();
                nav_stack.push(
                    Screen::PrList { repo, items, selected, pages_loaded, has_more, loading_next },
                );
                let mut cmds: Vec<Cmd> = Vec::new();
                cmds.push(Cmd::FetchPrDetail { repo: cmd_repo, number });
                (
                    State {
                        mode,
                        pending,
                        auth,
                        screen: Screen::LoadingDetail { repo: next_repo, number },
                        nav_stack,
                        rate_limit,
                        should_quit,
                    },
                    cmds,
                )
            } else {
                (
                    State {
                        mode,
                        pending,
                        auth,
                        screen: Screen::PrList {
                            repo,
                            items,
                            selected,
                            pages_loaded,
                            has_more,
                            loading_next,
                        },
                        nav_stack,
                        rate_limit,
                        should_quit,
                    },
                    Vec::new(),
                )
            }
        },
        other => (
            State { mode, pending, auth, screen: other, nav_stack, rate_limit, should_quit },
            Vec::new(),
        ),
    }
}

/// From PR detail to the diff view (prefetched diff in hand) or to the
/// loading screen with a fetch; the prior screen is pushed.
pub fn open_diff_from_pr_detail(state: State) -> (r: (State, Vec<Cmd>))
    ensures
        open_diff_rel(state, r.0, r.1@),
{
    let State { mode, pending, auth, screen, nav_stack, rate_limit, should_quit } = state;
    let mut nav_stack = nav_stack;
    match screen {
        Screen::PrDetail { repo, detail, scroll, total_lines, review_offsets, prefetched_diff } => {
            let number = detail.number;
            let next_repo = repo.duplicate();
            let mut cmds: Vec<Cmd> = Vec::new();
            let next = match prefetched_diff {
                Some(d) => Screen::DiffView {
                    repo: next_repo,
                    number,
                    files: d.files,
                    threads: d.threads,
                    scroll: 0,
                    total_lines: d.total_lines,
                    file_offsets: d.file_offsets,
                    view_mode: DiffViewMode::Unified,
                },
                None => {
                    cmds.push(Cmd::FetchPrDiff { repo: repo.duplicate(), number });
                    Screen::LoadingDiff { repo: next_repo, number }
                },
            };
            nav_stack.push(
                Screen::PrDetail {
                    repo,
                    detail,
                    scroll,
                    total_lines,
                    review_offsets,
                    prefetched_diff: None,
                },
            );
            (State { mode, pending, auth, screen: next, nav_stack, rate_limit, should_quit }, cmds)
        },
        other => (
            State { mode, pending, auth, screen: other, nav_stack, rate_limit, should_quit },
            Vec::new(),
        ),
    }
}

fn on_detail_ready(
    state: State,
    detail: PrDetail,
    body_lines: u16,
    image_urls: Vec<String>,
    mermaid_blocks: Vec<(String, String)>,
) -> (r: (State, Vec<Cmd>))
    ensures
        detail_ready_rel(state, r.0, r.1@, detail, body_lines, image_urls@, mermaid_blocks@),
{
    let State { mode, pending, auth, screen, nav_stack, rate_limit, should_quit } = state;
    match screen {
        Screen::LoadingDetail { repo, number } => {
            if detail.number == number {
                let n_reviews = detail.reviews.len();
                let review_offsets = compute_review_offsets(body_lines, n_reviews);
                let total_lines = total_pr_detail_lines(body_lines, n_reviews);
                let mut cmds: Vec<Cmd> = Vec::new();
                cmds.push(Cmd::FetchPrDiff { repo: repo.duplicate(), number });
                let ghost first = cmds@;
                push_image_cmds(&mut cmds, image_urls);
                push_mermaid_cmds(&mut cmds, mermaid_blocks);
                proof {
                    assert(cmds@ =~= seq![Cmd::FetchPrDiff { repo, number }] + image_cmds(image_urls@)
                        + mermaid_cmds(mermaid_blocks@));
                }
                let screen = Screen::PrDetail {
                    repo,
                    detail,
                    scroll: 0,
                    total_lines,
                    review_offsets,
                    prefetched_diff: None,
                };
                (State { mode, pending, auth, screen, nav_stack, rate_limit, should_quit }, cmds)
            } else {
                (
                    State {
                        mode,
                        pending,
                        auth,
                        screen: Screen::LoadingDetail { repo, number },
                        nav_stack,
                        rate_limit,
                        should_quit,
                    },
                    Vec::new(),
                )
            }
        },
        other => (
            State { mode, pending, auth, screen: other, nav_stack, rate_limit, should_quit },
            Vec::new(),
        ),
    }
}

fn push_image_cmds(cmds: &mut Vec<Cmd>, urls: Vec<String>)
    ensures
        final(cmds)@ == old(cmds)@ + image_cmds(urls@),
{
    let ghost start = cmds@;
    let mut rest = urls;
    let ghost all = rest@;
    // Move the urls out from the back, then emit in original order.
    let mut rev: Vec<String> = Vec::new();
    while rest.len() > 0
        invariant
            all == rest@ + rev@.reverse(),
        decreases rest.len(),
    {
        let u = rest.pop().unwrap();
        let ghost before = rev@;
        rev.push(u);
        proof {
            assert(rev@.reverse() =~= seq![u] + before.reverse());
        }
    }
    assert(all =~= rev@.reverse());
    let ghost mut done: Seq<String> = Seq::empty();
    while rev.len() > 0
        invariant
            all == done + rev@.reverse(),
            cmds@ == start + image_cmds(done),
        decreases rev.len(),
    {
        let u = rev.pop().unwrap();
        let ghost before_done = done;
        let ghost before_rev = rev@;
        proof {
            assert(before_rev.push(u).reverse() =~= seq![u] + before_rev.reverse());
            done = done.push(u);
            assert(image_cmds(done) =~= image_cmds(before_done).push(Cmd::FetchImage { url: u }));
        }
        cmds.push(Cmd::FetchImage { url: u });
    }
    assert(all =~= done);
}

fn push_mermaid_cmds(cmds: &mut Vec<Cmd>, blocks: Vec<(String, String)>)
    ensures
        final(cmds)@ == old(cmds)@ + mermaid_cmds(blocks@),
{
    let ghost start = cmds@;
    let mut rest = blocks;
    let ghost all = rest@;
    let mut rev: Vec<(String, String)> = Vec::new();
    while rest.len() > 0
        invariant
            all == rest@ + rev@.reverse(),
        decreases rest.len(),
    {
        let b = rest.pop().unwrap();
        let ghost before = rev@;
        rev.push(b);
        proof {
            assert(rev@.reverse() =~= seq![b] + before.reverse());
        }
    }
    assert(all =~= rev@.reverse());
    let ghost mut done: Seq<(String, String)> = Seq::empty();
    while rev.len() > 0
        invariant
            all == done + rev@.reverse(),
            cmds@ == start + mermaid_cmds(done),
        decreases rev.len(),
    {
        let b = rev.pop().unwrap();
        let ghost before_done = done;
        let ghost before_rev = rev@;
        proof {
            assert(before_rev.push(b).reverse() =~= seq![b] + before_rev.reverse());
        }
        let (hash, source) = b;
        cmds.push(Cmd::RenderMermaid { hash, source });
        proof {
            done = done.push(b);
            assert(mermaid_cmds(done) =~= mermaid_cmds(before_done).push(
                Cmd::RenderMermaid { hash: b.0, source: b.1 },
            ));
        }
    }
    assert(all =~= done);
}

fn on_diff_ready(
    state: State,
    repo: RepoRef,
    number: u64,
    files: Vec<FilePatch>,
    threads: Vec<ReviewThread>,
    file_offsets: Vec<u16>,
    total_lines: u16,
) -> (s1: State)
    ensures
        diff_ready_rel(state, s1, repo, number, files, threads, file_offsets, total_lines),
{
    let State { mode, pending, auth, screen, nav_stack, rate_limit, should_quit } = state;
    let screen = match screen {
        Screen::LoadingDiff { repo: cur, number: n } => {
            if cur.same_as(&repo) && n == number {
                Screen::DiffView {
                    repo,
                    number,
                    files,
                    threads,
                    scroll: 0,
                    total_lines,
                    file_offsets,
                    view_mode: DiffViewMode::Unified,
                }
            } else {
                Screen::LoadingDiff { repo: cur, number: n }
            }
        },
        Screen::PrDetail {
            repo: cur,
            detail,
            scroll,
            total_lines: tl,
            review_offsets,
            prefetched_diff,
        } => {
            if cur.same_as(&repo) && detail.number == number {
                Screen::PrDetail {
                    repo: cur,
                    detail,
                    scroll,
                    total_lines: tl,
                    review_offsets,
                    prefetched_diff: Some(
                        PrefetchedDiff { files, threads, file_offsets, total_lines },
                    ),
                }
            } else {
                Screen::PrDetail {
                    repo: cur,
                    detail,
                    scroll,
                    total_lines: tl,
                    review_offsets,
                    prefetched_diff,
                }
            }
        },
        other => other,
    };
    State { mode, pending, auth, screen, nav_stack, rate_limit, should_quit }
}

fn move_scroll(scroll: u16, delta: i32, total_lines: u16) -> (r: u16)
    ensures
        r == moved_scroll(scroll, delta, total_lines),
{
    let max: u16 = if total_lines == 0 {
        0
    } else {
        total_lines - 1
    };
    let n: i64 = scroll as i64 + delta as i64;
    let raw: u16 = if n < 0 {
        0
    } else if n > 65535 {
        65535
    } else {
        n as u16
    };
    if raw <= max {
        raw
    } else {
        max
    }
}

fn move_selection(selected: usize, delta: i32, len: usize) -> (r: usize)
    requires
        len > 0,
    ensures
        r == moved_selection(selected, delta, len as nat),
        r < len,
{
    let n: i128 = selected as i128 + delta as i128;
    if n < 0 {
        0
    } else if n > (len - 1) as i128 {
        len - 1
    } else {
        n as usize
    }
}

fn on_selection_delta(state: State, delta: i32) -> (r: (State, Vec<Cmd>))
    requires
        reduce_defined(state, Msg::SelectionDelta(delta)),
    ensures
        selection_delta_rel(state, r.0, r.1@, delta),
{
    let State { mode, pending, auth, screen, nav_stack, rate_limit, should_quit } = state;
    let mut cmds: Vec<Cmd> = Vec::new();
    let screen = match screen {
        Screen::PrList { repo, items, selected, pages_loaded, has_more, loading_next } => {
            let len = items.len();
            if len > 0 {
                let sel = move_selection(selected, delta, len);
                let remaining = len - sel;
                let fetch = remaining <= PAGINATION_LOAD_THRESHOLD && has_more && !loading_next;
                if fetch {
                    cmds.push(Cmd::FetchPrPage { repo: repo.duplicate(), page: pages_loaded + 1 });
                }
                Screen::PrList {
                    repo,
                    items,
                    selected: sel,
                    pages_loaded,
                    has_more,
                    loading_next: loading_next || fetch,
                }
            } else {
                Screen::PrList { repo, items, selected, pages_loaded, has_more, loading_next }
            }
        },
        Screen::PrDetail { repo, detail, scroll, total_lines, review_offsets, prefetched_diff } => {
            Screen::PrDetail {
                repo,
                detail,
                scroll: move_scroll(scroll, delta, total_lines),
                total_lines,
                review_offsets,
                prefetched_diff,
            }
        },
        Screen::DiffView {
            repo,
            number,
            files,
            threads,
            scroll,
            total_lines,
            file_offsets,
            view_mode,
        } => Screen::DiffView {
            repo,
            number,
            files,
            threads,
            scroll: move_scroll(scroll, delta, total_lines),
            total_lines,
            file_offsets,
            view_mode,
        },
        other => other,
    };
    (State { mode, pending, auth, screen, nav_stack, rate_limit, should_quit }, cmds)
}

fn jump_screen(screen: Screen, jump: SelectionJump) -> (r: Screen)
    ensures
        r == jumped_screen(screen, jump),
{
    match screen {
        Screen::PrList { repo, items, selected, pages_loaded, has_more, loading_next } => {
            let len = items.len();
            let selected = if len > 0 {
                match jump {
                    SelectionJump::First => 0,
                    SelectionJump::Last => len - 1,
                }
            } else {
                selected
            };
            Screen::PrList { repo, items, selected, pages_loaded, has_more, loading_next }
        },
        Screen::PrDetail { repo, detail, scroll: _, total_lines, review_offsets, prefetched_diff } => {
            let scroll = match jump {
                SelectionJump::First => 0,
                SelectionJump::Last => total_lines.saturating_sub(1),
            };
            Screen::PrDetail { repo, detail, scroll, total_lines, review_offsets, prefetched_diff }
        },
        Screen::DiffView {
            repo,
            number,
            files,
            threads,
            scroll: _,
            total_lines,
            file_offsets,
            view_mode,
        } => {
            let scroll = match jump {
                SelectionJump::First => 0,
                SelectionJump::Last => total_lines.saturating_sub(1),
            };
            Screen::DiffView {
                repo,
                number,
                files,
                threads,
                scroll,
                total_lines,
                file_offsets,
                view_mode,
            }
        },
        other => other,
    }
}

fn section_jump_screen(screen: Screen, count: usize, direction: JumpDirection) -> (r: Screen)
    requires
        reduce_defined(
            State {
                mode: crate::state::Mode::Normal,
                pending: arbitrary(),
                auth: AuthState::Unknown,
                screen,
                nav_stack: arbitrary(),
                rate_limit: None,
                should_quit: false,
            },
            Msg::SectionJump { count, direction },
        ),
    ensures
        r == section_jumped_screen(screen, count, direction),
{
    match screen {
        Screen::PrDetail { repo, detail, scroll, total_lines, review_offsets, prefetched_diff } => {
            let scroll = if review_offsets.len() > 0 {
                next_section_scroll(scroll, &review_offsets, count, direction)
            } else {
                scroll
            };
            Screen::PrDetail { repo, detail, scroll, total_lines, review_offsets, prefetched_diff }
        },
        Screen::DiffView {
            repo,
            number,
            files,
            threads,
            scroll,
            total_lines,
            file_offsets,
            view_mode,
        } => {
            let scroll = if file_offsets.len() > 0 {
                next_section_scroll(scroll, &file_offsets, count, direction)
            } else {
                scroll
            };
            Screen::DiffView {
                repo,
                number,
                files,
                threads,
                scroll,
                total_lines,
                file_offsets,
                view_mode,
            }
        },
        other => other,
    }
}

/// Whether `reduce(state, msg)` may be called: the reducer's arithmetic
/// stays in range (see [`reduce_defined`]).
pub fn can_reduce(state: &State, msg: &Msg) -> (b: bool)
    ensures
        b == reduce_defined(*state, *msg),
{
    match msg {
        Msg::SelectionDelta(delta) => match &state.screen {
            Screen::PrList { items, selected, pages_loaded, has_more, loading_next, .. } => {
                if items.len() == 0 {
                    return true;
                }
                let sel = move_selection(*selected, *delta, items.len());
                let fetch = items.len() - sel <= PAGINATION_LOAD_THRESHOLD && *has_more
                    && !*loading_next;
                !fetch || *pages_loaded < u32::MAX
            },
            _ => true,
        },
        Msg::SectionJump { count, direction } => match &state.screen {
            Screen::PrDetail { scroll, review_offsets, .. } => {
                if review_offsets.len() > 0 {
                    jump_fits(*scroll, review_offsets, *count, *direction)
                } else {
                    true
                }
            },
            Screen::DiffView { scroll, file_offsets, .. } => {
                if file_offsets.len() > 0 {
                    jump_fits(*scroll, file_offsets, *count, *direction)
                } else {
                    true
                }
            },
            _ => true,
        },
        _ => true,
    }
}

fn jump_fits(current: u16, offsets: &Vec<u16>, count: usize, direction: JumpDirection) -> (b: bool)
    requires
        offsets.len() > 0,
    ensures
        b == section_jump_fits(offsets@, current, count as nat, direction),
{
    match direction {
        JumpDirection::Prev => true,
        JumpDirection::Next => {
            let n = offsets.len();
            let mut k: usize = 0;
            while k < n && offsets[k] <= current
                invariant
                    k <= n == offsets.len(),
                    first_after(offsets@, current, k as int) == first_after(offsets@, current, 0),
                decreases n - k,
            {
                k = k + 1;
            }
            assert(first_after(offsets@, current, k as int) == k);
            let start = if k < n {
                k
            } else {
                n - 1
            };
            let c = if count == 0 {
                1
            } else {
                count
            };
            c - 1 <= usize::MAX - start
        },
    }
}

} // verus!
