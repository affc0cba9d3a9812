//! Where the rows of the unified view land once review threads are
//! inserted: how many pseudo-lines are placed before a row, on which rows
//! the anchors of each file fall, and which file each thread counts for.

use vstd::prelude::*;

use super::threads::{
    anchor_row, comment_notes, comments_notes, insert_at, merged, notes_at, pending, thread_notes,
};
use super::{
    comment_rows, comments_rows, diff_anchors, drawn_before, file_tags, files_anchors, header_index,
    lemma_file_tags_len, lemma_rows_before_monotone, placed_in, plain_height, rows_before, sat32,
    tag_anchors, thread_anchor, thread_lines_for, thread_rows,
};
use crate::pulls::{FilePatch, ReviewComment, ReviewThread};
use crate::style::Style;
use crate::text::{lines, lines_from};

verus! {

// ── pseudo-lines before a row ───────────────────────────────────────────

/// Entries of `p` placed at positions `1..=m`.
pub open spec fn placed_upto(p: Seq<(int, (Seq<char>, Seq<char>, bool))>, m: int) -> int
    decreases p.len(),
{
    if p.len() == 0 {
        0
    } else {
        placed_upto(p.drop_last(), m) + if 1 <= p.last().0 && p.last().0 <= m {
            1int
        } else {
            0
        }
    }
}

proof fn lemma_placed_nonpos(p: Seq<(int, (Seq<char>, Seq<char>, bool))>, m: int)
    requires
        m <= 0,
    ensures
        placed_upto(p, m) == 0,
    decreases p.len(),
{
    if p.len() > 0 {
        lemma_placed_nonpos(p.drop_last(), m);
    }
}

proof fn lemma_placed_nonneg(p: Seq<(int, (Seq<char>, Seq<char>, bool))>, m: int)
    ensures
        placed_upto(p, m) >= 0,
    decreases p.len(),
{
    if p.len() > 0 {
        lemma_placed_nonneg(p.drop_last(), m);
    }
}

proof fn lemma_placed_step(p: Seq<(int, (Seq<char>, Seq<char>, bool))>, m: int)
    requires
        1 <= m,
    ensures
        placed_upto(p, m) == placed_upto(p, m - 1) + notes_at(p, m).len(),
    decreases p.len(),
{
    if p.len() > 0 {
        lemma_placed_step(p.drop_last(), m);
    }
}

/// `merged(base, p, j)` holds the first `j` rows of `base` and the entries
/// placed at positions `1..=j`.
pub proof fn lemma_merged_len(
    base: Seq<Seq<(Seq<char>, Style)>>,
    p: Seq<(int, (Seq<char>, Seq<char>, bool))>,
    j: int,
)
    requires
        0 <= j <= base.len(),
    ensures
        merged(base, p, j).len() == j + placed_upto(p, j),
    decreases j,
{
    if j == 0 {
        lemma_placed_nonpos(p, 0);
    } else {
        lemma_merged_len(base, p, j - 1);
        lemma_placed_step(p, j);
    }
}

/// Row `r` of `base` lands after the `r` rows before it and the entries
/// placed at positions `1..=r`.
pub proof fn lemma_merged_at(
    base: Seq<Seq<(Seq<char>, Style)>>,
    p: Seq<(int, (Seq<char>, Seq<char>, bool))>,
    j: int,
    r: int,
)
    requires
        0 <= r < j <= base.len(),
    ensures
        r + placed_upto(p, r) < merged(base, p, j).len(),
        merged(base, p, j)[r + placed_upto(p, r)] == base[r],
    decreases j,
{
    lemma_merged_len(base, p, j - 1);
    let prev = merged(base, p, j - 1);
    let tail = notes_at(p, j).map_values(|x: (Seq<char>, Seq<char>, bool)| super::threads::note_row(x));
    assert(merged(base, p, j) == prev + seq![base[j - 1]] + tail);
    if r < j - 1 {
        lemma_merged_at(base, p, j - 1, r);
        let q = r + placed_upto(p, r);
        assert(0 <= q < prev.len()) by {
            lemma_placed_nonneg(p, r);
        }
        assert(merged(base, p, j)[q] == prev[q]);
    } else {
        assert(merged(base, p, j)[prev.len() as int] == base[j - 1]);
    }
}

// ── pseudo-lines of the threads ─────────────────────────────────────────

/// Pseudo-lines that the threads `ts[..k]` place at positions `1..=m`.
pub open spec fn threads_placed(
    anchors: Seq<(Seq<char>, u32, int)>,
    ts: Seq<ReviewThread>,
    n: int,
    k: int,
    m: int,
) -> int
    decreases k,
{
    if k <= 0 {
        0
    } else {
        threads_placed(anchors, ts, n, k - 1, m) + match insert_at(anchors, ts[k - 1], n) {
            Some(a) => if 1 <= a && a <= m {
                thread_notes(ts[k - 1]).len() as int
            } else {
                0
            },
            None => 0,
        }
    }
}

proof fn lemma_placed_concat(
    a: Seq<(int, (Seq<char>, Seq<char>, bool))>,
    b: Seq<(int, (Seq<char>, Seq<char>, bool))>,
    m: int,
)
    ensures
        placed_upto(a + b, m) == placed_upto(a, m) + placed_upto(b, m),
    decreases b.len(),
{
    if b.len() > 0 {
        assert((a + b).drop_last() =~= a + b.drop_last());
        lemma_placed_concat(a, b.drop_last(), m);
    } else {
        assert(a + b =~= a);
    }
}

proof fn lemma_placed_block(notes: Seq<(Seq<char>, Seq<char>, bool)>, at: int, m: int)
    ensures
        placed_upto(notes.map_values(|x: (Seq<char>, Seq<char>, bool)| (at, x)), m) == if 1 <= at
            && at <= m {
            notes.len() as int
        } else {
            0
        },
    decreases notes.len(),
{
    if notes.len() > 0 {
        let q = notes.map_values(|x: (Seq<char>, Seq<char>, bool)| (at, x));
        assert(q.drop_last() =~= notes.drop_last().map_values(
            |x: (Seq<char>, Seq<char>, bool)| (at, x),
        ));
        lemma_placed_block(notes.drop_last(), at, m);
    }
}

/// The entries of `pending` placed at positions `1..=m` are the pseudo-lines
/// of the threads whose insertion point is among them.
pub proof fn lemma_pending_placed(
    anchors: Seq<(Seq<char>, u32, int)>,
    ts: Seq<ReviewThread>,
    n: int,
    k: int,
    m: int,
)
    requires
        0 <= k <= ts.len(),
    ensures
        placed_upto(pending(anchors, ts, n, k), m) == threads_placed(anchors, ts, n, k, m),
    decreases k,
{
    if k > 0 {
        lemma_pending_placed(anchors, ts, n, k - 1, m);
        let prev = pending(anchors, ts, n, k - 1);
        match insert_at(anchors, ts[k - 1], n) {
            Some(at) => {
                let blk = thread_notes(ts[k - 1]).map_values(
                    |x: (Seq<char>, Seq<char>, bool)| (at, x),
                );
                assert(pending(anchors, ts, n, k) == prev + blk);
                lemma_placed_concat(prev, blk, m);
                lemma_placed_block(thread_notes(ts[k - 1]), at, m);
            },
            None => {
                assert(pending(anchors, ts, n, k) =~= prev);
            },
        }
    }
}

proof fn lemma_comment_notes_len(c: ReviewComment)
    ensures
        comment_notes(c).len() == comment_rows(c.body@),
{
    let b = c.body@;
    if b.len() > 0 {
        assert(lines(b) == lines_from(b, 0));
        assert(lines(b).len() >= 1);
    } else {
        assert(lines(b) =~= Seq::<Seq<char>>::empty());
    }
}

proof fn lemma_comments_notes_len(cs: Seq<ReviewComment>, k: int)
    requires
        0 <= k <= cs.len(),
    ensures
        comments_notes(cs, k).len() == comments_rows(cs, k),
    decreases k,
{
    if k > 0 {
        lemma_comments_notes_len(cs, k - 1);
        lemma_comment_notes_len(cs[k - 1]);
    }
}

/// A thread's notes are as many as the rows its comments render as.
pub proof fn lemma_thread_notes_len(t: ReviewThread)
    ensures
        thread_notes(t).len() == comments_rows(t.comments@, t.comments@.len() as int),
{
    lemma_comments_notes_len(t.comments@, t.comments@.len() as int);
}

/// The `j`-th pseudo-line that comment `c` of thread `t` contributes: it
/// sits after the rows of the comments before `c`.
pub open spec fn comment_note(t: ReviewThread, c: int, j: int) -> (Seq<char>, Seq<char>, bool) {
    thread_notes(t)[comments_rows(t.comments@, c) + j]
}

proof fn lemma_comments_rows_monotone(cs: Seq<ReviewComment>, a: int, b: int)
    requires
        0 <= a <= b <= cs.len(),
    ensures
        comments_rows(cs, a) <= comments_rows(cs, b),
    decreases b - a,
{
    if a < b {
        lemma_comments_rows_monotone(cs, a, b - 1);
        lemma_comment_notes_len(cs[b - 1]);
    }
}

proof fn lemma_comments_notes_at(cs: Seq<ReviewComment>, k: int)
    requires
        0 <= k <= cs.len(),
    ensures
        forall|c: int, j: int|
            0 <= c < k && 0 <= j < comment_rows(cs[c].body@) ==> #[trigger] comments_notes(cs, k)[
                comments_rows(cs, c) + j] == #[trigger] comment_notes(cs[c])[j],
    decreases k,
{
    if k > 0 {
        lemma_comments_notes_at(cs, k - 1);
        lemma_comments_notes_len(cs, k - 1);
        lemma_comment_notes_len(cs[k - 1]);
        let prev = comments_notes(cs, k - 1);
        assert(comments_notes(cs, k) == prev + comment_notes(cs[k - 1]));
        assert forall|c: int, j: int|
            0 <= c < k && 0 <= j < comment_rows(cs[c].body@) implies #[trigger] comments_notes(cs, k)[
                comments_rows(cs, c) + j] == #[trigger] comment_notes(cs[c])[j] by {
            if c < k - 1 {
                lemma_comments_rows_monotone(cs, c + 1, k - 1);
                lemma_comment_notes_len(cs[c]);
                assert(comments_rows(cs, c + 1) == comments_rows(cs, c) + comment_rows(cs[c].body@));
                lemma_comments_rows_monotone(cs, 0, c);
                assert(comments_rows(cs, c) + j < prev.len());
                assert(prev[comments_rows(cs, c) + j] == comment_notes(cs[c])[j]);
                assert(comments_notes(cs, k)[comments_rows(cs, c) + j] == prev[comments_rows(cs, c) + j]);
            } else {
                assert(c == k - 1);
                assert(comments_rows(cs, c) + j == prev.len() + j);
                assert(comments_notes(cs, k)[prev.len() + j] == comment_notes(cs[k - 1])[j]);
            }
        }
    }
}

/// Every comment of a thread opens its own run of pseudo-lines, right
/// after the rows of the comments before it: the run holds one line per
/// body line, each under that comment's author; its first line alone
/// carries `first`, so it is drawn behind `▏ @author: ` with the
/// comment's own author, and a reply never reads as a continuation of the
/// comment above it.
pub proof fn law_each_comment_opens_with_its_author(t: ReviewThread)
    ensures
        thread_notes(t).len() == comments_rows(t.comments@, t.comments@.len() as int),
        forall|c: int, j: int|
            0 <= c < t.comments@.len() && 0 <= j < comment_rows(t.comments@[c].body@) ==> #[trigger] comment_note(t, c, j)
                == (t.comments@[c].author@, super::threads::body_pieces(t.comments@[c].body@)[j], j == 0),
        forall|c: int|
            0 <= c < t.comments@.len() ==> super::threads::note_prefix(#[trigger] comment_note(t, c, 0)) == "▏ @"@
                + t.comments@[c].author@ + ": "@,
{
    let cs = t.comments@;
    lemma_thread_notes_len(t);
    lemma_comments_notes_at(cs, cs.len() as int);
    assert forall|c: int, j: int|
        0 <= c < cs.len() && 0 <= j < comment_rows(cs[c].body@) implies #[trigger] comment_note(t, c, j)
            == (cs[c].author@, super::threads::body_pieces(cs[c].body@)[j], j == 0) by {
        lemma_comment_notes_len(cs[c]);
        assert(comment_notes(cs[c])[j] == comments_notes(cs, cs.len() as int)[comments_rows(cs, c) + j]);
    }
    assert forall|c: int| 0 <= c < cs.len() implies super::threads::note_prefix(
        #[trigger] comment_note(t, c, 0),
    ) == "▏ @"@ + cs[c].author@ + ": "@ by {
        lemma_comment_notes_len(cs[c]);
        if cs[c].body@.len() > 0 {
            assert(lines(cs[c].body@) == lines_from(cs[c].body@, 0));
        }
        assert(comment_rows(cs[c].body@) >= 1);
        assert(comment_note(t, c, 0) == comments_notes(cs, cs.len() as int)[comments_rows(cs, c) + 0]);
        assert(comment_notes(cs[c])[0] == comments_notes(cs, cs.len() as int)[comments_rows(cs, c) + 0]);
    }
}

// ── where anchors fall ──────────────────────────────────────────────────

/// Every anchor of `a` is on `path`, on a row in `lo..hi`.
pub open spec fn anchors_within(a: Seq<(Seq<char>, u32, int)>, path: Seq<char>, lo: int, hi: int) -> bool {
    forall|m: int| #![trigger a[m]] 0 <= m < a.len() ==> a[m].0 == path && lo <= a[m].2 && a[m].2 < hi
}

proof fn lemma_tag_anchors_within(path: Seq<char>, tags: Seq<Option<u32>>, base: int)
    ensures
        anchors_within(tag_anchors(path, tags, base), path, base, base + tags.len()),
    decreases tags.len(),
{
    if tags.len() > 0 {
        lemma_tag_anchors_within(path, tags.drop_last(), base);
        let prev = tag_anchors(path, tags.drop_last(), base);
        let all = tag_anchors(path, tags, base);
        assert forall|m: int| #![trigger all[m]] 0 <= m < all.len() implies all[m].0 == path && base
            <= all[m].2 && all[m].2 < base + tags.len() by {
            if m < prev.len() {
                assert(all[m] == prev[m]);
            }
        }
    }
}

/// Every anchor of `a` lies among the rows of one of the files
/// `files[i..]`, between its stats row and the end of its rows.
pub open spec fn anchors_in_files(files: Seq<FilePatch>, a: Seq<(Seq<char>, u32, int)>, i: int) -> bool {
    forall|m: int|
        #![trigger a[m]]
        0 <= m < a.len() ==> exists|j: int|
            #![trigger files[j]]
            i <= j < files.len() && header_index(files, j) + 2 <= a[m].2 && a[m].2 < rows_before(
                files,
                j + 1,
            )
}

proof fn lemma_files_anchors_in_files(files: Seq<FilePatch>, i: int)
    requires
        0 <= i <= files.len(),
    ensures
        anchors_in_files(files, files_anchors(files, i, rows_before(files, i), false), i),
    decreases files.len() - i,
{
    if i < files.len() {
        lemma_files_anchors_in_files(files, i + 1);
        let idx = rows_before(files, i);
        let f = files[i];
        let head = header_index(files, i) + 2;
        let tags = file_tags(f, false);
        lemma_file_tags_len(f);
        assert(rows_before(files, i + 1) == header_index(files, i) + plain_height(f));
        assert(head + tags.len() == rows_before(files, i + 1));
        let rest = files_anchors(files, i + 1, rows_before(files, i + 1), false);
        let all = files_anchors(files, i, idx, false);
        let ta = tag_anchors(f.path@, tags, head);
        lemma_tag_anchors_within(f.path@, tags, head);
        assert(all == ta + rest);
        assert forall|m: int| #![trigger all[m]] 0 <= m < all.len() implies exists|j: int|
            #![trigger files[j]]
            i <= j < files.len() && header_index(files, j) + 2 <= all[m].2 && all[m].2
                < rows_before(files, j + 1) by {
            if m < ta.len() {
                assert(all[m] == ta[m]);
                assert(files[i] == f);
            } else {
                assert(all[m] == rest[m - ta.len()]);
            }
        }
    }
}

/// Every anchor of a layout lies on one of its rows before threads.
pub proof fn lemma_anchors_below(files: Seq<FilePatch>, i: int, split: bool)
    requires
        0 <= i <= files.len(),
    ensures
        forall|m: int|
            #![trigger files_anchors(files, i, drawn_before(files, i, split), split)[m]]
            0 <= m < files_anchors(files, i, drawn_before(files, i, split), split).len() ==> 0
                <= files_anchors(files, i, drawn_before(files, i, split), split)[m].2 && files_anchors(
                files,
                i,
                drawn_before(files, i, split),
                split,
            )[m].2 < drawn_before(files, files.len() as int, split),
    decreases files.len() - i,
{
    if i < files.len() {
        lemma_anchors_below(files, i + 1, split);
        lemma_drawn_before_nonneg(files, i, split);
        lemma_drawn_monotone(files, i + 1, files.len() as int, split);
        let idx = drawn_before(files, i, split);
        let f = files[i];
        let head = (if i > 0 {
            idx + 1
        } else {
            idx
        }) + 2;
        let tags = file_tags(f, split);
        assert(head + tags.len() == drawn_before(files, i + 1, split));
        let rest = files_anchors(files, i + 1, drawn_before(files, i + 1, split), split);
        let all = files_anchors(files, i, idx, split);
        let ta = tag_anchors(f.path@, tags, head);
        lemma_tag_anchors_within(f.path@, tags, head);
        assert(all == ta + rest);
        assert forall|m: int| #![trigger all[m]] 0 <= m < all.len() implies 0 <= all[m].2 && all[m].2
            < drawn_before(files, files.len() as int, split) by {
            if m < ta.len() {
                assert(all[m] == ta[m]);
            } else {
                assert(all[m] == rest[m - ta.len()]);
            }
        }
    }
}

proof fn lemma_drawn_before_nonneg(files: Seq<FilePatch>, i: int, split: bool)
    ensures
        drawn_before(files, i, split) >= 0,
    decreases i,
{
    if i > 0 {
        lemma_drawn_before_nonneg(files, i - 1, split);
    }
}

proof fn lemma_drawn_monotone(files: Seq<FilePatch>, i: int, j: int, split: bool)
    requires
        0 <= i <= j <= files.len(),
    ensures
        drawn_before(files, i, split) <= drawn_before(files, j, split),
    decreases j - i,
{
    if i < j {
        lemma_drawn_monotone(files, i, j - 1, split);
    }
}

/// The first anchor of a path and line, when there is one, is one of the
/// layout's anchors.
pub proof fn lemma_anchor_row_in(a: Seq<(Seq<char>, u32, int)>, p: Seq<char>, l: u32)
    ensures
        anchor_row(a, p, l) matches Some(r) ==> exists|m: int|
            #![trigger a[m]]
            0 <= m < a.len() && a[m].2 == r,
{
    lemma_anchor_row_found(a, p, l);
}

proof fn lemma_anchor_row_found(a: Seq<(Seq<char>, u32, int)>, p: Seq<char>, l: u32)
    ensures
        anchor_row(a, p, l) matches Some(r) ==> exists|m: int|
            #![trigger a[m]]
            0 <= m < a.len() && a[m].0 == p && a[m].2 == r,
    decreases a.len(),
{
    if a.len() > 0 {
        if !(a[0].0 == p && a[0].1 == l) {
            lemma_anchor_row_found(a.drop_first(), p, l);
            if let Some(r) = anchor_row(a, p, l) {
                let m = choose|m: int|
                    #![trigger a.drop_first()[m]]
                    0 <= m < a.drop_first().len() && a.drop_first()[m].0 == p && a.drop_first()[m].2
                        == r;
                assert(a[m + 1] == a.drop_first()[m]);
            }
        } else {
            assert(a[0].0 == p);
        }
    }
}

/// A thread's anchor row lies among the rows of some file.
pub proof fn lemma_anchor_in_file(files: Seq<FilePatch>, t: ReviewThread)
    ensures
        thread_anchor(files, t) matches Some(r) ==> exists|j: int|
            #![trigger files[j]]
            0 <= j < files.len() && header_index(files, j) + 2 <= r && r < rows_before(files, j + 1),
{
    if let Some(l) = t.line {
        if let Some(r) = anchor_row(diff_anchors(files), t.path@, l) {
            let anchors = diff_anchors(files);
            lemma_anchor_row_found(anchors, t.path@, l);
            let m = choose|m: int|
                #![trigger anchors[m]]
                0 <= m < anchors.len() && anchors[m].0 == t.path@ && anchors[m].2 == r;
            lemma_files_anchors_in_files(files, 0);
            assert(files_anchors(files, 0, rows_before(files, 0), false) == anchors);
        }
    }
}

proof fn lemma_header_index_monotone(files: Seq<FilePatch>, i: int, j: int)
    requires
        0 <= i <= j <= files.len(),
    ensures
        header_index(files, i) <= header_index(files, j),
        rows_before(files, i) >= 0,
{
    lemma_rows_before_monotone(files, i, j);
    lemma_rows_before_monotone(files, 0, i);
}

/// The rows of distinct files do not overlap.
proof fn lemma_file_rows_disjoint(files: Seq<FilePatch>, j: int, j2: int, r: int)
    requires
        0 <= j < files.len(),
        0 <= j2 < files.len(),
        header_index(files, j) + 2 <= r < rows_before(files, j + 1),
        header_index(files, j2) + 2 <= r < rows_before(files, j2 + 1),
    ensures
        j == j2,
{
    if j < j2 {
        lemma_rows_before_monotone(files, j + 1, j2);
    } else if j2 < j {
        lemma_rows_before_monotone(files, j2 + 1, j);
    }
}

// ── thread lines per file ───────────────────────────────────────────────

/// Each thread's rows can be counted in `u32` without saturating.
pub open spec fn thread_rows_fit(ts: Seq<ReviewThread>) -> bool {
    forall|k: int| 0 <= k < ts.len() ==> thread_rows(#[trigger] ts[k]) <= u32::MAX
}

/// Thread pseudo-lines the layout counts for `files[..i]`, over `ts[..k]`.
pub open spec fn files_thread_lines(files: Seq<FilePatch>, ts: Seq<ReviewThread>, i: int, k: int) -> int
    decreases i,
{
    if i <= 0 {
        0
    } else {
        files_thread_lines(files, ts, i - 1, k) + thread_lines_for(files, i - 1, ts, k)
    }
}

/// What the layout counts for thread `t` over `files[..i]`.
pub open spec fn thread_share(files: Seq<FilePatch>, t: ReviewThread, i: int) -> int
    decreases i,
{
    if i <= 0 {
        0
    } else {
        thread_share(files, t, i - 1) + if placed_in(files, t, i - 1) {
            sat32(thread_rows(t))
        } else {
            0
        }
    }
}

proof fn lemma_files_thread_lines_none(files: Seq<FilePatch>, ts: Seq<ReviewThread>, i: int)
    ensures
        files_thread_lines(files, ts, i, 0) == 0,
    decreases i,
{
    if i > 0 {
        lemma_files_thread_lines_none(files, ts, i - 1);
    }
}

proof fn lemma_files_thread_lines_step(files: Seq<FilePatch>, ts: Seq<ReviewThread>, i: int, k: int)
    requires
        1 <= k <= ts.len(),
    ensures
        files_thread_lines(files, ts, i, k) == files_thread_lines(files, ts, i, k - 1)
            + thread_share(files, ts[k - 1], i),
    decreases i,
{
    if i > 0 {
        lemma_files_thread_lines_step(files, ts, i - 1, k);
    }
}

/// A thread drawn below a row of file `j0` counts for `files[..i]` exactly
/// when `j0 < i`; a thread no row anchors never counts.
proof fn lemma_thread_share(files: Seq<FilePatch>, t: ReviewThread, i: int, j0: int)
    requires
        0 <= i <= files.len(),
    ensures
        (0 <= j0 < files.len() && (thread_anchor(files, t) matches Some(r) && header_index(files, j0)
            + 2 <= r && r < rows_before(files, j0 + 1))) ==> thread_share(files, t, i) == if j0 < i {
            sat32(thread_rows(t))
        } else {
            0
        },
        thread_anchor(files, t) is None ==> thread_share(files, t, i) == 0,
    decreases i,
{
    if i > 0 {
        lemma_thread_share(files, t, i - 1, j0);
        if 0 <= j0 < files.len() && i - 1 != j0 {
            if let Some(r) = thread_anchor(files, t) {
                if header_index(files, j0) + 2 <= r && r < rows_before(files, j0 + 1) && placed_in(
                    files,
                    t,
                    i - 1,
                ) {
                    lemma_file_rows_disjoint(files, j0, i - 1, r);
                }
            }
        }
    }
}

/// The row after which the pseudo-lines of `files[..i]` end: file `i`'s
/// header, or the last row for `i == files.len()`.
pub open spec fn mark(files: Seq<FilePatch>, i: int) -> int {
    if i < files.len() {
        header_index(files, i)
    } else {
        rows_before(files, files.len() as int)
    }
}

/// While no thread's row count saturates, the thread lines the layout
/// counts for `files[..i]` are the pseudo-lines placed up to
/// `mark(files, i)`.
pub proof fn lemma_lines_placed(files: Seq<FilePatch>, ts: Seq<ReviewThread>, i: int, k: int)
    requires
        0 <= i <= files.len(),
        0 <= k <= ts.len(),
        thread_rows_fit(ts),
    ensures
        files_thread_lines(files, ts, i, k) == threads_placed(
            diff_anchors(files),
            ts,
            rows_before(files, files.len() as int),
            k,
            mark(files, i),
        ),
    decreases k,
{
    let anchors = diff_anchors(files);
    let n = rows_before(files, files.len() as int);
    if k == 0 {
        lemma_files_thread_lines_none(files, ts, i);
    } else {
        lemma_lines_placed(files, ts, i, k - 1);
        lemma_files_thread_lines_step(files, ts, i, k);
        let t = ts[k - 1];
        lemma_thread_notes_len(t);
        lemma_anchor_in_file(files, t);
        match thread_anchor(files, t) {
            None => {
                lemma_thread_share(files, t, i, 0);
                assert(insert_at(anchors, t, n) is None);
            },
            Some(r) => {
                let j0 = choose|j: int|
                    #![trigger files[j]]
                    0 <= j < files.len() && header_index(files, j) + 2 <= r && r < rows_before(
                        files,
                        j + 1,
                    );
                lemma_thread_share(files, t, i, j0);
                lemma_rows_before_monotone(files, j0 + 1, files.len() as int);
                lemma_header_index_monotone(files, 0, j0);
                assert(insert_at(anchors, t, n) == Some(r + 1));
                assert(thread_rows(t) <= u32::MAX);
                if j0 < i {
                    lemma_rows_before_monotone(files, j0 + 1, i);
                    assert(r + 1 <= mark(files, i));
                } else {
                    lemma_header_index_monotone(files, i, j0);
                    assert(r + 1 > mark(files, i));
                }
            },
        }
    }
}

} // verus!
