//! Layout of unified-diff patches as GitHub returns them per file: line
//! counts, file offsets, the post-image text and the anchors of inline
//! review threads.
//!
//! Each file renders as a header line, a stats line and then one line per
//! patch line (or one placeholder line when the patch is omitted); a blank
//! line separates consecutive files. Review-thread comments add one line
//! per body line below the line they are anchored to.

pub mod columns;
pub mod placement;
pub mod split;
pub mod threads;
pub mod unified;

use vstd::prelude::*;

use crate::pulls::{FilePatch, ReviewComment, ReviewThread};
use crate::text::{
    has_prefix, line_bounds, lines, push_char, slice_chars, string_from_chars, substring, to_chars,
};

verus! {

/// Number of spaces a tab expands to in the diff viewer.
pub const TAB_WIDTH: usize = 4;

// ── tabs ────────────────────────────────────────────────────────────────

/// `s` with every `'\t'` replaced by four spaces.
pub open spec fn expand(s: Seq<char>) -> Seq<char>
    decreases s.len(),
{
    if s.len() == 0 {
        Seq::empty()
    } else if s.last() == '\t' {
        expand(s.drop_last()) + seq![' ', ' ', ' ', ' ']
    } else {
        expand(s.drop_last()).push(s.last())
    }
}

/// Replace every `\t` with [`TAB_WIDTH`] spaces.
pub fn expand_tabs(s: &str) -> (r: String)
    ensures
        r@ == expand(s@),
{
    let cs = to_chars(s);
    let mut out = String::new();
    let mut i: usize = 0;
    while i < cs.len()
        invariant
            i <= cs.len(),
            cs@ == s@,
            out@ == expand(cs@.take(i as int)),
        decreases cs.len() - i,
    {
        let c = cs[i];
        proof {
            assert(cs@.take(i + 1).drop_last() =~= cs@.take(i as int));
        }
        if c == '\t' {
            let mut k: usize = 0;
            let ghost base = out@;
            while k < TAB_WIDTH
                invariant
                    k <= TAB_WIDTH,
                    out@ == base + Seq::new(k as nat, |j: int| ' '),
                decreases TAB_WIDTH - k,
            {
                push_char(&mut out, ' ');
                k = k + 1;
                assert(out@ =~= base + Seq::new(k as nat, |j: int| ' '));
            }
            assert(Seq::new(4, |j: int| ' ') =~= seq![' ', ' ', ' ', ' ']);
        } else {
            push_char(&mut out, c);
        }
        i = i + 1;
    }
    assert(cs@.take(cs.len() as int) =~= cs@);
    out
}

// ── post-image ──────────────────────────────────────────────────────────

pub open spec fn is_hunk_header(raw: Seq<char>) -> bool {
    has_prefix(raw, seq!['@', '@'])
}

/// The post-image text of a patch line: context and added lines without
/// their prefix, a blank line as an empty line; `None` for hunk headers,
/// deletions and no-newline markers.
pub open spec fn post_image_line(raw: Seq<char>) -> Option<Seq<char>> {
    if is_hunk_header(raw) {
        None
    } else if raw.len() == 0 {
        Some(Seq::empty())
    } else if raw[0] == '+' || raw[0] == ' ' {
        Some(raw.drop_first())
    } else {
        None
    }
}

/// Post-image lines of the patch lines `ls[..k]`.
pub open spec fn post_image_lines(ls: Seq<Seq<char>>, k: int) -> Seq<Seq<char>>
    decreases k,
{
    if k <= 0 {
        Seq::empty()
    } else {
        let prior = post_image_lines(ls, k - 1);
        match post_image_line(ls[k - 1]) {
            Some(b) => prior.push(b),
            None => prior,
        }
    }
}

/// Lines joined with `'\n'` between them.
pub open spec fn join_lines(ls: Seq<Seq<char>>) -> Seq<char>
    decreases ls.len(),
{
    if ls.len() == 0 {
        Seq::empty()
    } else if ls.len() == 1 {
        ls[0]
    } else {
        join_lines(ls.drop_last()) + seq!['\n'] + ls.last()
    }
}

/// The post-image of a patch (context and added lines, prefixes
/// stripped), the text the syntax highlighter reads.
pub open spec fn post_image(patch: Seq<char>) -> Seq<char> {
    join_lines(post_image_lines(lines(patch), lines(patch).len() as int))
}

/// Pull the post-image lines (context + additions) out of a patch,
/// stripping the prefix character.
pub fn reconstruct_after(patch: &str) -> (r: String)
    ensures
        r@ == post_image(patch@),
{
    let cs = to_chars(patch);
    let bounds = line_bounds(&cs);
    let ghost ls = lines(cs@);
    let mut out = String::new();
    let mut first = true;
    let mut k: usize = 0;
    while k < bounds.len()
        invariant
            k <= bounds.len() == ls.len(),
            cs@ == patch@,
            ls == lines(cs@),
            forall|q: int| #![trigger bounds[q]] 0 <= q < bounds.len() ==> bounds[q].0 <= bounds[q].1 <= cs.len(),
            forall|q: int|
                0 <= q < bounds.len() ==> #[trigger] cs@.subrange(bounds[q].0 as int, bounds[q].1 as int)
                    == ls[q],
            first == (post_image_lines(ls, k as int).len() == 0),
            out@ == join_lines(post_image_lines(ls, k as int)),
        decreases bounds.len() - k,
    {
        let (a, b) = bounds[k];
        let ghost raw = ls[k as int];
        assert(cs@.subrange(a as int, b as int) == raw);
        let is_header = b - a >= 2 && cs[a] == '@' && cs[a + 1] == '@';
        proof {
            if b - a >= 2 {
                assert(raw.take(2) =~= seq![cs@[a as int], cs@[a + 1]]);
            }
        }
        if !is_header {
            let keep = if a == b {
                true
            } else {
                cs[a] == '+' || cs[a] == ' '
            };
            if keep {
                let ghost prior = post_image_lines(ls, k as int);
                if !first {
                    push_char(&mut out, '\n');
                }
                let start = if a == b {
                    a
                } else {
                    a + 1
                };
                let body = slice_chars(&cs, start, b);
                let body_s = string_from_chars(body.as_slice());
                out.append(body_s.as_str());
                proof {
                    if a == b {
                        assert(raw.len() == 0);
                        assert(body@ =~= Seq::<char>::empty());
                    } else {
                        assert(body@ =~= raw.drop_first());
                    }
                    let now = post_image_lines(ls, k + 1);
                    assert(now == prior.push(body@));
                    if prior.len() == 0 {
                        assert(now =~= seq![body@]);
                        assert(out@ =~= body@);
                    } else {
                        assert(now.drop_last() =~= prior);
                        assert(out@ =~= join_lines(prior) + seq!['\n'] + body@);
                    }
                }
                first = false;
            }
        }
        k = k + 1;
    }
    out
}

// ── hunk headers ────────────────────────────────────────────────────────

/// Value of a sequence of ASCII digits.
pub open spec fn digits_value(d: Seq<char>) -> int
    decreases d.len(),
{
    if d.len() == 0 {
        0
    } else {
        digits_value(d.drop_last()) * 10 + (d.last() as int - '0' as int)
    }
}

pub open spec fn is_ascii_digit(c: char) -> bool {
    '0' <= c <= '9'
}

/// Length of the run of ASCII digits at the start of `s`.
pub open spec fn digit_run(s: Seq<char>) -> int
    decreases s.len(),
{
    if s.len() == 0 || !is_ascii_digit(s[0]) {
        0
    } else {
        1 + digit_run(s.drop_first())
    }
}

/// The new-file start line `c` of a hunk header `@@ -a,b +c,d @@`: the
/// digits after the first `+` that follows the `@@`; `None` when the line
/// is not a hunk header, has no `+`, or the digits are missing or exceed
/// `u32`.
pub open spec fn hunk_new_start(line: Seq<char>) -> Option<u32> {
    if !is_hunk_header(line) {
        None
    } else {
        let rest = line.skip(2);
        let k = crate::pulls::first_index(rest, '+');
        if k >= rest.len() {
            None
        } else {
            let after = rest.skip(k + 1);
            let d = after.take(digit_run(after));
            if d.len() == 0 || digits_value(d) > u32::MAX {
                None
            } else {
                Some(digits_value(d) as u32)
            }
        }
    }
}

proof fn lemma_first_index_props(s: Seq<char>, c: char)
    ensures
        0 <= crate::pulls::first_index(s, c) <= s.len(),
        crate::pulls::first_index(s, c) < s.len() ==> s[crate::pulls::first_index(s, c)] == c,
        forall|q: int| 0 <= q < crate::pulls::first_index(s, c) ==> s[q] != c,
    decreases s.len(),
{
    if s.len() > 0 && s[0] != c {
        lemma_first_index_props(s.drop_first(), c);
        assert forall|q: int| 0 <= q < crate::pulls::first_index(s, c) implies s[q] != c by {
            if q > 0 {
                assert(s[q] == s.drop_first()[q - 1]);
            }
        }
    }
}

proof fn lemma_digit_run(s: Seq<char>, k: int)
    requires
        0 <= k <= s.len(),
        forall|q: int| 0 <= q < k ==> is_ascii_digit(#[trigger] s[q]),
        k < s.len() ==> !is_ascii_digit(s[k]),
    ensures
        digit_run(s) == k,
    decreases k,
{
    if k > 0 {
        lemma_digit_run(s.drop_first(), k - 1);
    }
}

/// Parses the new-file start line out of a hunk header.
pub fn parse_hunk_new_start(line: &str) -> (r: Option<u32>)
    ensures
        r == hunk_new_start(line@),
{
    let cs = to_chars(line);
    assert(cs@.subrange(0, cs.len() as int) =~= line@);
    line_new_start(&cs, 0, cs.len())
}

/// [`hunk_new_start`] of `cs[lo..hi]`.
pub fn line_new_start(cs: &Vec<char>, lo: usize, hi: usize) -> (r: Option<u32>)
    requires
        lo <= hi <= cs.len(),
    ensures
        r == hunk_new_start(cs@.subrange(lo as int, hi as int)),
{
    let ghost line = cs@.subrange(lo as int, hi as int);
    if hi - lo < 2 || cs[lo] != '@' || cs[lo + 1] != '@' {
        proof {
            if hi - lo >= 2 {
                assert(line.take(2)[0] == cs@[lo as int]);
                assert(line.take(2)[1] == cs@[lo + 1]);
            }
        }
        return None;
    }
    assert(line.take(2) =~= seq!['@', '@']);
    let ghost rest = line.skip(2);
    let mut p = lo + 2;
    while p < hi && cs[p] != '+'
        invariant
            lo + 2 <= p <= hi <= cs.len(),
            rest == cs@.subrange(lo + 2, hi as int),
            forall|q: int| lo + 2 <= q < p ==> cs@[q] != '+',
        decreases hi - p,
    {
        p = p + 1;
    }
    proof {
        assert(rest =~= cs@.subrange(lo + 2, hi as int));
        lemma_first_index_props(rest, '+');
        if p < hi {
            crate::pulls::lemma_first_index(rest, '+', (p - lo - 2) as int);
        } else {
            if crate::pulls::first_index(rest, '+') < rest.len() {
                let f = crate::pulls::first_index(rest, '+');
                assert(rest[f] == cs@[lo + 2 + f]);
            }
        }
    }
    if p >= hi {
        return None;
    }
    let ghost after = rest.skip((p - lo - 2) + 1);
    assert(after =~= cs@.subrange(p + 1, hi as int));
    let mut q = p + 1;
    let mut value: u64 = 0;
    let mut over = false;
    while q < hi && '0' <= cs[q] && cs[q] <= '9'
        invariant
            p + 1 <= q <= hi <= cs.len(),
            after == cs@.subrange(p + 1, hi as int),
            forall|j: int| p + 1 <= j < q ==> is_ascii_digit(#[trigger] cs@[j]),
            !over ==> value == digits_value(cs@.subrange(p + 1, q as int)),
            !over ==> value <= u32::MAX,
            over ==> digits_value(cs@.subrange(p + 1, q as int)) > u32::MAX,
        decreases hi - q,
    {
        let d = (cs[q] as u32 - '0' as u32) as u64;
        proof {
            assert(cs@.subrange(p + 1, q + 1).drop_last() =~= cs@.subrange(p + 1, q as int));
            lemma_digits_value_monotone(cs@.subrange(p + 1, q + 1));
        }
        if !over {
            value = value * 10 + d;
            if value > 4294967295 {
                over = true;
            }
        }
        q = q + 1;
    }
    proof {
        lemma_digit_run(after, (q - p - 1) as int);
        assert(after.take(digit_run(after)) =~= cs@.subrange(p + 1, q as int));
    }
    if q == p + 1 || over {
        None
    } else {
        Some(value as u32)
    }
}

proof fn lemma_digits_value_monotone(d: Seq<char>)
    requires
        d.len() > 0,
        is_ascii_digit(d.last()),
    ensures
        digits_value(d) >= digits_value(d.drop_last()) * 10,
        digits_value(d.drop_last()) >= 0 ==> digits_value(d) >= 0,
{
}

// ── review threads ──────────────────────────────────────────────────────

/// Rows one comment renders as: one per body line, one for an empty body.
pub open spec fn comment_rows(body: Seq<char>) -> int {
    if lines(body).len() == 0 {
        1
    } else {
        lines(body).len() as int
    }
}

/// Rows the comments `cs[..k]` render as.
pub open spec fn comments_rows(cs: Seq<ReviewComment>, k: int) -> int
    decreases k,
{
    if k <= 0 {
        0
    } else {
        comments_rows(cs, k - 1) + comment_rows(cs[k - 1].body@)
    }
}

/// Pseudo-lines a thread adds below its anchor; none for outdated threads.
pub open spec fn thread_rows(t: ReviewThread) -> int {
    if t.line is None {
        0
    } else {
        comments_rows(t.comments@, t.comments@.len() as int)
    }
}

/// Number of lines in `s` (`str::lines().count()`).
pub fn line_count(s: &str) -> (n: usize)
    ensures
        n == lines(s@).len(),
{
    let cs = to_chars(s);
    let b = line_bounds(&cs);
    b.len()
}

/// Number of pseudo-lines a thread emits.
pub fn pseudo_line_count(thread: &ReviewThread) -> (n: usize)
    requires
        thread_rows(*thread) <= usize::MAX,
    ensures
        n == thread_rows(*thread),
{
    if thread.line.is_none() {
        return 0;
    }
    let mut total: usize = 0;
    let mut k: usize = 0;
    while k < thread.comments.len()
        invariant
            k <= thread.comments.len(),
            thread.line is Some,
            thread_rows(*thread) <= usize::MAX,
            total == comments_rows(thread.comments@, k as int),
        decreases thread.comments.len() - k,
    {
        let c = line_count(thread.comments[k].body.as_str());
        let c = if c == 0 {
            1
        } else {
            c
        };
        proof {
            lemma_comments_rows_prefix(thread.comments@, (k + 1) as int, thread.comments@.len() as int);
        }
        total = total + c;
        k = k + 1;
    }
    total
}

proof fn lemma_comments_rows_prefix(cs: Seq<ReviewComment>, k: int, n: int)
    requires
        0 <= k <= n <= cs.len(),
    ensures
        comments_rows(cs, k) <= comments_rows(cs, n),
    decreases n - k,
{
    if k < n {
        lemma_comments_rows_prefix(cs, k, n - 1);
    }
}

// ── file offsets ────────────────────────────────────────────────────────

pub open spec fn sat32(x: int) -> int {
    if x > u32::MAX {
        u32::MAX as int
    } else {
        x
    }
}

/// Lines a file's patch body renders as: one per patch line (capped at
/// `u32::MAX`), or one placeholder line when the patch is missing or empty.
pub open spec fn body_lines(f: FilePatch) -> int {
    match f.patch {
        Some(p) => if p@.len() > 0 {
            sat32(lines(p@).len() as int)
        } else {
            1
        },
        None => 1,
    }
}

/// Row of file `i`'s header before threads.
pub open spec fn header_index(files: Seq<FilePatch>, i: int) -> int {
    rows_before(files, i) + if i > 0 {
        1int
    } else {
        0
    }
}

/// The row a current thread is drawn below in the unified view: the first
/// row showing its new-file line of its path; `None` when no row does.
pub open spec fn thread_anchor(files: Seq<FilePatch>, t: ReviewThread) -> Option<int> {
    match t.line {
        Some(l) => threads::anchor_row(diff_anchors(files), t.path@, l),
        None => None,
    }
}

/// The thread is drawn below one of the rows of file `j`.
pub open spec fn placed_in(files: Seq<FilePatch>, t: ReviewThread, j: int) -> bool {
    match thread_anchor(files, t) {
        Some(r) => header_index(files, j) + 2 <= r && r < rows_before(files, j + 1),
        None => false,
    }
}

/// Pseudo-lines of the threads `ts[..k]` drawn below the rows of file `j`.
pub open spec fn thread_lines_for(files: Seq<FilePatch>, j: int, ts: Seq<ReviewThread>, k: int) -> int
    decreases k,
{
    if k <= 0 {
        0
    } else {
        thread_lines_for(files, j, ts, k - 1) + if placed_in(files, ts[k - 1], j) {
            sat32(thread_rows(ts[k - 1]))
        } else {
            0
        }
    }
}

/// Rendered height of file `j`: header, stats, body and thread lines.
pub open spec fn file_height(files: Seq<FilePatch>, j: int, ts: Seq<ReviewThread>) -> int {
    2 + body_lines(files[j]) + thread_lines_for(files, j, ts, ts.len() as int)
}

/// Sum of the heights of `files[..i]`.
pub open spec fn heights_before(files: Seq<FilePatch>, ts: Seq<ReviewThread>, i: int) -> int
    decreases i,
{
    if i <= 0 {
        0
    } else {
        heights_before(files, ts, i - 1) + file_height(files, i - 1, ts)
    }
}

/// Line of file `i`'s header: the files before it and one separator
/// between each pair of files.
pub open spec fn header_line(files: Seq<FilePatch>, ts: Seq<ReviewThread>, i: int) -> int {
    heights_before(files, ts, i) + i
}

/// Total rendered lines of the diff.
pub open spec fn diff_lines(files: Seq<FilePatch>, ts: Seq<ReviewThread>) -> int {
    if files.len() == 0 {
        0
    } else {
        heights_before(files, ts, files.len() as int) + files.len() - 1
    }
}

/// The rows fit in `usize`, each file's thread lines in `u32` and each
/// thread's row count in `usize` (the layout's arithmetic does not
/// overflow).
pub open spec fn layout_fits(files: Seq<FilePatch>, ts: Seq<ReviewThread>) -> bool {
    &&& rows_before(files, files.len() as int) <= usize::MAX
    &&& forall|j: int|
        0 <= j < files.len() ==> #[trigger] thread_lines_for(files, j, ts, ts.len() as int) <= u32::MAX
    &&& forall|k: int| 0 <= k < ts.len() ==> thread_rows(#[trigger] ts[k]) <= usize::MAX
}

/// Thread lines are never negative.
pub proof fn lemma_thread_lines_nonneg(files: Seq<FilePatch>, j: int, ts: Seq<ReviewThread>, k: int)
    ensures
        thread_lines_for(files, j, ts, k) >= 0,
    decreases k,
{
    if k > 0 {
        lemma_thread_lines_nonneg(files, j, ts, k - 1);
        lemma_comments_rows_nonneg(ts[k - 1].comments@, ts[k - 1].comments@.len() as int);
    }
}

proof fn lemma_comments_rows_nonneg(cs: Seq<ReviewComment>, k: int)
    ensures
        comments_rows(cs, k) >= 0,
    decreases k,
{
    if k > 0 {
        lemma_comments_rows_nonneg(cs, k - 1);
    }
}

proof fn lemma_heights_nonneg(files: Seq<FilePatch>, ts: Seq<ReviewThread>, i: int)
    ensures
        heights_before(files, ts, i) >= 0,
    decreases i,
{
    if i > 0 {
        lemma_heights_nonneg(files, ts, i - 1);
        lemma_thread_lines_nonneg(files, i - 1, ts, ts.len() as int);
    }
}

fn add_sat32(a: u32, b: u32) -> (r: u32)
    ensures
        r == sat32(a + b),
{
    let s = a as u64 + b as u64;
    if s > 4294967295 {
        4294967295
    } else {
        s as u32
    }
}

fn to_u16_sat(a: u32) -> (r: u16)
    ensures
        r == crate::reducer::sat16(a as int),
{
    if a > 65535 {
        65535
    } else {
        a as u16
    }
}

/// The anchor row of each thread in the unified view (see
/// [`thread_anchor`]).
pub fn thread_anchor_rows(files: &Vec<FilePatch>, threads: &Vec<ReviewThread>) -> (v: Vec<
    Option<usize>,
>)
    requires
        rows_before(files@, files.len() as int) <= usize::MAX,
    ensures
        v.len() == threads.len(),
        forall|k: int|
            0 <= k < threads.len() ==> match #[trigger] v@[k] {
                Some(r) => thread_anchor(files@, threads@[k]) == Some(r as int),
                None => thread_anchor(files@, threads@[k]) is None,
            },
{
    let anchors = collect_anchors(files);
    let mut v: Vec<Option<usize>> = Vec::new();
    let mut k: usize = 0;
    while k < threads.len()
        invariant
            k <= threads.len(),
            v.len() == k,
            anchors@.map_values(|a: (String, u32, usize)| anchor_view(a)) == diff_anchors(files@),
            forall|q: int|
                0 <= q < k ==> match #[trigger] v@[q] {
                    Some(r) => thread_anchor(files@, threads@[q]) == Some(r as int),
                    None => thread_anchor(files@, threads@[q]) is None,
                },
        decreases threads.len() - k,
    {
        let t = &threads[k];
        let r = match t.line {
            Some(l) => threads::find_anchor(&anchors, &t.path, l),
            None => None,
        };
        v.push(r);
        k = k + 1;
    }
    v
}

/// Pseudo-lines of the threads drawn below the rows `lo..hi` of file `j`.
fn file_thread_lines(
    files: &Vec<FilePatch>,
    j: usize,
    rows: &Vec<Option<usize>>,
    threads: &Vec<ReviewThread>,
    lo: usize,
    hi: usize,
) -> (r: u32)
    requires
        j < files.len(),
        lo == header_index(files@, j as int) + 2,
        hi == rows_before(files@, j + 1),
        rows.len() == threads.len(),
        forall|k: int|
            0 <= k < threads.len() ==> match #[trigger] rows@[k] {
                Some(r) => thread_anchor(files@, threads@[k]) == Some(r as int),
                None => thread_anchor(files@, threads@[k]) is None,
            },
        thread_lines_for(files@, j as int, threads@, threads.len() as int) <= u32::MAX,
        forall|k: int| 0 <= k < threads.len() ==> thread_rows(#[trigger] threads@[k]) <= usize::MAX,
    ensures
        r == thread_lines_for(files@, j as int, threads@, threads.len() as int),
{
    let mut sum: u32 = 0;
    let mut k: usize = 0;
    while k < threads.len()
        invariant
            k <= threads.len(),
            j < files.len(),
            lo == header_index(files@, j as int) + 2,
            hi == rows_before(files@, j + 1),
            rows.len() == threads.len(),
            forall|q: int|
                0 <= q < threads.len() ==> match #[trigger] rows@[q] {
                    Some(r) => thread_anchor(files@, threads@[q]) == Some(r as int),
                    None => thread_anchor(files@, threads@[q]) is None,
                },
            thread_lines_for(files@, j as int, threads@, threads.len() as int) <= u32::MAX,
            forall|q: int| 0 <= q < threads.len() ==> thread_rows(#[trigger] threads@[q]) <= usize::MAX,
            sum == thread_lines_for(files@, j as int, threads@, k as int),
        decreases threads.len() - k,
    {
        proof {
            lemma_thread_lines_prefix(files@, j as int, threads@, (k + 1) as int, threads.len() as int);
        }
        assert(match rows@[k as int] {
            Some(r) => thread_anchor(files@, threads@[k as int]) == Some(r as int),
            None => thread_anchor(files@, threads@[k as int]) is None,
        });
        let placed = match rows[k] {
            Some(r) => lo <= r && r < hi,
            None => false,
        };
        if placed {
            let n = pseudo_line_count(&threads[k]);
            let n32: u32 = if n > 4294967295 {
                4294967295
            } else {
                n as u32
            };
            sum = sum + n32;
        }
        k = k + 1;
    }
    sum
}

proof fn lemma_thread_lines_prefix(files: Seq<FilePatch>, j: int, ts: Seq<ReviewThread>, k: int, n: int)
    requires
        0 <= k <= n <= ts.len(),
    ensures
        thread_lines_for(files, j, ts, k) <= thread_lines_for(files, j, ts, n),
    decreases n - k,
{
    if k < n {
        lemma_thread_lines_prefix(files, j, ts, k, n - 1);
        lemma_comments_rows_nonneg(ts[n - 1].comments@, ts[n - 1].comments@.len() as int);
    }
}

/// Lines a patch body renders as (see [`body_lines`]), and the exact count.
fn file_body_lines(f: &FilePatch) -> (r: (u32, usize))
    ensures
        r.0 == body_lines(*f),
        r.1 == plain_height(*f) - 2,
{
    match &f.patch {
        Some(p) => {
            let n = line_count(p.as_str());
            if p.as_str().is_empty() {
                (1, 1)
            } else {
                if n > 4294967295 {
                    (4294967295, n)
                } else {
                    (n as u32, n)
                }
            }
        },
        None => (1, 1),
    }
}

/// The line of each file's header and the total line count, both
/// saturating at `u16::MAX`. A thread's pseudo-lines count toward the file
/// whose row it is drawn below; a thread that no row anchors adds nothing.
pub fn file_line_layout(files: &Vec<FilePatch>, threads: &Vec<ReviewThread>) -> (r: (
    Vec<u16>,
    u16,
))
    requires
        layout_fits(files@, threads@),
    ensures
        r.0.len() == files.len(),
        forall|i: int|
            0 <= i < files.len() ==> #[trigger] r.0[i] == crate::reducer::sat16(
                sat32(header_line(files@, threads@, i)),
            ),
        r.1 == crate::reducer::sat16(sat32(diff_lines(files@, threads@))),
{
    let rows = thread_anchor_rows(files, threads);
    let mut offsets: Vec<u16> = Vec::new();
    let mut total: u32 = 0;
    let mut idx: usize = 0;
    let mut i: usize = 0;
    while i < files.len()
        invariant
            i <= files.len(),
            layout_fits(files@, threads@),
            rows.len() == threads.len(),
            forall|k: int|
                0 <= k < threads.len() ==> match #[trigger] rows@[k] {
                    Some(r) => thread_anchor(files@, threads@[k]) == Some(r as int),
                    None => thread_anchor(files@, threads@[k]) is None,
                },
            idx == rows_before(files@, i as int),
            offsets.len() == i,
            forall|q: int|
                0 <= q < i ==> #[trigger] offsets[q] == crate::reducer::sat16(
                    sat32(header_line(files@, threads@, q)),
                ),
            total == sat32(
                heights_before(files@, threads@, i as int) + if i > 0 {
                    i - 1
                } else {
                    0
                },
            ),
        decreases files.len() - i,
    {
        proof {
            lemma_heights_nonneg(files@, threads@, i as int);
            lemma_rows_before_monotone(files@, (i + 1) as int, files.len() as int);
        }
        if i > 0 {
            total = add_sat32(total, 1);
        }
        offsets.push(to_u16_sat(total));
        total = add_sat32(total, 2);
        let (body, exact) = file_body_lines(&files[i]);
        total = add_sat32(total, body);
        let hdr = if i > 0 {
            idx + 1
        } else {
            idx
        };
        let next = hdr + 2 + exact;
        assert(next == rows_before(files@, i + 1));
        let tl = file_thread_lines(files, i, &rows, threads, hdr + 2, next);
        total = add_sat32(total, tl);
        proof {
            lemma_thread_lines_nonneg(files@, i as int, threads@, threads.len() as int);
        }
        idx = next;
        i = i + 1;
    }
    (offsets, to_u16_sat(total))
}

/// Line offset of each file's header (see [`file_line_layout`]).
pub fn file_line_offsets(files: &Vec<FilePatch>, threads: &Vec<ReviewThread>) -> (r: Vec<u16>)
    requires
        layout_fits(files@, threads@),
    ensures
        r.len() == files.len(),
        forall|i: int|
            0 <= i < files.len() ==> #[trigger] r[i] == crate::reducer::sat16(
                sat32(header_line(files@, threads@, i)),
            ),
{
    file_line_layout(files, threads).0
}

/// Total rendered line count of the diff (see [`file_line_layout`]).
pub fn total_diff_lines(files: &Vec<FilePatch>, threads: &Vec<ReviewThread>) -> (r: u16)
    requires
        layout_fits(files@, threads@),
    ensures
        r == crate::reducer::sat16(sat32(diff_lines(files@, threads@))),
{
    file_line_layout(files, threads).1
}

// ── thread anchors ──────────────────────────────────────────────────────

/// `u32` increment that saturates at `u32::MAX`.
pub open spec fn inc_sat(n: u32) -> u32 {
    if n == u32::MAX {
        n
    } else {
        (n + 1) as u32
    }
}

/// The file has patch text to render.
pub open spec fn has_patch_text(f: FilePatch) -> bool {
    f.patch matches Some(p) && p@.len() > 0
}

/// Patch lines of a file (empty when there is no patch text).
pub open spec fn patch_lines(f: FilePatch) -> Seq<Seq<char>> {
    match f.patch {
        Some(p) => lines(p@),
        None => Seq::empty(),
    }
}

/// Rows a file occupies before threads: header, stats, then its patch
/// lines or one placeholder.
pub open spec fn plain_height(f: FilePatch) -> int {
    2 + if has_patch_text(f) {
        patch_lines(f).len() as int
    } else {
        1
    }
}

/// Rows of `files[..i]` before threads, separators included.
pub open spec fn rows_before(files: Seq<FilePatch>, i: int) -> int
    decreases i,
{
    if i <= 0 {
        0
    } else {
        rows_before(files, i - 1) + plain_height(files[i - 1]) + if i > 1 {
            1int
        } else {
            0
        }
    }
}

pub open spec fn anchor_view(a: (String, u32, usize)) -> (Seq<char>, u32, int) {
    (a.0@, a.1, a.2 as int)
}

pub proof fn lemma_rows_before_monotone(files: Seq<FilePatch>, i: int, j: int)
    requires
        0 <= i <= j <= files.len(),
    ensures
        rows_before(files, i) <= rows_before(files, j),
    decreases j - i,
{
    if i < j {
        lemma_rows_before_monotone(files, i, j - 1);
    }
}

// ── rows as drawn ───────────────────────────────────────────────────────

/// Row tags of a pending run: each `-` row shows no new-file line; each
/// `+` row shows its own. A balanced block is drawn pair by pair (a `-`
/// row, then its `+` row) in the unified view, and one row per pair in the
/// split view; otherwise the `-` rows come first, then the `+` rows.
pub open spec fn pair_tags(p: Seq<u32>) -> Seq<Option<u32>>
    decreases p.len(),
{
    if p.len() == 0 {
        Seq::empty()
    } else {
        pair_tags(p.drop_last()) + seq![None, Some(p.last())]
    }
}

pub open spec fn nones(n: nat) -> Seq<Option<u32>> {
    Seq::new(n, |i: int| None::<u32>)
}

pub open spec fn somes(p: Seq<u32>) -> Seq<Option<u32>> {
    p.map_values(|l: u32| Some(l))
}

pub open spec fn flush_tags(m: nat, p: Seq<u32>, split: bool) -> Seq<Option<u32>> {
    if m > 0 && m == p.len() {
        if split {
            somes(p)
        } else {
            pair_tags(p)
        }
    } else {
        nones(m) + somes(p)
    }
}

/// Tag walk over patch lines, following the renderers' walk: pending `-`
/// lines, new-file lines of the pending `+` lines, the next new-file line,
/// and the new-file line shown by each row emitted so far.
pub type TagWalk = (nat, Seq<u32>, u32, Seq<Option<u32>>);

pub open spec fn tag_flush(w: TagWalk, split: bool) -> TagWalk {
    (0, Seq::empty(), w.2, w.3 + flush_tags(w.0, w.1, split))
}

/// One patch line: a hunk header flushes, shows no line and restarts the
/// count at its new-file start; `+` joins the run with the next line; `-`
/// flushes a pending `+` run, then joins; `\` flushes and shows no line;
/// anything else is context and shows the next line.
pub open spec fn tag_consume(w: TagWalk, raw: Seq<char>, split: bool) -> TagWalk {
    if has_prefix(raw, "@@"@) {
        let f = tag_flush(w, split);
        (0, Seq::empty(), match hunk_new_start(raw) {
            Some(s) => s,
            None => w.2,
        }, f.3.push(None))
    } else if raw.len() > 0 && raw[0] == '+' {
        (w.0, w.1.push(w.2), inc_sat(w.2), w.3)
    } else if raw.len() > 0 && raw[0] == '-' {
        if w.1.len() > 0 {
            let f = tag_flush(w, split);
            (1, Seq::empty(), f.2, f.3)
        } else {
            (w.0 + 1, w.1, w.2, w.3)
        }
    } else if raw.len() > 0 && raw[0] == '\\' {
        let f = tag_flush(w, split);
        (0, Seq::empty(), f.2, f.3.push(None))
    } else {
        let f = tag_flush(w, split);
        (0, Seq::empty(), inc_sat(w.2), f.3.push(Some(w.2)))
    }
}

pub open spec fn tag_walk(ls: Seq<Seq<char>>, split: bool) -> TagWalk
    decreases ls.len(),
{
    if ls.len() == 0 {
        (0, Seq::empty(), 0, Seq::empty())
    } else {
        tag_consume(tag_walk(ls.drop_last(), split), ls.last(), split)
    }
}

/// The new-file line that each body row shows, in the unified or split
/// layout.
pub open spec fn body_tags(ls: Seq<Seq<char>>, split: bool) -> Seq<Option<u32>> {
    tag_flush(tag_walk(ls, split), split).3
}

/// The patch lines as the renderers read them (tabs expanded).
pub open spec fn shown_lines(f: FilePatch) -> Seq<Seq<char>> {
    patch_lines(f).map_values(|l: Seq<char>| expand(l))
}

/// The new-file line each row below a file's stats row shows; the
/// placeholder of a file without patch text shows none.
pub open spec fn file_tags(f: FilePatch, split: bool) -> Seq<Option<u32>> {
    if has_patch_text(f) {
        body_tags(shown_lines(f), split)
    } else {
        seq![None]
    }
}

/// `(path, line, base + q)` for each row `q` of `tags` that shows a line.
pub open spec fn tag_anchors(path: Seq<char>, tags: Seq<Option<u32>>, base: int) -> Seq<
    (Seq<char>, u32, int),
>
    decreases tags.len(),
{
    if tags.len() == 0 {
        Seq::empty()
    } else {
        tag_anchors(path, tags.drop_last(), base) + match tags.last() {
            Some(l) => seq![(path, l, base + tags.len() - 1)],
            None => Seq::empty(),
        }
    }
}

/// Rows of `files[..i]` in one layout before threads, separators included.
pub open spec fn drawn_before(files: Seq<FilePatch>, i: int, split: bool) -> int
    decreases i,
{
    if i <= 0 {
        0
    } else {
        drawn_before(files, i - 1, split) + 2 + file_tags(files[i - 1], split).len() + if i > 1 {
            1int
        } else {
            0
        }
    }
}

/// Anchors of `files[i..]` in one layout, where `idx` is the row after file
/// `i - 1`: `(path, new-file line, row)` for each row showing a line.
pub open spec fn files_anchors(files: Seq<FilePatch>, i: int, idx: int, split: bool) -> Seq<
    (Seq<char>, u32, int),
>
    decreases files.len() - i,
{
    if i >= files.len() || i < 0 {
        Seq::empty()
    } else {
        let head = (if i > 0 {
            idx + 1
        } else {
            idx
        }) + 2;
        let tags = file_tags(files[i], split);
        tag_anchors(files[i].path@, tags, head) + files_anchors(files, i + 1, head + tags.len(), split)
    }
}

/// Anchors of the unified view: the row showing each new-file line.
pub open spec fn diff_anchors(files: Seq<FilePatch>) -> Seq<(Seq<char>, u32, int)> {
    files_anchors(files, 0, 0, false)
}

/// Anchors of the split view: the row whose right side shows each
/// new-file line.
pub open spec fn split_anchors(files: Seq<FilePatch>) -> Seq<(Seq<char>, u32, int)> {
    files_anchors(files, 0, 0, true)
}

proof fn lemma_pair_tags_len(p: Seq<u32>)
    ensures
        pair_tags(p).len() == 2 * p.len(),
    decreases p.len(),
{
    if p.len() > 0 {
        lemma_pair_tags_len(p.drop_last());
    }
}

proof fn lemma_flush_tags_len(m: nat, p: Seq<u32>, split: bool)
    ensures
        split ==> flush_tags(m, p, split).len() <= m + p.len(),
        !split ==> flush_tags(m, p, split).len() == m + p.len(),
{
    lemma_pair_tags_len(p);
}

proof fn lemma_tag_walk_len(ls: Seq<Seq<char>>, split: bool)
    ensures
        split ==> tag_walk(ls, split).0 + tag_walk(ls, split).1.len() + tag_walk(ls, split).3.len()
            <= ls.len(),
        !split ==> tag_walk(ls, split).0 + tag_walk(ls, split).1.len() + tag_walk(ls, split).3.len()
            == ls.len(),
    decreases ls.len(),
{
    if ls.len() > 0 {
        let w = tag_walk(ls.drop_last(), split);
        lemma_tag_walk_len(ls.drop_last(), split);
        lemma_flush_tags_len(w.0, w.1, split);
    }
}

/// A file takes as many rows below its stats row in the unified view as
/// it has patch lines (or one placeholder), and no more in the split view.
pub proof fn lemma_file_tags_len(f: FilePatch)
    ensures
        file_tags(f, false).len() == plain_height(f) - 2,
        file_tags(f, true).len() <= plain_height(f) - 2,
{
    if has_patch_text(f) {
        let ls = shown_lines(f);
        lemma_tag_walk_len(ls, false);
        lemma_tag_walk_len(ls, true);
        let w0 = tag_walk(ls, false);
        let w1 = tag_walk(ls, true);
        lemma_flush_tags_len(w0.0, w0.1, false);
        lemma_flush_tags_len(w1.0, w1.1, true);
    }
}

/// Rows before threads count the same in the unified layout, and no more
/// in the split one.
pub proof fn lemma_drawn_before(files: Seq<FilePatch>, i: int)
    ensures
        drawn_before(files, i, false) == rows_before(files, i),
        drawn_before(files, i, true) <= rows_before(files, i),
    decreases i,
{
    if i > 0 {
        lemma_drawn_before(files, i - 1);
        lemma_file_tags_len(files[i - 1]);
    }
}

proof fn lemma_drawn_before_monotone(files: Seq<FilePatch>, i: int, j: int, split: bool)
    requires
        0 <= i <= j <= files.len(),
    ensures
        drawn_before(files, i, split) <= drawn_before(files, j, split),
    decreases j - i,
{
    if i < j {
        lemma_drawn_before_monotone(files, i, j - 1, split);
    }
}

/// Appends the rows of the pending run (see [`flush_tags`]) and empties it.
fn tag_flush_exec(minus: &mut usize, plus: &mut Vec<u32>, tags: &mut Vec<Option<u32>>, split: bool)
    ensures
        final(tags)@ == old(tags)@ + flush_tags(*old(minus) as nat, old(plus)@, split),
        *final(minus) == 0,
        final(plus)@ == Seq::<u32>::empty(),
{
    let ghost start = tags@;
    let m = *minus;
    let mut p: Vec<u32> = Vec::new();
    std::mem::swap(&mut p, plus);
    if m > 0 && m == p.len() {
        let mut k: usize = 0;
        while k < p.len()
            invariant
                k <= p.len(),
                split ==> tags@ == start + somes(p@.take(k as int)),
                !split ==> tags@ == start + pair_tags(p@.take(k as int)),
            decreases p.len() - k,
        {
            assert(p@.take(k + 1).drop_last() =~= p@.take(k as int));
            assert(p@.take(k + 1).last() == p@[k as int]);
            let ghost before = tags@;
            if split {
                tags.push(Some(p[k]));
                assert(somes(p@.take(k + 1)) =~= somes(p@.take(k as int)).push(Some(p@[k as int])));
                assert(tags@ =~= start + somes(p@.take(k + 1)));
            } else {
                tags.push(None);
                tags.push(Some(p[k]));
                assert(tags@ =~= start + pair_tags(p@.take(k + 1)));
            }
            k = k + 1;
        }
        assert(p@.take(k as int) =~= p@);
    } else {
        let mut k: usize = 0;
        while k < m
            invariant
                k <= m,
                tags@ == start + nones(k as nat),
            decreases m - k,
        {
            tags.push(None);
            assert(tags@ =~= start + nones((k + 1) as nat));
            k = k + 1;
        }
        let ghost mid = tags@;
        let mut q: usize = 0;
        while q < p.len()
            invariant
                q <= p.len(),
                mid == start + nones(m as nat),
                tags@ == mid + somes(p@.take(q as int)),
            decreases p.len() - q,
        {
            tags.push(Some(p[q]));
            assert(somes(p@.take(q + 1)) =~= somes(p@.take(q as int)).push(Some(p@[q as int])));
            assert(tags@ =~= mid + somes(p@.take(q + 1)));
            q = q + 1;
        }
        assert(p@.take(q as int) =~= p@);
        assert(tags@ =~= start + (nones(m as nat) + somes(p@)));
    }
    *minus = 0;
}

/// The new-file line each body row shows for the lines of `cs` (see
/// [`body_tags`]).
fn body_tags_exec(cs: &Vec<char>, split: bool) -> (v: Vec<Option<u32>>)
    ensures
        v@ == body_tags(lines(cs@).map_values(|l: Seq<char>| expand(l)), split),
{
    let bounds = line_bounds(cs);
    let ghost ls = lines(cs@).map_values(|l: Seq<char>| expand(l));
    let mut minus: usize = 0;
    let mut plus: Vec<u32> = Vec::new();
    let mut next: u32 = 0;
    let mut tags: Vec<Option<u32>> = Vec::new();
    assert(ls.take(0) =~= Seq::<Seq<char>>::empty());
    let mut k: usize = 0;
    while k < bounds.len()
        invariant
            k <= bounds.len(),
            bounds@.len() == lines(cs@).len(),
            ls == lines(cs@).map_values(|l: Seq<char>| expand(l)),
            forall|q: int| #![trigger bounds[q]] 0 <= q < bounds.len() ==> bounds[q].0 <= bounds[q].1 <= cs.len(),
            forall|q: int|
                0 <= q < bounds.len() ==> #[trigger] cs@.subrange(bounds[q].0 as int, bounds[q].1 as int) == lines(
                    cs@,
                )[q],
            (minus as nat, plus@, next, tags@) == tag_walk(ls.take(k as int), split),
            minus <= k,
        decreases bounds.len() - k,
    {
        let (a, b) = bounds[k];
        let piece = substring(cs, a, b);
        let raw = expand_tabs(piece.as_str());
        assert(ls.take(k + 1).drop_last() =~= ls.take(k as int));
        assert(ls.take(k + 1).last() == raw@);
        let rcs = to_chars(raw.as_str());
        if crate::api::starts_with(&rcs, "@@") {
            tag_flush_exec(&mut minus, &mut plus, &mut tags, split);
            if let Some(s) = parse_hunk_new_start(raw.as_str()) {
                next = s;
            }
            tags.push(None);
        } else if rcs.len() > 0 && rcs[0] == '+' {
            plus.push(next);
            next = if next == 4294967295 {
                next
            } else {
                next + 1
            };
        } else if rcs.len() > 0 && rcs[0] == '-' {
            if plus.len() > 0 {
                tag_flush_exec(&mut minus, &mut plus, &mut tags, split);
            }
            minus = minus + 1;
        } else if rcs.len() > 0 && rcs[0] == '\\' {
            tag_flush_exec(&mut minus, &mut plus, &mut tags, split);
            tags.push(None);
        } else {
            tag_flush_exec(&mut minus, &mut plus, &mut tags, split);
            tags.push(Some(next));
            next = if next == 4294967295 {
                next
            } else {
                next + 1
            };
        }
        k = k + 1;
    }
    assert(ls.take(k as int) =~= ls);
    tag_flush_exec(&mut minus, &mut plus, &mut tags, split);
    tags
}

/// The new-file line each row below a file's stats row shows (see
/// [`file_tags`]).
fn file_tags_exec(f: &FilePatch, split: bool) -> (v: Vec<Option<u32>>)
    ensures
        v@ == file_tags(*f, split),
{
    match &f.patch {
        Some(p) => {
            if !p.as_str().is_empty() {
                let cs = to_chars(p.as_str());
                return body_tags_exec(&cs, split);
            }
        },
        None => {},
    }
    let mut v: Vec<Option<u32>> = Vec::new();
    v.push(None);
    assert(v@ =~= seq![None::<u32>]);
    v
}

/// Appends [`tag_anchors`] of `tags` at rows from `base`.
fn push_tag_anchors(
    out: &mut Vec<(String, u32, usize)>,
    path: &String,
    tags: &Vec<Option<u32>>,
    base: usize,
)
    requires
        base + tags.len() <= usize::MAX,
    ensures
        final(out)@.map_values(|a: (String, u32, usize)| anchor_view(a)) == old(out)@.map_values(
            |a: (String, u32, usize)| anchor_view(a),
        ) + tag_anchors(path@, tags@, base as int),
{
    let ghost start = out@.map_values(|a: (String, u32, usize)| anchor_view(a));
    let mut k: usize = 0;
    assert(tags@.take(0) =~= Seq::<Option<u32>>::empty());
    while k < tags.len()
        invariant
            k <= tags.len(),
            base + tags.len() <= usize::MAX,
            out@.map_values(|a: (String, u32, usize)| anchor_view(a)) == start + tag_anchors(
                path@,
                tags@.take(k as int),
                base as int,
            ),
        decreases tags.len() - k,
    {
        assert(tags@.take(k + 1).drop_last() =~= tags@.take(k as int));
        assert(tags@.take(k + 1).last() == tags@[k as int]);
        let ghost before = out@.map_values(|a: (String, u32, usize)| anchor_view(a));
        if let Some(l) = tags[k] {
            out.push((path.clone(), l, base + k));
            assert(out@.map_values(|a: (String, u32, usize)| anchor_view(a)) =~= before.push(
                (path@, l, (base + k) as int),
            ));
        }
        k = k + 1;
    }
    assert(tags@.take(k as int) =~= tags@);
}

/// Anchors of one layout (see [`files_anchors`]).
fn layout_anchors(files: &Vec<FilePatch>, split: bool) -> (r: Vec<(String, u32, usize)>)
    requires
        rows_before(files@, files.len() as int) <= usize::MAX,
    ensures
        r@.map_values(|a: (String, u32, usize)| anchor_view(a)) == files_anchors(files@, 0, 0, split),
{
    let mut out: Vec<(String, u32, usize)> = Vec::new();
    let mut idx: usize = 0;
    let mut i: usize = 0;
    proof {
        lemma_drawn_before(files@, files.len() as int);
    }
    while i < files.len()
        invariant
            i <= files.len(),
            drawn_before(files@, files.len() as int, split) <= usize::MAX,
            idx == drawn_before(files@, i as int, split),
            files_anchors(files@, 0, 0, split) == out@.map_values(
                |a: (String, u32, usize)| anchor_view(a),
            ) + files_anchors(files@, i as int, idx as int, split),
        decreases files.len() - i,
    {
        proof {
            lemma_drawn_before_monotone(files@, (i + 1) as int, files.len() as int, split);
        }
        let f = &files[i];
        if i > 0 {
            idx = idx + 1;
        }
        idx = idx + 2;
        let tags = file_tags_exec(f, split);
        let ghost before = out@.map_values(|a: (String, u32, usize)| anchor_view(a));
        push_tag_anchors(&mut out, &f.path, &tags, idx);
        idx = idx + tags.len();
        proof {
            assert(before + files_anchors(files@, i as int, drawn_before(files@, i as int, split), split)
                == before + tag_anchors(f.path@, tags@, (idx - tags.len()) as int) + files_anchors(
                files@,
                i + 1,
                idx as int,
                split,
            ));
        }
        i = i + 1;
    }
    assert(out@.map_values(|a: (String, u32, usize)| anchor_view(a)) =~= files_anchors(files@, 0, 0, split));
    out
}

/// `(path, new-file line, row)` for every row of the unified view that
/// shows a new-file line (see [`diff_anchors`]).
pub fn collect_anchors(files: &Vec<FilePatch>) -> (r: Vec<(String, u32, usize)>)
    requires
        rows_before(files@, files.len() as int) <= usize::MAX,
    ensures
        r@.map_values(|a: (String, u32, usize)| anchor_view(a)) == diff_anchors(files@),
{
    layout_anchors(files, false)
}

/// `(path, new-file line, row)` for every row of the split view whose
/// right side shows a new-file line (see [`split_anchors`]).
pub fn collect_split_anchors(files: &Vec<FilePatch>) -> (r: Vec<(String, u32, usize)>)
    requires
        rows_before(files@, files.len() as int) <= usize::MAX,
    ensures
        r@.map_values(|a: (String, u32, usize)| anchor_view(a)) == split_anchors(files@),
{
    layout_anchors(files, true)
}

/// The rows `files` take before review threads ([`rows_before`]), or
/// `None` when that count exceeds `usize::MAX`.
pub fn rows_count(files: &Vec<FilePatch>) -> (r: Option<usize>)
    ensures
        match r {
            Some(n) => n == rows_before(files@, files.len() as int),
            None => rows_before(files@, files.len() as int) > usize::MAX,
        },
{
    let mut total: usize = 0;
    let mut i: usize = 0;
    while i < files.len()
        invariant
            i <= files.len(),
            total == rows_before(files@, i as int),
        decreases files.len() - i,
    {
        let f = &files[i];
        let body: usize = match &f.patch {
            Some(p) => {
                if p.as_str().is_empty() {
                    1
                } else {
                    line_count(p.as_str())
                }
            },
            None => 1,
        };
        let sep: usize = if i > 0 { 3 } else { 2 };
        match total.checked_add(sep) {
            Some(t) => match t.checked_add(body) {
                Some(t2) => {
                    total = t2;
                },
                None => {
                    proof {
                        lemma_rows_before_monotone(files@, (i + 1) as int, files.len() as int);
                    }
                    return None;
                },
            },
            None => {
                proof {
                    lemma_rows_before_monotone(files@, (i + 1) as int, files.len() as int);
                }
                return None;
            },
        }
        i = i + 1;
    }
    Some(total)
}

} // verus!
