//! Inline review threads in the diff views.
//!
//! Each thread whose `line` is set is anchored to the first rendered row of
//! its file that shows that new-file line; its comments are inserted below
//! that row as pseudo-lines, one per body line, threads on the same row in
//! the order given. Outdated threads (`line == None`) and threads whose line
//! is not in the diff are not shown.

use vstd::prelude::*;

use super::{anchor_view, comment_rows};
use crate::pulls::{ReviewComment, ReviewThread};
use crate::style::{lines_view, spans_view, Color, Line, Span, Style};
use crate::text::{line_bounds, lines, substring, to_chars, str_eq};

verus! {

/// One pseudo-line: the comment's author, one line of its body, and
/// whether it is the comment's first line.
#[derive(Debug, Clone, PartialEq, Eq)]
pub struct Note {
    pub author: String,
    pub body: String,
    pub first: bool,
}

impl View for Note {
    type V = (Seq<char>, Seq<char>, bool);

    open spec fn view(&self) -> (Seq<char>, Seq<char>, bool) {
        (self.author@, self.body@, self.first)
    }
}

/// Body lines of a comment: its lines, or one empty line for an empty body.
pub open spec fn body_pieces(body: Seq<char>) -> Seq<Seq<char>> {
    if body.len() == 0 {
        seq![Seq::empty()]
    } else {
        lines(body)
    }
}

pub open spec fn comment_notes(c: ReviewComment) -> Seq<(Seq<char>, Seq<char>, bool)> {
    let ls = body_pieces(c.body@);
    Seq::new(ls.len(), |i: int| (c.author@, ls[i], i == 0))
}

/// Notes of the comments `cs[..k]`, in order.
pub open spec fn comments_notes(cs: Seq<ReviewComment>, k: int) -> Seq<(Seq<char>, Seq<char>, bool)>
    decreases k,
{
    if k <= 0 {
        Seq::empty()
    } else {
        comments_notes(cs, k - 1) + comment_notes(cs[k - 1])
    }
}

pub open spec fn thread_notes(t: ReviewThread) -> Seq<(Seq<char>, Seq<char>, bool)> {
    comments_notes(t.comments@, t.comments@.len() as int)
}

/// The pseudo-lines of one comment.
pub fn build_comment_rows(c: &ReviewComment) -> (v: Vec<Note>)
    ensures
        v@.map_values(|n: Note| n@) == comment_notes(*c),
{
    let mut v: Vec<Note> = Vec::new();
    if c.body.as_str().is_empty() {
        v.push(Note { author: c.author.clone(), body: String::new(), first: true });
        assert(v@.map_values(|n: Note| n@) =~= comment_notes(*c));
        return v;
    }
    let cs = to_chars(c.body.as_str());
    let bounds = line_bounds(&cs);
    let mut k: usize = 0;
    while k < bounds.len()
        invariant
            k <= bounds.len() == lines(cs@).len(),
            cs@ == c.body@,
            c.body@.len() > 0,
            forall|q: int| #![trigger bounds[q]] 0 <= q < bounds.len() ==> bounds[q].0 <= bounds[q].1 <= cs.len(),
            forall|q: int|
                0 <= q < bounds.len() ==> #[trigger] cs@.subrange(bounds[q].0 as int, bounds[q].1 as int)
                    == lines(cs@)[q],
            v@.map_values(|n: Note| n@) == comment_notes(*c).take(k as int),
        decreases bounds.len() - k,
    {
        let (a, b) = bounds[k];
        let n = Note { author: c.author.clone(), body: substring(&cs, a, b), first: k == 0 };
        let ghost before = v@.map_values(|n: Note| n@);
        assert(body_pieces(c.body@) == lines(cs@));
        assert(n@ == comment_notes(*c)[k as int]);
        v.push(n);
        assert(v@.map_values(|n: Note| n@) =~= before.push(n@));
        assert(comment_notes(*c).take(k + 1) =~= comment_notes(*c).take(k as int).push(n@));
        k = k + 1;
    }
    assert(comment_notes(*c).take(k as int) =~= comment_notes(*c));
    v
}

// ── anchoring ───────────────────────────────────────────────────────────

/// Row of the first anchor of `path` at new-file line `line`.
pub open spec fn anchor_row(anchors: Seq<(Seq<char>, u32, int)>, path: Seq<char>, line: u32) -> Option<int>
    decreases anchors.len(),
{
    if anchors.len() == 0 {
        None
    } else if anchors[0].0 == path && anchors[0].1 == line {
        Some(anchors[0].2)
    } else {
        anchor_row(anchors.drop_first(), path, line)
    }
}

/// Where a thread's pseudo-lines go: after its anchor row, when the thread
/// is current and anchored to one of the `n` rows.
pub open spec fn insert_at(anchors: Seq<(Seq<char>, u32, int)>, t: ReviewThread, n: int) -> Option<int> {
    match t.line {
        Some(l) => match anchor_row(anchors, t.path@, l) {
            Some(r) => if 0 <= r < n {
                Some(r + 1)
            } else {
                None
            },
            None => None,
        },
        None => None,
    }
}

/// `(position, note)` for every note of `ts[..k]`, threads in order.
pub open spec fn pending(
    anchors: Seq<(Seq<char>, u32, int)>,
    ts: Seq<ReviewThread>,
    n: int,
    k: int,
) -> Seq<(int, (Seq<char>, Seq<char>, bool))>
    decreases k,
{
    if k <= 0 {
        Seq::empty()
    } else {
        pending(anchors, ts, n, k - 1) + match insert_at(anchors, ts[k - 1], n) {
            Some(at) => thread_notes(ts[k - 1]).map_values(
                |x: (Seq<char>, Seq<char>, bool)| (at, x),
            ),
            None => Seq::empty(),
        }
    }
}

/// Notes of `p` that go at position `at`, in order.
pub open spec fn notes_at(p: Seq<(int, (Seq<char>, Seq<char>, bool))>, at: int) -> Seq<
    (Seq<char>, Seq<char>, bool),
>
    decreases p.len(),
{
    if p.len() == 0 {
        Seq::empty()
    } else {
        notes_at(p.drop_last(), at) + if p.last().0 == at {
            seq![p.last().1]
        } else {
            Seq::empty()
        }
    }
}

pub open spec fn pending_view(v: Seq<(usize, Note)>) -> Seq<(int, (Seq<char>, Seq<char>, bool))> {
    v.map_values(|e: (usize, Note)| (e.0 as int, e.1@))
}

/// Row of the first anchor of `path` at `line`.
pub(crate) fn find_anchor(anchors: &Vec<(String, u32, usize)>, path: &String, line: u32) -> (r: Option<usize>)
    ensures
        match r {
            Some(x) => anchor_row(anchors@.map_values(|a: (String, u32, usize)| anchor_view(a)), path@, line)
                == Some(x as int),
            None => anchor_row(anchors@.map_values(|a: (String, u32, usize)| anchor_view(a)), path@, line) is None,
        },
{
    let ghost av = anchors@.map_values(|a: (String, u32, usize)| anchor_view(a));
    let mut k: usize = 0;
    assert(av.skip(0) =~= av);
    while k < anchors.len()
        invariant
            k <= anchors.len(),
            av == anchors@.map_values(|a: (String, u32, usize)| anchor_view(a)),
            anchor_row(av, path@, line) == anchor_row(av.skip(k as int), path@, line),
        decreases anchors.len() - k,
    {
        assert(av.skip(k as int)[0] == anchor_view(anchors@[k as int]));
        if anchors[k].1 == line && str_eq(anchors[k].0.as_str(), path.as_str()) {
            return Some(anchors[k].2);
        }
        assert(av.skip(k as int).drop_first() =~= av.skip(k + 1));
        k = k + 1;
    }
    assert(av.skip(k as int) =~= Seq::<(Seq<char>, u32, int)>::empty());
    None
}

/// The notes of a thread, in order.
fn thread_notes_exec(t: &ReviewThread) -> (v: Vec<Note>)
    ensures
        v@.map_values(|n: Note| n@) == thread_notes(*t),
{
    let mut v: Vec<Note> = Vec::new();
    let mut k: usize = 0;
    while k < t.comments.len()
        invariant
            k <= t.comments.len(),
            v@.map_values(|n: Note| n@) == comments_notes(t.comments@, k as int),
        decreases t.comments.len() - k,
    {
        let ghost before = v@.map_values(|n: Note| n@);
        let mut rows = build_comment_rows(&t.comments[k]);
        let ghost r = rows@.map_values(|n: Note| n@);
        v.append(&mut rows);
        assert(v@.map_values(|n: Note| n@) =~= before + r);
        k = k + 1;
    }
    v
}

/// Every note to insert into `n` rows, with its position.
pub fn plan_inserts(anchors: &Vec<(String, u32, usize)>, threads: &Vec<ReviewThread>, n: usize) -> (v: Vec<
    (usize, Note),
>)
    ensures
        pending_view(v@) == pending(
            anchors@.map_values(|a: (String, u32, usize)| anchor_view(a)),
            threads@,
            n as int,
            threads.len() as int,
        ),
        forall|q: int| 0 <= q < v.len() ==> 1 <= (#[trigger] v@[q]).0 <= n,
{
    let ghost av = anchors@.map_values(|a: (String, u32, usize)| anchor_view(a));
    let mut v: Vec<(usize, Note)> = Vec::new();
    let mut k: usize = 0;
    while k < threads.len()
        invariant
            k <= threads.len(),
            av == anchors@.map_values(|a: (String, u32, usize)| anchor_view(a)),
            pending_view(v@) == pending(av, threads@, n as int, k as int),
            forall|q: int| 0 <= q < v.len() ==> 1 <= (#[trigger] v@[q]).0 <= n,
        decreases threads.len() - k,
    {
        let t = &threads[k];
        let at = match t.line {
            Some(l) => match find_anchor(anchors, &t.path, l) {
                Some(r) => if r < n {
                    Some(r + 1)
                } else {
                    None
                },
                None => None,
            },
            None => None,
        };
        assert(at matches Some(x) ==> insert_at(av, *t, n as int) == Some(x as int));
        assert(at is None ==> insert_at(av, *t, n as int) is None);
        match at {
            Some(pos) => {
                let notes = thread_notes_exec(t);
                let ghost before = pending_view(v@);
                let ghost nv = notes@.map_values(|x: Note| x@);
                let mut j: usize = 0;
                while j < notes.len()
                    invariant
                        j <= notes.len(),
                        1 <= pos <= n,
                        nv == notes@.map_values(|x: Note| x@),
                        pending_view(v@) == before + nv.take(j as int).map_values(
                            |x: (Seq<char>, Seq<char>, bool)| (pos as int, x),
                        ),
                        forall|q: int| 0 <= q < v.len() ==> 1 <= (#[trigger] v@[q]).0 <= n,
                    decreases notes.len() - j,
                {
                    let note = Note {
                        author: notes[j].author.clone(),
                        body: notes[j].body.clone(),
                        first: notes[j].first,
                    };
                    assert(note@ == nv[j as int]);
                    let ghost pv0 = pending_view(v@);
                    v.push((pos, note));
                    assert(pending_view(v@) =~= pv0.push((pos as int, nv[j as int])));
                    assert(nv.take(j + 1).map_values(|x: (Seq<char>, Seq<char>, bool)| (pos as int, x))
                        =~= nv.take(j as int).map_values(
                        |x: (Seq<char>, Seq<char>, bool)| (pos as int, x),
                    ).push((pos as int, nv[j as int])));
                    assert(pending_view(v@) =~= before + nv.take(j + 1).map_values(
                        |x: (Seq<char>, Seq<char>, bool)| (pos as int, x),
                    ));
                    j = j + 1;
                }
                assert(nv.take(j as int) =~= nv);
            },
            None => {
                assert(pending_view(v@) =~= pending(av, threads@, n as int, (k + 1) as int));
            },
        }
        k = k + 1;
    }
    v
}

/// The notes of `p` at position `at`.
fn notes_at_exec(p: &Vec<(usize, Note)>, at: usize) -> (v: Vec<Note>)
    ensures
        v@.map_values(|n: Note| n@) == notes_at(pending_view(p@), at as int),
{
    let ghost pv = pending_view(p@);
    let mut v: Vec<Note> = Vec::new();
    let mut k: usize = 0;
    while k < p.len()
        invariant
            k <= p.len(),
            pv == pending_view(p@),
            v@.map_values(|n: Note| n@) == notes_at(pv.take(k as int), at as int),
        decreases p.len() - k,
    {
        assert(pv.take(k + 1).drop_last() =~= pv.take(k as int));
        if p[k].0 == at {
            let note = Note { author: p[k].1.author.clone(), body: p[k].1.body.clone(), first: p[k].1.first };
            let ghost before = v@.map_values(|n: Note| n@);
            v.push(note);
            assert(v@.map_values(|n: Note| n@) =~= before.push(note@));
        }
        k = k + 1;
    }
    assert(pv.take(k as int) =~= pv);
    v
}

// ── pseudo-lines ────────────────────────────────────────────────────────

/// `▏ @author: ` on a comment's first line, `▏` and eight spaces after.
pub open spec fn note_prefix(n: (Seq<char>, Seq<char>, bool)) -> Seq<char> {
    if n.2 {
        "▏ @"@ + n.0 + ": "@
    } else {
        "▏        "@
    }
}

/// The pseudo-line of a note: dim italic prefix, grey italic text.
pub open spec fn note_row(n: (Seq<char>, Seq<char>, bool)) -> Seq<(Seq<char>, Style)> {
    seq![
        (note_prefix(n), Style::fg_italic_spec(Color::DarkGray)),
        (n.1, Style::fg_italic_spec(Color::Gray)),
    ]
}

pub fn build_pseudo_line(n: &Note) -> (l: Line)
    ensures
        l@ == note_row(n@),
{
    let prefix = if n.first {
        let mut p = "▏ @".to_owned();
        p.append(n.author.as_str());
        p.append(": ");
        p
    } else {
        "▏        ".to_owned()
    };
    let mut spans: Vec<Span> = Vec::new();
    spans.push(Span::styled(prefix, Style::fg_italic(Color::DarkGray)));
    spans.push(Span::styled(n.body.clone(), Style::fg_italic(Color::Gray)));
    let l = Line::from_spans(spans);
    assert(l@ =~= note_row(n@));
    l
}

/// The filler that marks an empty side in the split view.
pub open spec fn filler_row() -> Seq<(Seq<char>, Style)> {
    seq![("  ~  "@, Style::fg_italic_spec(Color::DarkGray))]
}

pub fn filler() -> (l: Line)
    ensures
        l@ == filler_row(),
{
    Line::single("  ~  ".to_owned(), Style::fg_italic(Color::DarkGray))
}

pub fn build_pseudo_row_pair(n: &Note) -> (r: (Line, Line))
    ensures
        r.0@ == filler_row(),
        r.1@ == note_row(n@),
{
    (filler(), build_pseudo_line(n))
}

// ── merging ─────────────────────────────────────────────────────────────

/// `base` with, after each row `j`, the pseudo-lines of the notes at
/// position `j + 1`.
pub open spec fn merged(
    base: Seq<Seq<(Seq<char>, Style)>>,
    p: Seq<(int, (Seq<char>, Seq<char>, bool))>,
    j: int,
) -> Seq<Seq<(Seq<char>, Style)>>
    decreases j,
{
    if j <= 0 {
        Seq::empty()
    } else {
        merged(base, p, j - 1) + seq![base[j - 1]] + notes_at(p, j).map_values(
            |x: (Seq<char>, Seq<char>, bool)| note_row(x),
        )
    }
}

/// Inserts the planned notes into the unified rows.
pub fn apply_inserts(base: Vec<Line>, p: &Vec<(usize, Note)>) -> (out: Vec<Line>)
    ensures
        lines_view(out@) == merged(lines_view(base@), pending_view(p@), base@.len() as int),
{
    let ghost bv = lines_view(base@);
    let n = base.len();
    let mut out: Vec<Line> = Vec::new();
    assert(lines_view(out@) =~= merged(bv, pending_view(p@), 0));
    let mut j: usize = 0;
    for line in it: base.into_iter()
        invariant
            n == bv.len(),
            j == it.index(),
            j <= n,
            it.seq().map_values(|l: Line| l@) == bv,
            lines_view(out@) == merged(bv, pending_view(p@), it.index() as int),
    {
        let ghost before = lines_view(out@);
        assert(line@ == bv[j as int]);
        out.push(line);
        let notes = notes_at_exec(p, j + 1);
        let ghost nv = notes@.map_values(|x: Note| x@);
        let ghost mid = lines_view(out@);
        assert(mid =~= before + seq![bv[j as int]]);
        let mut k: usize = 0;
        while k < notes.len()
            invariant
                k <= notes.len(),
                nv == notes@.map_values(|x: Note| x@),
                lines_view(out@) == mid + nv.take(k as int).map_values(
                    |x: (Seq<char>, Seq<char>, bool)| note_row(x),
                ),
            decreases notes.len() - k,
        {
            let l = build_pseudo_line(&notes[k]);
            let ghost o0 = lines_view(out@);
            out.push(l);
            assert(lines_view(out@) =~= o0.push(note_row(nv[k as int])));
            assert(nv.take(k + 1).map_values(|x: (Seq<char>, Seq<char>, bool)| note_row(x))
                =~= nv.take(k as int).map_values(|x: (Seq<char>, Seq<char>, bool)| note_row(x)).push(
                note_row(nv[k as int]),
            ));
            assert(lines_view(out@) =~= mid + nv.take(k + 1).map_values(
                |x: (Seq<char>, Seq<char>, bool)| note_row(x),
            ));
            k = k + 1;
        }
        assert(nv.take(k as int) =~= nv);
        j = j + 1;
    }
    out
}

} // verus!
