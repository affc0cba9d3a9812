//! The side-by-side diff view: rows of `(left, right)` lines.
//!
//! Headers, stats, hunk headers, no-newline markers and context lines show
//! the same line on both sides. A balanced `-` / `+` block pairs its lines
//! with word-level spans, old on the left and new on the right, without
//! prefix characters. Other blocks put each `-` line on the left and each
//! `+` line on the right, with a filler on the empty side.

use vstd::prelude::*;

use super::threads::{
    build_pseudo_row_pair, filler, filler_row, note_row, notes_at, pending, pending_view,
    plan_inserts, Note,
};
use super::unified::{
    after_first, clone_spans, diff_omitted, file_header, file_highlight, file_hl, file_stats,
    header_row, hl_at, hl_view, hunk_row, no_newline_row, omitted_row, stats_row, strings_view,
    walker_ok, Walker,
};
use super::{expand, expand_tabs, has_patch_text, patch_lines};
use crate::api::starts_with;
use crate::pulls::{FilePatch, ReviewThread};
use crate::style::{append_spans, spans_view, Color, Line, Span, Style};
use crate::text::{line_bounds, lines, substring, to_chars};
use crate::word::{intra_line_highlight, minus_spans, plus_spans, word_changes};

verus! {

/// A split row: left and right line.
pub type SplitRow = (Seq<(Seq<char>, Style)>, Seq<(Seq<char>, Style)>);

pub open spec fn same(l: Seq<(Seq<char>, Style)>) -> SplitRow {
    (l, l)
}

/// The highlighted row `k`, or `body` in `fallback`.
pub open spec fn hl_or(
    hl: Option<Seq<Seq<(Seq<char>, Style)>>>,
    k: int,
    body: Seq<char>,
    fallback: Style,
) -> Seq<(Seq<char>, Style)> {
    match hl_at(hl, k) {
        Some(r) => r,
        None => seq![(body, fallback)],
    }
}

/// Walker state as in the unified view, emitting split rows.
pub type SplitWalk = (Seq<Seq<char>>, Seq<Seq<char>>, int, int, Seq<SplitRow>);

pub open spec fn pair_rows(m: Seq<Seq<char>>, p: Seq<Seq<char>>) -> Seq<SplitRow>
    decreases m.len(),
{
    if m.len() == 0 || p.len() == 0 {
        Seq::empty()
    } else {
        let cs = word_changes(after_first(m.last()), after_first(p.last()));
        pair_rows(m.drop_last(), p.drop_last()).push((minus_spans(cs), plus_spans(cs)))
    }
}

pub open spec fn minus_rows(m: Seq<Seq<char>>) -> Seq<SplitRow> {
    m.map_values(|r: Seq<char>| (seq![(after_first(r), Style::fg_spec(Color::Red))], filler_row()))
}

pub open spec fn plus_rows(
    p: Seq<Seq<char>>,
    hl: Option<Seq<Seq<(Seq<char>, Style)>>>,
    start: int,
) -> Seq<SplitRow> {
    Seq::new(
        p.len(),
        |i: int| (filler_row(), hl_or(hl, start + i, after_first(p[i]), Style::fg_spec(Color::Green))),
    )
}

pub open spec fn flush_rows(w: SplitWalk, hl: Option<Seq<Seq<(Seq<char>, Style)>>>) -> Seq<SplitRow> {
    if w.0.len() > 0 && w.0.len() == w.1.len() {
        pair_rows(w.0, w.1)
    } else {
        minus_rows(w.0) + plus_rows(w.1, hl, w.3)
    }
}

pub open spec fn flush(w: SplitWalk, hl: Option<Seq<Seq<(Seq<char>, Style)>>>) -> SplitWalk {
    (Seq::empty(), Seq::empty(), w.2, 0, w.4 + flush_rows(w, hl))
}

pub open spec fn consume(
    w: SplitWalk,
    raw: Seq<char>,
    hl: Option<Seq<Seq<(Seq<char>, Style)>>>,
) -> SplitWalk {
    if crate::text::has_prefix(raw, "@@"@) {
        let f = flush(w, hl);
        (f.0, f.1, f.2, f.3, f.4.push(same(hunk_row(raw))))
    } else if raw.len() > 0 && raw[0] == '+' {
        (w.0, w.1.push(raw), w.2 + 1, if w.1.len() == 0 {
            w.2
        } else {
            w.3
        }, w.4)
    } else if raw.len() > 0 && raw[0] == '-' {
        let f = if w.1.len() > 0 {
            flush(w, hl)
        } else {
            w
        };
        (f.0.push(raw), f.1, f.2, f.3, f.4)
    } else if raw.len() > 0 && raw[0] == '\\' {
        let f = flush(w, hl);
        (f.0, f.1, f.2, f.3, f.4.push(same(no_newline_row(raw))))
    } else {
        let f = flush(w, hl);
        (f.0, f.1, f.2 + 1, f.3, f.4.push(
            same(hl_or(hl, f.2, after_first(raw), Style::fg_spec(Color::Gray))),
        ))
    }
}

pub open spec fn walk(ls: Seq<Seq<char>>, hl: Option<Seq<Seq<(Seq<char>, Style)>>>) -> SplitWalk
    decreases ls.len(),
{
    if ls.len() == 0 {
        (Seq::empty(), Seq::empty(), 0, 0, Seq::empty())
    } else {
        consume(walk(ls.drop_last(), hl), ls.last(), hl)
    }
}

pub open spec fn file_rows(f: FilePatch) -> Seq<SplitRow> {
    seq![same(header_row(f)), same(stats_row(f))] + if has_patch_text(f) {
        let ls = patch_lines(f).map_values(|l: Seq<char>| expand(l));
        flush(walk(ls, file_hl(f)), file_hl(f)).4
    } else {
        seq![same(omitted_row())]
    }
}

pub open spec fn files_rows(files: Seq<FilePatch>, n: int) -> Seq<SplitRow>
    decreases n,
{
    if n <= 0 {
        Seq::empty()
    } else {
        files_rows(files, n - 1) + (if n > 1 {
            seq![same(Seq::<(Seq<char>, Style)>::empty())]
        } else {
            Seq::empty()
        }) + file_rows(files[n - 1])
    }
}

/// Split rows with the notes at position `j + 1` after each row `j`.
pub open spec fn merged(
    base: Seq<SplitRow>,
    p: Seq<(int, (Seq<char>, Seq<char>, bool))>,
    j: int,
) -> Seq<SplitRow>
    decreases j,
{
    if j <= 0 {
        Seq::empty()
    } else {
        merged(base, p, j - 1) + seq![base[j - 1]] + notes_at(p, j).map_values(
            |x: (Seq<char>, Seq<char>, bool)| (filler_row(), note_row(x)),
        )
    }
}

/// Rows of the split view, each current thread's pseudo-lines inserted
/// directly below the first row whose right side shows its new-file line
/// of its path (see [`super::split_anchors`]).
pub open spec fn rendered(files: Seq<FilePatch>, ts: Seq<ReviewThread>) -> Seq<SplitRow> {
    let base = files_rows(files, files.len() as int);
    merged(base, pending(super::split_anchors(files), ts, base.len() as int, ts.len() as int), base.len() as int)
}

// ── exec ────────────────────────────────────────────────────────────────

pub open spec fn rows_view(v: Seq<(Line, Line)>) -> Seq<SplitRow> {
    v.map_values(|p: (Line, Line)| (p.0@, p.1@))
}

pub open spec fn walk_view(w: Walker, out: Seq<(Line, Line)>) -> SplitWalk {
    (strings_view(w.minus@), strings_view(w.plus@), w.after as int, w.plus_start as int, rows_view(out))
}

pub fn clone_line(l: &Line) -> (r: Line)
    ensures
        r@ == l@,
{
    Line::from_spans(clone_spans(&l.spans))
}

/// `(l, l)`.
fn both(l: Line) -> (r: (Line, Line))
    ensures
        r.0@ == l@,
        r.1@ == l@,
{
    let c = clone_line(&l);
    (c, l)
}

fn hl_or_exec(hl: &Option<Vec<Vec<Span>>>, k: usize, body: String, fallback: Style) -> (l: Line)
    ensures
        l@ == hl_or(hl_view(*hl), k as int, body@, fallback),
{
    match hl {
        Some(h) => {
            if k < h.len() {
                return Line::from_spans(clone_spans(&h[k]));
            }
        },
        None => {},
    }
    Line::single(body, fallback)
}

fn after_first_text(raw: &String) -> (r: String)
    ensures
        r@ == after_first(raw@),
{
    let cs = to_chars(raw.as_str());
    if cs.len() > 0 && (cs[0] as u32) < 0x80 {
        let r = substring(&cs, 1, cs.len());
        assert(cs@.subrange(1, cs.len() as int) =~= raw@.drop_first());
        r
    } else {
        String::new()
    }
}

fn push_row(out: &mut Vec<(Line, Line)>, r: (Line, Line))
    ensures
        rows_view(final(out)@) == rows_view(old(out)@).push((r.0@, r.1@)),
{
    let ghost before = rows_view(out@);
    let ghost v = (r.0@, r.1@);
    out.push(r);
    assert(rows_view(out@) =~= before.push(v));
}

fn flush_exec(w: &mut Walker, hl: &Option<Vec<Vec<Span>>>, out: &mut Vec<(Line, Line)>)
    requires
        old(w).plus@.len() > 0 ==> old(w).plus_start + old(w).plus@.len() == old(w).after,
    ensures
        walk_view(*final(w), final(out)@) == flush(walk_view(*old(w), old(out)@), hl_view(*hl)),
        final(w).plus@.len() == 0,
        final(w).after == old(w).after,
{
    let ghost w0 = walk_view(*w, out@);
    let mut minus: Vec<String> = Vec::new();
    let mut plus: Vec<String> = Vec::new();
    std::mem::swap(&mut minus, &mut w.minus);
    std::mem::swap(&mut plus, &mut w.plus);
    let plus_start = w.plus_start;
    w.plus_start = 0;
    assert(strings_view(w.minus@) =~= Seq::<Seq<char>>::empty());
    assert(strings_view(w.plus@) =~= Seq::<Seq<char>>::empty());
    if minus.len() > 0 && minus.len() == plus.len() {
        let mut k: usize = 0;
        while k < minus.len()
            invariant
                k <= minus.len() == plus.len(),
                w0.0 == strings_view(minus@),
                w0.1 == strings_view(plus@),
                rows_view(out@) == w0.4 + pair_rows(
                    strings_view(minus@).take(k as int),
                    strings_view(plus@).take(k as int),
                ),
            decreases minus.len() - k,
        {
            let old_text = after_first_text(&minus[k]);
            let new_text = after_first_text(&plus[k]);
            let (m_spans, p_spans) = intra_line_highlight(old_text.as_str(), new_text.as_str());
            let ghost before = rows_view(out@);
            push_row(out, (Line::from_spans(m_spans), Line::from_spans(p_spans)));
            proof {
                let mk = strings_view(minus@).take(k + 1);
                let pk = strings_view(plus@).take(k + 1);
                assert(mk.drop_last() =~= strings_view(minus@).take(k as int));
                assert(pk.drop_last() =~= strings_view(plus@).take(k as int));
            }
            k = k + 1;
        }
        assert(strings_view(minus@).take(k as int) =~= strings_view(minus@));
        assert(strings_view(plus@).take(k as int) =~= strings_view(plus@));
        return;
    }
    let mut k: usize = 0;
    while k < minus.len()
        invariant
            k <= minus.len(),
            w0.0 == strings_view(minus@),
            rows_view(out@) == w0.4 + minus_rows(strings_view(minus@).take(k as int)),
        decreases minus.len() - k,
    {
        let body = after_first_text(&minus[k]);
        let ghost before = rows_view(out@);
        let l = Line::single(body, Style::fg(Color::Red));
        let f = filler();
        push_row(out, (l, f));
        assert(minus_rows(strings_view(minus@).take(k + 1)) =~= minus_rows(
            strings_view(minus@).take(k as int),
        ).push((seq![(after_first(strings_view(minus@)[k as int]), Style::fg_spec(Color::Red))], filler_row())));
        k = k + 1;
    }
    assert(strings_view(minus@).take(k as int) =~= strings_view(minus@));
    let ghost mid = rows_view(out@);
    let mut k: usize = 0;
    while k < plus.len()
        invariant
            k <= plus.len(),
            w0.1 == strings_view(plus@),
            w0.3 == plus_start,
            plus@.len() > 0 ==> plus_start + plus@.len() <= usize::MAX,
            rows_view(out@) == mid + plus_rows(strings_view(plus@), hl_view(*hl), plus_start as int).take(
                k as int,
            ),
        decreases plus.len() - k,
    {
        let body = after_first_text(&plus[k]);
        let l = hl_or_exec(hl, plus_start + k, body, Style::fg(Color::Green));
        let f = filler();
        let ghost e = (f@, l@);
        push_row(out, (f, l));
        assert(plus_rows(strings_view(plus@), hl_view(*hl), plus_start as int).take(k + 1)
            =~= plus_rows(strings_view(plus@), hl_view(*hl), plus_start as int).take(k as int).push(e));
        k = k + 1;
    }
    assert(plus_rows(strings_view(plus@), hl_view(*hl), plus_start as int).take(k as int)
        =~= plus_rows(strings_view(plus@), hl_view(*hl), plus_start as int));
}

fn consume_exec(w: &mut Walker, raw: String, hl: &Option<Vec<Vec<Span>>>, out: &mut Vec<(Line, Line)>)
    requires
        walker_ok(*old(w)),
        old(w).after < usize::MAX,
    ensures
        walk_view(*final(w), final(out)@) == consume(walk_view(*old(w), old(out)@), raw@, hl_view(*hl)),
        walker_ok(*final(w)),
        final(w).after <= old(w).after + 1,
{
    let cs = to_chars(raw.as_str());
    if starts_with(&cs, "@@") {
        flush_exec(w, hl, out);
        push_row(out, both(Line::single(raw, Style::fg(Color::Blue))));
    } else if cs.len() > 0 && cs[0] == '+' {
        if w.plus.len() == 0 {
            w.plus_start = w.after;
        }
        let ghost before = strings_view(w.plus@);
        w.plus.push(raw);
        assert(strings_view(w.plus@) =~= before.push(raw@));
        w.after = w.after + 1;
    } else if cs.len() > 0 && cs[0] == '-' {
        if w.plus.len() > 0 {
            flush_exec(w, hl, out);
        }
        let ghost before = strings_view(w.minus@);
        w.minus.push(raw);
        assert(strings_view(w.minus@) =~= before.push(raw@));
    } else if cs.len() > 0 && cs[0] == '\\' {
        flush_exec(w, hl, out);
        push_row(out, both(Line::single(raw, Style::fg_italic(Color::DarkGray))));
    } else {
        flush_exec(w, hl, out);
        let body = after_first_text(&raw);
        let l = hl_or_exec(hl, w.after, body, Style::fg(Color::Gray));
        push_row(out, both(l));
        w.after = w.after + 1;
    }
}

fn body_rows_exec(cs: &Vec<char>, hl: &Option<Vec<Vec<Span>>>) -> (rows: Vec<(Line, Line)>)
    ensures
        ({
            let ls = lines(cs@).map_values(|l: Seq<char>| expand(l));
            rows_view(rows@) == flush(walk(ls, hl_view(*hl)), hl_view(*hl)).4
        }),
{
    let bounds = line_bounds(cs);
    let ghost ls = lines(cs@).map_values(|l: Seq<char>| expand(l));
    let mut w = Walker { minus: Vec::new(), plus: Vec::new(), after: 0, plus_start: 0 };
    let mut rows: Vec<(Line, Line)> = Vec::new();
    assert(walk_view(w, rows@) =~= walk(ls.take(0), hl_view(*hl)));
    let mut k: usize = 0;
    while k < bounds.len()
        invariant
            k <= bounds.len(),
            bounds@.len() == lines(cs@).len(),
            ls == lines(cs@).map_values(|l: Seq<char>| expand(l)),
            forall|q: int| #![trigger bounds[q]] 0 <= q < bounds.len() ==> bounds[q].0 <= bounds[q].1 <= cs.len(),
            forall|q: int|
                0 <= q < bounds.len() ==> #[trigger] cs@.subrange(bounds[q].0 as int, bounds[q].1 as int) == lines(
                    cs@,
                )[q],
            walk_view(w, rows@) == walk(ls.take(k as int), hl_view(*hl)),
            walker_ok(w),
            w.after <= k,
        decreases bounds.len() - k,
    {
        let (a, b) = bounds[k];
        let piece = substring(cs, a, b);
        let raw = expand_tabs(piece.as_str());
        assert(ls.take(k + 1).drop_last() =~= ls.take(k as int));
        assert(ls.take(k + 1).last() == raw@);
        consume_exec(&mut w, raw, hl, &mut rows);
        k = k + 1;
    }
    assert(ls.take(k as int) =~= ls);
    flush_exec(&mut w, hl, &mut rows);
    rows
}

fn render_file(f: &FilePatch, out: &mut Vec<(Line, Line)>)
    ensures
        rows_view(final(out)@) == rows_view(old(out)@) + file_rows(*f),
{
    let ghost start = rows_view(out@);
    let mut rows: Vec<(Line, Line)> = Vec::new();
    push_row(&mut rows, both(file_header(f)));
    push_row(&mut rows, both(file_stats(f)));
    let ghost head = rows_view(rows@);
    assert(head =~= seq![same(header_row(*f)), same(stats_row(*f))]);
    let has_text = match &f.patch {
        Some(p) => !p.as_str().is_empty(),
        None => false,
    };
    if has_text {
        let p = match &f.patch {
            Some(p) => p,
            None => return,
        };
        let expanded = expand_tabs(p.as_str());
        let hl = file_highlight(f.path.as_str(), expanded.as_str());
        let cs = to_chars(p.as_str());
        let mut body = body_rows_exec(&cs, &hl);
        let ghost b = rows_view(body@);
        rows.append(&mut body);
        assert(rows_view(rows@) =~= head + b);
    } else {
        push_row(&mut rows, both(diff_omitted()));
        assert(rows_view(rows@) =~= head + seq![same(omitted_row())]);
    }
    let ghost r = rows_view(rows@);
    out.append(&mut rows);
    assert(rows_view(out@) =~= start + r);
}

fn render_files(files: &Vec<FilePatch>) -> (out: Vec<(Line, Line)>)
    ensures
        rows_view(out@) == files_rows(files@, files.len() as int),
{
    let mut out: Vec<(Line, Line)> = Vec::new();
    let mut i: usize = 0;
    assert(rows_view(out@) =~= files_rows(files@, 0));
    while i < files.len()
        invariant
            i <= files.len(),
            rows_view(out@) == files_rows(files@, i as int),
        decreases files.len() - i,
    {
        if i > 0 {
            let ghost before = rows_view(out@);
            push_row(&mut out, both(Line::blank()));
            assert(rows_view(out@) =~= before + seq![same(Seq::<(Seq<char>, Style)>::empty())]);
        } else {
            assert(rows_view(out@) =~= rows_view(out@) + Seq::<SplitRow>::empty());
        }
        render_file(&files[i], &mut out);
        i = i + 1;
    }
    out
}

fn notes_at_exec(p: &Vec<(usize, Note)>, at: usize) -> (v: Vec<Note>)
    ensures
        v@.map_values(|n: Note| n@) == notes_at(pending_view(p@), at as int),
{
    let ghost pv = pending_view(p@);
    let mut v: Vec<Note> = Vec::new();
    let mut k: usize = 0;
    while k < p.len()
        invariant
            k <= p.len(),
            pv == pending_view(p@),
            v@.map_values(|n: Note| n@) == notes_at(pv.take(k as int), at as int),
        decreases p.len() - k,
    {
        assert(pv.take(k + 1).drop_last() =~= pv.take(k as int));
        if p[k].0 == at {
            let note = Note { author: p[k].1.author.clone(), body: p[k].1.body.clone(), first: p[k].1.first };
            let ghost before = v@.map_values(|n: Note| n@);
            v.push(note);
            assert(v@.map_values(|n: Note| n@) =~= before.push(note@));
        }
        k = k + 1;
    }
    assert(pv.take(k as int) =~= pv);
    v
}

/// Inserts the planned notes as `(filler, pseudo-line)` rows.
pub fn apply_inserts_split(base: Vec<(Line, Line)>, p: &Vec<(usize, Note)>) -> (out: Vec<(Line, Line)>)
    ensures
        rows_view(out@) == merged(rows_view(base@), pending_view(p@), base@.len() as int),
{
    let ghost bv = rows_view(base@);
    let n = base.len();
    let mut out: Vec<(Line, Line)> = Vec::new();
    assert(rows_view(out@) =~= merged(bv, pending_view(p@), 0));
    let mut j: usize = 0;
    for row in it: base.into_iter()
        invariant
            n == bv.len(),
            j == it.index(),
            j <= n,
            it.seq().map_values(|p: (Line, Line)| (p.0@, p.1@)) == bv,
            rows_view(out@) == merged(bv, pending_view(p@), it.index() as int),
    {
        let ghost before = rows_view(out@);
        assert((row.0@, row.1@) == bv[j as int]);
        push_row(&mut out, row);
        let notes = notes_at_exec(p, j + 1);
        let ghost nv = notes@.map_values(|x: Note| x@);
        let ghost mid = rows_view(out@);
        assert(mid =~= before + seq![bv[j as int]]);
        let mut k: usize = 0;
        while k < notes.len()
            invariant
                k <= notes.len(),
                nv == notes@.map_values(|x: Note| x@),
                rows_view(out@) == mid + nv.take(k as int).map_values(
                    |x: (Seq<char>, Seq<char>, bool)| (filler_row(), note_row(x)),
                ),
            decreases notes.len() - k,
        {
            let r = build_pseudo_row_pair(&notes[k]);
            let ghost e = (r.0@, r.1@);
            push_row(&mut out, r);
            assert(nv.take(k + 1).map_values(|x: (Seq<char>, Seq<char>, bool)| (filler_row(), note_row(x)))
                =~= nv.take(k as int).map_values(
                |x: (Seq<char>, Seq<char>, bool)| (filler_row(), note_row(x)),
            ).push(e));
            k = k + 1;
        }
        assert(nv.take(k as int) =~= nv);
        j = j + 1;
    }
    out
}

proof fn lemma_pair_rows_len(m: Seq<Seq<char>>, p: Seq<Seq<char>>)
    requires
        m.len() == p.len(),
    ensures
        pair_rows(m, p).len() == m.len(),
    decreases m.len(),
{
    if m.len() > 0 {
        lemma_pair_rows_len(m.drop_last(), p.drop_last());
    }
}

proof fn lemma_flush_len(w: SplitWalk, hl: Option<Seq<Seq<(Seq<char>, Style)>>>)
    ensures
        w.0.len() > 0 && w.0.len() == w.1.len() ==> flush(w, hl).4.len() == w.4.len() + w.0.len(),
        !(w.0.len() > 0 && w.0.len() == w.1.len()) ==> flush(w, hl).4.len() == w.4.len() + w.0.len() + w.1.len(),
{
    if w.0.len() > 0 && w.0.len() == w.1.len() {
        lemma_pair_rows_len(w.0, w.1);
    }
}

/// Split rows never outnumber unified rows of the same files.
proof fn lemma_walk_len(ls: Seq<Seq<char>>, hl: Option<Seq<Seq<(Seq<char>, Style)>>>)
    ensures
        walk(ls, hl).4.len() + walk(ls, hl).0.len() + walk(ls, hl).1.len() <= ls.len(),
    decreases ls.len(),
{
    if ls.len() > 0 {
        let w = walk(ls.drop_last(), hl);
        lemma_walk_len(ls.drop_last(), hl);
        lemma_flush_len(w, hl);
    }
}

/// The row tags follow this walk: the same pending runs, and one tag for
/// each row emitted.
proof fn lemma_walk_tags(ls: Seq<Seq<char>>, hl: Option<Seq<Seq<(Seq<char>, Style)>>>)
    ensures
        walk(ls, hl).0.len() == super::tag_walk(ls, true).0,
        walk(ls, hl).1.len() == super::tag_walk(ls, true).1.len(),
        walk(ls, hl).4.len() == super::tag_walk(ls, true).3.len(),
    decreases ls.len(),
{
    if ls.len() > 0 {
        let w = walk(ls.drop_last(), hl);
        lemma_walk_tags(ls.drop_last(), hl);
        lemma_flush_len(w, hl);
    }
}

/// Each row of the split view before threads carries exactly one row tag
/// (see [`super::split_anchors`]): the anchors are rows of this view.
pub proof fn lemma_rows_match_tags(files: Seq<FilePatch>, n: int)
    requires
        0 <= n <= files.len(),
    ensures
        files_rows(files, n).len() == super::drawn_before(files, n, true),
    decreases n,
{
    if n > 0 {
        lemma_rows_match_tags(files, n - 1);
        let f = files[n - 1];
        if has_patch_text(f) {
            let ls = patch_lines(f).map_values(|l: Seq<char>| expand(l));
            let w = walk(ls, file_hl(f));
            lemma_walk_tags(ls, file_hl(f));
            lemma_flush_len(w, file_hl(f));
            assert(ls == super::shown_lines(f));
        }
    }
}

/// Renders the split view.
///
/// Each thread's pseudo-lines follow the row whose right side shows its
/// new-file line (see [`super::split_anchors`]). The row count of the
/// unified layout, which bounds the split one, must fit in `usize` (see
/// [`super::rows_count`]).
pub fn render(files: &Vec<FilePatch>, threads: &Vec<ReviewThread>) -> (out: Vec<(Line, Line)>)
    requires
        super::rows_before(files@, files.len() as int) <= usize::MAX,
    ensures
        rows_view(out@) == rendered(files@, threads@),
{
    let base = render_files(files);
    let anchors = super::collect_split_anchors(files);
    let plan = plan_inserts(&anchors, threads, base.len());
    assert(rows_view(base@).len() == base@.len());
    apply_inserts_split(base, &plan)
}

} // verus!
