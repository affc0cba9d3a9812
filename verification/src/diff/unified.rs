//! The unified diff view: one row per patch line under a header and a
//! stats row per file.
//!
//! Context and added lines take their spans from the syntax highlighting
//! of the file's post-image when its language is known. A run of `-` lines
//! followed by an equally long run of `+` lines is shown pair by pair with
//! word-level highlighting; other runs are shown whole-line red / green.

use vstd::prelude::*;

use super::{expand, expand_tabs, has_patch_text, patch_lines, post_image, reconstruct_after};
use crate::api::starts_with;
use super::threads::{apply_inserts, merged, pending, plan_inserts};
use crate::pulls::{patch_status_label, FilePatch, PatchStatus, ReviewThread};
use crate::style::{append_spans, lines_view, spans_view, Color, Line, Span, Style};
use crate::syntax::{detect, highlight, highlight_spec, lang_of, rows_view, Lang};
use crate::text::{decimal, has_prefix, line_bounds, lines, push_decimal, substring, to_chars};
use crate::word::{intra_line_highlight, minus_spans, plus_spans, word_changes};

verus! {

// ── fixed rows ──────────────────────────────────────────────────────────

/// `prev → path` for renamed or copied files that name their old path,
/// else the path; then the status in parentheses.
pub open spec fn header_text(f: FilePatch) -> Seq<char> {
    let shown = match f.previous_path {
        Some(prev) => if f.status == PatchStatus::Renamed || f.status == PatchStatus::Copied {
            prev@ + " → "@ + f.path@
        } else {
            f.path@
        },
        None => f.path@,
    };
    shown + " ("@ + patch_status_label(f.status) + ")"@
}

pub open spec fn header_row(f: FilePatch) -> Seq<(Seq<char>, Style)> {
    seq![(header_text(f), Style::fg_bold_spec(Color::Cyan))]
}

pub open spec fn stats_row(f: FilePatch) -> Seq<(Seq<char>, Style)> {
    seq![
        ("+"@ + decimal(f.additions as nat) + " -"@ + decimal(f.deletions as nat), Style::fg_spec(
            Color::DarkGray,
        )),
    ]
}

pub open spec fn omitted_row() -> Seq<(Seq<char>, Style)> {
    seq![("[diff omitted: file too large or binary]"@, Style::fg_italic_spec(Color::DarkGray))]
}

pub open spec fn hunk_row(raw: Seq<char>) -> Seq<(Seq<char>, Style)> {
    seq![(raw, Style::fg_spec(Color::Blue))]
}

pub open spec fn deletion_row(raw: Seq<char>) -> Seq<(Seq<char>, Style)> {
    seq![(raw, Style::fg_spec(Color::Red))]
}

pub open spec fn no_newline_row(raw: Seq<char>) -> Seq<(Seq<char>, Style)> {
    seq![(raw, Style::fg_italic_spec(Color::DarkGray))]
}

/// `raw.get(1..).unwrap_or("")`: the text after a one-byte first
/// character, else nothing.
pub open spec fn after_first(raw: Seq<char>) -> Seq<char> {
    if raw.len() > 0 && (raw[0] as u32) < 0x80 {
        raw.drop_first()
    } else {
        Seq::empty()
    }
}

/// Row `k` of the highlighting, when there is one.
pub open spec fn hl_at(hl: Option<Seq<Seq<(Seq<char>, Style)>>>, k: int) -> Option<
    Seq<(Seq<char>, Style)>,
> {
    match hl {
        Some(h) => if 0 <= k < h.len() {
            Some(h[k])
        } else {
            None
        },
        None => None,
    }
}

/// A green `+`, then the highlighted post-image row or the text in green.
pub open spec fn addition_row(
    raw: Seq<char>,
    hl: Option<Seq<Seq<(Seq<char>, Style)>>>,
    k: int,
) -> Seq<(Seq<char>, Style)> {
    seq![("+"@, Style::fg_spec(Color::Green))] + match hl_at(hl, k) {
        Some(r) => r,
        None => seq![(after_first(raw), Style::fg_spec(Color::Green))],
    }
}

/// An unstyled space, then the highlighted row or the text in grey.
pub open spec fn context_row(
    raw: Seq<char>,
    hl: Option<Seq<Seq<(Seq<char>, Style)>>>,
    k: int,
) -> Seq<(Seq<char>, Style)> {
    seq![(" "@, Style::plain_spec())] + match hl_at(hl, k) {
        Some(r) => r,
        None => seq![(after_first(raw), Style::fg_spec(Color::Gray))],
    }
}

// ── the walk over patch lines ───────────────────────────────────────────

/// Walker state: pending `-` lines, pending `+` lines, post-image index,
/// post-image index of the first pending `+`, rows emitted.
pub type Walk = (
    Seq<Seq<char>>,
    Seq<Seq<char>>,
    int,
    int,
    Seq<Seq<(Seq<char>, Style)>>,
);

/// Rows of a balanced block: for each pair a `-` row and a `+` row with
/// word-level spans.
pub open spec fn pair_rows(m: Seq<Seq<char>>, p: Seq<Seq<char>>) -> Seq<Seq<(Seq<char>, Style)>>
    decreases m.len(),
{
    if m.len() == 0 || p.len() == 0 {
        Seq::empty()
    } else {
        let cs = word_changes(after_first(m.last()), after_first(p.last()));
        pair_rows(m.drop_last(), p.drop_last()) + seq![
            seq![("-"@, Style::fg_spec(Color::Red))] + minus_spans(cs),
            seq![("+"@, Style::fg_spec(Color::Green))] + plus_spans(cs),
        ]
    }
}

pub open spec fn plus_rows(
    p: Seq<Seq<char>>,
    hl: Option<Seq<Seq<(Seq<char>, Style)>>>,
    start: int,
) -> Seq<Seq<(Seq<char>, Style)>> {
    Seq::new(p.len(), |i: int| addition_row(p[i], hl, start + i))
}

/// Rows for the pending run.
pub open spec fn flush_rows(w: Walk, hl: Option<Seq<Seq<(Seq<char>, Style)>>>) -> Seq<
    Seq<(Seq<char>, Style)>,
> {
    if w.0.len() > 0 && w.0.len() == w.1.len() {
        pair_rows(w.0, w.1)
    } else {
        w.0.map_values(|r: Seq<char>| deletion_row(r)) + plus_rows(w.1, hl, w.3)
    }
}

pub open spec fn flush(w: Walk, hl: Option<Seq<Seq<(Seq<char>, Style)>>>) -> Walk {
    (Seq::empty(), Seq::empty(), w.2, 0, w.4 + flush_rows(w, hl))
}

/// One patch line: a hunk header flushes and shows in blue; `+` joins the
/// pending run; `-` flushes a pending `+` run first, then joins; `\`
/// flushes and shows dim; anything else is context.
pub open spec fn consume(w: Walk, raw: Seq<char>, hl: Option<Seq<Seq<(Seq<char>, Style)>>>) -> Walk {
    if has_prefix(raw, "@@"@) {
        let f = flush(w, hl);
        (f.0, f.1, f.2, f.3, f.4.push(hunk_row(raw)))
    } else if raw.len() > 0 && raw[0] == '+' {
        (w.0, w.1.push(raw), w.2 + 1, if w.1.len() == 0 {
            w.2
        } else {
            w.3
        }, w.4)
    } else if raw.len() > 0 && raw[0] == '-' {
        let f = if w.1.len() > 0 {
            flush(w, hl)
        } else {
            w
        };
        (f.0.push(raw), f.1, f.2, f.3, f.4)
    } else if raw.len() > 0 && raw[0] == '\\' {
        let f = flush(w, hl);
        (f.0, f.1, f.2, f.3, f.4.push(no_newline_row(raw)))
    } else {
        let f = flush(w, hl);
        (f.0, f.1, f.2 + 1, f.3, f.4.push(context_row(raw, hl, f.2)))
    }
}

pub open spec fn walk(ls: Seq<Seq<char>>, hl: Option<Seq<Seq<(Seq<char>, Style)>>>) -> Walk
    decreases ls.len(),
{
    if ls.len() == 0 {
        (Seq::empty(), Seq::empty(), 0, 0, Seq::empty())
    } else {
        consume(walk(ls.drop_last(), hl), ls.last(), hl)
    }
}

/// Rows of a patch body.
pub open spec fn body_rows(ls: Seq<Seq<char>>, hl: Option<Seq<Seq<(Seq<char>, Style)>>>) -> Seq<
    Seq<(Seq<char>, Style)>,
> {
    flush(walk(ls, hl), hl).4
}

/// The patch text of a file with tabs expanded.
pub open spec fn patch_text(f: FilePatch) -> Seq<char> {
    match f.patch {
        Some(p) => expand(p@),
        None => Seq::empty(),
    }
}

/// Highlighting of the file's post-image, when its language is known.
pub open spec fn file_hl(f: FilePatch) -> Option<Seq<Seq<(Seq<char>, Style)>>> {
    if lang_of(f.path@) == Lang::Plain {
        None
    } else {
        Some(highlight_spec(lang_of(f.path@), post_image(patch_text(f))))
    }
}

/// Rows of one file.
pub open spec fn file_rows(f: FilePatch) -> Seq<Seq<(Seq<char>, Style)>> {
    seq![header_row(f), stats_row(f)] + if has_patch_text(f) {
        body_rows(patch_lines(f).map_values(|l: Seq<char>| expand(l)), file_hl(f))
    } else {
        seq![omitted_row()]
    }
}

/// Rows of `files[..n]`, a blank row between files.
pub open spec fn files_rows(files: Seq<FilePatch>, n: int) -> Seq<Seq<(Seq<char>, Style)>>
    decreases n,
{
    if n <= 0 {
        Seq::empty()
    } else {
        files_rows(files, n - 1) + (if n > 1 {
            seq![Seq::<(Seq<char>, Style)>::empty()]
        } else {
            Seq::empty()
        }) + file_rows(files[n - 1])
    }
}

// ── exec ────────────────────────────────────────────────────────────────

pub struct Walker {
    pub minus: Vec<String>,
    pub plus: Vec<String>,
    pub after: usize,
    pub plus_start: usize,
}

pub open spec fn strings_view(v: Seq<String>) -> Seq<Seq<char>> {
    v.map_values(|s: String| s@)
}

pub open spec fn walk_view(w: Walker, out: Seq<Line>) -> Walk {
    (strings_view(w.minus@), strings_view(w.plus@), w.after as int, w.plus_start as int, lines_view(out))
}

pub open spec fn hl_view(hl: Option<Vec<Vec<Span>>>) -> Option<Seq<Seq<(Seq<char>, Style)>>> {
    match hl {
        Some(h) => Some(rows_view(h@)),
        None => None,
    }
}

/// A copy of a row of spans.
pub fn clone_spans(v: &Vec<Span>) -> (r: Vec<Span>)
    ensures
        spans_view(r@) == spans_view(v@),
{
    let mut r: Vec<Span> = Vec::new();
    let mut k: usize = 0;
    while k < v.len()
        invariant
            k <= v.len(),
            spans_view(r@) == spans_view(v@).take(k as int),
        decreases v.len() - k,
    {
        let ghost before = spans_view(r@);
        let c = v[k].content.clone();
        let sp = Span { content: c, style: v[k].style };
        assert(sp@ == spans_view(v@)[k as int]);
        r.push(sp);
        assert(spans_view(r@) =~= before.push(sp@));
        assert(spans_view(v@).take(k + 1) =~= spans_view(v@).take(k as int).push(sp@));
        k = k + 1;
    }
    assert(spans_view(v@).take(v.len() as int) =~= spans_view(v@));
    r
}

/// The text after a one-byte first character (see [`after_first`]).
fn after_first_text(raw: &String) -> (r: String)
    ensures
        r@ == after_first(raw@),
{
    let cs = to_chars(raw.as_str());
    if cs.len() > 0 && (cs[0] as u32) < 0x80 {
        let r = substring(&cs, 1, cs.len());
        assert(cs@.subrange(1, cs.len() as int) =~= raw@.drop_first());
        r
    } else {
        String::new()
    }
}

/// `prefix` in `style`, then the highlighted row `k` or `body` in `fallback`.
fn prefixed_row(
    prefix: &str,
    style: Style,
    hl: &Option<Vec<Vec<Span>>>,
    k: usize,
    body: String,
    fallback: Style,
) -> (l: Line)
    ensures
        l@ == seq![(prefix@, style)] + match hl_at(hl_view(*hl), k as int) {
            Some(r) => r,
            None => seq![(body@, fallback)],
        },
{
    let mut spans: Vec<Span> = Vec::new();
    spans.push(Span::styled(prefix.to_owned(), style));
    let ghost first = spans_view(spans@);
    assert(first =~= seq![(prefix@, style)]);
    let rest = match hl {
        Some(h) => {
            if k < h.len() {
                clone_spans(&h[k])
            } else {
                let mut v: Vec<Span> = Vec::new();
                v.push(Span::styled(body, fallback));
                assert(spans_view(v@) =~= seq![(v@[0].content@, fallback)]);
                v
            }
        },
        None => {
            let mut v: Vec<Span> = Vec::new();
            v.push(Span::styled(body, fallback));
            assert(spans_view(v@) =~= seq![(v@[0].content@, fallback)]);
            v
        },
    };
    append_spans(&mut spans, rest);
    Line::from_spans(spans)
}

/// Emits the pending run and clears it.
fn flush_exec(w: &mut Walker, hl: &Option<Vec<Vec<Span>>>, out: &mut Vec<Line>)
    requires
        old(w).plus@.len() > 0 ==> old(w).plus_start + old(w).plus@.len() == old(w).after,
    ensures
        final(w).plus@.len() == 0,
        final(w).after == old(w).after,
        walk_view(*final(w), final(out)@) == flush(walk_view(*old(w), old(out)@), hl_view(*hl)),
{
    let ghost w0 = walk_view(*w, out@);
    let mut minus: Vec<String> = Vec::new();
    let mut plus: Vec<String> = Vec::new();
    std::mem::swap(&mut minus, &mut w.minus);
    std::mem::swap(&mut plus, &mut w.plus);
    let plus_start = w.plus_start;
    w.plus_start = 0;
    assert(strings_view(w.minus@) =~= Seq::<Seq<char>>::empty());
    assert(strings_view(w.plus@) =~= Seq::<Seq<char>>::empty());
    if minus.len() > 0 && minus.len() == plus.len() {
        let mut k: usize = 0;
        while k < minus.len()
            invariant
                k <= minus.len() == plus.len(),
                w0.0 == strings_view(minus@),
                w0.1 == strings_view(plus@),
                lines_view(out@) == w0.4 + pair_rows(
                    strings_view(minus@).take(k as int),
                    strings_view(plus@).take(k as int),
                ),
            decreases minus.len() - k,
        {
            let old_text = after_first_text(&minus[k]);
            let new_text = after_first_text(&plus[k]);
            let (m_spans, p_spans) = intra_line_highlight(old_text.as_str(), new_text.as_str());
            let mut ml: Vec<Span> = Vec::new();
            ml.push(Span::styled("-".to_owned(), Style::fg(Color::Red)));
            assert(spans_view(ml@) =~= seq![("-"@, Style::fg_spec(Color::Red))]);
            append_spans(&mut ml, m_spans);
            let mut pl: Vec<Span> = Vec::new();
            pl.push(Span::styled("+".to_owned(), Style::fg(Color::Green)));
            assert(spans_view(pl@) =~= seq![("+"@, Style::fg_spec(Color::Green))]);
            append_spans(&mut pl, p_spans);
            let ghost before = lines_view(out@);
            out.push(Line::from_spans(ml));
            out.push(Line::from_spans(pl));
            proof {
                let mk = strings_view(minus@).take(k + 1);
                let pk = strings_view(plus@).take(k + 1);
                assert(mk.drop_last() =~= strings_view(minus@).take(k as int));
                assert(pk.drop_last() =~= strings_view(plus@).take(k as int));
                assert(lines_view(out@) =~= before.push(lines_view(out@)[out@.len() - 2]).push(
                    lines_view(out@)[out@.len() - 1],
                ));
                assert(w0.4 + pair_rows(mk, pk) =~= before + seq![
                    lines_view(out@)[out@.len() - 2],
                    lines_view(out@)[out@.len() - 1],
                ]);
            }
            k = k + 1;
        }
        assert(strings_view(minus@).take(k as int) =~= strings_view(minus@));
        assert(strings_view(plus@).take(k as int) =~= strings_view(plus@));
        return;
    }
    let mut k: usize = 0;
    while k < minus.len()
        invariant
            k <= minus.len(),
            w0.0 == strings_view(minus@),
            lines_view(out@) == w0.4 + strings_view(minus@).take(k as int).map_values(
                |r: Seq<char>| deletion_row(r),
            ),
        decreases minus.len() - k,
    {
        let ghost before = lines_view(out@);
        let l = Line::single(minus[k].clone(), Style::fg(Color::Red));
        assert(l@ == deletion_row(strings_view(minus@)[k as int]));
        out.push(l);
        assert(lines_view(out@) =~= before.push(l@));
        assert(strings_view(minus@).take(k + 1).map_values(|r: Seq<char>| deletion_row(r))
            =~= strings_view(minus@).take(k as int).map_values(|r: Seq<char>| deletion_row(r)).push(
            l@,
        ));
        k = k + 1;
    }
    assert(strings_view(minus@).take(k as int) =~= strings_view(minus@));
    let ghost mid = lines_view(out@);
    let mut k: usize = 0;
    while k < plus.len()
        invariant
            k <= plus.len(),
            w0.1 == strings_view(plus@),
            w0.3 == plus_start,
            plus@.len() > 0 ==> plus_start + plus@.len() <= usize::MAX,
            lines_view(out@) == mid + plus_rows(strings_view(plus@), hl_view(*hl), plus_start as int).take(
                k as int,
            ),
        decreases plus.len() - k,
    {
        let body = after_first_text(&plus[k]);
        let idx = plus_start + k;
        let line = prefixed_row("+", Style::fg(Color::Green), hl, idx, body, Style::fg(Color::Green));
        let ghost before = lines_view(out@);
        assert(line@ == addition_row(strings_view(plus@)[k as int], hl_view(*hl), plus_start + k));
        out.push(line);
        assert(lines_view(out@) =~= before.push(line@));
        assert(plus_rows(strings_view(plus@), hl_view(*hl), plus_start as int).take(k + 1)
            =~= plus_rows(strings_view(plus@), hl_view(*hl), plus_start as int).take(k as int).push(
            line@,
        ));
        assert(lines_view(out@) =~= mid + plus_rows(strings_view(plus@), hl_view(*hl), plus_start as int).take(
            k + 1,
        ));
        k = k + 1;
    }
    assert(plus_rows(strings_view(plus@), hl_view(*hl), plus_start as int).take(k as int)
        =~= plus_rows(strings_view(plus@), hl_view(*hl), plus_start as int));
}


pub open spec fn walker_ok(w: Walker) -> bool {
    w.plus@.len() > 0 ==> w.plus_start + w.plus@.len() == w.after
}

/// Takes one patch line (see [`consume`]).
fn consume_exec(w: &mut Walker, raw: String, hl: &Option<Vec<Vec<Span>>>, out: &mut Vec<Line>)
    requires
        walker_ok(*old(w)),
        old(w).after < usize::MAX,
    ensures
        walk_view(*final(w), final(out)@) == consume(walk_view(*old(w), old(out)@), raw@, hl_view(*hl)),
        walker_ok(*final(w)),
        final(w).after <= old(w).after + 1,
{
    let cs = to_chars(raw.as_str());
    if starts_with(&cs, "@@") {
        flush_exec(w, hl, out);
        let ghost before = lines_view(out@);
        let l = Line::single(raw, Style::fg(Color::Blue));
        out.push(l);
        assert(lines_view(out@) =~= before.push(l@));
    } else if cs.len() > 0 && cs[0] == '+' {
        if w.plus.len() == 0 {
            w.plus_start = w.after;
        }
        let ghost before = strings_view(w.plus@);
        w.plus.push(raw);
        assert(strings_view(w.plus@) =~= before.push(raw@));
        w.after = w.after + 1;
    } else if cs.len() > 0 && cs[0] == '-' {
        if w.plus.len() > 0 {
            flush_exec(w, hl, out);
        }
        let ghost before = strings_view(w.minus@);
        w.minus.push(raw);
        assert(strings_view(w.minus@) =~= before.push(raw@));
    } else if cs.len() > 0 && cs[0] == '\\' {
        flush_exec(w, hl, out);
        let ghost before = lines_view(out@);
        let l = Line::single(raw, Style::fg_italic(Color::DarkGray));
        out.push(l);
        assert(lines_view(out@) =~= before.push(l@));
    } else {
        flush_exec(w, hl, out);
        let body = after_first_text(&raw);
        let l = prefixed_row(" ", Style::plain(), hl, w.after, body, Style::fg(Color::Gray));
        let ghost before = lines_view(out@);
        out.push(l);
        assert(lines_view(out@) =~= before.push(l@));
        w.after = w.after + 1;
    }
}

pub fn file_header(f: &FilePatch) -> (l: Line)
    ensures
        l@ == header_row(*f),
{
    let mut text = match &f.previous_path {
        Some(prev) => match f.status {
            PatchStatus::Renamed | PatchStatus::Copied => {
                let mut t = prev.clone();
                t.append(" → ");
                t.append(f.path.as_str());
                t
            },
            _ => f.path.clone(),
        },
        None => f.path.clone(),
    };
    text.append(" (");
    text.append(f.status.label());
    text.append(")");
    Line::single(text, Style::fg_bold(Color::Cyan))
}

pub fn file_stats(f: &FilePatch) -> (l: Line)
    ensures
        l@ == stats_row(*f),
{
    let mut text = "+".to_owned();
    push_decimal(&mut text, f.additions as u64);
    text.append(" -");
    push_decimal(&mut text, f.deletions as u64);
    Line::single(text, Style::fg(Color::DarkGray))
}

pub fn diff_omitted() -> (l: Line)
    ensures
        l@ == omitted_row(),
{
    Line::single("[diff omitted: file too large or binary]".to_owned(), Style::fg_italic(Color::DarkGray))
}

/// Highlighting for a file's (tab-expanded) patch text.
pub fn file_highlight(path: &str, patch: &str) -> (hl: Option<Vec<Vec<Span>>>)
    ensures
        hl_view(hl) == (if lang_of(path@) == Lang::Plain {
            None
        } else {
            Some(highlight_spec(lang_of(path@), post_image(patch@)))
        }),
{
    let lang = detect(path);
    match lang {
        Lang::Plain => None,
        _ => {
            let after = reconstruct_after(patch);
            Some(highlight(lang, after.as_str()))
        },
    }
}

/// Rows of a patch body whose lines are the tab-expanded lines of `cs`.
fn body_rows_exec(cs: &Vec<char>, hl: &Option<Vec<Vec<Span>>>) -> (rows: Vec<Line>)
    ensures
        lines_view(rows@) == body_rows(lines(cs@).map_values(|l: Seq<char>| expand(l)), hl_view(*hl)),
{
    let bounds = line_bounds(cs);
    let ghost ls = lines(cs@).map_values(|l: Seq<char>| expand(l));
    let mut w = Walker { minus: Vec::new(), plus: Vec::new(), after: 0, plus_start: 0 };
    let mut rows: Vec<Line> = Vec::new();
    assert(walk_view(w, rows@) =~= walk(ls.take(0), hl_view(*hl)));
    let mut k: usize = 0;
    while k < bounds.len()
        invariant
            k <= bounds.len(),
            bounds@.len() == lines(cs@).len(),
            ls == lines(cs@).map_values(|l: Seq<char>| expand(l)),
            forall|q: int| #![trigger bounds[q]] 0 <= q < bounds.len() ==> bounds[q].0 <= bounds[q].1 <= cs.len(),
            forall|q: int|
                0 <= q < bounds.len() ==> #[trigger] cs@.subrange(bounds[q].0 as int, bounds[q].1 as int) == lines(
                    cs@,
                )[q],
            walk_view(w, rows@) == walk(ls.take(k as int), hl_view(*hl)),
            walker_ok(w),
            w.after <= k,
        decreases bounds.len() - k,
    {
        let (a, b) = bounds[k];
        let piece = substring(cs, a, b);
        let raw = expand_tabs(piece.as_str());
        assert(ls.take(k + 1).drop_last() =~= ls.take(k as int));
        assert(ls.take(k + 1).last() == raw@);
        consume_exec(&mut w, raw, hl, &mut rows);
        k = k + 1;
    }
    assert(ls.take(k as int) =~= ls);
    flush_exec(&mut w, hl, &mut rows);
    rows
}

/// Appends the rows of one file.
pub fn render_file(f: &FilePatch, out: &mut Vec<Line>)
    ensures
        lines_view(final(out)@) == lines_view(old(out)@) + file_rows(*f),
{
    let ghost start = lines_view(out@);
    let mut rows: Vec<Line> = Vec::new();
    rows.push(file_header(f));
    rows.push(file_stats(f));
    let ghost head = lines_view(rows@);
    assert(head =~= seq![header_row(*f), stats_row(*f)]);
    let has_text = match &f.patch {
        Some(p) => !p.as_str().is_empty(),
        None => false,
    };
    if has_text {
        let p = match &f.patch {
            Some(p) => p,
            None => return,
        };
        let expanded = expand_tabs(p.as_str());
        let hl = file_highlight(f.path.as_str(), expanded.as_str());
        let cs = to_chars(p.as_str());
        let mut body = body_rows_exec(&cs, &hl);
        let ghost b = lines_view(body@);
        rows.append(&mut body);
        assert(lines_view(rows@) =~= head + b);
    } else {
        let l = diff_omitted();
        rows.push(l);
        assert(lines_view(rows@) =~= head + seq![omitted_row()]);
    }
    let ghost r = lines_view(rows@);
    out.append(&mut rows);
    assert(lines_view(out@) =~= start + r);
}

/// Rows of all files before review threads: a blank row between files.
pub fn render_files(files: &Vec<FilePatch>) -> (out: Vec<Line>)
    ensures
        lines_view(out@) == files_rows(files@, files.len() as int),
{
    let mut out: Vec<Line> = Vec::new();
    let mut i: usize = 0;
    assert(lines_view(out@) =~= files_rows(files@, 0));
    while i < files.len()
        invariant
            i <= files.len(),
            lines_view(out@) == files_rows(files@, i as int),
        decreases files.len() - i,
    {
        if i > 0 {
            let ghost before = lines_view(out@);
            let l = Line::blank();
            out.push(l);
            assert(lines_view(out@) =~= before + seq![Seq::<(Seq<char>, Style)>::empty()]);
        } else {
            assert(lines_view(out@) =~= lines_view(out@) + Seq::<Seq<(Seq<char>, Style)>>::empty());
        }
        render_file(&files[i], &mut out);
        i = i + 1;
    }
    out
}


// ── row counts ──────────────────────────────────────────────────────────

proof fn lemma_pair_rows_len(m: Seq<Seq<char>>, p: Seq<Seq<char>>)
    requires
        m.len() == p.len(),
    ensures
        pair_rows(m, p).len() == 2 * m.len(),
    decreases m.len(),
{
    if m.len() > 0 {
        lemma_pair_rows_len(m.drop_last(), p.drop_last());
    }
}

proof fn lemma_flush_len(w: Walk, hl: Option<Seq<Seq<(Seq<char>, Style)>>>)
    ensures
        flush(w, hl).4.len() == w.4.len() + w.0.len() + w.1.len(),
        flush(w, hl).0.len() == 0,
        flush(w, hl).1.len() == 0,
{
    if w.0.len() > 0 && w.0.len() == w.1.len() {
        lemma_pair_rows_len(w.0, w.1);
    }
}

/// Every patch line ends up as exactly one row.
proof fn lemma_walk_len(ls: Seq<Seq<char>>, hl: Option<Seq<Seq<(Seq<char>, Style)>>>)
    ensures
        walk(ls, hl).4.len() + walk(ls, hl).0.len() + walk(ls, hl).1.len() == ls.len(),
    decreases ls.len(),
{
    if ls.len() > 0 {
        let w = walk(ls.drop_last(), hl);
        lemma_walk_len(ls.drop_last(), hl);
        lemma_flush_len(w, hl);
    }
}

pub proof fn lemma_body_rows_len(ls: Seq<Seq<char>>, hl: Option<Seq<Seq<(Seq<char>, Style)>>>)
    ensures
        body_rows(ls, hl).len() == ls.len(),
{
    lemma_walk_len(ls, hl);
    lemma_flush_len(walk(ls, hl), hl);
}

pub proof fn lemma_file_rows_len(f: FilePatch)
    ensures
        file_rows(f).len() == super::plain_height(f),
        file_rows(f)[0] == header_row(f),
{
    if has_patch_text(f) {
        lemma_body_rows_len(patch_lines(f).map_values(|l: Seq<char>| expand(l)), file_hl(f));
    }
}

pub proof fn lemma_files_rows_len(files: Seq<FilePatch>, n: int)
    requires
        0 <= n <= files.len(),
    ensures
        files_rows(files, n).len() == super::rows_before(files, n),
    decreases n,
{
    if n > 0 {
        lemma_files_rows_len(files, n - 1);
        lemma_file_rows_len(files[n - 1]);
    }
}

/// Each row of the unified view before threads carries exactly one row
/// tag (see [`super::diff_anchors`]): the anchors are rows of this view.
pub proof fn lemma_rows_match_tags(files: Seq<FilePatch>, n: int)
    requires
        0 <= n <= files.len(),
    ensures
        files_rows(files, n).len() == super::drawn_before(files, n, false),
{
    lemma_files_rows_len(files, n);
    super::lemma_drawn_before(files, n);
}

/// The rows of `files[..i]` begin the rows of `files[..n]`.
proof fn lemma_files_rows_prefix(files: Seq<FilePatch>, i: int, n: int, k: int)
    requires
        0 <= i <= n <= files.len(),
        0 <= k < files_rows(files, i).len(),
    ensures
        k < files_rows(files, n).len(),
        files_rows(files, n)[k] == files_rows(files, i)[k],
    decreases n - i,
{
    if i < n {
        lemma_files_rows_prefix(files, i, n - 1, k);
    }
}

/// File `i`'s header is row `rows_before(files, i)` plus its separator.
pub proof fn lemma_header_row_at(files: Seq<FilePatch>, i: int)
    requires
        0 <= i < files.len(),
    ensures
        super::rows_before(files, i) + (if i > 0 { 1int } else { 0 }) < files_rows(
            files,
            files.len() as int,
        ).len(),
        files_rows(files, files.len() as int)[super::rows_before(files, i) + if i > 0 {
            1int
        } else {
            0
        }] == header_row(files[i]),
{
    lemma_files_rows_len(files, i);
    lemma_file_rows_len(files[i]);
    let k = super::rows_before(files, i) + if i > 0 {
        1int
    } else {
        0
    };
    let r = files_rows(files, i + 1);
    assert(r[k] == file_rows(files[i])[0]);
    lemma_files_rows_prefix(files, i + 1, files.len() as int, k);
}

// ── the view ────────────────────────────────────────────────────────────

/// Rows of the unified view: the files' rows, each current thread's
/// pseudo-lines inserted directly below the first row that shows its
/// new-file line of its path (see [`super::diff_anchors`]).
pub open spec fn rendered(files: Seq<FilePatch>, ts: Seq<ReviewThread>) -> Seq<Seq<(Seq<char>, Style)>> {
    let base = files_rows(files, files.len() as int);
    merged(base, pending(super::diff_anchors(files), ts, base.len() as int, ts.len() as int), base.len() as int)
}

/// Renders the unified diff view.
pub fn render(files: &Vec<FilePatch>, threads: &Vec<ReviewThread>) -> (out: Vec<Line>)
    ensures
        lines_view(out@) == rendered(files@, threads@),
{
    let base = render_files(files);
    proof {
        lemma_files_rows_len(files@, files.len() as int);
        assert(lines_view(base@).len() == base@.len());
        assert(base@.len() == base.len());
        assert(files_rows(files@, files.len() as int).len() == super::rows_before(files@, files.len() as int));
        assert(super::rows_before(files@, files.len() as int) <= usize::MAX);
    }
    let anchors = super::collect_anchors(files);
    let plan = plan_inserts(&anchors, threads, base.len());
    apply_inserts(base, &plan)
}

/// The unified view without review threads.
pub fn render_diff(files: &Vec<FilePatch>) -> (out: Vec<Line>)
    ensures
        lines_view(out@) == rendered(files@, Seq::empty()),
{
    let none: Vec<ReviewThread> = Vec::new();
    assert(none@ =~= Seq::<ReviewThread>::empty());
    render(files, &none)
}

} // verus!
