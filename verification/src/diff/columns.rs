//! What the rows of the diff views read as: the `-` rows of the unified
//! view spell the removed lines in patch order, and the right column of
//! the split view spells the new side of the patch.

use vstd::prelude::*;

use super::unified::{
    addition_row, after_first, body_rows, context_row, deletion_row, flush, flush_rows, hunk_row,
    no_newline_row, pair_rows, plus_rows, walk, Walk,
};
use super::split::{SplitRow, SplitWalk};
use super::threads::filler_row;
use super::{is_hunk_header, post_image_line, post_image_lines};
use crate::style::{Color, Line, Style};
use crate::text::has_prefix;
use crate::word::{
    green_bg, lemma_sides_text, minus_spans, new_side, old_side, plus_spans, word_changes,
    word_diff_spells_texts, ChangeKind,
};

verus! {

/// Text that starts with `-`.
pub open spec fn starts_with_minus(t: Seq<char>) -> bool {
    t.len() > 0 && t[0] == '-'
}

/// The `-` lines of `ls`, in order.
pub open spec fn removed_lines(ls: Seq<Seq<char>>) -> Seq<Seq<char>>
    decreases ls.len(),
{
    if ls.len() == 0 {
        Seq::empty()
    } else {
        removed_lines(ls.drop_last()) + if starts_with_minus(ls.last()) {
            seq![ls.last()]
        } else {
            Seq::empty()
        }
    }
}

/// The texts of the rows that start with `-`, in order.
pub open spec fn minus_row_texts(rows: Seq<Seq<(Seq<char>, Style)>>) -> Seq<Seq<char>>
    decreases rows.len(),
{
    if rows.len() == 0 {
        Seq::empty()
    } else {
        let t = Line::text_spec(rows.last());
        minus_row_texts(rows.drop_last()) + if starts_with_minus(t) {
            seq![t]
        } else {
            Seq::empty()
        }
    }
}

// ── row texts ───────────────────────────────────────────────────────────

pub proof fn lemma_text_concat(a: Seq<(Seq<char>, Style)>, b: Seq<(Seq<char>, Style)>)
    ensures
        Line::text_spec(a + b) == Line::text_spec(a) + Line::text_spec(b),
    decreases b.len(),
{
    if b.len() == 0 {
        assert(a + b =~= a);
        assert(Line::text_spec(a) + Line::text_spec(b) =~= Line::text_spec(a));
    } else {
        lemma_text_concat(a, b.drop_last());
        assert((a + b).drop_last() =~= a + b.drop_last());
        assert(Line::text_spec(a + b) =~= Line::text_spec(a) + Line::text_spec(b));
    }
}

/// A row that opens with span `x` reads as `x`'s text, then the rest.
pub proof fn lemma_text_lead(x: (Seq<char>, Style), rest: Seq<(Seq<char>, Style)>)
    ensures
        Line::text_spec(seq![x] + rest) == x.0 + Line::text_spec(rest),
        x.0.len() > 0 ==> Line::text_spec(seq![x] + rest).len() > 0 && Line::text_spec(seq![x] + rest)[0]
            == x.0[0],
{
    lemma_text_concat(seq![x], rest);
    assert(seq![x].drop_last() =~= Seq::<(Seq<char>, Style)>::empty());
    assert(Line::text_spec(seq![x]) == Line::text_spec(seq![x].drop_last()) + x.0);
    assert(Line::text_spec(Seq::<(Seq<char>, Style)>::empty()) =~= Seq::<char>::empty());
    assert(Line::text_spec(seq![x]) =~= x.0);
}

proof fn lemma_minus_texts_concat(a: Seq<Seq<(Seq<char>, Style)>>, b: Seq<Seq<(Seq<char>, Style)>>)
    ensures
        minus_row_texts(a + b) == minus_row_texts(a) + minus_row_texts(b),
    decreases b.len(),
{
    if b.len() == 0 {
        assert(a + b =~= a);
        assert(minus_row_texts(a) + minus_row_texts(b) =~= minus_row_texts(a));
    } else {
        lemma_minus_texts_concat(a, b.drop_last());
        assert((a + b).drop_last() =~= a + b.drop_last());
        assert(minus_row_texts(a + b) =~= minus_row_texts(a) + minus_row_texts(b));
    }
}

proof fn lemma_minus_texts_none(rows: Seq<Seq<(Seq<char>, Style)>>)
    requires
        forall|i: int| 0 <= i < rows.len() ==> !starts_with_minus(Line::text_spec(#[trigger] rows[i])),
    ensures
        minus_row_texts(rows) == Seq::<Seq<char>>::empty(),
    decreases rows.len(),
{
    if rows.len() > 0 {
        lemma_minus_texts_none(rows.drop_last());
        assert(!starts_with_minus(Line::text_spec(rows[rows.len() - 1])));
    }
}

/// The rows of an unbalanced run: whole-line red `-` rows, then `+` rows.
proof fn lemma_minus_texts_deletions(m: Seq<Seq<char>>)
    requires
        forall|i: int| 0 <= i < m.len() ==> starts_with_minus(#[trigger] m[i]),
    ensures
        minus_row_texts(m.map_values(|r: Seq<char>| deletion_row(r))) == m,
    decreases m.len(),
{
    if m.len() > 0 {
        let pre = m.drop_last();
        lemma_minus_texts_deletions(pre);
        let rows = m.map_values(|r: Seq<char>| deletion_row(r));
        assert(rows.drop_last() =~= pre.map_values(|r: Seq<char>| deletion_row(r)));
        let last = m[m.len() - 1];
        lemma_text_lead((last, Style::fg_spec(crate::style::Color::Red)), Seq::empty());
        assert(seq![(last, Style::fg_spec(crate::style::Color::Red))] + Seq::<(Seq<char>, Style)>::empty()
            =~= deletion_row(last));
        assert(Line::text_spec(Seq::<(Seq<char>, Style)>::empty()) =~= Seq::<char>::empty());
        assert(Line::text_spec(rows.last()) =~= last);
        assert(minus_row_texts(rows) =~= m);
    }
}

proof fn lemma_minus_texts_additions(p: Seq<Seq<char>>, hl: Option<Seq<Seq<(Seq<char>, Style)>>>, start: int)
    ensures
        minus_row_texts(plus_rows(p, hl, start)) == Seq::<Seq<char>>::empty(),
{
    let rows = plus_rows(p, hl, start);
    assert forall|i: int| 0 <= i < rows.len() implies !starts_with_minus(
        Line::text_spec(#[trigger] rows[i]),
    ) by {
        let rest = match super::unified::hl_at(hl, start + i) {
            Some(r) => r,
            None => seq![(after_first(p[i]), Style::fg_spec(crate::style::Color::Green))],
        };
        assert(rows[i] == addition_row(p[i], hl, start + i));
        assert(addition_row(p[i], hl, start + i) == seq![("+"@, Style::fg_spec(crate::style::Color::Green))]
            + rest);
        reveal_strlit("+");
        lemma_text_lead(("+"@, Style::fg_spec(crate::style::Color::Green)), rest);
    }
    lemma_minus_texts_none(rows);
}

/// The rows of a balanced run: each pair's `-` row reads as its `-` line.
proof fn lemma_minus_texts_pairs(m: Seq<Seq<char>>, p: Seq<Seq<char>>)
    requires
        m.len() == p.len(),
        forall|i: int| 0 <= i < m.len() ==> starts_with_minus(#[trigger] m[i]),
        word_diff_spells_texts(),
    ensures
        minus_row_texts(pair_rows(m, p)) == m,
    decreases m.len(),
{
    if m.len() > 0 {
        lemma_minus_texts_pairs(m.drop_last(), p.drop_last());
        let last = m.last();
        let cs = word_changes(after_first(last), after_first(p.last()));
        let red = Style::fg_spec(crate::style::Color::Red);
        let green = Style::fg_spec(crate::style::Color::Green);
        let r1 = seq![("-"@, red)] + minus_spans(cs);
        let r2 = seq![("+"@, green)] + crate::word::plus_spans(cs);
        let two = seq![r1, r2];
        assert(pair_rows(m, p) == pair_rows(m.drop_last(), p.drop_last()) + two);
        lemma_minus_texts_concat(pair_rows(m.drop_last(), p.drop_last()), two);
        reveal_strlit("-");
        reveal_strlit("+");
        lemma_sides_text(cs);
        lemma_text_lead(("-"@, red), minus_spans(cs));
        lemma_text_lead(("+"@, green), crate::word::plus_spans(cs));
        assert(old_side(cs) == after_first(last));
        assert(last[0] == '-');
        assert(after_first(last) == last.drop_first());
        assert(Line::text_spec(r1) =~= last);
        assert(two.drop_last() =~= seq![r1]);
        assert(seq![r1].drop_last() =~= Seq::<Seq<(Seq<char>, Style)>>::empty());
        assert(minus_row_texts(Seq::<Seq<(Seq<char>, Style)>>::empty()) =~= Seq::<Seq<char>>::empty());
        assert(minus_row_texts(seq![r1]) == minus_row_texts(seq![r1].drop_last()) + seq![Line::text_spec(r1)]);
        assert(minus_row_texts(seq![r1]) =~= seq![last]);
        assert(!starts_with_minus(Line::text_spec(r2)));
        assert(minus_row_texts(two) == minus_row_texts(two.drop_last()) + Seq::<Seq<char>>::empty());
        assert(minus_row_texts(two) =~= seq![last]);
        assert(minus_row_texts(pair_rows(m, p)) =~= m);
    }
}

proof fn lemma_minus_texts_flush(w: Walk, hl: Option<Seq<Seq<(Seq<char>, Style)>>>)
    requires
        forall|i: int| 0 <= i < w.0.len() ==> starts_with_minus(#[trigger] w.0[i]),
        word_diff_spells_texts(),
    ensures
        minus_row_texts(flush(w, hl).4) == minus_row_texts(w.4) + w.0,
{
    lemma_minus_texts_concat(w.4, flush_rows(w, hl));
    if w.0.len() > 0 && w.0.len() == w.1.len() {
        lemma_minus_texts_pairs(w.0, w.1);
    } else {
        let d = w.0.map_values(|r: Seq<char>| deletion_row(r));
        lemma_minus_texts_concat(d, plus_rows(w.1, hl, w.3));
        lemma_minus_texts_deletions(w.0);
        lemma_minus_texts_additions(w.1, hl, w.3);
        assert(minus_row_texts(flush_rows(w, hl)) =~= w.0);
    }
}

proof fn lemma_minus_texts_walk(ls: Seq<Seq<char>>, hl: Option<Seq<Seq<(Seq<char>, Style)>>>)
    requires
        word_diff_spells_texts(),
    ensures
        forall|i: int| 0 <= i < walk(ls, hl).0.len() ==> starts_with_minus(#[trigger] walk(ls, hl).0[i]),
        minus_row_texts(walk(ls, hl).4) + walk(ls, hl).0 == removed_lines(ls),
    decreases ls.len(),
{
    if ls.len() == 0 {
        assert(minus_row_texts(walk(ls, hl).4) + walk(ls, hl).0 =~= removed_lines(ls));
    } else {
        let pre = ls.drop_last();
        let raw = ls.last();
        lemma_minus_texts_walk(pre, hl);
        let w = walk(pre, hl);
        let f = flush(w, hl);
        lemma_minus_texts_flush(w, hl);
        reveal_strlit("@@");
        reveal_strlit(" ");
        if has_prefix(raw, "@@"@) {
            assert(raw.take(2)[0] == '@');
            let row = hunk_row(raw);
            lemma_text_lead((raw, Style::fg_spec(crate::style::Color::Blue)), Seq::empty());
            assert(seq![(raw, Style::fg_spec(crate::style::Color::Blue))] + Seq::<(Seq<char>, Style)>::empty()
                =~= row);
            lemma_minus_texts_concat(f.4, seq![row]);
            assert(seq![row].drop_last() =~= Seq::<Seq<(Seq<char>, Style)>>::empty());
            assert(Line::text_spec(Seq::<(Seq<char>, Style)>::empty()) =~= Seq::<char>::empty());
            assert(Line::text_spec(row) =~= raw);
            assert(!starts_with_minus(Line::text_spec(row)));
            assert(minus_row_texts(seq![row]) == minus_row_texts(seq![row].drop_last()) + Seq::<Seq<char>>::empty());
            assert(minus_row_texts(seq![row]) =~= Seq::<Seq<char>>::empty());
            assert(f.4.push(row) =~= f.4 + seq![row]);
            assert(minus_row_texts(walk(ls, hl).4) + walk(ls, hl).0 =~= removed_lines(ls));
        } else if raw.len() > 0 && raw[0] == '+' {
            assert(minus_row_texts(walk(ls, hl).4) + walk(ls, hl).0 =~= removed_lines(ls));
        } else if raw.len() > 0 && raw[0] == '-' {
            assert(minus_row_texts(walk(ls, hl).4) + walk(ls, hl).0 =~= removed_lines(ls));
        } else if raw.len() > 0 && raw[0] == '\\' {
            let row = no_newline_row(raw);
            lemma_text_lead((raw, Style::fg_italic_spec(crate::style::Color::DarkGray)), Seq::empty());
            assert(seq![(raw, Style::fg_italic_spec(crate::style::Color::DarkGray))] + Seq::<
                (Seq<char>, Style),
            >::empty() =~= row);
            lemma_minus_texts_concat(f.4, seq![row]);
            assert(seq![row].drop_last() =~= Seq::<Seq<(Seq<char>, Style)>>::empty());
            assert(Line::text_spec(Seq::<(Seq<char>, Style)>::empty()) =~= Seq::<char>::empty());
            assert(Line::text_spec(row) =~= raw);
            assert(!starts_with_minus(Line::text_spec(row)));
            assert(minus_row_texts(seq![row]) == minus_row_texts(seq![row].drop_last()) + Seq::<Seq<char>>::empty());
            assert(minus_row_texts(seq![row]) =~= Seq::<Seq<char>>::empty());
            assert(f.4.push(row) =~= f.4 + seq![row]);
            assert(minus_row_texts(walk(ls, hl).4) + walk(ls, hl).0 =~= removed_lines(ls));
        } else {
            let row = context_row(raw, hl, f.2);
            let rest = match super::unified::hl_at(hl, f.2) {
                Some(r) => r,
                None => seq![(after_first(raw), Style::fg_spec(crate::style::Color::Gray))],
            };
            assert(row == seq![(" "@, Style::plain_spec())] + rest);
            lemma_text_lead((" "@, Style::plain_spec()), rest);
            lemma_minus_texts_concat(f.4, seq![row]);
            assert(seq![row].drop_last() =~= Seq::<Seq<(Seq<char>, Style)>>::empty());
            assert(Line::text_spec(Seq::<(Seq<char>, Style)>::empty()) =~= Seq::<char>::empty());
            assert(!starts_with_minus(Line::text_spec(row)));
            assert(minus_row_texts(seq![row]) == minus_row_texts(seq![row].drop_last()) + Seq::<Seq<char>>::empty());
            assert(minus_row_texts(seq![row]) =~= Seq::<Seq<char>>::empty());
            assert(f.4.push(row) =~= f.4 + seq![row]);
            assert(minus_row_texts(walk(ls, hl).4) + walk(ls, hl).0 =~= removed_lines(ls));
        }
    }
}

/// The unified rows of a patch body, read top to bottom, show its `-`
/// lines in patch order: keeping the rows whose text starts with `-`
/// leaves exactly the patch's `-` lines, one row each, in the order they
/// come in the patch. So the `k`-th deletion row of a change block reads
/// as the `k`-th `-` line of that block, whether the block is shown whole
/// line by line or pair by pair with word-level spans.
pub proof fn law_unified_deletions_in_patch_order(
    ls: Seq<Seq<char>>,
    hl: Option<Seq<Seq<(Seq<char>, Style)>>>,
)
    requires
        word_diff_spells_texts(),
    ensures
        minus_row_texts(body_rows(ls, hl)) == removed_lines(ls),
{
    lemma_minus_texts_walk(ls, hl);
    lemma_minus_texts_flush(walk(ls, hl), hl);
}

// ── the right column of the split view ──────────────────────────────────

/// A row whose right side is the filler opposite a removed line.
pub open spec fn opposite_removed(r: SplitRow) -> bool {
    r.1 == filler_row() && r.0 != filler_row()
}

/// The texts of the right sides of `rows`, top to bottom, skipping the
/// fillers opposite removed lines.
pub open spec fn right_column(rows: Seq<SplitRow>) -> Seq<Seq<char>>
    decreases rows.len(),
{
    if rows.len() == 0 {
        Seq::empty()
    } else {
        right_column(rows.drop_last()) + if opposite_removed(rows.last()) {
            Seq::empty()
        } else {
            seq![Line::text_spec(rows.last().1)]
        }
    }
}

/// The new side of patch lines: hunk headers and no-newline markers as
/// they are, added and context lines without their prefix; removed lines
/// leave nothing.
pub open spec fn new_side_lines(ls: Seq<Seq<char>>) -> Seq<Seq<char>>
    decreases ls.len(),
{
    if ls.len() == 0 {
        Seq::empty()
    } else {
        let raw = ls.last();
        new_side_lines(ls.drop_last()) + if is_hunk_header(raw) || (raw.len() > 0 && raw[0] == '\\') {
            seq![raw]
        } else {
            match post_image_line(raw) {
                Some(b) => seq![b],
                None => Seq::empty(),
            }
        }
    }
}

/// Every line is a hunk header, empty, or opens with `+`, `-`, a space or
/// `\`, as the lines of a unified diff do.
pub open spec fn well_formed_patch(ls: Seq<Seq<char>>) -> bool {
    forall|i: int|
        0 <= i < ls.len() ==> is_hunk_header(#[trigger] ls[i]) || ls[i].len() == 0 || ls[i][0] == '+'
            || ls[i][0] == '-' || ls[i][0] == ' ' || ls[i][0] == '\\'
}

/// The post-image lines of the whole patch.
pub open spec fn post_lines(ls: Seq<Seq<char>>) -> Seq<Seq<char>> {
    post_image_lines(ls, ls.len() as int)
}

/// Each highlighted row reads as the post-image line it stands for.
pub open spec fn highlight_reads_as(hl: Option<Seq<Seq<(Seq<char>, Style)>>>, pl: Seq<Seq<char>>) -> bool {
    match hl {
        Some(h) => forall|k: int| 0 <= k < h.len() && k < pl.len() ==> Line::text_spec(#[trigger] h[k]) == pl[k],
        None => true,
    }
}

proof fn lemma_post_lines_same(a: Seq<Seq<char>>, b: Seq<Seq<char>>, k: int)
    requires
        0 <= k <= a.len(),
        k <= b.len(),
        forall|i: int| 0 <= i < k ==> a[i] == b[i],
    ensures
        post_image_lines(a, k) == post_image_lines(b, k),
    decreases k,
{
    if k > 0 {
        lemma_post_lines_same(a, b, k - 1);
    }
}

proof fn lemma_post_lines_step(ls: Seq<Seq<char>>)
    requires
        ls.len() > 0,
    ensures
        post_lines(ls) == match post_image_line(ls.last()) {
            Some(b) => post_lines(ls.drop_last()).push(b),
            None => post_lines(ls.drop_last()),
        },
{
    lemma_post_lines_same(ls, ls.drop_last(), ls.len() - 1);
}

proof fn lemma_right_concat(a: Seq<SplitRow>, b: Seq<SplitRow>)
    ensures
        right_column(a + b) == right_column(a) + right_column(b),
    decreases b.len(),
{
    if b.len() == 0 {
        assert(a + b =~= a);
        assert(right_column(a) + right_column(b) =~= right_column(a));
    } else {
        lemma_right_concat(a, b.drop_last());
        assert((a + b).drop_last() =~= a + b.drop_last());
        assert(right_column(a + b) =~= right_column(a) + right_column(b));
    }
}

proof fn lemma_right_push(a: Seq<SplitRow>, r: SplitRow)
    ensures
        right_column(a.push(r)) == right_column(a) + if opposite_removed(r) {
            Seq::<Seq<char>>::empty()
        } else {
            seq![Line::text_spec(r.1)]
        },
{
    assert(a.push(r).drop_last() =~= a);
}

proof fn lemma_single_text(x: (Seq<char>, Style))
    ensures
        Line::text_spec(seq![x]) == x.0,
{
    lemma_text_lead(x, Seq::empty());
    assert(seq![x] + Seq::<(Seq<char>, Style)>::empty() =~= seq![x]);
    assert(Line::text_spec(Seq::<(Seq<char>, Style)>::empty()) =~= Seq::<char>::empty());
    assert(x.0 + Seq::<char>::empty() =~= x.0);
}

/// No span of the `+` side is italic, so it never reads as a filler.
proof fn lemma_plus_spans_upright(cs: Seq<(ChangeKind, Seq<char>)>)
    ensures
        forall|i: int| 0 <= i < plus_spans(cs).len() ==> !(#[trigger] plus_spans(cs)[i]).1.italic,
    decreases cs.len(),
{
    if cs.len() > 0 {
        lemma_plus_spans_upright(cs.drop_last());
    }
}

proof fn lemma_right_pairs(m: Seq<Seq<char>>, p: Seq<Seq<char>>)
    requires
        m.len() == p.len(),
        word_diff_spells_texts(),
    ensures
        right_column(super::split::pair_rows(m, p)) == p.map_values(|r: Seq<char>| after_first(r)),
    decreases m.len(),
{
    if m.len() > 0 {
        lemma_right_pairs(m.drop_last(), p.drop_last());
        let cs = word_changes(after_first(m.last()), after_first(p.last()));
        let row = (minus_spans(cs), plus_spans(cs));
        lemma_right_push(super::split::pair_rows(m.drop_last(), p.drop_last()), row);
        lemma_plus_spans_upright(cs);
        if plus_spans(cs) == filler_row() {
            assert(plus_spans(cs)[0].1.italic);
        }
        lemma_sides_text(cs);
        assert(new_side(cs) == after_first(p.last()));
        assert(p.map_values(|r: Seq<char>| after_first(r)) =~= p.drop_last().map_values(
            |r: Seq<char>| after_first(r),
        ).push(after_first(p.last())));
    }
}

proof fn lemma_right_minus_rows(m: Seq<Seq<char>>)
    ensures
        right_column(super::split::minus_rows(m)) == Seq::<Seq<char>>::empty(),
    decreases m.len(),
{
    if m.len() > 0 {
        lemma_right_minus_rows(m.drop_last());
        let rows = super::split::minus_rows(m);
        assert(rows.drop_last() =~= super::split::minus_rows(m.drop_last()));
        let r = rows.last();
        assert(r == (seq![(after_first(m.last()), Style::fg_spec(Color::Red))], filler_row()));
        assert(r.0[0].1 != filler_row()[0].1);
        assert(opposite_removed(r));
    }
}

/// The `+` rows at post-image positions `start..`: each right side reads as
/// its line without the prefix.
proof fn lemma_right_plus_rows(
    p: Seq<Seq<char>>,
    hl: Option<Seq<Seq<(Seq<char>, Style)>>>,
    start: int,
    pl: Seq<Seq<char>>,
)
    requires
        0 <= start,
        start + p.len() <= pl.len(),
        forall|i: int| 0 <= i < p.len() ==> pl[start + i] == after_first(#[trigger] p[i]),
        highlight_reads_as(hl, pl),
    ensures
        right_column(super::split::plus_rows(p, hl, start)) == p.map_values(|r: Seq<char>| after_first(r)),
    decreases p.len(),
{
    if p.len() > 0 {
        let pre = p.drop_last();
        assert forall|i: int| 0 <= i < pre.len() implies pl[start + i] == after_first(#[trigger] pre[i]) by {
            assert(pre[i] == p[i]);
        }
        lemma_right_plus_rows(pre, hl, start, pl);
        let rows = super::split::plus_rows(p, hl, start);
        assert(rows.drop_last() =~= super::split::plus_rows(pre, hl, start));
        let n = p.len() - 1;
        let r = rows.last();
        assert(r == (filler_row(), super::split::hl_or(hl, start + n, after_first(p[n]), Style::fg_spec(Color::Green))));
        assert(!opposite_removed(r));
        assert(pl[start + n] == after_first(p[n]));
        match super::unified::hl_at(hl, start + n) {
            Some(h) => {
                assert(Line::text_spec(r.1) == pl[start + n]);
            },
            None => {
                lemma_single_text((after_first(p[n]), Style::fg_spec(Color::Green)));
            },
        }
        assert(rows =~= rows.drop_last().push(r));
        lemma_right_push(rows.drop_last(), r);
        assert(p.map_values(|r: Seq<char>| after_first(r)) =~= pre.map_values(|r: Seq<char>| after_first(r)).push(
            after_first(p[n]),
        ));
    }
}

/// The pending run of a split walk sits at its post-image positions.
pub open spec fn run_placed(w: SplitWalk, pl: Seq<Seq<char>>) -> bool {
    &&& forall|i: int| 0 <= i < w.0.len() ==> starts_with_minus(#[trigger] w.0[i])
    &&& forall|i: int| 0 <= i < w.1.len() ==> (#[trigger] w.1[i]).len() > 0 && w.1[i][0] == '+'
    &&& w.1.len() > 0 ==> 0 <= w.3 && w.3 + w.1.len() == w.2
    &&& forall|i: int| 0 <= i < w.1.len() ==> w.3 + i < pl.len() && pl[w.3 + i] == after_first(#[trigger] w.1[i])
}

proof fn lemma_right_flush(w: SplitWalk, hl: Option<Seq<Seq<(Seq<char>, Style)>>>, pl: Seq<Seq<char>>)
    requires
        run_placed(w, pl),
        highlight_reads_as(hl, pl),
        word_diff_spells_texts(),
    ensures
        right_column(super::split::flush(w, hl).4) == right_column(w.4) + w.1.map_values(
            |r: Seq<char>| after_first(r),
        ),
{
    lemma_right_concat(w.4, super::split::flush_rows(w, hl));
    if w.0.len() > 0 && w.0.len() == w.1.len() {
        lemma_right_pairs(w.0, w.1);
    } else {
        lemma_right_concat(super::split::minus_rows(w.0), super::split::plus_rows(w.1, hl, w.3));
        lemma_right_minus_rows(w.0);
        if w.1.len() > 0 {
            lemma_right_plus_rows(w.1, hl, w.3, pl);
        } else {
            assert(super::split::plus_rows(w.1, hl, w.3) =~= Seq::<SplitRow>::empty());
            assert(w.1.map_values(|r: Seq<char>| after_first(r)) =~= Seq::<Seq<char>>::empty());
        }
        assert(right_column(super::split::flush_rows(w, hl)) =~= w.1.map_values(|r: Seq<char>| after_first(r)));
    }
}

proof fn lemma_right_walk(
    ls: Seq<Seq<char>>,
    hl: Option<Seq<Seq<(Seq<char>, Style)>>>,
    pl: Seq<Seq<char>>,
)
    requires
        well_formed_patch(ls),
        post_lines(ls).len() <= pl.len(),
        forall|k: int| 0 <= k < post_lines(ls).len() ==> pl[k] == #[trigger] post_lines(ls)[k],
        highlight_reads_as(hl, pl),
        word_diff_spells_texts(),
    ensures
        super::split::walk(ls, hl).2 == post_lines(ls).len(),
        run_placed(super::split::walk(ls, hl), pl),
        right_column(super::split::walk(ls, hl).4) + super::split::walk(ls, hl).1.map_values(
            |r: Seq<char>| after_first(r),
        ) == new_side_lines(ls),
    decreases ls.len(),
{
    let w1 = super::split::walk(ls, hl);
    if ls.len() == 0 {
        assert(w1.1.map_values(|r: Seq<char>| after_first(r)) =~= Seq::<Seq<char>>::empty());
        assert(right_column(w1.4) + w1.1.map_values(|r: Seq<char>| after_first(r)) =~= new_side_lines(ls));
    } else {
        let pre = ls.drop_last();
        let raw = ls.last();
        assert(raw == ls[ls.len() - 1]);
        lemma_post_lines_step(ls);
        assert(well_formed_patch(pre)) by {
            assert forall|i: int| 0 <= i < pre.len() implies is_hunk_header(#[trigger] pre[i]) || pre[i].len()
                == 0 || pre[i][0] == '+' || pre[i][0] == '-' || pre[i][0] == ' ' || pre[i][0] == '\\' by {
                assert(pre[i] == ls[i]);
            }
        }
        assert forall|k: int| 0 <= k < post_lines(pre).len() implies pl[k] == #[trigger] post_lines(pre)[k] by {
            assert(post_lines(ls)[k] == post_lines(pre)[k]);
        }
        lemma_right_walk(pre, hl, pl);
        let w = super::split::walk(pre, hl);
        let f = super::split::flush(w, hl);
        lemma_right_flush(w, hl, pl);
        reveal_strlit("@@");
        let amap = |r: Seq<char>| after_first(r);
        assert("@@"@ =~= seq!['@', '@']);
        assert(is_hunk_header(raw) == crate::text::has_prefix(raw, "@@"@));
        if crate::text::has_prefix(raw, "@@"@) {
            assert(raw.take(2)[0] == '@');
            assert(post_image_line(raw) is None);
            let row = super::split::same(super::unified::hunk_row(raw));
            lemma_single_text((raw, Style::fg_spec(Color::Blue)));
            assert(!opposite_removed(row));
            lemma_right_push(f.4, row);
            assert(f.1 =~= Seq::<Seq<char>>::empty());
            assert(w1.1.map_values(amap) =~= Seq::<Seq<char>>::empty());
            assert(right_column(w1.4) + w1.1.map_values(amap) =~= new_side_lines(ls));
        } else if raw.len() > 0 && raw[0] == '+' {
            assert(post_image_line(raw) == Some(raw.drop_first()));
            assert(after_first(raw) == raw.drop_first());
            assert(w1.1 == w.1.push(raw));
            assert(w1.1.map_values(amap) =~= w.1.map_values(amap).push(after_first(raw)));
            assert forall|i: int| 0 <= i < w1.1.len() implies w1.3 + i < pl.len() && pl[w1.3 + i] == after_first(
                #[trigger] w1.1[i],
            ) by {
                if i < w.1.len() {
                    assert(w1.1[i] == w.1[i]);
                } else {
                    assert(w1.3 + i == post_lines(pre).len());
                    assert(post_lines(ls)[post_lines(pre).len() as int] == raw.drop_first());
                }
            }
            assert(right_column(w1.4) + w1.1.map_values(amap) =~= new_side_lines(ls));
        } else if raw.len() > 0 && raw[0] == '-' {
            assert(post_image_line(raw) is None);
            if w.1.len() > 0 {
                assert(f.1 =~= Seq::<Seq<char>>::empty());
                assert(f.1.map_values(amap) =~= Seq::<Seq<char>>::empty());
            }
            assert forall|i: int| 0 <= i < w1.0.len() implies starts_with_minus(#[trigger] w1.0[i]) by {
                if i < w1.0.len() - 1 {
                    if w.1.len() > 0 {
                        assert(false);
                    }
                    assert(w1.0[i] == w.0[i]);
                }
            }
            assert(right_column(w1.4) + w1.1.map_values(amap) =~= new_side_lines(ls));
        } else if raw.len() > 0 && raw[0] == '\\' {
            assert(post_image_line(raw) is None);
            let row = super::split::same(super::unified::no_newline_row(raw));
            lemma_single_text((raw, Style::fg_italic_spec(Color::DarkGray)));
            assert(!opposite_removed(row));
            lemma_right_push(f.4, row);
            assert(f.1 =~= Seq::<Seq<char>>::empty());
            assert(w1.1.map_values(amap) =~= Seq::<Seq<char>>::empty());
            assert(right_column(w1.4) + w1.1.map_values(amap) =~= new_side_lines(ls));
        } else {
            assert(raw.len() == 0 || raw[0] == ' ');
            assert(post_image_line(raw) == Some(after_first(raw)));
            let body = super::split::hl_or(hl, f.2, after_first(raw), Style::fg_spec(Color::Gray));
            let row = super::split::same(body);
            assert(!opposite_removed(row));
            lemma_right_push(f.4, row);
            assert(f.2 == post_lines(pre).len());
            assert(post_lines(ls)[f.2] == after_first(raw));
            match super::unified::hl_at(hl, f.2) {
                Some(h) => {
                    assert(Line::text_spec(body) == pl[f.2]);
                },
                None => {
                    lemma_single_text((after_first(raw), Style::fg_spec(Color::Gray)));
                },
            }
            assert(f.1 =~= Seq::<Seq<char>>::empty());
            assert(w1.1.map_values(amap) =~= Seq::<Seq<char>>::empty());
            assert(right_column(w1.4) + w1.1.map_values(amap) =~= new_side_lines(ls));
        }
    }
}

/// The right column of the split view, read top to bottom and skipping the
/// fillers opposite removed lines, is the new side of the patch: hunk
/// headers and no-newline markers as they are, and each added or context
/// line without its one-character prefix, in patch order. So the right
/// side of every context row and of every unpaired added row reads as its
/// patch line: the post-image position it is highlighted at keeps counting
/// across hunk headers. This holds for a well-formed patch body and for a
/// highlighting whose rows read as the post-image lines (or none).
pub proof fn law_split_right_column_is_new_side(
    ls: Seq<Seq<char>>,
    hl: Option<Seq<Seq<(Seq<char>, Style)>>>,
)
    requires
        well_formed_patch(ls),
        highlight_reads_as(hl, post_lines(ls)),
        word_diff_spells_texts(),
    ensures
        right_column(super::split::flush(super::split::walk(ls, hl), hl).4) == new_side_lines(ls),
{
    lemma_right_walk(ls, hl, post_lines(ls));
    lemma_right_flush(super::split::walk(ls, hl), hl, post_lines(ls));
}

} // verus!
