//! Word-level highlighting of a paired `-` / `+` line.
//!
//! The two texts are diffed word by word; words both sides share keep the
//! line's colour, changed words get a bold white-on-dark background.

use vstd::prelude::*;

use crate::style::{spans_view, Color, Line, Span, Style};

verus! {

#[derive(Debug, Clone, Copy, PartialEq, Eq)]
pub enum ChangeKind {
    Equal,
    Delete,
    Insert,
}

/// The changes `similar::TextDiff::from_words(old, new)` lists (Myers
/// diff over words and whitespace runs, no deadline), in order.
pub uninterp spec fn word_changes(old: Seq<char>, new: Seq<char>) -> Seq<(ChangeKind, Seq<char>)>;

pub open spec fn changes_view(v: Seq<(ChangeKind, String)>) -> Seq<(ChangeKind, Seq<char>)> {
    v.map_values(|c: (ChangeKind, String)| (c.0, c.1@))
}

/// The text of the changes present on the old side (equal and deleted).
pub open spec fn old_side(cs: Seq<(ChangeKind, Seq<char>)>) -> Seq<char>
    decreases cs.len(),
{
    if cs.len() == 0 {
        Seq::empty()
    } else {
        old_side(cs.drop_last()) + if cs.last().0 != ChangeKind::Insert {
            cs.last().1
        } else {
            Seq::empty()
        }
    }
}

/// The text of the changes present on the new side (equal and inserted).
pub open spec fn new_side(cs: Seq<(ChangeKind, Seq<char>)>) -> Seq<char>
    decreases cs.len(),
{
    if cs.len() == 0 {
        Seq::empty()
    } else {
        new_side(cs.drop_last()) + if cs.last().0 != ChangeKind::Delete {
            cs.last().1
        } else {
            Seq::empty()
        }
    }
}

/// Lists `similar::TextDiff::from_words(old, new).iter_all_changes()` as
/// `(tag, value)` pairs. The diff itself is named; the contract states
/// what similar's source shows of it: every token of `old` appears once,
/// in order, as an equal or deleted change, and every token of `new` as an
/// equal or inserted one, the tokens together spelling out the texts; no
/// token is empty (each holds at least one character); and identical texts
/// give only equal changes (Myers' diff takes the common prefix first).
#[verifier::external_body]
fn word_diff(old: &str, new: &str) -> (r: Vec<(ChangeKind, String)>)
    ensures
        changes_view(r@) == word_changes(old@, new@),
        old_side(changes_view(r@)) == old@,
        new_side(changes_view(r@)) == new@,
        forall|k: int| 0 <= k < r@.len() ==> (#[trigger] changes_view(r@)[k]).1.len() > 0,
        old@ == new@ ==> forall|k: int| 0 <= k < r@.len() ==> (#[trigger] changes_view(r@)[k]).0
            == ChangeKind::Equal,
{
    similar::TextDiff::from_words(old, new).iter_all_changes().map(|c| (match c.tag() {
        similar::ChangeTag::Equal => ChangeKind::Equal,
        similar::ChangeTag::Delete => ChangeKind::Delete,
        similar::ChangeTag::Insert => ChangeKind::Insert,
    }, c.value().to_string())).collect()
}

/// The word diff of any two texts spells them out: its old side is the
/// old text and its new side the new text, as [`word_diff`] states of
/// every result it returns.
pub open spec fn word_diff_spells_texts() -> bool {
    forall|a: Seq<char>, b: Seq<char>|
        old_side(#[trigger] word_changes(a, b)) == a && new_side(word_changes(a, b)) == b
}

/// Bold white on dark red: a deleted word.
pub open spec fn red_bg() -> Style {
    Style { fg: Some(Color::White), bg: Some(Color::Rgb(96, 0, 0)), bold: true, ..Style::plain_spec() }
}

/// Bold white on dark green: an inserted word.
pub open spec fn green_bg() -> Style {
    Style { fg: Some(Color::White), bg: Some(Color::Rgb(0, 96, 0)), bold: true, ..Style::plain_spec() }
}

/// Spans of the `-` side: equal words red, deleted words on red.
pub open spec fn minus_spans(cs: Seq<(ChangeKind, Seq<char>)>) -> Seq<(Seq<char>, Style)>
    decreases cs.len(),
{
    if cs.len() == 0 {
        Seq::empty()
    } else {
        let head = minus_spans(cs.drop_last());
        let c = cs.last();
        match c.0 {
            ChangeKind::Equal => head.push((c.1, Style::fg_spec(Color::Red))),
            ChangeKind::Delete => head.push((c.1, red_bg())),
            ChangeKind::Insert => head,
        }
    }
}

/// Spans of the `+` side: equal words green, inserted words on green.
pub open spec fn plus_spans(cs: Seq<(ChangeKind, Seq<char>)>) -> Seq<(Seq<char>, Style)>
    decreases cs.len(),
{
    if cs.len() == 0 {
        Seq::empty()
    } else {
        let head = plus_spans(cs.drop_last());
        let c = cs.last();
        match c.0 {
            ChangeKind::Equal => head.push((c.1, Style::fg_spec(Color::Green))),
            ChangeKind::Insert => head.push((c.1, green_bg())),
            ChangeKind::Delete => head,
        }
    }
}

/// The `-` spans read as the old side, the `+` spans as the new side.
pub proof fn lemma_sides_text(cs: Seq<(ChangeKind, Seq<char>)>)
    ensures
        Line::text_spec(minus_spans(cs)) == old_side(cs),
        Line::text_spec(plus_spans(cs)) == new_side(cs),
    decreases cs.len(),
{
    if cs.len() > 0 {
        lemma_sides_text(cs.drop_last());
        let c = cs.last();
        let m = minus_spans(cs.drop_last());
        let p = plus_spans(cs.drop_last());
        match c.0 {
            ChangeKind::Equal => {
                assert(minus_spans(cs).drop_last() =~= m);
                assert(plus_spans(cs).drop_last() =~= p);
            },
            ChangeKind::Delete => {
                assert(minus_spans(cs).drop_last() =~= m);
                assert(new_side(cs) =~= new_side(cs.drop_last()));
            },
            ChangeKind::Insert => {
                assert(plus_spans(cs).drop_last() =~= p);
                assert(old_side(cs) =~= old_side(cs.drop_last()));
            },
        }
    }
}

/// Word-level spans for a paired `(old, new)` line: `.0` for the `-`
/// side, `.1` for the `+` side. Each side's text is its input.
pub fn intra_line_highlight(old: &str, new: &str) -> (r: (Vec<Span>, Vec<Span>))
    ensures
        spans_view(r.0@) == minus_spans(word_changes(old@, new@)),
        spans_view(r.1@) == plus_spans(word_changes(old@, new@)),
        Line::text_spec(spans_view(r.0@)) == old@,
        Line::text_spec(spans_view(r.1@)) == new@,
        old@ == new@ ==> (forall|i: int|
            0 <= i < r.0@.len() ==> (#[trigger] spans_view(r.0@)[i]).1 == Style::fg_spec(Color::Red))
            && (forall|i: int|
            0 <= i < r.1@.len() ==> (#[trigger] spans_view(r.1@)[i]).1 == Style::fg_spec(
                Color::Green,
            )),
        old@.len() == 0 ==> r.0@.len() == 0,
        new@.len() == 0 ==> r.1@.len() == 0,
{
    let changes = word_diff(old, new);
    proof {
        let cs = changes_view(changes@);
        assert forall|k: int| 0 <= k < cs.len() implies (#[trigger] cs[k]).1.len() > 0 by {
            assert(cs[k] == changes_view(changes@)[k]);
        }
        lemma_empty_side(cs);
        if old@ == new@ {
            assert forall|k: int| 0 <= k < cs.len() implies (#[trigger] cs[k]).0 == ChangeKind::Equal by {
                assert(cs[k] == changes_view(changes@)[k]);
            }
            lemma_equal_spans(cs);
        }
    }
    change_spans(&changes)
}

/// Without changed words, both sides keep their plain colour.
proof fn lemma_equal_spans(cs: Seq<(ChangeKind, Seq<char>)>)
    requires
        forall|k: int| 0 <= k < cs.len() ==> (#[trigger] cs[k]).0 == ChangeKind::Equal,
    ensures
        forall|i: int|
            0 <= i < minus_spans(cs).len() ==> (#[trigger] minus_spans(cs)[i]).1 == Style::fg_spec(
                Color::Red,
            ),
        forall|i: int|
            0 <= i < plus_spans(cs).len() ==> (#[trigger] plus_spans(cs)[i]).1 == Style::fg_spec(
                Color::Green,
            ),
    decreases cs.len(),
{
    if cs.len() > 0 {
        assert(cs.last() == cs[cs.len() - 1]);
        lemma_equal_spans(cs.drop_last());
        let m = minus_spans(cs.drop_last());
        let p = plus_spans(cs.drop_last());
        assert forall|i: int| 0 <= i < minus_spans(cs).len() implies (#[trigger] minus_spans(cs)[i]).1
            == Style::fg_spec(Color::Red) by {
            if i < m.len() {
                assert(minus_spans(cs)[i] == m[i]);
            }
        }
        assert forall|i: int| 0 <= i < plus_spans(cs).len() implies (#[trigger] plus_spans(cs)[i]).1
            == Style::fg_spec(Color::Green) by {
            if i < p.len() {
                assert(plus_spans(cs)[i] == p[i]);
            }
        }
    }
}

/// With no empty token, an empty side has no spans.
proof fn lemma_empty_side(cs: Seq<(ChangeKind, Seq<char>)>)
    requires
        forall|k: int| 0 <= k < cs.len() ==> (#[trigger] cs[k]).1.len() > 0,
    ensures
        old_side(cs).len() == 0 ==> minus_spans(cs).len() == 0,
        new_side(cs).len() == 0 ==> plus_spans(cs).len() == 0,
    decreases cs.len(),
{
    if cs.len() > 0 {
        assert(cs.last() == cs[cs.len() - 1]);
        lemma_empty_side(cs.drop_last());
    }
}

/// The spans of both sides for a word diff: equal words in the side's
/// colour, deleted words on red on the `-` side, inserted words on green
/// on the `+` side. Each side's text is that side of the diff.
pub fn change_spans(changes: &Vec<(ChangeKind, String)>) -> (r: (Vec<Span>, Vec<Span>))
    ensures
        spans_view(r.0@) == minus_spans(changes_view(changes@)),
        spans_view(r.1@) == plus_spans(changes_view(changes@)),
        Line::text_spec(spans_view(r.0@)) == old_side(changes_view(changes@)),
        Line::text_spec(spans_view(r.1@)) == new_side(changes_view(changes@)),
{
    let ghost cs = changes_view(changes@);
    let mut minus: Vec<Span> = Vec::new();
    let mut plus: Vec<Span> = Vec::new();
    let mut k: usize = 0;
    while k < changes.len()
        invariant
            k <= changes.len(),
            cs == changes_view(changes@),
            spans_view(minus@) == minus_spans(cs.take(k as int)),
            spans_view(plus@) == plus_spans(cs.take(k as int)),
        decreases changes.len() - k,
    {
        assert(cs.take(k + 1).drop_last() =~= cs.take(k as int));
        let ghost m0 = spans_view(minus@);
        let ghost p0 = spans_view(plus@);
        let (tag, value) = (changes[k].0, changes[k].1.clone());
        match tag {
            ChangeKind::Equal => {
                let v2 = value.clone();
                minus.push(Span::styled(value, Style::fg(Color::Red)));
                plus.push(Span::styled(v2, Style::fg(Color::Green)));
                assert(spans_view(minus@) =~= m0.push(minus@[minus@.len() - 1]@));
                assert(spans_view(plus@) =~= p0.push(plus@[plus@.len() - 1]@));
            },
            ChangeKind::Delete => {
                minus.push(Span::styled(value, Style {
                    fg: Some(Color::White),
                    bg: Some(Color::Rgb(96, 0, 0)),
                    bold: true,
                    italic: false,
                    underlined: false,
                    crossed_out: false,
                }));
                assert(spans_view(minus@) =~= m0.push(minus@[minus@.len() - 1]@));
            },
            ChangeKind::Insert => {
                plus.push(Span::styled(value, Style {
                    fg: Some(Color::White),
                    bg: Some(Color::Rgb(0, 96, 0)),
                    bold: true,
                    italic: false,
                    underlined: false,
                    crossed_out: false,
                }));
                assert(spans_view(plus@) =~= p0.push(plus@[plus@.len() - 1]@));
            },
        }
        k = k + 1;
    }
    assert(cs.take(changes.len() as int) =~= cs);
    proof {
        lemma_sides_text(cs);
    }
    (minus, plus)
}

} // verus!
