//! Syntax highlighting for code shown in the diff view.
//!
//! [`detect`] maps a path's extension to a [`Lang`]; [`highlight`] turns
//! source text into one row of styled spans per `\n`-separated line. Rust
//! goes through tree-sitter's highlighter; every other language, and any
//! failure of the highlighter, falls back to plain grey text.

use vstd::prelude::*;

use crate::api::starts_with;
use crate::pulls::{first_index, lemma_first_index};
use crate::style::{spans_view, Color, Span, Style};
use crate::text::{str_eq, substring, to_chars};
use tree_sitter_highlight::{HighlightConfiguration, HighlightEvent, Highlighter};

verus! {

#[derive(Debug, Clone, Copy, PartialEq, Eq, Structural)]
pub enum Lang {
    Rust,
    Plain,
}

// ── detection ───────────────────────────────────────────────────────────

/// The extension that `std::path::Path::extension` reads from a path, as
/// text; `None` when there is none (or it is not UTF-8).
pub uninterp spec fn path_extension(path: Seq<char>) -> Option<Seq<char>>;

pub open spec fn opt_string_view(o: Option<String>) -> Option<Seq<char>> {
    match o {
        Some(s) => Some(s@),
        None => None,
    }
}

/// `Path::new(path).extension()` as a `String`. std's rules for what
/// counts as an extension (last component, leading dots) are named, not
/// restated.
#[verifier::external_body]
fn extension_of(path: &str) -> (r: Option<String>)
    ensures
        opt_string_view(r) == path_extension(path@),
{
    std::path::Path::new(path).extension().and_then(|e| e.to_str()).map(String::from)
}

/// `.rs` files are Rust; everything else is plain text.
pub open spec fn lang_of(path: Seq<char>) -> Lang {
    if path_extension(path) == Some("rs"@) {
        Lang::Rust
    } else {
        Lang::Plain
    }
}

pub fn detect(path: &str) -> (l: Lang)
    ensures
        l == lang_of(path@),
{
    match extension_of(path) {
        Some(e) => {
            if str_eq(e.as_str(), "rs") {
                Lang::Rust
            } else {
                Lang::Plain
            }
        },
        None => Lang::Plain,
    }
}

// ── styles ──────────────────────────────────────────────────────────────

/// The capture names the highlighter is configured with; a `Start(i)`
/// event refers to the `i`-th.
pub open spec fn name_at(i: int) -> Seq<char> {
    if i == 0 { "attribute"@ }
    else if i == 1 { "comment"@ }
    else if i == 2 { "constant"@ }
    else if i == 3 { "constant.builtin"@ }
    else if i == 4 { "constructor"@ }
    else if i == 5 { "function"@ }
    else if i == 6 { "function.builtin"@ }
    else if i == 7 { "function.macro"@ }
    else if i == 8 { "function.method"@ }
    else if i == 9 { "keyword"@ }
    else if i == 10 { "label"@ }
    else if i == 11 { "number"@ }
    else if i == 12 { "operator"@ }
    else if i == 13 { "property"@ }
    else if i == 14 { "punctuation.bracket"@ }
    else if i == 15 { "punctuation.delimiter"@ }
    else if i == 16 { "string"@ }
    else if i == 17 { "string.special"@ }
    else if i == 18 { "tag"@ }
    else if i == 19 { "type"@ }
    else if i == 20 { "type.builtin"@ }
    else if i == 21 { "variable"@ }
    else if i == 22 { "variable.builtin"@ }
    else if i == 23 { "variable.parameter"@ }
    else { ""@ }
}

pub const NAME_COUNT: usize = 24;

pub open spec fn names_spec() -> Seq<Seq<char>> {
    Seq::new(NAME_COUNT as nat, |i: int| name_at(i))
}

/// The configured capture names, in order.
pub fn highlight_names() -> (v: Vec<&'static str>)
    ensures
        v@.len() == NAME_COUNT,
        forall|i: int| 0 <= i < NAME_COUNT ==> (#[trigger] v@[i])@ == name_at(i),
{
    let v = vec![
        "attribute", "comment", "constant", "constant.builtin", "constructor", "function",
        "function.builtin", "function.macro", "function.method", "keyword", "label", "number",
        "operator", "property", "punctuation.bracket", "punctuation.delimiter", "string",
        "string.special", "tag", "type", "type.builtin", "variable", "variable.builtin",
        "variable.parameter",
    ];
    v
}

/// Comments dark grey italic; keywords and labels magenta; strings yellow;
/// types blue; functions cyan; constants and numbers light yellow;
/// attributes and tags light blue; anything else grey.
pub open spec fn style_for(name: Seq<char>) -> Style {
    if name == "comment"@ {
        Style::fg_italic_spec(Color::DarkGray)
    } else if crate::text::has_prefix(name, "keyword"@) {
        Style::fg_spec(Color::Magenta)
    } else if crate::text::has_prefix(name, "string"@) {
        Style::fg_spec(Color::Yellow)
    } else if crate::text::has_prefix(name, "type"@) {
        Style::fg_spec(Color::Blue)
    } else if crate::text::has_prefix(name, "function"@) {
        Style::fg_spec(Color::Cyan)
    } else if crate::text::has_prefix(name, "constant"@) {
        Style::fg_spec(Color::LightYellow)
    } else if name == "number"@ {
        Style::fg_spec(Color::LightYellow)
    } else if name == "attribute"@ || name == "tag"@ {
        Style::fg_spec(Color::LightBlue)
    } else if name == "label"@ {
        Style::fg_spec(Color::Magenta)
    } else {
        Style::fg_spec(Color::Gray)
    }
}

pub fn style_for_name(name: &str) -> (s: Style)
    ensures
        s == style_for(name@),
{
    let cs = to_chars(name);
    if str_eq(name, "comment") {
        Style::fg_italic(Color::DarkGray)
    } else if starts_with(&cs, "keyword") {
        Style::fg(Color::Magenta)
    } else if starts_with(&cs, "string") {
        Style::fg(Color::Yellow)
    } else if starts_with(&cs, "type") {
        Style::fg(Color::Blue)
    } else if starts_with(&cs, "function") {
        Style::fg(Color::Cyan)
    } else if starts_with(&cs, "constant") {
        Style::fg(Color::LightYellow)
    } else if str_eq(name, "number") {
        Style::fg(Color::LightYellow)
    } else if str_eq(name, "attribute") || str_eq(name, "tag") {
        Style::fg(Color::LightBlue)
    } else if str_eq(name, "label") {
        Style::fg(Color::Magenta)
    } else {
        Style::fg(Color::Gray)
    }
}

// ── text pieces ─────────────────────────────────────────────────────────

/// `s.split('\n')`: always at least one piece.
pub open spec fn pieces(s: Seq<char>) -> Seq<Seq<char>>
    decreases s.len(),
{
    proof {
        lemma_first_index_bounds(s, '\n');
    }
    let k = first_index(s, '\n');
    if k >= s.len() {
        seq![s]
    } else {
        seq![s.take(k)] + pieces(s.skip(k + 1))
    }
}

/// One grey span per non-empty line; empty lines have no spans.
pub open spec fn plain_row(p: Seq<char>) -> Seq<(Seq<char>, Style)> {
    if p.len() == 0 {
        Seq::empty()
    } else {
        seq![(p, Style::fg_spec(Color::Gray))]
    }
}

pub open spec fn plain_spec(source: Seq<char>) -> Seq<Seq<(Seq<char>, Style)>> {
    pieces(source).map_values(|p: Seq<char>| plain_row(p))
}

/// Rows of spans: lines built so far and the line being built.
pub open spec fn rows_view(v: Seq<Vec<Span>>) -> Seq<Seq<(Seq<char>, Style)>> {
    v.map_values(|r: Vec<Span>| spans_view(r@))
}

/// `cur` with a span for `p` unless `p` is empty.
pub open spec fn push_piece(
    cur: Seq<(Seq<char>, Style)>,
    p: Seq<char>,
    style: Style,
) -> Seq<(Seq<char>, Style)> {
    if p.len() == 0 {
        cur
    } else {
        cur.push((p, style))
    }
}

/// Adds text in one style: the part before the first `\n` extends the
/// current row, each `\n` closes it and starts a new one.
pub open spec fn feed_text(
    done: Seq<Seq<(Seq<char>, Style)>>,
    cur: Seq<(Seq<char>, Style)>,
    t: Seq<char>,
    style: Style,
) -> (Seq<Seq<(Seq<char>, Style)>>, Seq<(Seq<char>, Style)>)
    decreases t.len(),
{
    proof {
        lemma_first_index_bounds(t, '\n');
    }
    let k = first_index(t, '\n');
    if k >= t.len() {
        (done, push_piece(cur, t, style))
    } else {
        feed_text(done.push(push_piece(cur, t.take(k), style)), Seq::empty(), t.skip(k + 1), style)
    }
}

pub proof fn lemma_first_index_bounds(s: Seq<char>, c: char)
    ensures
        0 <= first_index(s, c) <= s.len(),
        first_index(s, c) < s.len() ==> s[first_index(s, c)] == c,
        forall|q: int| 0 <= q < first_index(s, c) ==> s[q] != c,
    decreases s.len(),
{
    if s.len() > 0 && s[0] != c {
        lemma_first_index_bounds(s.drop_first(), c);
        assert forall|q: int| 0 <= q < first_index(s, c) implies s[q] != c by {
            if q > 0 {
                assert(s[q] == s.drop_first()[q - 1]);
            }
        }
    }
}

proof fn lemma_no_char(s: Seq<char>, c: char)
    requires
        forall|q: int| 0 <= q < s.len() ==> s[q] != c,
    ensures
        first_index(s, c) == s.len(),
    decreases s.len(),
{
    if s.len() > 0 {
        assert forall|q: int| 0 <= q < s.drop_first().len() implies s.drop_first()[q] != c by {
            assert(s.drop_first()[q] == s[q + 1]);
        }
        lemma_no_char(s.drop_first(), c);
    }
}

/// Index of the first `'\n'` in `cs[i..j]`, or `j`.
fn find_newline(cs: &Vec<char>, i: usize, j: usize) -> (q: usize)
    requires
        i <= j <= cs.len(),
    ensures
        i <= q <= j,
        q - i == first_index(cs@.subrange(i as int, j as int), '\n'),
{
    let mut q = i;
    while q < j && cs[q] != '\n'
        invariant
            i <= q <= j <= cs.len(),
            forall|k: int| i <= k < q ==> cs@[k] != '\n',
        decreases j - q,
    {
        q = q + 1;
    }
    let ghost t = cs@.subrange(i as int, j as int);
    proof {
        if q < j {
            lemma_first_index(t, '\n', (q - i) as int);
        } else {
            lemma_no_char(t, '\n');
        }
    }
    q
}

/// Appends the span of `cs[lo..hi]` to `cur` unless it is empty.
fn push_piece_exec(cur: &mut Vec<Span>, cs: &Vec<char>, lo: usize, hi: usize, style: Style)
    requires
        lo <= hi <= cs.len(),
    ensures
        spans_view(final(cur)@) == push_piece(
            spans_view(old(cur)@),
            cs@.subrange(lo as int, hi as int),
            style,
        ),
{
    if lo < hi {
        let ghost before = spans_view(cur@);
        cur.push(Span::styled(substring(cs, lo, hi), style));
        assert(spans_view(cur@) =~= before.push((cs@.subrange(lo as int, hi as int), style)));
    }
}

/// Feeds `cs[i..j]` into the rows (see [`feed_text`]).
fn feed_text_exec(
    done: &mut Vec<Vec<Span>>,
    cur: &mut Vec<Span>,
    cs: &Vec<char>,
    i: usize,
    j: usize,
    style: Style,
)
    requires
        i <= j <= cs.len(),
    ensures
        (rows_view(final(done)@), spans_view(final(cur)@)) == feed_text(
            rows_view(old(done)@),
            spans_view(old(cur)@),
            cs@.subrange(i as int, j as int),
            style,
        ),
{
    let ghost target = feed_text(
        rows_view(done@),
        spans_view(cur@),
        cs@.subrange(i as int, j as int),
        style,
    );
    let mut pos = i;
    let mut q = find_newline(cs, pos, j);
    while q < j
        invariant
            i <= pos <= q <= j <= cs.len(),
            q - pos == first_index(cs@.subrange(pos as int, j as int), '\n'),
            target == feed_text(
                rows_view(done@),
                spans_view(cur@),
                cs@.subrange(pos as int, j as int),
                style,
            ),
        decreases j - pos,
    {
        let ghost t = cs@.subrange(pos as int, j as int);
        assert(feed_text(rows_view(done@), spans_view(cur@), t, style) == feed_text(
            rows_view(done@).push(push_piece(spans_view(cur@), t.take(q - pos), style)),
            Seq::empty(),
            t.skip(q - pos + 1),
            style,
        ));
        assert(t.take(q - pos) =~= cs@.subrange(pos as int, q as int));
        assert(t.skip(q - pos + 1) =~= cs@.subrange(q + 1, j as int));
        push_piece_exec(cur, cs, pos, q, style);
        let mut line: Vec<Span> = Vec::new();
        std::mem::swap(&mut line, cur);
        let ghost before = rows_view(done@);
        done.push(line);
        assert(rows_view(done@) =~= before.push(spans_view(line@)));
        assert(spans_view(cur@) =~= Seq::<(Seq<char>, Style)>::empty());
        pos = q + 1;
        q = find_newline(cs, pos, j);
    }
    let ghost t = cs@.subrange(pos as int, j as int);
    assert(t =~= cs@.subrange(pos as int, q as int));
    assert(feed_text(rows_view(done@), spans_view(cur@), t, style) == (
        rows_view(done@),
        push_piece(spans_view(cur@), t, style),
    ));
    push_piece_exec(cur, cs, pos, j, style);
}

/// One row per `\n`-separated line of `source`, in plain grey.
pub fn plain_lines(source: &str) -> (v: Vec<Vec<Span>>)
    ensures
        rows_view(v@) == plain_spec(source@),
{
    let cs = to_chars(source);
    let mut done: Vec<Vec<Span>> = Vec::new();
    let mut cur: Vec<Span> = Vec::new();
    assert(rows_view(done@) =~= Seq::<Seq<(Seq<char>, Style)>>::empty());
    assert(spans_view(cur@) =~= Seq::<(Seq<char>, Style)>::empty());
    assert(cs@.subrange(0, cs.len() as int) =~= source@);
    feed_text_exec(&mut done, &mut cur, &cs, 0, cs.len(), Style::fg(Color::Gray));
    proof {
        assert(cs@.subrange(0, cs.len() as int) =~= source@);
        lemma_feed_plain(
            Seq::empty(),
            source@,
        );
    }
    let ghost d = rows_view(done@);
    done.push(cur);
    assert(rows_view(done@) =~= d.push(spans_view(cur@)));
    assert(Seq::<Seq<(Seq<char>, Style)>>::empty() + plain_spec(source@) =~= plain_spec(source@));
    done
}

/// Feeding text into empty rows in grey yields the plain rows of its
/// pieces (the last piece still open).
proof fn lemma_feed_plain(done: Seq<Seq<(Seq<char>, Style)>>, t: Seq<char>)
    ensures
        ({
            let r = feed_text(done, Seq::empty(), t, Style::fg_spec(Color::Gray));
            r.0.push(r.1) == done + plain_spec(t)
        }),
    decreases t.len(),
{
    lemma_first_index_bounds(t, '\n');
    let k = first_index(t, '\n');
    if k >= t.len() {
        assert(pieces(t) == seq![t]);
        assert(plain_spec(t) =~= seq![plain_row(t)]);
        assert(push_piece(Seq::empty(), t, Style::fg_spec(Color::Gray)) =~= plain_row(t));
    } else {
        let rest = t.skip(k + 1);
        lemma_feed_plain(done.push(plain_row(t.take(k))), rest);
        assert(push_piece(Seq::empty(), t.take(k), Style::fg_spec(Color::Gray)) =~= plain_row(
            t.take(k),
        ));
        assert(pieces(t) == seq![t.take(k)] + pieces(rest));
        assert(plain_spec(t) =~= seq![plain_row(t.take(k))] + plain_spec(rest));
        assert(done.push(plain_row(t.take(k))) + plain_spec(rest) =~= done + plain_spec(t));
    }
}


// ── byte offsets ────────────────────────────────────────────────────────

/// Bytes of `c` in UTF-8.
pub open spec fn utf8_len(c: char) -> nat {
    let v = c as u32;
    if v < 0x80 {
        1
    } else if v < 0x800 {
        2
    } else if v < 0x10000 {
        3
    } else {
        4
    }
}

/// Byte offset of character `i` of `s` in UTF-8.
pub open spec fn byte_pos(s: Seq<char>, i: int) -> nat
    decreases i,
{
    if i <= 0 {
        0
    } else {
        byte_pos(s, i - 1) + utf8_len(s[i - 1])
    }
}

/// The character index at byte offset `b`, when `b` is a character
/// boundary (the end of the text counts).
pub open spec fn char_index(s: Seq<char>, b: int) -> Option<int> {
    if exists|i: int| 0 <= i <= s.len() && byte_pos(s, i) == b {
        Some(choose|i: int| 0 <= i <= s.len() && byte_pos(s, i) == b)
    } else {
        None
    }
}

/// `str::get(start..end)`: the text between two character boundaries.
pub open spec fn byte_slice(s: Seq<char>, start: int, end: int) -> Option<Seq<char>> {
    match (char_index(s, start), char_index(s, end)) {
        (Some(i), Some(j)) => if i <= j {
            Some(s.subrange(i, j))
        } else {
            None
        },
        _ => None,
    }
}

proof fn lemma_byte_pos_increasing(s: Seq<char>, i: int, j: int)
    requires
        0 <= i < j <= s.len(),
    ensures
        byte_pos(s, i) < byte_pos(s, j),
    decreases j - i,
{
    if i + 1 < j {
        lemma_byte_pos_increasing(s, i, j - 1);
    }
}

proof fn lemma_byte_pos_at_least(s: Seq<char>, i: int)
    requires
        0 <= i <= s.len(),
    ensures
        byte_pos(s, i) >= i,
    decreases i,
{
    if i > 0 {
        lemma_byte_pos_at_least(s, i - 1);
    }
}

proof fn lemma_char_index_is(s: Seq<char>, b: int, k: int)
    requires
        0 <= k <= s.len(),
        byte_pos(s, k) == b,
    ensures
        char_index(s, b) == Some(k),
{
    assert(exists|i: int| 0 <= i <= s.len() && byte_pos(s, i) == b);
    let i = choose|i: int| 0 <= i <= s.len() && byte_pos(s, i) == b;
    if i < k {
        lemma_byte_pos_increasing(s, i, k);
    } else if k < i {
        lemma_byte_pos_increasing(s, k, i);
    }
}

/// `str::len`: the number of bytes of `s` in UTF-8, which std bounds by
/// `isize::MAX` (no allocation is larger).
#[verifier::external_body]
fn utf8_byte_len(s: &str) -> (r: usize)
    ensures
        r == byte_pos(s@, s@.len() as int),
        r <= isize::MAX,
{
    s.len()
}

fn utf8_width(c: char) -> (w: usize)
    ensures
        w == utf8_len(c),
{
    let v = c as u32;
    if v < 0x80 {
        1
    } else if v < 0x800 {
        2
    } else if v < 0x10000 {
        3
    } else {
        4
    }
}

/// For each byte offset of `source` up to and including its length, the
/// index of the character that starts there, or `usize::MAX` inside a
/// character.
fn char_starts(source: &str, cs: &Vec<char>) -> (t: Vec<usize>)
    requires
        cs@ == source@,
    ensures
        t.len() == byte_pos(cs@, cs.len() as int) + 1,
        forall|k: int| 0 <= k <= cs.len() ==> t@[byte_pos(cs@, k) as int] == k,
        forall|b: int| 0 <= b < t.len() && t@[b] != usize::MAX ==> t@[b] <= cs.len() && byte_pos(
            cs@,
            t@[b] as int,
        ) == b,
{
    let total = utf8_byte_len(source);
    let mut t: Vec<usize> = Vec::new();
    let mut i: usize = 0;
    while i < cs.len()
        invariant
            i <= cs.len(),
            cs@ == source@,
            total == byte_pos(cs@, cs.len() as int),
            total <= isize::MAX,
            t.len() == byte_pos(cs@, i as int),
            forall|k: int| 0 <= k < i ==> t@[byte_pos(cs@, k) as int] == k,
            forall|b: int|
                0 <= b < t.len() && t@[b] != usize::MAX ==> t@[b] < i && byte_pos(
                    cs@,
                    t@[b] as int,
                ) == b,
        decreases cs.len() - i,
    {
        proof {
            lemma_byte_pos_increasing(cs@, i as int, (i + 1) as int);
            if i + 1 < cs.len() {
                lemma_byte_pos_increasing(cs@, (i + 1) as int, cs.len() as int);
            }
            assert forall|k: int| 0 <= k < i implies byte_pos(cs@, k) < byte_pos(cs@, i as int) by {
                lemma_byte_pos_increasing(cs@, k, i as int);
            }
        }
        let w = utf8_width(cs[i]);
        let ghost start = t.len();
        t.push(i);
        let mut m: usize = 1;
        while m < w
            invariant
                1 <= m <= w <= 4,
                i < cs.len(),
                t.len() == start + m,
                start == byte_pos(cs@, i as int),
                t@[start as int] == i,
                forall|k: int| 0 <= k < i ==> t@[byte_pos(cs@, k) as int] == k,
                forall|k: int| 0 <= k < i ==> byte_pos(cs@, k) < start,
                forall|b: int|
                    0 <= b < start && t@[b] != usize::MAX ==> t@[b] < i && byte_pos(
                        cs@,
                        t@[b] as int,
                    ) == b,
                forall|b: int| start < b < t.len() ==> t@[b] == usize::MAX,
            decreases w - m,
        {
            t.push(usize::MAX);
            m = m + 1;
        }
        i = i + 1;
    }
    let ghost before = t@;
    t.push(cs.len());
    proof {
        assert forall|k: int| 0 <= k <= cs.len() implies t@[byte_pos(cs@, k) as int] == k by {
            if k < cs.len() {
                lemma_byte_pos_increasing(cs@, k, cs.len() as int);
                assert(t@[byte_pos(cs@, k) as int] == before[byte_pos(cs@, k) as int]);
            }
        }
    }
    t
}

/// [`char_index`] through the table built by [`char_starts`].
fn lookup_char(t: &Vec<usize>, cs: &Vec<char>, b: usize) -> (r: Option<usize>)
    requires
        t.len() == byte_pos(cs@, cs.len() as int) + 1,
        forall|k: int| 0 <= k <= cs.len() ==> t@[byte_pos(cs@, k) as int] == k,
        forall|b: int| 0 <= b < t.len() && t@[b] != usize::MAX ==> t@[b] <= cs.len() && byte_pos(
            cs@,
            t@[b] as int,
        ) == b,
    ensures
        match r {
            Some(k) => char_index(cs@, b as int) == Some(k as int),
            None => char_index(cs@, b as int) is None,
        },
{
    if b < t.len() && t[b] != usize::MAX {
        let k = t[b];
        proof {
            lemma_char_index_is(cs@, b as int, k as int);
        }
        Some(k)
    } else {
        proof {
            if exists|i: int| 0 <= i <= cs@.len() && byte_pos(cs@, i) == b {
                let i = choose|i: int| 0 <= i <= cs@.len() && byte_pos(cs@, i) == b;
                if i < cs.len() {
                    lemma_byte_pos_increasing(cs@, i, cs.len() as int);
                }
                lemma_byte_pos_at_least(cs@, cs.len() as int);
                assert(t@[byte_pos(cs@, i) as int] == i);
                assert(false);
            }
        }
        None
    }
}

// ── tree-sitter ─────────────────────────────────────────────────────────

/// One step of tree-sitter's highlight event stream.
#[derive(Debug, Clone, Copy, PartialEq, Eq)]
pub enum HlEvent {
    /// Source bytes `start..end`, in the style of the innermost capture.
    Source { start: usize, end: usize },
    /// A capture with the given name index begins.
    Start(usize),
    /// The innermost capture ends.
    End,
    /// The stream reported an error for this step.
    Failed,
}

/// The events tree-sitter's highlighter, configured with the Rust grammar,
/// its highlight and injection queries and these capture names, reports
/// for `source`; `None` when it cannot be configured or started.
pub uninterp spec fn rust_highlight_events(names: Seq<Seq<char>>, source: Seq<char>) -> Option<
    Seq<HlEvent>,
>;

pub open spec fn names_view(v: Seq<&str>) -> Seq<Seq<char>> {
    v.map_values(|s: &str| s@)
}

pub open spec fn opt_events(o: Option<Vec<HlEvent>>) -> Option<Seq<HlEvent>> {
    match o {
        Some(v) => Some(v@),
        None => None,
    }
}

/// Runs tree-sitter-highlight (`HighlightConfiguration::new` with
/// tree-sitter-rust's grammar and queries, `configure`, then
/// `Highlighter::highlight`) and lists its events. The events are named,
/// not restated; what the library does with them is verified.
#[verifier::external_body]
fn rust_events(names: &Vec<&str>, source: &str) -> (r: Option<Vec<HlEvent>>)
    ensures
        opt_events(r) == rust_highlight_events(names_view(names@), source@),
{
    let mut config = HighlightConfiguration::new(tree_sitter_rust::LANGUAGE.into(), "rust",
        tree_sitter_rust::HIGHLIGHTS_QUERY, tree_sitter_rust::INJECTIONS_QUERY, "").ok()?;
    config.configure(names);
    let mut highlighter = Highlighter::new();
    let events = highlighter.highlight(&config, source.as_bytes(), None, |_| None).ok()?;
    Some(events.map(|e| match e {
        Ok(HighlightEvent::Source { start, end }) => HlEvent::Source { start, end },
        Ok(HighlightEvent::HighlightStart(h)) => HlEvent::Start(h.0),
        Ok(HighlightEvent::HighlightEnd) => HlEvent::End,
        Err(_) => HlEvent::Failed,
    }).collect())
}

/// Style of a capture index (indices past the configured names are grey).
pub open spec fn capture_style(i: int) -> Style {
    style_for(name_at(i))
}

/// The style in force: the innermost open capture's, or the empty style.
pub open spec fn top_style(stack: Seq<Style>) -> Style {
    if stack.len() == 0 {
        Style::plain_spec()
    } else {
        stack.last()
    }
}

/// Highlighter state: finished rows, the row being built, open captures.
pub open spec fn hl_step(
    src: Seq<char>,
    st: (Seq<Seq<(Seq<char>, Style)>>, Seq<(Seq<char>, Style)>, Seq<Style>),
    e: HlEvent,
) -> (Seq<Seq<(Seq<char>, Style)>>, Seq<(Seq<char>, Style)>, Seq<Style>) {
    match e {
        HlEvent::Source { start, end } => match byte_slice(src, start as int, end as int) {
            Some(t) => {
                let r = feed_text(st.0, st.1, t, top_style(st.2));
                (r.0, r.1, st.2)
            },
            None => st,
        },
        HlEvent::Start(i) => (st.0, st.1, st.2.push(capture_style(i as int))),
        HlEvent::End => (st.0, st.1, if st.2.len() > 0 {
            st.2.drop_last()
        } else {
            st.2
        }),
        HlEvent::Failed => st,
    }
}

pub open spec fn hl_run(src: Seq<char>, evs: Seq<HlEvent>) -> (
    Seq<Seq<(Seq<char>, Style)>>,
    Seq<(Seq<char>, Style)>,
    Seq<Style>,
)
    decreases evs.len(),
{
    if evs.len() == 0 {
        (Seq::empty(), Seq::empty(), Seq::empty())
    } else {
        hl_step(src, hl_run(src, evs.drop_last()), evs.last())
    }
}

/// The rows that highlight events give for `source`: its text in the
/// style of the innermost open capture, a new row at each `\n`.
pub open spec fn events_rows(source: Seq<char>, evs: Seq<HlEvent>) -> Seq<Seq<(Seq<char>, Style)>> {
    let st = hl_run(source, evs);
    st.0.push(st.1)
}

/// One row of spans per `\n`-separated line of `source`.
pub open spec fn highlight_spec(lang: Lang, source: Seq<char>) -> Seq<Seq<(Seq<char>, Style)>> {
    match lang {
        Lang::Plain => plain_spec(source),
        Lang::Rust => match rust_highlight_events(names_spec(), source) {
            None => plain_spec(source),
            Some(evs) => events_rows(source, evs),
        },
    }
}

/// Highlights `source`; never fails (plain grey text when it cannot).
pub fn highlight(lang: Lang, source: &str) -> (v: Vec<Vec<Span>>)
    ensures
        rows_view(v@) == highlight_spec(lang, source@),
{
    if lang == Lang::Plain {
        return plain_lines(source);
    }
    let names = highlight_names();
    assert(names_view(names@) =~= names_spec());
    match rust_events(&names, source) {
        Some(e) => rows_of_events(source, &e),
        None => plain_lines(source),
    }
}

/// The rows that `events` give for `source` (see [`events_rows`]).
pub fn rows_of_events(source: &str, events: &Vec<HlEvent>) -> (v: Vec<Vec<Span>>)
    ensures
        rows_view(v@) == events_rows(source@, events@),
{
    let names = highlight_names();
    // Styles of the configured captures, by index.
    let mut styles: Vec<Style> = Vec::new();
    let mut n: usize = 0;
    while n < names.len()
        invariant
            n <= names.len() == NAME_COUNT,
            styles@.len() == n,
            forall|i: int| 0 <= i < NAME_COUNT ==> (#[trigger] names@[i])@ == name_at(i),
            forall|i: int| 0 <= i < n ==> #[trigger] styles@[i] == capture_style(i),
        decreases names.len() - n,
    {
        styles.push(style_for_name(names[n]));
        n = n + 1;
    }
    let fallback = style_for_name("");
    let cs = to_chars(source);
    let table = char_starts(source, &cs);
    let mut done: Vec<Vec<Span>> = Vec::new();
    let mut cur: Vec<Span> = Vec::new();
    let mut stack: Vec<Style> = Vec::new();
    assert(rows_view(done@) =~= Seq::<Seq<(Seq<char>, Style)>>::empty());
    assert(spans_view(cur@) =~= Seq::<(Seq<char>, Style)>::empty());
    let ghost evs = events@;
    let mut k: usize = 0;
    while k < events.len()
        invariant
            k <= events.len(),
            evs == events@,
            cs@ == source@,
            styles@.len() == NAME_COUNT,
            forall|i: int| 0 <= i < NAME_COUNT ==> #[trigger] styles@[i] == capture_style(i),
            fallback == style_for(""@),
            table.len() == byte_pos(cs@, cs.len() as int) + 1,
            forall|q: int| 0 <= q <= cs.len() ==> table@[byte_pos(cs@, q) as int] == q,
            forall|b: int|
                0 <= b < table.len() && table@[b] != usize::MAX ==> table@[b] <= cs.len()
                    && byte_pos(cs@, table@[b] as int) == b,
            (rows_view(done@), spans_view(cur@), stack@) == hl_run(source@, evs.take(k as int)),
        decreases events.len() - k,
    {
        assert(evs.take(k + 1).drop_last() =~= evs.take(k as int));
        match events[k] {
            HlEvent::Source { start, end } => {
                let a = lookup_char(&table, &cs, start);
                let b = lookup_char(&table, &cs, end);
                match (a, b) {
                    (Some(i), Some(j)) => {
                        if i <= j {
                            assert(cs@.subrange(i as int, j as int) == source@.subrange(i as int, j as int));
                            let style = if stack.len() > 0 {
                                stack[stack.len() - 1]
                            } else {
                                Style::plain()
                            };
                            feed_text_exec(&mut done, &mut cur, &cs, i, j, style);
                        }
                    },
                    _ => {},
                }
            },
            HlEvent::Start(i) => {
                let st = if i < styles.len() {
                    styles[i]
                } else {
                    fallback
                };
                stack.push(st);
            },
            HlEvent::End => {
                if stack.len() > 0 {
                    stack.pop();
                }
            },
            HlEvent::Failed => {},
        }
        k = k + 1;
    }
    assert(evs.take(evs.len() as int) =~= evs);
    let ghost d = rows_view(done@);
    done.push(cur);
    assert(rows_view(done@) =~= d.push(spans_view(cur@)));
    done
}

} // verus!
