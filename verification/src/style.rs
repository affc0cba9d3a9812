//! Styled text as the views draw it: colours, styles, spans and lines.
//!
//! A [`Line`] is a sequence of [`Span`]s, each a piece of text with one
//! [`Style`]. The terminal front end converts these one for one into its
//! widget library's types.

use vstd::prelude::*;

verus! {

#[derive(Debug, Clone, Copy, PartialEq, Eq)]
pub enum Color {
    Black,
    Red,
    Green,
    Yellow,
    Blue,
    Magenta,
    Cyan,
    Gray,
    DarkGray,
    LightRed,
    LightGreen,
    LightYellow,
    LightBlue,
    LightMagenta,
    LightCyan,
    White,
    Rgb(u8, u8, u8),
}

/// Foreground and background colour (unset inherits) and the text
/// modifiers the views use.
#[derive(Debug, Clone, Copy, PartialEq, Eq)]
pub struct Style {
    pub fg: Option<Color>,
    pub bg: Option<Color>,
    pub bold: bool,
    pub italic: bool,
    pub underlined: bool,
    pub crossed_out: bool,
}

impl Style {
    /// The empty style: nothing set.
    pub open spec fn plain_spec() -> Style {
        Style { fg: None, bg: None, bold: false, italic: false, underlined: false, crossed_out: false }
    }

    pub fn plain() -> (s: Style)
        ensures
            s == Style::plain_spec(),
    {
        Style { fg: None, bg: None, bold: false, italic: false, underlined: false, crossed_out: false }
    }

    /// Only a foreground colour.
    pub open spec fn fg_spec(c: Color) -> Style {
        Style { fg: Some(c), ..Style::plain_spec() }
    }

    pub fn fg(c: Color) -> (s: Style)
        ensures
            s == Style::fg_spec(c),
    {
        Style { fg: Some(c), bg: None, bold: false, italic: false, underlined: false, crossed_out: false }
    }

    /// A foreground colour in italics.
    pub open spec fn fg_italic_spec(c: Color) -> Style {
        Style { fg: Some(c), italic: true, ..Style::plain_spec() }
    }

    pub fn fg_italic(c: Color) -> (s: Style)
        ensures
            s == Style::fg_italic_spec(c),
    {
        Style { fg: Some(c), bg: None, bold: false, italic: true, underlined: false, crossed_out: false }
    }

    /// A foreground colour in bold.
    pub open spec fn fg_bold_spec(c: Color) -> Style {
        Style { fg: Some(c), bold: true, ..Style::plain_spec() }
    }

    pub fn fg_bold(c: Color) -> (s: Style)
        ensures
            s == Style::fg_bold_spec(c),
    {
        Style { fg: Some(c), bg: None, bold: true, italic: false, underlined: false, crossed_out: false }
    }

    /// `over` drawn on top of `self`: colours that `over` sets replace
    /// these, modifiers accumulate.
    pub open spec fn patch_spec(self, over: Style) -> Style {
        Style {
            fg: if over.fg is Some { over.fg } else { self.fg },
            bg: if over.bg is Some { over.bg } else { self.bg },
            bold: self.bold || over.bold,
            italic: self.italic || over.italic,
            underlined: self.underlined || over.underlined,
            crossed_out: self.crossed_out || over.crossed_out,
        }
    }

    pub fn patch(self, over: Style) -> (s: Style)
        ensures
            s == self.patch_spec(over),
    {
        Style {
            fg: if over.fg.is_some() { over.fg } else { self.fg },
            bg: if over.bg.is_some() { over.bg } else { self.bg },
            bold: self.bold || over.bold,
            italic: self.italic || over.italic,
            underlined: self.underlined || over.underlined,
            crossed_out: self.crossed_out || over.crossed_out,
        }
    }
}

/// A piece of text in one style.
#[derive(Debug, Clone, PartialEq, Eq)]
pub struct Span {
    pub content: String,
    pub style: Style,
}

impl View for Span {
    type V = (Seq<char>, Style);

    open spec fn view(&self) -> (Seq<char>, Style) {
        (self.content@, self.style)
    }
}

impl Span {
    pub fn styled(content: String, style: Style) -> (s: Span)
        ensures
            s@ == (content@, style),
    {
        Span { content, style }
    }

    pub fn raw(content: String) -> (s: Span)
        ensures
            s@ == (content@, Style::plain_spec()),
    {
        Span { content, style: Style::plain() }
    }
}

/// The view of a sequence of spans.
pub open spec fn spans_view(v: Seq<Span>) -> Seq<(Seq<char>, Style)> {
    v.map_values(|s: Span| s@)
}

/// One row of styled text.
#[derive(Debug, Clone, PartialEq, Eq)]
pub struct Line {
    pub spans: Vec<Span>,
}

impl View for Line {
    type V = Seq<(Seq<char>, Style)>;

    open spec fn view(&self) -> Seq<(Seq<char>, Style)> {
        spans_view(self.spans@)
    }
}

/// The view of a sequence of lines.
pub open spec fn lines_view(v: Seq<Line>) -> Seq<Seq<(Seq<char>, Style)>> {
    v.map_values(|l: Line| l@)
}

impl Line {
    /// A blank row (no spans).
    pub fn blank() -> (l: Line)
        ensures
            l@ == Seq::<(Seq<char>, Style)>::empty(),
    {
        let l = Line { spans: Vec::new() };
        assert(l@ =~= Seq::<(Seq<char>, Style)>::empty());
        l
    }

    /// A row of one span.
    pub fn single(content: String, style: Style) -> (l: Line)
        ensures
            l@ == seq![(content@, style)],
    {
        let mut spans: Vec<Span> = Vec::new();
        spans.push(Span::styled(content, style));
        let l = Line { spans };
        assert(l@ =~= seq![(l.spans@[0].content@, style)]);
        l
    }

    /// A row of the given spans.
    pub fn from_spans(spans: Vec<Span>) -> (l: Line)
        ensures
            l@ == spans_view(spans@),
    {
        Line { spans }
    }

    /// The concatenated text of the row.
    pub open spec fn text_spec(v: Seq<(Seq<char>, Style)>) -> Seq<char>
        decreases v.len(),
    {
        if v.len() == 0 {
            Seq::empty()
        } else {
            Line::text_spec(v.drop_last()) + v.last().0
        }
    }
}

/// `a` followed by the spans of `b`.
pub fn append_spans(a: &mut Vec<Span>, b: Vec<Span>)
    ensures
        spans_view(final(a)@) == spans_view(old(a)@) + spans_view(b@),
{
    let mut b = b;
    let ghost a0 = a@;
    let ghost b0 = b@;
    a.append(&mut b);
    assert(spans_view(a@) =~= spans_view(a0) + spans_view(b0));
}

} // verus!
