//! Markdown rendering of the PR body.
//!
//! The body is parsed into CommonMark events (with strikethrough and task
//! lists), and [`Renderer::handle`] turns the events into styled lines.
//! Images and Mermaid code blocks become chunks of their own so the detail
//! screen can give them a widget; the text between them is grouped into
//! text chunks.

use vstd::prelude::*;

use pulldown_cmark::{CodeBlockKind, Event, Options, Parser, Tag, TagEnd};

use crate::style::{append_spans, lines_view, spans_view, Color, Line, Span, Style};
use crate::text::{decimal, lines, push_char, push_decimal, to_chars, substring};

verus! {

// ── events ──────────────────────────────────────────────────────────────

/// The parser events the renderer reacts to. Start events are named after
/// their tag; `EndStyle` ends emphasis, strong or strikethrough; everything
/// else the renderer ignores is `Other`.
#[derive(Debug, Clone, PartialEq, Eq)]
pub enum MdEvent {
    Heading(u8),
    BlockQuote,
    CodeBlock(String),
    List(Option<u64>),
    Item,
    Emphasis,
    Strong,
    Strikethrough,
    Link(String),
    Image(String),
    EndHeading,
    EndParagraph,
    EndBlockQuote,
    EndCodeBlock,
    EndList,
    EndItem,
    EndStyle,
    EndLink,
    EndImage,
    Text(String),
    Code(String),
    SoftBreak,
    HardBreak,
    Rule,
    TaskListMarker(bool),
    Other,
}

/// The event stream of `Parser::new_ext(input, strikethrough | tasklists)`,
/// read four ways: block starts, inline starts, ends, and leaf events;
/// each list has one entry per parser event, `Other` where that reading
/// does not apply.
pub uninterp spec fn md_block_starts(input: Seq<char>) -> Seq<MdEvent>;

pub uninterp spec fn md_inline_starts(input: Seq<char>) -> Seq<MdEvent>;

pub uninterp spec fn md_ends(input: Seq<char>) -> Seq<MdEvent>;

pub uninterp spec fn md_leaves(input: Seq<char>) -> Seq<MdEvent>;

/// Heading, block quote, code block and list starts of the parse.
#[verifier::external_body]
fn block_starts(input: &str) -> (r: Vec<MdEvent>)
    ensures
        r@ == md_block_starts(input@),
{
    let opts = Options::ENABLE_STRIKETHROUGH | Options::ENABLE_TASKLISTS;
    Parser::new_ext(input, opts).map(|e| match e {
        Event::Start(Tag::Heading { level, .. }) => MdEvent::Heading(level as u8),
        Event::Start(Tag::BlockQuote(_)) => MdEvent::BlockQuote,
        Event::Start(Tag::CodeBlock(CodeBlockKind::Fenced(s))) => MdEvent::CodeBlock(s.to_string()),
        Event::Start(Tag::CodeBlock(CodeBlockKind::Indented)) => MdEvent::CodeBlock(String::new()),
        Event::Start(Tag::List(start)) => MdEvent::List(start),
        _ => MdEvent::Other,
    }).collect()
}

/// Item, emphasis, strong, strikethrough, link and image starts of the
/// same parse (as many entries as [`block_starts`]).
#[verifier::external_body]
fn inline_starts(input: &str) -> (r: Vec<MdEvent>)
    ensures
        r@ == md_inline_starts(input@),
        r@.len() == md_block_starts(input@).len(),
{
    let opts = Options::ENABLE_STRIKETHROUGH | Options::ENABLE_TASKLISTS;
    Parser::new_ext(input, opts).map(|e| match e {
        Event::Start(Tag::Item) => MdEvent::Item,
        Event::Start(Tag::Emphasis) => MdEvent::Emphasis,
        Event::Start(Tag::Strong) => MdEvent::Strong,
        Event::Start(Tag::Strikethrough) => MdEvent::Strikethrough,
        Event::Start(Tag::Link { dest_url, .. }) => MdEvent::Link(dest_url.to_string()),
        Event::Start(Tag::Image { dest_url, .. }) => MdEvent::Image(dest_url.to_string()),
        _ => MdEvent::Other,
    }).collect()
}

/// End events of the same parse.
#[verifier::external_body]
fn end_events(input: &str) -> (r: Vec<MdEvent>)
    ensures
        r@ == md_ends(input@),
        r@.len() == md_block_starts(input@).len(),
{
    let opts = Options::ENABLE_STRIKETHROUGH | Options::ENABLE_TASKLISTS;
    Parser::new_ext(input, opts).map(|e| match e {
        Event::End(TagEnd::Heading(_)) => MdEvent::EndHeading,
        Event::End(TagEnd::Paragraph) => MdEvent::EndParagraph,
        Event::End(TagEnd::BlockQuote(_)) => MdEvent::EndBlockQuote,
        Event::End(TagEnd::CodeBlock) => MdEvent::EndCodeBlock,
        Event::End(TagEnd::List(_)) => MdEvent::EndList,
        Event::End(TagEnd::Item) => MdEvent::EndItem,
        Event::End(TagEnd::Emphasis | TagEnd::Strong | TagEnd::Strikethrough) => MdEvent::EndStyle,
        Event::End(TagEnd::Link) => MdEvent::EndLink,
        Event::End(TagEnd::Image) => MdEvent::EndImage,
        _ => MdEvent::Other,
    }).collect()
}

/// Text, code, breaks, rules and task markers of the same parse.
#[verifier::external_body]
fn leaf_events(input: &str) -> (r: Vec<MdEvent>)
    ensures
        r@ == md_leaves(input@),
        r@.len() == md_block_starts(input@).len(),
{
    let opts = Options::ENABLE_STRIKETHROUGH | Options::ENABLE_TASKLISTS;
    Parser::new_ext(input, opts).map(|e| match e {
        Event::Text(t) => MdEvent::Text(t.to_string()),
        Event::Code(t) => MdEvent::Code(t.to_string()),
        Event::SoftBreak => MdEvent::SoftBreak,
        Event::HardBreak => MdEvent::HardBreak,
        Event::Rule => MdEvent::Rule,
        Event::TaskListMarker(checked) => MdEvent::TaskListMarker(checked),
        _ => MdEvent::Other,
    }).collect()
}

/// The first reading of an event that is not `Other`.
pub open spec fn pick(a: MdEvent, b: MdEvent, c: MdEvent, d: MdEvent) -> MdEvent {
    if a != MdEvent::Other {
        a
    } else if b != MdEvent::Other {
        b
    } else if c != MdEvent::Other {
        c
    } else {
        d
    }
}

/// The events of `input`.
pub open spec fn md_events(input: Seq<char>) -> Seq<MdEvent> {
    let a = md_block_starts(input);
    Seq::new(
        a.len(),
        |i: int| pick(a[i], md_inline_starts(input)[i], md_ends(input)[i], md_leaves(input)[i]),
    )
}

fn is_other(e: &MdEvent) -> (r: bool)
    ensures
        r == (*e == MdEvent::Other),
{
    match e {
        MdEvent::Other => true,
        _ => false,
    }
}

pub fn clone_event(e: &MdEvent) -> (r: MdEvent)
    ensures
        r == *e,
{
    match e {
        MdEvent::Heading(l) => MdEvent::Heading(*l),
        MdEvent::BlockQuote => MdEvent::BlockQuote,
        MdEvent::CodeBlock(s) => MdEvent::CodeBlock(s.clone()),
        MdEvent::List(n) => MdEvent::List(*n),
        MdEvent::Item => MdEvent::Item,
        MdEvent::Emphasis => MdEvent::Emphasis,
        MdEvent::Strong => MdEvent::Strong,
        MdEvent::Strikethrough => MdEvent::Strikethrough,
        MdEvent::Link(s) => MdEvent::Link(s.clone()),
        MdEvent::Image(s) => MdEvent::Image(s.clone()),
        MdEvent::EndHeading => MdEvent::EndHeading,
        MdEvent::EndParagraph => MdEvent::EndParagraph,
        MdEvent::EndBlockQuote => MdEvent::EndBlockQuote,
        MdEvent::EndCodeBlock => MdEvent::EndCodeBlock,
        MdEvent::EndList => MdEvent::EndList,
        MdEvent::EndItem => MdEvent::EndItem,
        MdEvent::EndStyle => MdEvent::EndStyle,
        MdEvent::EndLink => MdEvent::EndLink,
        MdEvent::EndImage => MdEvent::EndImage,
        MdEvent::Text(s) => MdEvent::Text(s.clone()),
        MdEvent::Code(s) => MdEvent::Code(s.clone()),
        MdEvent::SoftBreak => MdEvent::SoftBreak,
        MdEvent::HardBreak => MdEvent::HardBreak,
        MdEvent::Rule => MdEvent::Rule,
        MdEvent::TaskListMarker(b) => MdEvent::TaskListMarker(*b),
        MdEvent::Other => MdEvent::Other,
    }
}

/// Parses `input` into the events the renderer reads.
pub fn parse_events(input: &str) -> (v: Vec<MdEvent>)
    ensures
        v@ == md_events(input@),
{
    let a = block_starts(input);
    let b = inline_starts(input);
    let c = end_events(input);
    let d = leaf_events(input);
    let ghost target = md_events(input@);
    let mut out: Vec<MdEvent> = Vec::new();
    let mut i: usize = 0;
    assert(out@ =~= target.take(0));
    while i < a.len()
        invariant
            i <= a.len() == b.len() == c.len() == d.len(),
            a@ == md_block_starts(input@),
            b@ == md_inline_starts(input@),
            c@ == md_ends(input@),
            d@ == md_leaves(input@),
            target == md_events(input@),
            out@ == target.take(i as int),
        decreases a.len() - i,
    {
        let e = if !is_other(&a[i]) {
            clone_event(&a[i])
        } else if !is_other(&b[i]) {
            clone_event(&b[i])
        } else if !is_other(&c[i]) {
            clone_event(&c[i])
        } else {
            clone_event(&d[i])
        };
        out.push(e);
        proof {
            assert(out@ =~= target.take(i + 1));
        }
        i = i + 1;
    }
    out
}


// ── chunks ──────────────────────────────────────────────────────────────

/// A piece of the rendered body: styled text lines, an image, or a Mermaid
/// diagram's source.
#[derive(Debug, Clone, PartialEq, Eq)]
pub enum BodyChunk {
    Text(Vec<Line>),
    Image { url: String, alt: String },
    Mermaid { source: String },
}

#[verifier::ext_equal]
pub enum ChunkV {
    Text(Seq<Seq<(Seq<char>, Style)>>),
    Image(Seq<char>, Seq<char>),
    Mermaid(Seq<char>),
}

impl View for BodyChunk {
    type V = ChunkV;

    open spec fn view(&self) -> ChunkV {
        match self {
            BodyChunk::Text(v) => ChunkV::Text(lines_view(v@)),
            BodyChunk::Image { url, alt } => ChunkV::Image(url@, alt@),
            BodyChunk::Mermaid { source } => ChunkV::Mermaid(source@),
        }
    }
}

pub open spec fn chunks_view(v: Seq<BodyChunk>) -> Seq<ChunkV> {
    v.map_values(|c: BodyChunk| c@)
}

/// Rows reserved for an inline image.
pub const IMAGE_HEIGHT_ROWS: u16 = 12;

/// Rows reserved for a Mermaid diagram.
pub const MERMAID_HEIGHT_ROWS: u16 = 16;

impl BodyChunk {
    /// Rows the chunk takes: its line count (at most `u16::MAX`) for text,
    /// a fixed reservation for images and diagrams.
    pub fn height(&self) -> (h: u16)
        ensures
            h == match *self {
                BodyChunk::Text(v) => if v@.len() > u16::MAX {
                    u16::MAX as int
                } else {
                    v@.len() as int
                },
                BodyChunk::Image { .. } => IMAGE_HEIGHT_ROWS as int,
                BodyChunk::Mermaid { .. } => MERMAID_HEIGHT_ROWS as int,
            },
    {
        match self {
            BodyChunk::Text(v) => {
                if v.len() > 65535 {
                    u16::MAX
                } else {
                    v.len() as u16
                }
            },
            BodyChunk::Image { .. } => IMAGE_HEIGHT_ROWS,
            BodyChunk::Mermaid { .. } => MERMAID_HEIGHT_ROWS,
        }
    }
}

// ── renderer state ──────────────────────────────────────────────────────

/// An open list: the next number for ordered lists, and whether an item
/// has started.
#[derive(Debug, Clone, Copy, PartialEq, Eq)]
pub struct ListCtx {
    pub next_number: Option<u64>,
    pub item_started: bool,
}

pub struct Renderer {
    /// Finished chunks.
    pub chunks: Vec<BodyChunk>,
    /// Lines of the text chunk being built.
    pub out: Vec<Line>,
    /// Spans of the line being built.
    pub cur: Vec<Span>,
    pub style_stack: Vec<Style>,
    pub list_stack: Vec<ListCtx>,
    /// The info string while inside a fenced or indented code block.
    pub in_code: Option<String>,
    pub code_lines: Vec<String>,
    pub in_blockquote: bool,
    /// The URL of the open link and the spans before it.
    pub link_url: Option<String>,
    pub link_spans: Vec<Span>,
    /// The alt text and URL of the open image.
    pub image_alt: Option<String>,
    pub image_url: Option<String>,
}

#[verifier::ext_equal]
pub struct RView {
    pub chunks: Seq<ChunkV>,
    pub out: Seq<Seq<(Seq<char>, Style)>>,
    pub cur: Seq<(Seq<char>, Style)>,
    pub styles: Seq<Style>,
    pub lists: Seq<ListCtx>,
    pub in_code: Option<Seq<char>>,
    pub code_lines: Seq<Seq<char>>,
    pub in_blockquote: bool,
    pub link_url: Option<Seq<char>>,
    pub link_spans: Seq<(Seq<char>, Style)>,
    pub image_alt: Option<Seq<char>>,
    pub image_url: Option<Seq<char>>,
}

pub open spec fn opt_view(o: Option<String>) -> Option<Seq<char>> {
    match o {
        Some(s) => Some(s@),
        None => None,
    }
}

impl View for Renderer {
    type V = RView;

    open spec fn view(&self) -> RView {
        RView {
            chunks: chunks_view(self.chunks@),
            out: lines_view(self.out@),
            cur: spans_view(self.cur@),
            styles: self.style_stack@,
            lists: self.list_stack@,
            in_code: opt_view(self.in_code),
            code_lines: self.code_lines@.map_values(|s: String| s@),
            in_blockquote: self.in_blockquote,
            link_url: opt_view(self.link_url),
            link_spans: spans_view(self.link_spans@),
            image_alt: opt_view(self.image_alt),
            image_url: opt_view(self.image_url),
        }
    }
}

pub open spec fn initial_view() -> RView {
    RView {
        chunks: Seq::empty(),
        out: Seq::empty(),
        cur: Seq::empty(),
        styles: Seq::empty(),
        lists: Seq::empty(),
        in_code: None,
        code_lines: Seq::empty(),
        in_blockquote: false,
        link_url: None,
        link_spans: Seq::empty(),
        image_alt: None,
        image_url: None,
    }
}

// ── the rules ───────────────────────────────────────────────────────────

pub open spec fn dim() -> Style {
    Style::fg_spec(Color::DarkGray)
}

/// Ends the current line: its spans become a line (behind `▏ ` inside a
/// block quote); nothing happens when it is empty.
pub open spec fn flush_line_v(r: RView) -> RView {
    if r.cur.len() == 0 {
        r
    } else {
        RView {
            out: r.out.push(
                if r.in_blockquote {
                    seq![("▏ "@, dim())] + r.cur
                } else {
                    r.cur
                },
            ),
            cur: Seq::empty(),
            ..r
        }
    }
}

/// Moves the lines built so far into a text chunk, if there are any.
pub open spec fn flush_text_v(r: RView) -> RView {
    if r.out.len() == 0 {
        r
    } else {
        RView { chunks: r.chunks.push(ChunkV::Text(r.out)), out: Seq::empty(), ..r }
    }
}

/// A blank line unless nothing has been written yet.
pub open spec fn blank_unless_empty(r: RView) -> RView {
    if r.out.len() > 0 {
        RView { out: r.out.push(Seq::empty()), ..r }
    } else {
        r
    }
}

/// The open styles layered in order.
pub open spec fn style_of(stack: Seq<Style>) -> Style
    decreases stack.len(),
{
    if stack.len() == 0 {
        Style::plain_spec()
    } else {
        style_of(stack.drop_last()).patch_spec(stack.last())
    }
}

pub open spec fn in_list_v(lists: Seq<ListCtx>) -> bool {
    lists.len() > 0 && lists.last().item_started
}

pub open spec fn only_bold() -> Style {
    Style { bold: true, ..Style::plain_spec() }
}

pub open spec fn only_italic() -> Style {
    Style { italic: true, ..Style::plain_spec() }
}

pub open spec fn only_crossed() -> Style {
    Style { crossed_out: true, ..Style::plain_spec() }
}

/// `n + 1`, wrapping at `u64::MAX`.
pub open spec fn next_num(n: u64) -> u64 {
    if n == u64::MAX {
        0
    } else {
        (n + 1) as u64
    }
}

/// `  n. ` for ordered lists, `  • ` at the top level, `    ◦ ` nested.
pub open spec fn marker_text(next: Option<u64>, depth: int) -> Seq<char> {
    match next {
        Some(n) => "  "@ + decimal(n as nat) + ". "@,
        None => if depth == 0 {
            "  • "@
        } else {
            "    ◦ "@
        },
    }
}

/// The link's text in blue, underlined.
pub open spec fn link_style(spans: Seq<(Seq<char>, Style)>) -> Seq<(Seq<char>, Style)> {
    spans.map_values(
        |sp: (Seq<char>, Style)| (sp.0, Style { fg: Some(Color::Blue), underlined: true, ..sp.1 }),
    )
}

pub open spec fn opt_text_or_empty(o: Option<Seq<char>>) -> Seq<char> {
    match o {
        Some(t) => t,
        None => Seq::empty(),
    }
}

/// `s` without trailing `'\n'` characters.
pub open spec fn strip_newlines(s: Seq<char>) -> Seq<char>
    decreases s.len(),
{
    if s.len() > 0 && s.last() == '\n' {
        strip_newlines(s.drop_last())
    } else {
        s
    }
}

pub open spec fn ascii_lower(c: char) -> char {
    if 'A' <= c <= 'Z' {
        ((c as u32) + 32) as char
    } else {
        c
    }
}

/// `s` is `mermaid` ignoring ASCII case.
pub open spec fn is_mermaid(s: Seq<char>) -> bool {
    s.len() == 7 && forall|i: int| 0 <= i < 7 ==> ascii_lower(#[trigger] s[i]) == "mermaid"@[i]
}

pub open spec fn concat(ls: Seq<Seq<char>>) -> Seq<char>
    decreases ls.len(),
{
    if ls.len() == 0 {
        Seq::empty()
    } else {
        concat(ls.drop_last()) + ls.last()
    }
}

/// Ends a code block: a Mermaid block becomes its own chunk; any other
/// block shows its lines in light cyan, fenced by the info string when
/// there is one, then a blank line.
pub open spec fn close_code_v(r: RView) -> RView {
    let lang = opt_text_or_empty(r.in_code);
    let r1 = RView { in_code: None, ..r };
    if is_mermaid(lang) {
        let r2 = flush_text_v(RView { code_lines: Seq::empty(), ..r1 });
        RView { chunks: r2.chunks.push(ChunkV::Mermaid(concat(r.code_lines))), ..r2 }
    } else {
        let open = if lang.len() > 0 {
            seq![seq![("```"@ + lang, dim())]]
        } else {
            Seq::empty()
        };
        let close = if lang.len() > 0 {
            seq![seq![("```"@, dim())]]
        } else {
            Seq::empty()
        };
        let body = r.code_lines.map_values(
            |l: Seq<char>| seq![(strip_newlines(l), Style::fg_spec(Color::LightCyan))],
        );
        RView { out: r.out + open + body + close + seq![Seq::empty()], code_lines: Seq::empty(), ..r1 }
    }
}

pub open spec fn pop_style(r: RView) -> RView {
    RView {
        styles: if r.styles.len() > 0 {
            r.styles.drop_last()
        } else {
            r.styles
        },
        ..r
    }
}

/// What one event does to the renderer.
pub open spec fn handle_spec(r: RView, e: MdEvent) -> RView {
    if r.in_code is Some {
        match e {
            MdEvent::Text(t) => RView { code_lines: r.code_lines.push(t@), ..r },
            MdEvent::EndCodeBlock => close_code_v(r),
            _ => r,
        }
    } else {
        match e {
            MdEvent::Heading(level) => {
                let f = blank_unless_empty(flush_line_v(r));
                RView {
                    cur: f.cur.push(
                        (Seq::new(level as nat, |i: int| '#') + " "@, Style::fg_bold_spec(Color::Magenta)),
                    ),
                    styles: f.styles.push(only_bold()),
                    ..f
                }
            },
            MdEvent::BlockQuote => RView { in_blockquote: true, ..flush_line_v(r) },
            MdEvent::CodeBlock(lang) => RView {
                in_code: Some(lang@),
                code_lines: Seq::empty(),
                ..flush_line_v(r)
            },
            MdEvent::List(start) => {
                let f = flush_line_v(r);
                RView {
                    lists: f.lists.push(ListCtx { next_number: start, item_started: false }),
                    ..f
                }
            },
            MdEvent::Item => {
                let f = flush_line_v(r);
                if f.lists.len() == 0 {
                    f
                } else {
                    let ctx = f.lists.last();
                    let next = match ctx.next_number {
                        Some(n) => Some(next_num(n)),
                        None => None,
                    };
                    RView {
                        lists: f.lists.drop_last().push(ListCtx { next_number: next, item_started: true }),
                        cur: f.cur.push((marker_text(ctx.next_number, f.lists.len() - 1), dim())),
                        ..f
                    }
                }
            },
            MdEvent::Emphasis => RView { styles: r.styles.push(only_italic()), ..r },
            MdEvent::Strong => RView { styles: r.styles.push(only_bold()), ..r },
            MdEvent::Strikethrough => RView { styles: r.styles.push(only_crossed()), ..r },
            MdEvent::Link(url) => RView {
                link_url: Some(url@),
                link_spans: r.cur,
                cur: Seq::empty(),
                ..r
            },
            MdEvent::Image(url) => RView { image_alt: Some(Seq::empty()), image_url: Some(url@), ..r },
            MdEvent::EndHeading => flush_line_v(pop_style(r)),
            MdEvent::EndParagraph => {
                let f = flush_line_v(r);
                if f.out.len() > 0 && !in_list_v(f.lists) {
                    RView { out: f.out.push(Seq::empty()), ..f }
                } else {
                    f
                }
            },
            MdEvent::EndBlockQuote => blank_unless_empty(
                RView { in_blockquote: false, ..flush_line_v(r) },
            ),
            MdEvent::EndList => {
                let f = flush_line_v(r);
                let g = RView {
                    lists: if f.lists.len() > 0 {
                        f.lists.drop_last()
                    } else {
                        f.lists
                    },
                    ..f
                };
                if g.lists.len() == 0 {
                    blank_unless_empty(g)
                } else {
                    g
                }
            },
            MdEvent::EndItem => flush_line_v(r),
            MdEvent::EndStyle => pop_style(r),
            MdEvent::EndLink => {
                let url = opt_text_or_empty(r.link_url);
                let styled = r.link_spans + link_style(r.cur);
                RView {
                    link_url: None,
                    link_spans: Seq::empty(),
                    cur: if url.len() > 0 {
                        styled.push((" ("@ + url + ")"@, dim()))
                    } else {
                        styled
                    },
                    ..r
                }
            },
            MdEvent::EndImage => {
                let alt = opt_text_or_empty(r.image_alt);
                let url = opt_text_or_empty(r.image_url);
                let f = flush_text_v(flush_line_v(RView { image_alt: None, image_url: None, ..r }));
                RView { chunks: f.chunks.push(ChunkV::Image(url, alt)), ..f }
            },
            MdEvent::Text(t) => match r.image_alt {
                Some(buf) => RView { image_alt: Some(buf + t@), ..r },
                None => RView { cur: r.cur.push((t@, style_of(r.styles))), ..r },
            },
            MdEvent::Code(t) => RView { cur: r.cur.push((t@, Style::fg_spec(Color::LightCyan))), ..r },
            MdEvent::SoftBreak => RView { cur: r.cur.push((" "@, style_of(r.styles))), ..r },
            MdEvent::HardBreak => flush_line_v(r),
            MdEvent::Rule => {
                let f = flush_line_v(r);
                RView {
                    out: f.out.push(seq![(Seq::new(60, |i: int| '─'), dim())]).push(Seq::empty()),
                    ..f
                }
            },
            MdEvent::TaskListMarker(checked) => RView {
                cur: r.cur.push(
                    if checked {
                        ("[x] "@, Style::fg_spec(Color::Green))
                    } else {
                        ("[ ] "@, dim())
                    },
                ),
                ..r
            },
            _ => r,
        }
    }
}

pub open spec fn run_events(evs: Seq<MdEvent>) -> RView
    decreases evs.len(),
{
    if evs.len() == 0 {
        initial_view()
    } else {
        handle_spec(run_events(evs.drop_last()), evs.last())
    }
}

/// `r` after handling the events `evs` in order.
pub open spec fn run_from(r: RView, evs: Seq<MdEvent>) -> RView
    decreases evs.len(),
{
    if evs.len() == 0 {
        r
    } else {
        handle_spec(run_from(r, evs.drop_last()), evs.last())
    }
}

/// The events of source lines `ts` joined by soft line breaks:
/// `Text(ts[0])`, `SoftBreak`, `Text(ts[1])`, ...
pub open spec fn soft_joined(ts: Seq<String>) -> Seq<MdEvent>
    decreases ts.len(),
{
    if ts.len() == 0 {
        Seq::empty()
    } else if ts.len() == 1 {
        seq![MdEvent::Text(ts[0])]
    } else {
        soft_joined(ts.drop_last()) + seq![MdEvent::SoftBreak, MdEvent::Text(ts.last())]
    }
}

/// The texts `ts` with one space between each two.
pub open spec fn spaced(ts: Seq<String>) -> Seq<char>
    decreases ts.len(),
{
    if ts.len() == 0 {
        Seq::empty()
    } else if ts.len() == 1 {
        ts[0]@
    } else {
        spaced(ts.drop_last()) + " "@ + ts.last()@
    }
}

proof fn lemma_run_from_concat(r: RView, a: Seq<MdEvent>, b: Seq<MdEvent>)
    ensures
        run_from(r, a + b) == run_from(run_from(r, a), b),
    decreases b.len(),
{
    if b.len() == 0 {
        assert(a + b =~= a);
    } else {
        lemma_run_from_concat(r, a, b.drop_last());
        assert((a + b).drop_last() =~= a + b.drop_last());
        assert((a + b).last() == b.last());
    }
}

proof fn lemma_text_push(v: Seq<(Seq<char>, Style)>, x: (Seq<char>, Style))
    ensures
        Line::text_spec(v.push(x)) == Line::text_spec(v) + x.0,
{
    assert(v.push(x).drop_last() =~= v);
}

/// Outside code blocks and image descriptions, lines joined by soft breaks
/// continue the current line: its text grows by the lines' text with
/// exactly one space at each break, every new span (the spaces too) in the
/// current style, and nothing else changes.
pub proof fn law_soft_break_is_one_space(r: RView, ts: Seq<String>)
    requires
        r.in_code is None,
        r.image_alt is None,
    ensures
        Line::text_spec(run_from(r, soft_joined(ts)).cur) == Line::text_spec(r.cur) + spaced(ts),
        run_from(r, soft_joined(ts)).cur.take(r.cur.len() as int) == r.cur,
        forall|i: int|
            r.cur.len() <= i < run_from(r, soft_joined(ts)).cur.len() ==> (#[trigger] run_from(
                r,
                soft_joined(ts),
            ).cur[i]).1 == style_of(r.styles),
        run_from(r, soft_joined(ts)) == (RView { cur: run_from(r, soft_joined(ts)).cur, ..r }),
        ts.len() > 0 ==> run_from(r, soft_joined(ts)).cur.len() > r.cur.len(),
    decreases ts.len(),
{
    let s = run_from(r, soft_joined(ts));
    if ts.len() == 0 {
        assert(s == r);
        assert(r.cur.take(r.cur.len() as int) =~= r.cur);
        assert(Line::text_spec(r.cur) + spaced(ts) =~= Line::text_spec(r.cur));
    } else if ts.len() == 1 {
        let ev = seq![MdEvent::Text(ts[0])];
        assert(ev.drop_last() =~= Seq::<MdEvent>::empty());
        assert(s == handle_spec(r, MdEvent::Text(ts[0])));
        lemma_text_push(r.cur, (ts[0]@, style_of(r.styles)));
        assert(s.cur.take(r.cur.len() as int) =~= r.cur);
        assert(s =~= (RView { cur: s.cur, ..r }));
    } else {
        let pre = ts.drop_last();
        law_soft_break_is_one_space(r, pre);
        let m = run_from(r, soft_joined(pre));
        let tail = seq![MdEvent::SoftBreak, MdEvent::Text(ts.last())];
        lemma_run_from_concat(r, soft_joined(pre), tail);
        assert(tail.drop_last() =~= seq![MdEvent::SoftBreak]);
        assert(seq![MdEvent::SoftBreak].drop_last() =~= Seq::<MdEvent>::empty());
        let m1 = handle_spec(m, MdEvent::SoftBreak);
        assert(run_from(m, Seq::<MdEvent>::empty()) == m);
        assert(run_from(m, seq![MdEvent::SoftBreak]) == m1);
        assert(run_from(m, tail) == handle_spec(m1, MdEvent::Text(ts.last())));
        assert(s == handle_spec(m1, MdEvent::Text(ts.last())));
        assert(m.styles == r.styles);
        lemma_text_push(m.cur, (" "@, style_of(r.styles)));
        lemma_text_push(m1.cur, (ts.last()@, style_of(r.styles)));
        assert(s.cur == m.cur.push((" "@, style_of(r.styles))).push((ts.last()@, style_of(r.styles))));
        assert(Line::text_spec(s.cur) =~= Line::text_spec(r.cur) + spaced(ts));
        assert(s.cur.take(r.cur.len() as int) =~= m.cur.take(r.cur.len() as int));
        assert forall|i: int| r.cur.len() <= i < s.cur.len() implies (#[trigger] s.cur[i]).1 == style_of(
            r.styles,
        ) by {
            if i < m.cur.len() {
                assert(s.cur[i] == m.cur[i]);
            }
        }
        assert(s =~= (RView { cur: s.cur, ..r }));
    }
}

/// A paragraph of source lines joined by soft breaks, started on an empty
/// line outside lists, block quotes, code blocks and images, renders as one
/// line: the lines' text with exactly one space at each break, followed by
/// a blank line.
pub proof fn law_soft_broken_paragraph(r: RView, ts: Seq<String>)
    requires
        r.in_code is None,
        r.image_alt is None,
        r.cur.len() == 0,
        !r.in_blockquote,
        !in_list_v(r.lists),
        ts.len() > 0,
    ensures
        run_from(r, soft_joined(ts).push(MdEvent::EndParagraph)).out.len() == r.out.len() + 2,
        run_from(r, soft_joined(ts).push(MdEvent::EndParagraph)).out.take(r.out.len() as int) == r.out,
        Line::text_spec(run_from(r, soft_joined(ts).push(MdEvent::EndParagraph)).out[r.out.len() as int])
            == spaced(ts),
        run_from(r, soft_joined(ts).push(MdEvent::EndParagraph)).out[r.out.len() + 1int] == Seq::<
            (Seq<char>, Style),
        >::empty(),
{
    law_soft_break_is_one_space(r, ts);
    let m = run_from(r, soft_joined(ts));
    let evs = soft_joined(ts).push(MdEvent::EndParagraph);
    assert(evs.drop_last() =~= soft_joined(ts));
    let s = run_from(r, evs);
    assert(s == handle_spec(m, MdEvent::EndParagraph));
    assert(Line::text_spec(r.cur) =~= Seq::<char>::empty());
    assert(Line::text_spec(m.cur) =~= spaced(ts));
    let f = flush_line_v(m);
    assert(f.out == r.out.push(m.cur));
    assert(s.out == r.out.push(m.cur).push(Seq::<(Seq<char>, Style)>::empty()));
    assert(s.out.take(r.out.len() as int) =~= r.out);
}

/// The chunks of a body.
pub open spec fn chunks_of(input: Seq<char>) -> Seq<ChunkV> {
    flush_text_v(flush_line_v(run_events(md_events(input)))).chunks
}


// ── exec ────────────────────────────────────────────────────────────────

fn span(text: String, style: Style) -> (sp: Span)
    ensures
        sp@ == (text@, style),
{
    Span::styled(text, style)
}

fn push_span(v: &mut Vec<Span>, sp: Span)
    ensures
        spans_view(final(v)@) == spans_view(old(v)@).push(sp@),
{
    let ghost before = spans_view(v@);
    v.push(sp);
    assert(spans_view(v@) =~= before.push(sp@));
}

fn push_line(v: &mut Vec<Line>, l: Line)
    ensures
        lines_view(final(v)@) == lines_view(old(v)@).push(l@),
{
    let ghost before = lines_view(v@);
    v.push(l);
    assert(lines_view(v@) =~= before.push(l@));
}

fn push_chunk(v: &mut Vec<BodyChunk>, c: BodyChunk)
    ensures
        chunks_view(final(v)@) == chunks_view(old(v)@).push(c@),
{
    let ghost before = chunks_view(v@);
    v.push(c);
    assert(chunks_view(v@) =~= before.push(c@));
}

fn repeat_char(c: char, n: usize) -> (s: String)
    ensures
        s@ == Seq::new(n as nat, |i: int| c),
{
    let mut s = String::new();
    let mut k: usize = 0;
    while k < n
        invariant
            k <= n,
            s@ == Seq::new(k as nat, |i: int| c),
        decreases n - k,
    {
        push_char(&mut s, c);
        k = k + 1;
        assert(s@ =~= Seq::new(k as nat, |i: int| c));
    }
    s
}

fn strip_newlines_text(s: &String) -> (r: String)
    ensures
        r@ == strip_newlines(s@),
{
    let cs = to_chars(s.as_str());
    let mut n = cs.len();
    assert(cs@.take(n as int) =~= cs@);
    while n > 0 && cs[n - 1] == '\n'
        invariant
            n <= cs.len(),
            cs@ == s@,
            strip_newlines(cs@.take(n as int)) == strip_newlines(s@),
        decreases n,
    {
        assert(cs@.take(n as int).drop_last() =~= cs@.take(n - 1));
        n = n - 1;
    }
    assert(cs@.subrange(0, n as int) =~= cs@.take(n as int));
    substring(&cs, 0, n)
}

fn mermaid_lang(lang: &String) -> (b: bool)
    ensures
        b == is_mermaid(lang@),
{
    proof {
        reveal_strlit("mermaid");
    }
    let cs = to_chars(lang.as_str());
    let target = to_chars("mermaid");
    if cs.len() != 7 || target.len() != 7 {
        return false;
    }
    let mut k: usize = 0;
    while k < 7
        invariant
            k <= 7,
            cs.len() == 7,
            cs@ == lang@,
            target@ == "mermaid"@,
            target.len() == 7,
            forall|i: int| 0 <= i < k ==> ascii_lower(#[trigger] cs@[i]) == target@[i],
        decreases 7 - k,
    {
        let c = cs[k];
        let lower = if 'A' <= c && c <= 'Z' {
            ((c as u32) + 32) as u8 as char
        } else {
            c
        };
        assert(lower == ascii_lower(c)) by {
            if 'A' <= c && c <= 'Z' {
                assert((c as u32) + 32 < 256);
            }
        }
        if lower != target[k] {
            return false;
        }
        k = k + 1;
    }
    true
}

impl Renderer {
    pub fn new() -> (r: Renderer)
        ensures
            r@ == initial_view(),
    {
        let r = Renderer {
            chunks: Vec::new(),
            out: Vec::new(),
            cur: Vec::new(),
            style_stack: Vec::new(),
            list_stack: Vec::new(),
            in_code: None,
            code_lines: Vec::new(),
            in_blockquote: false,
            link_url: None,
            link_spans: Vec::new(),
            image_alt: None,
            image_url: None,
        };
        assert(r@ =~= initial_view());
        r
    }

    /// Ends the current line (see [`flush_line_v`]).
    pub fn flush_line(&mut self)
        ensures
            final(self)@ == flush_line_v(old(self)@),
    {
        if self.cur.len() == 0 {
            assert(spans_view(self.cur@).len() == 0);
            return;
        }
        let mut spans: Vec<Span> = Vec::new();
        std::mem::swap(&mut spans, &mut self.cur);
        let ghost taken = spans_view(spans@);
        let line = if self.in_blockquote {
            let mut v: Vec<Span> = Vec::new();
            push_span(&mut v, span("▏ ".to_owned(), Style::fg(Color::DarkGray)));
            append_spans(&mut v, spans);
            Line::from_spans(v)
        } else {
            Line::from_spans(spans)
        };
        assert(line@ == (if self.in_blockquote {
            seq![("▏ "@, dim())] + taken
        } else {
            taken
        }));
        push_line(&mut self.out, line);
        assert(self@ =~= flush_line_v(old(self)@));
    }

    /// Moves the lines built so far into a text chunk.
    pub fn flush_text_chunk(&mut self)
        ensures
            final(self)@ == flush_text_v(old(self)@),
    {
        if self.out.len() == 0 {
            assert(lines_view(self.out@).len() == 0);
            return;
        }
        let mut lines: Vec<Line> = Vec::new();
        std::mem::swap(&mut lines, &mut self.out);
        push_chunk(&mut self.chunks, BodyChunk::Text(lines));
        assert(self@ =~= flush_text_v(old(self)@));
    }

    pub fn current_style(&self) -> (s: Style)
        ensures
            s == style_of(self@.styles),
    {
        let mut style = Style::plain();
        let mut k: usize = 0;
        while k < self.style_stack.len()
            invariant
                k <= self.style_stack.len(),
                style == style_of(self.style_stack@.take(k as int)),
            decreases self.style_stack.len() - k,
        {
            assert(self.style_stack@.take(k + 1).drop_last() =~= self.style_stack@.take(k as int));
            style = style.patch(self.style_stack[k]);
            k = k + 1;
        }
        assert(self.style_stack@.take(k as int) =~= self.style_stack@);
        style
    }

    fn blank_unless_empty(&mut self)
        ensures
            final(self)@ == blank_unless_empty(old(self)@),
    {
        if self.out.len() > 0 {
            push_line(&mut self.out, Line::blank());
        }
        assert(self@ =~= blank_unless_empty(old(self)@));
    }

    fn pop_style(&mut self)
        ensures
            final(self)@ == pop_style(old(self)@),
    {
        if self.style_stack.len() > 0 {
            self.style_stack.pop();
        }
        assert(self@ =~= pop_style(old(self)@));
    }

    /// Ends a code block (see [`close_code_v`]).
    pub fn close_code_block(&mut self)
        ensures
            final(self)@ == close_code_v(old(self)@),
    {
        let ghost r0 = self@;
        let mut lang_opt: Option<String> = None;
        std::mem::swap(&mut lang_opt, &mut self.in_code);
        let lang = match lang_opt {
            Some(l) => l,
            None => String::new(),
        };
        assert(lang@ == opt_text_or_empty(r0.in_code));
        let mut code: Vec<String> = Vec::new();
        std::mem::swap(&mut code, &mut self.code_lines);
        let ghost cl = code@.map_values(|s: String| s@);
        assert(cl == r0.code_lines);
        if mermaid_lang(&lang) {
            let mut source = String::new();
            let mut k: usize = 0;
            while k < code.len()
                invariant
                    k <= code.len(),
                    cl == code@.map_values(|s: String| s@),
                    source@ == concat(cl.take(k as int)),
                decreases code.len() - k,
            {
                assert(cl.take(k + 1).drop_last() =~= cl.take(k as int));
                source.append(code[k].as_str());
                k = k + 1;
            }
            assert(cl.take(k as int) =~= cl);
            assert(self.code_lines@.map_values(|s: String| s@) =~= Seq::<Seq<char>>::empty());
            self.flush_text_chunk();
            push_chunk(&mut self.chunks, BodyChunk::Mermaid { source });
            assert(self@ =~= close_code_v(r0));
            return;
        }
        let mut out: Vec<Line> = Vec::new();
        std::mem::swap(&mut out, &mut self.out);
        let ghost out0 = lines_view(out@);
        let has_lang = !lang.as_str().is_empty();
        if has_lang {
            let mut t = "```".to_owned();
            t.append(lang.as_str());
            push_line(&mut out, Line::single(t, Style::fg(Color::DarkGray)));
        }
        let ghost open = if lang@.len() > 0 {
            seq![seq![("```"@ + lang@, dim())]]
        } else {
            Seq::<Seq<(Seq<char>, Style)>>::empty()
        };
        assert(lines_view(out@) =~= out0 + open);
        let ghost body = cl.map_values(
            |l: Seq<char>| seq![(strip_newlines(l), Style::fg_spec(Color::LightCyan))],
        );
        let mut k: usize = 0;
        while k < code.len()
            invariant
                k <= code.len(),
                cl == code@.map_values(|s: String| s@),
                body == cl.map_values(
                    |l: Seq<char>| seq![(strip_newlines(l), Style::fg_spec(Color::LightCyan))],
                ),
                lines_view(out@) == out0 + open + body.take(k as int),
            decreases code.len() - k,
        {
            let text = strip_newlines_text(&code[k]);
            let l = Line::single(text, Style::fg(Color::LightCyan));
            assert(l@ == body[k as int]);
            push_line(&mut out, l);
            assert(body.take(k + 1) =~= body.take(k as int).push(body[k as int]));
            assert(lines_view(out@) =~= out0 + open + body.take(k + 1));
            k = k + 1;
        }
        assert(body.take(k as int) =~= body);
        if has_lang {
            push_line(&mut out, Line::single("```".to_owned(), Style::fg(Color::DarkGray)));
        }
        push_line(&mut out, Line::blank());
        assert(lines_view(out@) =~= out0 + open + body + (if lang@.len() > 0 {
            seq![seq![("```"@, dim())]]
        } else {
            Seq::<Seq<(Seq<char>, Style)>>::empty()
        }) + seq![Seq::<(Seq<char>, Style)>::empty()]);
        std::mem::swap(&mut out, &mut self.out);
        assert(self.code_lines@.map_values(|s: String| s@) =~= Seq::<Seq<char>>::empty());
        assert(self@ =~= close_code_v(r0));
    }
}


impl Renderer {
    fn heading(&mut self, level: u8)
        requires
            old(self)@.in_code is None,
        ensures
            final(self)@ == handle_spec(old(self)@, MdEvent::Heading(level)),
    {
        let ghost r0 = self@;
        self.flush_line();
        self.blank_unless_empty();
        let mut prefix = repeat_char('#', level as usize);
        push_char(&mut prefix, ' ');
        proof {
            reveal_strlit(" ");
        }
        assert(prefix@ =~= Seq::new(level as nat, |i: int| '#') + " "@);
        push_span(&mut self.cur, span(prefix, Style::fg_bold(Color::Magenta)));
        self.style_stack.push(Style {
            fg: None,
            bg: None,
            bold: true,
            italic: false,
            underlined: false,
            crossed_out: false,
        });
        assert(self@ =~= handle_spec(r0, MdEvent::Heading(level)));
    }

    fn item(&mut self)
        requires
            old(self)@.in_code is None,
        ensures
            final(self)@ == handle_spec(old(self)@, MdEvent::Item),
    {
        let ghost r0 = self@;
        self.flush_line();
        let ghost f = self@;
        if self.list_stack.len() == 0 {
            return;
        }
        let depth = self.list_stack.len() - 1;
        let ctx = self.list_stack[depth];
        let next = match ctx.next_number {
            Some(n) => Some(n.wrapping_add(1)),
            None => None,
        };
        let marker = match ctx.next_number {
            Some(n) => {
                let mut m = "  ".to_owned();
                push_decimal(&mut m, n);
                m.append(". ");
                m
            },
            None => if depth == 0 {
                "  • ".to_owned()
            } else {
                "    ◦ ".to_owned()
            },
        };
        assert(marker@ == marker_text(ctx.next_number, depth as int));
        self.list_stack.pop();
        self.list_stack.push(ListCtx { next_number: next, item_started: true });
        push_span(&mut self.cur, span(marker, Style::fg(Color::DarkGray)));
        assert(self@ =~= handle_spec(r0, MdEvent::Item));
    }

    fn end_link(&mut self)
        requires
            old(self)@.in_code is None,
        ensures
            final(self)@ == handle_spec(old(self)@, MdEvent::EndLink),
    {
        let ghost r0 = self@;
        let mut url_opt: Option<String> = None;
        std::mem::swap(&mut url_opt, &mut self.link_url);
        let url = match url_opt {
            Some(u) => u,
            None => String::new(),
        };
        let mut collected: Vec<Span> = Vec::new();
        std::mem::swap(&mut collected, &mut self.cur);
        let mut prior: Vec<Span> = Vec::new();
        std::mem::swap(&mut prior, &mut self.link_spans);
        let ghost p0 = spans_view(prior@);
        let ghost cv = spans_view(collected@);
        let mut k: usize = 0;
        while k < collected.len()
            invariant
                k <= collected.len(),
                cv == spans_view(collected@),
                spans_view(prior@) == p0 + link_style(cv.take(k as int)),
            decreases collected.len() - k,
        {
            let sp = &collected[k];
            let st = Style {
                fg: Some(Color::Blue),
                bg: sp.style.bg,
                bold: sp.style.bold,
                italic: sp.style.italic,
                underlined: true,
                crossed_out: sp.style.crossed_out,
            };
            let styled = span(sp.content.clone(), st);
            push_span(&mut prior, styled);
            assert(link_style(cv.take(k + 1)) =~= link_style(cv.take(k as int)).push(styled@));
            k = k + 1;
        }
        assert(cv.take(k as int) =~= cv);
        if !url.as_str().is_empty() {
            let mut t = " (".to_owned();
            t.append(url.as_str());
            t.append(")");
            push_span(&mut prior, span(t, Style::fg(Color::DarkGray)));
        }
        self.cur = prior;
        assert(spans_view(self.link_spans@) =~= Seq::<(Seq<char>, Style)>::empty());
        assert(self@ =~= handle_spec(r0, MdEvent::EndLink));
    }

    fn end_image(&mut self)
        requires
            old(self)@.in_code is None,
        ensures
            final(self)@ == handle_spec(old(self)@, MdEvent::EndImage),
    {
        let ghost r0 = self@;
        let mut alt_opt: Option<String> = None;
        std::mem::swap(&mut alt_opt, &mut self.image_alt);
        let mut url_opt: Option<String> = None;
        std::mem::swap(&mut url_opt, &mut self.image_url);
        let alt = match alt_opt {
            Some(a) => a,
            None => String::new(),
        };
        let url = match url_opt {
            Some(u) => u,
            None => String::new(),
        };
        assert(self@ =~= RView { image_alt: None, image_url: None, ..r0 });
        self.flush_line();
        self.flush_text_chunk();
        push_chunk(&mut self.chunks, BodyChunk::Image { url, alt });
        assert(self@ =~= handle_spec(r0, MdEvent::EndImage));
    }

    fn end_list(&mut self)
        requires
            old(self)@.in_code is None,
        ensures
            final(self)@ == handle_spec(old(self)@, MdEvent::EndList),
    {
        let ghost r0 = self@;
        self.flush_line();
        if self.list_stack.len() > 0 {
            self.list_stack.pop();
        }
        if self.list_stack.len() == 0 {
            self.blank_unless_empty();
        }
        assert(self@ =~= handle_spec(r0, MdEvent::EndList));
    }

    fn text(&mut self, t: String)
        requires
            old(self)@.in_code is None,
        ensures
            final(self)@ == handle_spec(old(self)@, MdEvent::Text(t)),
    {
        let ghost r0 = self@;
        let ghost tv = t@;
        let mut alt: Option<String> = None;
        std::mem::swap(&mut alt, &mut self.image_alt);
        match alt {
            Some(mut buf) => {
                buf.append(t.as_str());
                self.image_alt = Some(buf);
            },
            None => {
                let style = self.current_style();
                push_span(&mut self.cur, span(t, style));
            },
        }
        assert(self@ =~= handle_spec(r0, MdEvent::Text(t)));
    }

    /// Applies one event (see [`handle_spec`]).
    pub fn handle(&mut self, ev: MdEvent)
        ensures
            final(self)@ == handle_spec(old(self)@, ev),
    {
        let ghost r0 = self@;
        let ghost e0 = ev;
        if self.in_code.is_some() {
            match ev {
                MdEvent::Text(t) => {
                    let ghost before = self.code_lines@.map_values(|s: String| s@);
                    let ghost tv = t@;
                    self.code_lines.push(t);
                    assert(self.code_lines@.map_values(|s: String| s@) =~= before.push(tv));
                    assert(self@ =~= handle_spec(r0, e0));
                },
                MdEvent::EndCodeBlock => self.close_code_block(),
                _ => {},
            }
            return;
        }
        match ev {
            MdEvent::Heading(level) => self.heading(level),
            MdEvent::BlockQuote => {
                self.flush_line();
                self.in_blockquote = true;
                assert(self@ =~= handle_spec(r0, e0));
            },
            MdEvent::CodeBlock(lang) => {
                self.flush_line();
                self.in_code = Some(lang);
                self.code_lines = Vec::new();
                assert(self.code_lines@.map_values(|s: String| s@) =~= Seq::<Seq<char>>::empty());
                assert(self@ =~= handle_spec(r0, e0));
            },
            MdEvent::List(start) => {
                self.flush_line();
                self.list_stack.push(ListCtx { next_number: start, item_started: false });
                assert(self@ =~= handle_spec(r0, e0));
            },
            MdEvent::Item => self.item(),
            MdEvent::Emphasis => {
                self.style_stack.push(Style {
                    fg: None,
                    bg: None,
                    bold: false,
                    italic: true,
                    underlined: false,
                    crossed_out: false,
                });
                assert(self@ =~= handle_spec(r0, e0));
            },
            MdEvent::Strong => {
                self.style_stack.push(Style {
                    fg: None,
                    bg: None,
                    bold: true,
                    italic: false,
                    underlined: false,
                    crossed_out: false,
                });
                assert(self@ =~= handle_spec(r0, e0));
            },
            MdEvent::Strikethrough => {
                self.style_stack.push(Style {
                    fg: None,
                    bg: None,
                    bold: false,
                    italic: false,
                    underlined: false,
                    crossed_out: true,
                });
                assert(self@ =~= handle_spec(r0, e0));
            },
            MdEvent::Link(url) => {
                self.link_url = Some(url);
                let mut spans: Vec<Span> = Vec::new();
                std::mem::swap(&mut spans, &mut self.cur);
                self.link_spans = spans;
                assert(spans_view(self.cur@) =~= Seq::<(Seq<char>, Style)>::empty());
                assert(self@ =~= handle_spec(r0, e0));
            },
            MdEvent::Image(url) => {
                self.image_alt = Some(String::new());
                self.image_url = Some(url);
                assert(self@ =~= handle_spec(r0, e0));
            },
            MdEvent::EndHeading => {
                self.pop_style();
                self.flush_line();
            },
            MdEvent::EndParagraph => {
                self.flush_line();
                let in_list = in_list(&self.list_stack);
                if self.out.len() > 0 && !in_list {
                    push_line(&mut self.out, Line::blank());
                }
                assert(self@ =~= handle_spec(r0, e0));
            },
            MdEvent::EndBlockQuote => {
                self.flush_line();
                self.in_blockquote = false;
                self.blank_unless_empty();
            },
            MdEvent::EndList => self.end_list(),
            MdEvent::EndItem => self.flush_line(),
            MdEvent::EndStyle => self.pop_style(),
            MdEvent::EndLink => self.end_link(),
            MdEvent::EndImage => self.end_image(),
            MdEvent::Text(t) => self.text(t),
            MdEvent::Code(t) => {
                push_span(&mut self.cur, span(t, Style::fg(Color::LightCyan)));
                assert(self@ =~= handle_spec(r0, e0));
            },
            MdEvent::SoftBreak => {
                let style = self.current_style();
                push_span(&mut self.cur, span(" ".to_owned(), style));
                assert(self@ =~= handle_spec(r0, e0));
            },
            MdEvent::HardBreak => self.flush_line(),
            MdEvent::Rule => {
                self.flush_line();
                let ghost f = self@;
                push_line(&mut self.out, Line::single(repeat_char('─', 60), Style::fg(Color::DarkGray)));
                push_line(&mut self.out, Line::blank());
                assert(self@ =~= handle_spec(r0, e0));
            },
            MdEvent::TaskListMarker(checked) => {
                if checked {
                    push_span(&mut self.cur, span("[x] ".to_owned(), Style::fg(Color::Green)));
                } else {
                    push_span(&mut self.cur, span("[ ] ".to_owned(), Style::fg(Color::DarkGray)));
                }
                assert(self@ =~= handle_spec(r0, e0));
            },
            MdEvent::EndCodeBlock | MdEvent::Other => {},
        }
    }

    /// Ends the body and hands out its chunks.
    pub fn finalize_chunks(self) -> (v: Vec<BodyChunk>)
        ensures
            chunks_view(v@) == flush_text_v(flush_line_v(self@)).chunks,
    {
        let mut r = self;
        r.flush_line();
        r.flush_text_chunk();
        r.chunks
    }
}

/// The chunks of a markdown body.
pub fn render_chunks(input: &str) -> (v: Vec<BodyChunk>)
    ensures
        chunks_view(v@) == chunks_of(input@),
{
    let events = parse_events(input);
    let ghost evs = events@;
    let mut r = Renderer::new();
    assert(evs.take(0) =~= Seq::<MdEvent>::empty());
    for ev in it: events.into_iter()
        invariant
            it.seq() == evs,
            evs == md_events(input@),
            r@ == run_events(evs.take(it.index() as int)),
    {
        proof {
            assert(evs.take(it.index() + 1).drop_last() =~= evs.take(it.index() as int));
        }
        r.handle(ev);
    }
    assert(evs.take(evs.len() as int) =~= evs);
    r.finalize_chunks()
}


/// An ordered or bulleted item has started in the innermost open list.
pub fn in_list(stack: &Vec<ListCtx>) -> (b: bool)
    ensures
        b == in_list_v(stack@),
{
    stack.len() > 0 && stack[stack.len() - 1].item_started
}

// ── flat rendering ──────────────────────────────────────────────────────

/// Lines a Mermaid placeholder reports: the source's lines without trailing
/// newlines, at least one.
pub open spec fn mermaid_line_count(src: Seq<char>) -> nat {
    let n = lines(strip_newlines(src)).len();
    if n == 0 {
        1
    } else {
        n
    }
}

pub open spec fn dim_italic() -> Style {
    Style::fg_italic_spec(Color::DarkGray)
}

/// The chunks as plain lines: text as is, an image as `[image: alt]` and a
/// diagram as `[mermaid diagram (N lines)]`, each followed by a blank line.
pub open spec fn flatten_v(cs: Seq<ChunkV>) -> Seq<Seq<(Seq<char>, Style)>>
    decreases cs.len(),
{
    if cs.len() == 0 {
        Seq::empty()
    } else {
        flatten_v(cs.drop_last()) + match cs.last() {
            ChunkV::Text(ls) => ls,
            ChunkV::Image(_url, alt) => seq![
                seq![("[image: "@ + alt + "]"@, dim_italic())],
                Seq::<(Seq<char>, Style)>::empty(),
            ],
            ChunkV::Mermaid(src) => seq![
                seq![
                    ("[mermaid diagram ("@ + decimal(mermaid_line_count(src)) + " lines)]"@, dim_italic()),
                ],
                Seq::<(Seq<char>, Style)>::empty(),
            ],
        }
    }
}

pub fn flatten_chunks(chunks: Vec<BodyChunk>) -> (out: Vec<Line>)
    ensures
        lines_view(out@) == flatten_v(chunks_view(chunks@)),
{
    let ghost cv = chunks_view(chunks@);
    let mut out: Vec<Line> = Vec::new();
    assert(cv.take(0) =~= Seq::<ChunkV>::empty());
    assert(lines_view(out@) =~= flatten_v(cv.take(0)));
    for chunk in it: chunks.into_iter()
        invariant
            it.seq().map_values(|c: BodyChunk| c@) == cv,
            lines_view(out@) == flatten_v(cv.take(it.index() as int)),
    {
        let ghost before = lines_view(out@);
        let ghost c = chunk@;
        assert(cv.take(it.index() + 1).drop_last() =~= cv.take(it.index() as int));
        assert(cv.take(it.index() + 1).last() == c);
        match chunk {
            BodyChunk::Text(mut lines) => {
                let ghost lv = lines_view(lines@);
                out.append(&mut lines);
                assert(lines_view(out@) =~= before + lv);
            },
            BodyChunk::Image { url, alt } => {
                let mut t = "[image: ".to_owned();
                t.append(alt.as_str());
                t.append("]");
                push_line(&mut out, Line::single(t, Style::fg_italic(Color::DarkGray)));
                push_line(&mut out, Line::blank());
                assert(lines_view(out@) =~= before + seq![
                    seq![("[image: "@ + alt@ + "]"@, dim_italic())],
                    Seq::<(Seq<char>, Style)>::empty(),
                ]);
            },
            BodyChunk::Mermaid { source } => {
                let stripped = strip_newlines_text(&source);
                let n = crate::diff::line_count(stripped.as_str());
                let n = if n == 0 {
                    1
                } else {
                    n
                };
                let mut t = "[mermaid diagram (".to_owned();
                push_decimal(&mut t, n as u64);
                t.append(" lines)]");
                push_line(&mut out, Line::single(t, Style::fg_italic(Color::DarkGray)));
                push_line(&mut out, Line::blank());
                assert(lines_view(out@) =~= before + seq![
                    seq![
                        ("[mermaid diagram ("@ + decimal(mermaid_line_count(source@)) + " lines)]"@, dim_italic()),
                    ],
                    Seq::<(Seq<char>, Style)>::empty(),
                ]);
            },
        }
    }
    assert(cv.take(cv.len() as int) =~= cv);
    out
}

/// The body as plain lines (see [`flatten_v`]).
pub fn render(input: &str) -> (out: Vec<Line>)
    ensures
        lines_view(out@) == flatten_v(chunks_of(input@)),
{
    flatten_chunks(render_chunks(input))
}

/// URLs of the image chunks in order, a URL repeating the one just before
/// it dropped.
pub open spec fn image_urls_of(cs: Seq<ChunkV>) -> Seq<Seq<char>>
    decreases cs.len(),
{
    if cs.len() == 0 {
        Seq::empty()
    } else {
        let prev = image_urls_of(cs.drop_last());
        match cs.last() {
            ChunkV::Image(url, _alt) => if prev.len() > 0 && prev.last() == url {
                prev
            } else {
                prev.push(url)
            },
            _ => prev,
        }
    }
}

proof fn lemma_no_repeats(cs: Seq<ChunkV>)
    ensures
        forall|i: int|
            0 <= i < image_urls_of(cs).len() - 1 ==> #[trigger] image_urls_of(cs)[i] != image_urls_of(
                cs,
            )[i + 1],
    decreases cs.len(),
{
    if cs.len() > 0 {
        let prev = image_urls_of(cs.drop_last());
        let cur = image_urls_of(cs);
        lemma_no_repeats(cs.drop_last());
        assert forall|i: int| 0 <= i < cur.len() - 1 implies #[trigger] cur[i] != cur[i + 1] by {
            if cur.len() == prev.len() + 1 {
                assert(cur == prev.push(cur.last()));
                if i + 1 < prev.len() {
                    assert(cur[i] == prev[i]);
                    assert(cur[i + 1] == prev[i + 1]);
                } else {
                    assert(cur[i] == prev.last());
                }
            } else {
                assert(cur == prev);
            }
        }
    }
}

/// Sources of the Mermaid chunks, in order.
pub open spec fn mermaid_of(cs: Seq<ChunkV>) -> Seq<Seq<char>>
    decreases cs.len(),
{
    if cs.len() == 0 {
        Seq::empty()
    } else {
        let head = mermaid_of(cs.drop_last());
        match cs.last() {
            ChunkV::Mermaid(src) => head.push(src),
            _ => head,
        }
    }
}

/// The Mermaid diagram sources of rendered chunks, in order.
pub fn mermaid_sources(chunks: &Vec<BodyChunk>) -> (v: Vec<String>)
    ensures
        v@.map_values(|s: String| s@) == mermaid_of(chunks_view(chunks@)),
{
    let ghost cv = chunks_view(chunks@);
    let mut v: Vec<String> = Vec::new();
    let mut k: usize = 0;
    while k < chunks.len()
        invariant
            k <= chunks.len(),
            cv == chunks_view(chunks@),
            v@.map_values(|s: String| s@) == mermaid_of(cv.take(k as int)),
        decreases chunks.len() - k,
    {
        assert(cv.take(k + 1).drop_last() =~= cv.take(k as int));
        assert(cv[k as int] == chunks@[k as int]@);
        match &chunks[k] {
            BodyChunk::Mermaid { source } => {
                let ghost before = v@.map_values(|s: String| s@);
                v.push(source.clone());
                assert(v@.map_values(|s: String| s@) =~= before.push(source@));
            },
            _ => {},
        }
        k = k + 1;
    }
    assert(cv.take(k as int) =~= cv);
    v
}

/// The image URLs of a body, in document order, without consecutive
/// repeats.
pub fn image_urls(input: &str) -> (v: Vec<String>)
    ensures
        v@.map_values(|s: String| s@) == image_urls_of(chunks_of(input@)),
        forall|i: int| 0 <= i < v@.len() - 1 ==> (#[trigger] v@[i])@ != v@[i + 1]@,
{
    let chunks = render_chunks(input);
    let ghost cv = chunks_view(chunks@);
    let mut out: Vec<String> = Vec::new();
    assert(out@.map_values(|s: String| s@) =~= image_urls_of(cv.take(0)));
    for chunk in it: chunks.into_iter()
        invariant
            it.seq().map_values(|c: BodyChunk| c@) == cv,
            out@.map_values(|s: String| s@) == image_urls_of(cv.take(it.index() as int)),
    {
        let ghost before = out@.map_values(|s: String| s@);
        let ghost c = chunk@;
        assert(cv.take(it.index() + 1).drop_last() =~= cv.take(it.index() as int));
        assert(cv.take(it.index() + 1).last() == c);
        match chunk {
            BodyChunk::Image { url, .. } => {
                let repeat = out.len() > 0 && crate::text::str_eq(out[out.len() - 1].as_str(), url.as_str());
                if !repeat {
                    let ghost u = url@;
                    out.push(url);
                    assert(out@.map_values(|s: String| s@) =~= before.push(u));
                }
            },
            _ => {},
        }
    }
    assert(cv.take(cv.len() as int) =~= cv);
    proof {
        lemma_no_repeats(cv);
        assert forall|i: int| 0 <= i < out@.len() - 1 implies (#[trigger] out@[i])@ != out@[i + 1]@ by {
            assert(out@.map_values(|s: String| s@)[i] == out@[i]@);
            assert(out@.map_values(|s: String| s@)[i + 1] == out@[i + 1]@);
        }
    }
    out
}

} // verus!
