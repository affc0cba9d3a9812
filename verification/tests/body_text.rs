//! Markdown rendering of PR bodies and syntax highlighting.

use gh_tui::markdown::{
    flatten_chunks, image_urls, mermaid_sources, render, render_chunks, BodyChunk, IMAGE_HEIGHT_ROWS,
    MERMAID_HEIGHT_ROWS,
};
use gh_tui::style::{Color, Line, Style};
use gh_tui::syntax::{detect, highlight, rows_of_events, HlEvent, Lang};

fn line_text(line: &Line) -> String {
    line.spans.iter().map(|s| s.content.as_str()).collect()
}

fn raw(text: &str) -> Line {
    Line::single(text.to_string(), Style::plain())
}

// ── chunks ──────────────────────────────────────────────────────────────

#[test]
fn render_chunks_pure_text_yields_single_text_chunk() {
    let chunks = render_chunks("Hello, world!\n\nSecond para.");
    assert_eq!(chunks.len(), 1);
    assert!(matches!(chunks[0], BodyChunk::Text(_)));
}

#[test]
fn render_chunks_image_splits_into_typed_variant() {
    let chunks = render_chunks("Before.\n\n![alt text](https://example.test/x.png)\n\nAfter.");
    assert_eq!(chunks.len(), 3);
    assert!(matches!(chunks[0], BodyChunk::Text(_)));
    let BodyChunk::Image { ref url, ref alt } = chunks[1] else {
        panic!("expected Image chunk, got {:?}", chunks[1]);
    };
    assert_eq!(url, "https://example.test/x.png");
    assert_eq!(alt, "alt text");
    assert!(matches!(chunks[2], BodyChunk::Text(_)));
}

#[test]
fn render_chunks_mermaid_carries_source_verbatim() {
    let src = "```mermaid\ngraph TD\n  A --> B\n```";
    let chunks = render_chunks(src);
    let mermaid = chunks
        .iter()
        .find_map(|c| match c {
            BodyChunk::Mermaid { source } => Some(source.clone()),
            _ => None,
        })
        .expect("expected a Mermaid chunk");
    assert!(mermaid.contains("graph TD"));
    assert!(mermaid.contains("A --> B"));
}

#[test]
fn render_flat_matches_render_chunks_flattened() {
    let input = "# Title\n\nA paragraph with ![pic](u) inline.\n\n```mermaid\nA-->B\n```\n\nDone.";
    let flat = render(input);
    let from_chunks = flatten_chunks(render_chunks(input));
    assert_eq!(flat.len(), from_chunks.len());
}

#[test]
fn body_chunk_height_text_equals_line_count() {
    let c = BodyChunk::Text(vec![Line::blank(), raw("a"), raw("b")]);
    assert_eq!(c.height(), 3);
}

#[test]
fn body_chunk_height_image_and_mermaid_reserve_widget_rect() {
    assert_eq!(BodyChunk::Image { url: "u".into(), alt: "a".into() }.height(), IMAGE_HEIGHT_ROWS);
    assert_eq!(BodyChunk::Mermaid { source: "graph".into() }.height(), MERMAID_HEIGHT_ROWS);
}

#[test]
fn image_urls_extracts_in_document_order() {
    let md = "intro\n\n![first](https://x.test/a.png)\n\nmid\n\n![second](https://x.test/b.png)";
    let urls = image_urls(md);
    assert_eq!(urls, vec!["https://x.test/a.png", "https://x.test/b.png"]);
}

#[test]
fn image_urls_dedupes_consecutive_repeats() {
    let md = "![a](u)\n![a](u)\n![b](v)\n![a](u)";
    let urls = image_urls(md);
    assert_eq!(urls, vec!["u", "v", "u"]);
}

#[test]
fn image_urls_yields_empty_for_no_images() {
    assert!(image_urls("# heading\nbody text").is_empty());
}

// ── styling ─────────────────────────────────────────────────────────────

#[test]
fn heading_gets_hashes_and_bold_text() {
    let lines = render("## Title");
    assert_eq!(line_text(&lines[0]), "## Title");
    assert_eq!(lines[0].spans[0].style.fg, Some(Color::Magenta));
    assert!(lines[0].spans[1].style.bold);
}

#[test]
fn paragraphs_are_separated_by_blank_lines() {
    let lines = render("one\n\ntwo");
    let texts: Vec<String> = lines.iter().map(line_text).collect();
    assert_eq!(texts, vec!["one", "", "two", ""]);
}

#[test]
fn lists_get_markers_and_numbers() {
    let lines = render("- a\n- b\n\n3. x\n4. y");
    let texts: Vec<String> = lines.iter().map(line_text).collect();
    assert_eq!(texts[0], "  • a");
    assert_eq!(texts[1], "  • b");
    assert!(texts.contains(&"  3. x".to_string()));
    assert!(texts.contains(&"  4. y".to_string()));
}

#[test]
fn nested_bullets_use_hollow_marker() {
    let lines = render("- a\n  - b");
    let texts: Vec<String> = lines.iter().map(line_text).collect();
    assert!(texts.contains(&"    ◦ b".to_string()), "got {texts:?}");
}

#[test]
fn links_are_underlined_with_url_suffix() {
    let lines = render("see [docs](https://d.test)");
    assert_eq!(line_text(&lines[0]), "see docs (https://d.test)");
    let docs = lines[0].spans.iter().find(|s| s.content == "docs").unwrap();
    assert_eq!(docs.style.fg, Some(Color::Blue));
    assert!(docs.style.underlined);
}

#[test]
fn emphasis_strong_and_strikethrough_style_text() {
    let lines = render("*i* **b** ~~s~~");
    let i = lines[0].spans.iter().find(|s| s.content == "i").unwrap();
    assert!(i.style.italic);
    let b = lines[0].spans.iter().find(|s| s.content == "b").unwrap();
    assert!(b.style.bold);
    let s = lines[0].spans.iter().find(|s| s.content == "s").unwrap();
    assert!(s.style.crossed_out);
}

#[test]
fn code_blocks_are_fenced_and_cyan() {
    let lines = render("```rust\nlet x = 1;\n```");
    let texts: Vec<String> = lines.iter().map(line_text).collect();
    assert_eq!(texts, vec!["```rust", "let x = 1;", "```", ""]);
    assert_eq!(lines[1].spans[0].style.fg, Some(Color::LightCyan));
}

#[test]
fn blockquote_lines_get_a_bar() {
    let lines = render("> quoted");
    assert_eq!(line_text(&lines[0]), "▏ quoted");
}

#[test]
fn rule_and_task_markers_render() {
    let lines = render("- [x] done\n- [ ] todo\n\n---");
    let texts: Vec<String> = lines.iter().map(line_text).collect();
    assert!(texts.contains(&"  • [x] done".to_string()), "got {texts:?}");
    assert!(texts.contains(&"  • [ ] todo".to_string()));
    assert!(texts.contains(&"─".repeat(60)));
}

#[test]
fn image_and_mermaid_placeholders_in_flat_rendering() {
    let lines = render("![pic](u)\n\n```mermaid\na\nb\n```");
    let texts: Vec<String> = lines.iter().map(line_text).collect();
    assert!(texts.contains(&"[image: pic]".to_string()), "got {texts:?}");
    assert!(texts.contains(&"[mermaid diagram (2 lines)]".to_string()), "got {texts:?}");
}

// ── syntax ──────────────────────────────────────────────────────────────

#[test]
fn detect_extension_to_lang() {
    assert_eq!(detect("src/foo.rs"), Lang::Rust);
    assert_eq!(detect("Cargo.toml"), Lang::Plain);
    assert_eq!(detect("README"), Lang::Plain);
    assert_eq!(detect(""), Lang::Plain);
}

#[test]
fn highlight_unknown_falls_back_to_plain() {
    let out = highlight(Lang::Plain, "hello world\nsecond");
    assert_eq!(out.len(), 2);
    assert_eq!(out[0].len(), 1);
    assert_eq!(out[0][0].content, "hello world");
    assert_eq!(out[1][0].content, "second");
}

#[test]
fn highlight_empty_source_yields_one_empty_line() {
    let out = highlight(Lang::Rust, "");
    assert_eq!(out.len(), 1);
    assert!(out[0].is_empty());
}

#[test]
fn highlight_rust_basic_tokens() {
    let src = "fn main() { let x = 42; }";
    let out = highlight(Lang::Rust, src);
    assert_eq!(out.len(), 1, "single-line input");
    let joined: String = out[0].iter().map(|s| s.content.as_str()).collect::<Vec<_>>().concat();
    assert_eq!(joined, src);
    let has_keyword = out[0].iter().any(|s| s.style.fg == Some(Color::Magenta));
    assert!(has_keyword, "expected at least one magenta keyword span");
}

#[test]
fn highlight_preserves_blank_lines_in_multiline_source() {
    let src = "fn a() {}\n\nfn b() {}";
    let out = highlight(Lang::Rust, src);
    assert_eq!(out.len(), 3, "expected three lines including blank");
    assert!(out[1].is_empty(), "middle line is blank");
}

#[test]
fn highlight_handles_multibyte_text() {
    let src = "let s = \"héllo → wörld\";";
    let out = highlight(Lang::Rust, src);
    let joined: String = out[0].iter().map(|s| s.content.as_str()).collect();
    assert_eq!(joined, src);
}

#[test]
fn mermaid_sources_lists_each_diagram_in_order() {
    let chunks = render_chunks("```mermaid\ngraph A\n```\n\ntext\n\n```mermaid\ngraph B\n```");
    let sources = mermaid_sources(&chunks);
    assert_eq!(sources.len(), 2);
    assert!(sources[0].contains("graph A"));
    assert!(sources[1].contains("graph B"));
    assert!(mermaid_sources(&render_chunks("plain text")).is_empty());
}

#[test]
fn events_split_into_rows_at_newlines() {
    // Capture 1 (comment) styles "fn"; the rest is unstyled; rows break at '\n'.
    let src = "fn a\nb";
    let events = vec![
        HlEvent::Start(1),
        HlEvent::Source { start: 0, end: 2 },
        HlEvent::End,
        HlEvent::Source { start: 2, end: 6 },
    ];
    let rows = rows_of_events(src, &events);
    let texts: Vec<String> = rows.iter().map(|r| r.iter().map(|s| s.content.as_str()).collect()).collect();
    assert_eq!(texts, vec!["fn a".to_string(), "b".to_string()]);
    assert!(rows[0][0].style.italic);
    assert!(!rows[0][1].style.italic);
}
