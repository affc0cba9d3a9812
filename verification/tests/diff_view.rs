//! The unified and split diff views, their layout, tabs, review threads
//! and word-level highlighting.

use std::time::{Duration, Instant};

use gh_tui::diff::split::render as render_split;
use gh_tui::diff::threads::{build_comment_rows, build_pseudo_line, Note};
use gh_tui::diff::unified::{render, render_diff};
use gh_tui::diff::{
    collect_anchors, expand_tabs, file_line_layout, file_line_offsets, parse_hunk_new_start,
    pseudo_line_count, reconstruct_after, rows_count, total_diff_lines,
};
use gh_tui::pulls::{FilePatch, PatchStatus, ReviewComment, ReviewThread, Timestamp};
use gh_tui::style::{Color, Line};
use gh_tui::word::{change_spans, intra_line_highlight, ChangeKind};

fn fp(path: &str, patch: Option<&str>, status: PatchStatus) -> FilePatch {
    FilePatch {
        path: path.into(),
        previous_path: None,
        status,
        additions: 1,
        deletions: 1,
        patch: patch.map(str::to_string),
        blob_sha: "deadbeef".into(),
    }
}

fn fp_split(path: &str, patch: Option<&str>) -> FilePatch {
    FilePatch {
        path: path.into(),
        previous_path: None,
        status: PatchStatus::Modified,
        additions: 1,
        deletions: 1,
        patch: patch.map(str::to_string),
        blob_sha: "x".into(),
    }
}

fn fp_thread(path: &str, patch: &str) -> FilePatch {
    FilePatch {
        path: path.into(),
        previous_path: None,
        status: PatchStatus::Modified,
        additions: 1,
        deletions: 1,
        patch: Some(patch.into()),
        blob_sha: "x".into(),
    }
}

fn thread(path: &str, line: u32, author: &str, body: &str) -> ReviewThread {
    ReviewThread {
        path: path.into(),
        line: Some(line),
        original_line: Some(line),
        comments: vec![ReviewComment {
            author: author.into(),
            body: body.into(),
            created_at: Timestamp { secs: 1767225600, nanos: 0 },
        }],
    }
}

fn no_threads() -> Vec<ReviewThread> {
    Vec::new()
}

fn text_of(line: &Line) -> String {
    line.spans.iter().map(|s| s.content.as_str()).collect()
}

// ── unified view ────────────────────────────────────────────────────────

#[test]
fn diff_empty_input_renders_no_lines() {
    let lines = render(&vec![], &no_threads());
    assert!(lines.is_empty());
    assert!(file_line_offsets(&vec![], &no_threads()).is_empty());
}

#[test]
fn diff_missing_patch_renders_placeholder() {
    let files = vec![fp("a.rs", None, PatchStatus::Modified)];
    let lines = render(&files, &no_threads());
    assert_eq!(lines.len(), 3);
    let placeholder = &lines[2].spans[0].content;
    assert!(placeholder.contains("diff omitted"));
}

#[test]
fn diff_simple_patch_renders_header_stats_and_hunk_lines() {
    let patch = "@@ -1,2 +1,2 @@\n one\n-two\n+TWO";
    let files = vec![fp("a.rs", Some(patch), PatchStatus::Modified)];
    let lines = render(&files, &no_threads());
    assert_eq!(lines.len(), 6);
}

#[test]
fn diff_renamed_file_header_shows_arrow() {
    let mut file = fp("new.rs", None, PatchStatus::Renamed);
    file.previous_path = Some("old.rs".into());
    let lines = render(&vec![file], &no_threads());
    let header = &lines[0].spans[0].content;
    assert!(header.contains("old.rs → new.rs"));
    assert!(header.contains("renamed"));
}

#[test]
fn diff_file_offsets_point_at_each_files_header() {
    let files = vec![
        fp("a.rs", Some("@@ -1 +1 @@\n+x"), PatchStatus::Modified),
        fp("b.rs", Some("@@ -1 +1 @@\n+y"), PatchStatus::Modified),
    ];
    let offsets = file_line_offsets(&files, &no_threads());
    assert_eq!(offsets.len(), 2);
    assert_eq!(offsets[0], 0, "first file starts at line 0");
    assert_eq!(offsets[1], 5);
}

#[test]
fn diff_cheap_offsets_match_full_render() {
    let files = vec![
        fp("a.rs", Some("@@ -1,2 +1,2 @@\n one\n+two"), PatchStatus::Modified),
        fp("b.rs", None, PatchStatus::Modified),
        fp("c.rs", Some("@@ -1 +1 @@\n+x"), PatchStatus::Added),
    ];
    let lines = render(&files, &no_threads());
    let offsets = file_line_offsets(&files, &no_threads());
    for (i, file) in files.iter().enumerate() {
        let idx = usize::from(offsets[i]);
        let header_text = &lines[idx].spans[0].content;
        assert!(
            header_text.contains(&file.path),
            "offset[{i}] = {idx} should point at {} header, got {header_text:?}",
            file.path,
        );
    }
}

#[test]
fn mod_empty_input_renders_no_lines() {
    let lines = render(&vec![], &no_threads());
    assert!(lines.is_empty());
    assert!(file_line_offsets(&vec![], &no_threads()).is_empty());
}

#[test]
fn mod_missing_patch_renders_placeholder() {
    let files = vec![fp("a.rs", None, PatchStatus::Modified)];
    let lines = render(&files, &no_threads());
    assert_eq!(lines.len(), 3);
    let placeholder = &lines[2].spans[0].content;
    assert!(placeholder.contains("diff omitted"));
}

#[test]
fn mod_simple_patch_renders_header_stats_and_hunk_lines() {
    let patch = "@@ -1,2 +1,2 @@\n one\n-two\n+TWO";
    let files = vec![fp("a.rs", Some(patch), PatchStatus::Modified)];
    let lines = render(&files, &no_threads());
    assert_eq!(lines.len(), 6);
}

#[test]
fn mod_renamed_file_header_shows_arrow() {
    let mut file = fp("new.rs", None, PatchStatus::Renamed);
    file.previous_path = Some("old.rs".into());
    let lines = render(&vec![file], &no_threads());
    let header = &lines[0].spans[0].content;
    assert!(header.contains("old.rs → new.rs"));
    assert!(header.contains("renamed"));
}

#[test]
fn mod_file_offsets_point_at_each_files_header() {
    let files = vec![
        fp("a.rs", Some("@@ -1 +1 @@\n+x"), PatchStatus::Modified),
        fp("b.rs", Some("@@ -1 +1 @@\n+y"), PatchStatus::Modified),
    ];
    let offsets = file_line_offsets(&files, &no_threads());
    assert_eq!(offsets.len(), 2);
    assert_eq!(offsets[0], 0, "first file starts at line 0");
    assert_eq!(offsets[1], 5);
}

#[test]
fn tabs_in_patch_expand_to_spaces() {
    let patch = "@@ -1,2 +1,2 @@\n\tcontext\n+\tnew";
    let files = vec![FilePatch {
        path: "main.go".into(),
        previous_path: None,
        status: PatchStatus::Modified,
        additions: 1,
        deletions: 0,
        patch: Some(patch.into()),
        blob_sha: "x".into(),
    }];
    let lines = render(&files, &no_threads());
    for line in &lines {
        for span in &line.spans {
            assert!(!span.content.contains('\t'), "tab leaked into rendered span: {:?}", span.content);
        }
    }
    let ctx_text = text_of(&lines[3]);
    assert!(ctx_text.contains("    context"), "expected 4-space-indented context, got {ctx_text:?}");
}

#[test]
fn expand_tabs_basic() {
    assert_eq!(expand_tabs("\tfoo"), "    foo");
    assert_eq!(expand_tabs("a\tb\tc"), "a    b    c");
    assert_eq!(expand_tabs("no tabs here"), "no tabs here");
    assert_eq!(expand_tabs(""), "");
}

#[test]
fn rust_file_addition_lines_are_syntax_highlighted() {
    let patch = "@@ -1,2 +1,2 @@\n fn old() {}\n+fn new() {}";
    let files = vec![FilePatch {
        path: "src/foo.rs".into(),
        previous_path: None,
        status: PatchStatus::Modified,
        additions: 1,
        deletions: 0,
        patch: Some(patch.into()),
        blob_sha: "x".into(),
    }];
    let lines = render(&files, &no_threads());
    let plus_line = &lines[4];
    let has_keyword = plus_line.spans.iter().any(|s| s.style.fg == Some(Color::Magenta));
    assert!(has_keyword, "expected magenta keyword span in syntax-highlighted addition");
    assert_eq!(plus_line.spans[0].content, "+");
    assert_eq!(plus_line.spans[0].style.fg, Some(Color::Green));
}

#[test]
fn non_rust_file_falls_back_to_plain_styling() {
    let patch = "@@ -1 +1 @@\n+fn this_is_not_actually_rust() {}";
    let files = vec![FilePatch {
        path: "config.toml".into(),
        previous_path: None,
        status: PatchStatus::Modified,
        additions: 1,
        deletions: 0,
        patch: Some(patch.into()),
        blob_sha: "x".into(),
    }];
    let lines = render(&files, &no_threads());
    let plus_line = &lines[3];
    assert_eq!(plus_line.spans.len(), 2);
    assert_eq!(plus_line.spans[0].content, "+");
    assert_eq!(plus_line.spans[1].style.fg, Some(Color::Green));
    let has_keyword = plus_line.spans.iter().any(|s| s.style.fg == Some(Color::Magenta));
    assert!(!has_keyword);
}

#[test]
fn unpaired_deletion_stays_solid_red() {
    let patch = "@@ -1,3 +1,2 @@\n-a\n-b\n+c";
    let files = vec![FilePatch {
        path: "src/foo.rs".into(),
        previous_path: None,
        status: PatchStatus::Modified,
        additions: 1,
        deletions: 2,
        patch: Some(patch.into()),
        blob_sha: "x".into(),
    }];
    let lines = render(&files, &no_threads());
    for raw_line in &lines[3..=4] {
        assert_eq!(raw_line.spans.len(), 1, "unpaired deletion is one span");
        assert_eq!(raw_line.spans[0].style.fg, Some(Color::Red));
    }
}

#[test]
fn paired_block_word_highlights_changed_tokens() {
    let patch = "@@ -1 +1 @@\n-fn old() {}\n+fn new() {}";
    let files = vec![FilePatch {
        path: "src/foo.rs".into(),
        previous_path: None,
        status: PatchStatus::Modified,
        additions: 1,
        deletions: 1,
        patch: Some(patch.into()),
        blob_sha: "x".into(),
    }];
    let lines = render(&files, &no_threads());
    let minus_line = &lines[3];
    assert!(minus_line.spans.len() > 1, "paired deletion is split per word");
    assert_eq!(minus_line.spans[0].content, "-");
    assert!(minus_line.spans.iter().any(|s| s.style.bold), "expected at least one bold word-highlight on - side");
    let plus_line = &lines[4];
    assert!(plus_line.spans.iter().any(|s| s.style.bold), "expected at least one bold word-highlight on + side");
}

#[test]
fn reconstruct_after_drops_deletions_and_strips_prefixes() {
    let patch = "@@ -1,3 +1,3 @@\n one\n-two\n+TWO\n three";
    let after = reconstruct_after(patch);
    assert_eq!(after, "one\nTWO\nthree");
}

#[test]
fn mod_cheap_offsets_match_full_render() {
    let files = vec![
        fp("a.rs", Some("@@ -1,2 +1,2 @@\n one\n+two"), PatchStatus::Modified),
        fp("b.rs", None, PatchStatus::Modified),
        fp("c.rs", Some("@@ -1 +1 @@\n+x"), PatchStatus::Added),
    ];
    let lines = render(&files, &no_threads());
    let offsets = file_line_offsets(&files, &no_threads());
    for (i, file) in files.iter().enumerate() {
        let idx = usize::from(offsets[i]);
        let header_text = &lines[idx].spans[0].content;
        assert!(header_text.contains(&file.path));
    }
}

#[test]
fn total_matches_rendered_row_count() {
    let files = vec![
        fp("a.rs", Some("@@ -1,2 +1,2 @@\n one\n+two"), PatchStatus::Modified),
        fp("b.rs", None, PatchStatus::Modified),
        fp("c.rs", Some("@@ -1 +1 @@\n+x\n-y\n+z"), PatchStatus::Added),
    ];
    let lines = render(&files, &no_threads());
    assert_eq!(usize::from(total_diff_lines(&files, &no_threads())), lines.len());
    let (offsets, total) = file_line_layout(&files, &no_threads());
    assert_eq!(offsets, vec![0, 6, 10]);
    assert_eq!(total, 16);
}

#[test]
fn header_and_stats_rows_are_styled() {
    let mut f = fp("lib.rs", Some("@@ -1 +1 @@\n+x"), PatchStatus::Modified);
    f.additions = 12;
    f.deletions = 3;
    let lines = render(&vec![f], &no_threads());
    assert_eq!(text_of(&lines[0]), "lib.rs (modified)");
    assert_eq!(lines[0].spans[0].style.fg, Some(Color::Cyan));
    assert!(lines[0].spans[0].style.bold);
    assert_eq!(text_of(&lines[1]), "+12 -3");
    assert_eq!(lines[1].spans[0].style.fg, Some(Color::DarkGray));
    assert_eq!(text_of(&lines[2]), "@@ -1 +1 @@");
    assert_eq!(lines[2].spans[0].style.fg, Some(Color::Blue));
}

#[test]
fn no_newline_marker_is_dim_italic() {
    let f = fp("a.txt", Some("@@ -1 +1 @@\n-a\n\\ No newline at end of file"), PatchStatus::Modified);
    let lines = render(&vec![f], &no_threads());
    let last = lines.last().unwrap();
    assert_eq!(text_of(last), "\\ No newline at end of file");
    assert_eq!(last.spans[0].style.fg, Some(Color::DarkGray));
    assert!(last.spans[0].style.italic);
}

#[test]
fn render_diff_has_no_pseudo_lines() {
    let files = vec![fp("a.txt", Some("@@ -1 +1 @@\n ctx"), PatchStatus::Modified)];
    let a = render_diff(&files);
    let b = render(&files, &no_threads());
    assert_eq!(a, b);
}

// ── review threads ──────────────────────────────────────────────────────

#[test]
fn parse_hunk_new_start_extracts_c() {
    assert_eq!(parse_hunk_new_start("@@ -1,3 +5,7 @@"), Some(5));
    assert_eq!(parse_hunk_new_start("@@ -1,3 +1 @@ fn foo()"), Some(1));
    assert_eq!(parse_hunk_new_start("@@ -0,0 +1,3 @@"), Some(1));
    assert_eq!(parse_hunk_new_start("@@ broken"), None);
}

#[test]
fn pseudo_line_count_zero_for_outdated() {
    let mut t = thread("a.rs", 1, "alice", "x");
    t.line = None;
    assert_eq!(pseudo_line_count(&t), 0);
}

#[test]
fn pseudo_line_count_one_per_body_line() {
    let t = thread("a.rs", 1, "alice", "first\nsecond\nthird");
    assert_eq!(pseudo_line_count(&t), 3);
}

#[test]
fn pseudo_line_count_treats_empty_body_as_one_line() {
    let t = thread("a.rs", 1, "alice", "");
    assert_eq!(pseudo_line_count(&t), 1);
}

#[test]
fn collect_anchors_records_new_file_line_for_context_and_plus() {
    let files = vec![fp_thread("a.rs", "@@ -1,2 +1,2 @@\n one\n+two")];
    let anchors = collect_anchors(&files);
    assert_eq!(anchors.len(), 2);
    assert_eq!(anchors[0], ("a.rs".to_string(), 1, 3));
    assert_eq!(anchors[1], ("a.rs".to_string(), 2, 4));
}

#[test]
fn thread_lines_land_below_their_anchor() {
    let files = vec![fp_thread("a.rs", "@@ -1,2 +1,2 @@\n one\n+two")];
    let threads = vec![thread("a.rs", 1, "alice", "looks good\nbut rename")];
    let lines = render(&files, &threads);
    // header, stats, @@, " one", two notes, "+two"
    assert_eq!(lines.len(), 7);
    assert_eq!(text_of(&lines[4]), "▏ @alice: looks good");
    assert_eq!(text_of(&lines[5]), "▏        but rename");
    assert!(lines[4].spans.iter().all(|s| s.style.italic));
    assert_eq!(lines[6].spans[0].content, "+");
    // The layout counts the same rows.
    assert_eq!(usize::from(total_diff_lines(&files, &threads)), lines.len());
}

#[test]
fn outdated_and_unanchored_threads_add_nothing() {
    let files = vec![fp_thread("a.rs", "@@ -1,2 +1,2 @@\n one\n+two")];
    let mut outdated = thread("a.rs", 1, "bob", "old");
    outdated.line = None;
    let elsewhere = thread("b.rs", 1, "carol", "other file");
    let lines = render(&files, &vec![outdated, elsewhere]);
    assert_eq!(lines.len(), 5);
}

#[test]
fn comment_rows_split_body_lines() {
    let c = ReviewComment { author: "dana".into(), body: "a\nb".into(), created_at: Timestamp { secs: 0, nanos: 0 } };
    let rows = build_comment_rows(&c);
    assert_eq!(rows.len(), 2);
    assert!(rows[0].first);
    assert!(!rows[1].first);
    assert_eq!(rows[1].body, "b");
    let empty = ReviewComment { author: "dana".into(), body: String::new(), created_at: Timestamp { secs: 0, nanos: 0 } };
    let rows = build_comment_rows(&empty);
    assert_eq!(rows.len(), 1);
    assert_eq!(rows[0].body, "");
    let line = build_pseudo_line(&Note { author: "dana".into(), body: "x".into(), first: true });
    assert_eq!(text_of(&line), "▏ @dana: x");
}

// ── split view ──────────────────────────────────────────────────────────

#[test]
fn empty_input_yields_no_rows() {
    let rows = render_split(&vec![], &no_threads());
    assert!(rows.is_empty());
}

#[test]
fn balanced_block_pairs_minus_left_plus_right() {
    let patch = "@@ -1,3 +1,3 @@\n ctx\n-old\n+new\n trailing";
    let files = vec![fp_split("src/foo.rs", Some(patch))];
    let rows = render_split(&files, &no_threads());
    let pair = rows.iter().find(|(l, r)| text_of(l) == "old" && text_of(r) == "new");
    assert!(pair.is_some(), "expected paired (old, new) row");
}

#[test]
fn unbalanced_block_uses_filler_on_missing_side() {
    let patch = "@@ -1,3 +1,2 @@\n-a\n-b\n+c";
    let files = vec![fp_split("src/foo.rs", Some(patch))];
    let rows = render_split(&files, &no_threads());
    let plus_row = rows.iter().find(|(_, r)| r.spans.iter().any(|s| s.content == "c"));
    let plus_row = plus_row.expect("expected a row whose right side carries `c`");
    assert!(text_of(&plus_row.0).contains('~'));
    let minus_row = rows.iter().find(|(l, _)| l.spans.iter().any(|s| s.content == "a"));
    let minus_row = minus_row.expect("expected a row whose left side carries `a`");
    assert!(text_of(&minus_row.1).contains('~'));
}

#[test]
fn omitted_patch_renders_placeholder_on_both_sides() {
    let files = vec![fp_split("vendor/big.bin", None)];
    let rows = render_split(&files, &no_threads());
    let placeholder_row = rows.last().unwrap();
    let left = text_of(&placeholder_row.0);
    let right = text_of(&placeholder_row.1);
    assert_eq!(left, right);
    assert!(left.contains("diff omitted"));
}

#[test]
fn context_lines_appear_identically_on_both_sides() {
    let patch = "@@ -1 +1 @@\n unchanged context";
    let files = vec![fp_split("src/foo.rs", Some(patch))];
    let rows = render_split(&files, &no_threads());
    let ctx_row = rows
        .iter()
        .find(|(l, _)| text_of(l).contains("unchanged context"))
        .expect("expected a context row");
    assert_eq!(text_of(&ctx_row.0), text_of(&ctx_row.1));
}

#[test]
fn split_threads_use_filler_on_the_left() {
    let files = vec![fp_split("a.txt", Some("@@ -1 +1 @@\n ctx"))];
    let threads = vec![thread("a.txt", 1, "erin", "note")];
    let rows = render_split(&files, &threads);
    assert_eq!(rows.len(), 5);
    assert_eq!(text_of(&rows[4].0), "  ~  ");
    assert_eq!(text_of(&rows[4].1), "▏ @erin: note");
}

// ── word-level highlighting ─────────────────────────────────────────────

fn join(spans: &[gh_tui::style::Span]) -> String {
    spans.iter().map(|s| s.content.as_str()).collect()
}

#[test]
fn intra_line_highlight_finds_changed_words() {
    let (m, p) = intra_line_highlight("let x = 1;", "let y = 1;");
    assert_eq!(join(&m), "let x = 1;");
    assert_eq!(join(&p), "let y = 1;");
    assert!(m.iter().any(|s| s.content == "x" && s.style.bold), "old 'x' must be highlighted");
    assert!(p.iter().any(|s| s.content == "y" && s.style.bold), "new 'y' must be highlighted");
    let m_let = m.iter().find(|s| s.content == "let").unwrap();
    assert!(!m_let.style.bold);
}

#[test]
fn identical_inputs_produce_no_highlights() {
    let (m, p) = intra_line_highlight("let x = 1;", "let x = 1;");
    assert!(m.iter().all(|s| !s.style.bold));
    assert!(p.iter().all(|s| !s.style.bold));
}

#[test]
fn pure_addition_marks_only_plus_side() {
    let (m, p) = intra_line_highlight("", "new content");
    assert!(m.is_empty(), "no spans on an empty old side");
    assert_eq!(join(&p), "new content");
    assert!(p.iter().all(|s| s.style.bold));
}

#[test]
fn changed_words_use_dark_backgrounds() {
    let (m, p) = intra_line_highlight("a b", "a c");
    let deleted = m.iter().find(|s| s.content == "b").unwrap();
    assert_eq!(deleted.style.bg, Some(Color::Rgb(96, 0, 0)));
    assert_eq!(deleted.style.fg, Some(Color::White));
    let inserted = p.iter().find(|s| s.content == "c").unwrap();
    assert_eq!(inserted.style.bg, Some(Color::Rgb(0, 96, 0)));
    let kept = m.iter().find(|s| s.content == "a").unwrap();
    assert_eq!(kept.style.fg, Some(Color::Red));
}

// ── performance ─────────────────────────────────────────────────────────

fn synthetic_patch(target_lines: usize, hunks: usize) -> Vec<FilePatch> {
    let lines_per_hunk = target_lines / hunks;
    let mut body = String::new();
    for h in 0..hunks {
        body.push_str(&format!("@@ -{0},{1} +{0},{1} @@\n", h * lines_per_hunk + 1, lines_per_hunk));
        let half = lines_per_hunk / 2;
        for i in 0..half {
            body.push_str(&format!(" let unchanged_{h}_{i} = compute({i});\n"));
        }
        body.push_str(&format!("-let changed_{h} = old_value(42);\n"));
        body.push_str(&format!("+let changed_{h} = new_value(43);\n"));
        for i in 0..half {
            body.push_str(&format!(" let trailing_{h}_{i} = consume({i});\n"));
        }
    }
    vec![FilePatch {
        path: "src/synthetic.rs".into(),
        previous_path: None,
        status: PatchStatus::Modified,
        additions: u32::try_from(hunks).unwrap_or(u32::MAX),
        deletions: u32::try_from(hunks).unwrap_or(u32::MAX),
        patch: Some(body),
        blob_sha: "synth".into(),
    }]
}

#[test]
fn renders_5k_lines_under_one_second() {
    let files = synthetic_patch(5_000, 100);
    let _warmup = render_diff(&files);
    let start = Instant::now();
    let lines = render_diff(&files);
    let elapsed = start.elapsed();
    assert!(lines.len() >= 5_000, "expected ≥5000 rendered lines, got {}", lines.len());
    assert!(
        elapsed < Duration::from_millis(1_000),
        "render_diff(5k lines) took {elapsed:?}; budget is 1s (target <300ms)"
    );
}

#[test]
fn rows_count_counts_headers_lines_and_separators() {
    let files = vec![
        fp("a.rs", Some("@@ -1,2 +1,2 @@\n one\n+two"), PatchStatus::Modified),
        fp("b.bin", None, PatchStatus::Modified),
    ];
    // a.rs: header, stats, three patch lines; blank; b.bin: header, stats, placeholder.
    assert_eq!(rows_count(&files), Some(9));
    assert_eq!(rows_count(&Vec::new()), Some(0));
    assert_eq!(render_diff(&files).len(), 9);
}

#[test]
fn offsets_and_total_account_for_anchored_threads() {
    let files = vec![
        fp("a.rs", Some("@@ -1,2 +1,2 @@\n one\n+two"), PatchStatus::Modified),
        fp("b.rs", Some("@@ -4 +4 @@\n+x"), PatchStatus::Added),
    ];
    let threads = vec![
        thread("a.rs", 1, "alice", "first\nsecond"),
        thread("b.rs", 4, "bob", "ok"),
    ];
    let lines = render(&files, &threads);
    let (offsets, total) = file_line_layout(&files, &threads);
    // a.rs: header, stats, @@, " one", two notes, "+two"; blank; b.rs: header, stats, @@, "+x", one note.
    assert_eq!(offsets, vec![0, 8]);
    assert_eq!(usize::from(total), lines.len());
    assert_eq!(total, 13);
    for (i, file) in files.iter().enumerate() {
        assert!(text_of(&lines[usize::from(offsets[i])]).starts_with(&file.path));
    }
}

#[test]
fn thread_on_a_paired_line_follows_that_line() {
    // Two balanced pairs: drawn -a, +A, -b, +B.
    let files = vec![fp_thread("a.txt", "@@ -1,2 +1,2 @@\n-a\n-b\n+A\n+B")];
    let threads = vec![thread("a.txt", 1, "alice", "on A")];
    let lines = render(&files, &threads);
    // header, stats, @@, -a, +A, note, -b, +B
    assert_eq!(lines.len(), 8);
    assert_eq!(text_of(&lines[4]), "+A");
    assert_eq!(text_of(&lines[5]), "▏ @alice: on A");
    assert_eq!(text_of(&lines[7]), "+B");
    assert_eq!(usize::from(total_diff_lines(&files, &threads)), lines.len());
}

#[test]
fn split_thread_after_a_paired_block_follows_its_line() {
    let files = vec![fp_split("a.txt", Some("@@ -1,3 +1,3 @@\n-a\n+A\n ctx"))];
    let threads = vec![thread("a.txt", 2, "erin", "note")];
    let rows = render_split(&files, &threads);
    // header, stats, @@, (a | A), (ctx | ctx), note
    assert_eq!(rows.len(), 6);
    assert_eq!(text_of(&rows[4].1), "ctx");
    assert_eq!(text_of(&rows[5].1), "▏ @erin: note");
    let on_pair = vec![thread("a.txt", 1, "erin", "pair")];
    let rows = render_split(&files, &on_pair);
    assert_eq!(text_of(&rows[3].1), "A");
    assert_eq!(text_of(&rows[4].1), "▏ @erin: pair");
}

#[test]
fn threads_no_row_shows_are_not_counted() {
    let files = vec![fp("big.bin", None, PatchStatus::Modified), fp("a.rs", Some("@@ -1 +1 @@\n+x"), PatchStatus::Modified)];
    let threads = vec![thread("big.bin", 3, "bob", "unseen"), thread("a.rs", 9, "bob", "outside the hunk")];
    let lines = render(&files, &threads);
    assert_eq!(lines.len(), 8);
    let (offsets, total) = file_line_layout(&files, &threads);
    assert_eq!(usize::from(total), lines.len());
    assert_eq!(offsets, vec![0, 4]);
}

#[test]
fn change_spans_style_each_side() {
    let changes = vec![
        (ChangeKind::Equal, "let ".to_string()),
        (ChangeKind::Delete, "x".to_string()),
        (ChangeKind::Insert, "y".to_string()),
    ];
    let (m, p) = change_spans(&changes);
    assert_eq!(join(&m), "let x");
    assert_eq!(join(&p), "let y");
    assert_eq!(m[0].style.fg, Some(Color::Red));
    assert!(m[1].style.bold);
    assert_eq!(p[0].style.fg, Some(Color::Green));
    assert!(p[1].style.bold);
}
