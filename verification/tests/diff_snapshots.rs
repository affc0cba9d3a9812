//! Plain-text views of whole rendered diffs: each row's spans joined, the
//! rows joined by newlines (split rows as `left │ right`, the left column
//! padded to 60 characters).

use gh_tui::diff::split::render as render_split;
use gh_tui::diff::unified::render_diff;
use gh_tui::pulls::{FilePatch, PatchStatus};
use gh_tui::style::Line;

const SIMPLE: &str = "@@ -1,3 +1,3 @@\n fn main() {\n-    println!(\"hello\");\n+    println!(\"world\");\n }\n";
const ADDED: &str = "@@ -0,0 +1,3 @@\n+fn added() -> u32 {\n+    1\n+}\n";
const MULTI_HUNK: &str = "@@ -1,3 +1,3 @@\n fn a() {\n-    old();\n+    new();\n }\n@@ -10,2 +10,3 @@\n fn b() {\n+    extra();\n }\n";
const WORD_SIMPLE: &str = "@@ -1,3 +1,3 @@\n fn f() {\n-    let x = 1;\n+    let y = 1;\n }\n";
const WORD_UNBALANCED_BLOCK: &str = "@@ -1,5 +1,3 @@\n fn g() {\n-    a();\n-    b();\n-    c();\n+    d();\n }\n";
const WORD_PURE_ADD: &str = "@@ -1,1 +1,3 @@\n fn h() {}\n+fn i() {}\n+fn j() {}\n";

fn text(l: &Line) -> String {
    l.spans.iter().map(|s| s.content.as_str()).collect()
}

fn flatten(files: &Vec<FilePatch>) -> String {
    render_diff(files).iter().map(text).collect::<Vec<_>>().join("\n")
}

fn pair_text(l: &str, r: &str) -> String {
    format!("{l:60} │ {r}")
}

fn flatten_split(files: &Vec<FilePatch>) -> String {
    render_split(files, &Vec::new())
        .iter()
        .map(|(l, r)| pair_text(&text(l), &text(r)))
        .collect::<Vec<_>>()
        .join("\n")
}

fn expected_split(rows: &[(&str, &str)]) -> String {
    rows.iter().map(|(l, r)| pair_text(l, r)).collect::<Vec<_>>().join("\n")
}

fn patch_file(path: &str, status: PatchStatus, additions: u32, deletions: u32, patch: &str, sha: &str) -> FilePatch {
    FilePatch {
        path: path.into(),
        previous_path: None,
        status,
        additions,
        deletions,
        patch: Some(patch.to_string()),
        blob_sha: sha.into(),
    }
}

fn one_file(name: &str, patch: &str, status: PatchStatus, additions: u32, deletions: u32) -> Vec<FilePatch> {
    vec![patch_file(&format!("src/{name}.rs"), status, additions, deletions, patch, "deadbeef")]
}

#[test]
fn simple() {
    assert_eq!(
        flatten(&one_file("simple", SIMPLE, PatchStatus::Modified, 1, 1)),
        "src/simple.rs (modified)\n+1 -1\n@@ -1,3 +1,3 @@\n fn main() {\n-    println!(\"hello\");\n+    println!(\"world\");\n }"
    );
}

#[test]
fn added() {
    assert_eq!(
        flatten(&one_file("added", ADDED, PatchStatus::Added, 3, 0)),
        "src/added.rs (added)\n+3 -0\n@@ -0,0 +1,3 @@\n+fn added() -> u32 {\n+    1\n+}"
    );
}

#[test]
fn multi_hunk() {
    assert_eq!(
        flatten(&one_file("multi_hunk", MULTI_HUNK, PatchStatus::Modified, 2, 1)),
        "src/multi_hunk.rs (modified)\n+2 -1\n@@ -1,3 +1,3 @@\n fn a() {\n-    old();\n+    new();\n }\n@@ -10,2 +10,3 @@\n fn b() {\n+    extra();\n }"
    );
}

#[test]
fn omitted_patch_renders_placeholder() {
    let files = vec![FilePatch {
        path: "vendor/big_blob.bin".into(),
        previous_path: None,
        status: PatchStatus::Modified,
        additions: 0,
        deletions: 0,
        patch: None,
        blob_sha: "deadbeef".into(),
    }];
    assert_eq!(
        flatten(&files),
        "vendor/big_blob.bin (modified)\n+0 -0\n[diff omitted: file too large or binary]"
    );
}

#[test]
fn multiple_files_separated_by_blank_line() {
    let files = vec![
        patch_file("src/a.rs", PatchStatus::Modified, 1, 1, SIMPLE, "aa"),
        patch_file("src/b.rs", PatchStatus::Added, 3, 0, ADDED, "bb"),
    ];
    assert_eq!(
        flatten(&files),
        "src/a.rs (modified)\n+1 -1\n@@ -1,3 +1,3 @@\n fn main() {\n-    println!(\"hello\");\n+    println!(\"world\");\n }\n\nsrc/b.rs (added)\n+3 -0\n@@ -0,0 +1,3 @@\n+fn added() -> u32 {\n+    1\n+}"
    );
}

#[test]
fn split_simple_balanced() {
    let files = vec![patch_file("src/word_simple.rs", PatchStatus::Modified, 1, 1, WORD_SIMPLE, "x")];
    assert_eq!(
        flatten_split(&files),
        expected_split(&[
            ("src/word_simple.rs (modified)", "src/word_simple.rs (modified)"),
            ("+1 -1", "+1 -1"),
            ("@@ -1,3 +1,3 @@", "@@ -1,3 +1,3 @@"),
            ("fn f() {", "fn f() {"),
            ("    let x = 1;", "    let y = 1;"),
            ("}", "}"),
        ])
    );
}

#[test]
fn split_unbalanced_uses_filler() {
    let files = vec![patch_file(
        "src/word_unbalanced.rs",
        PatchStatus::Modified,
        1,
        3,
        WORD_UNBALANCED_BLOCK,
        "x",
    )];
    assert_eq!(
        flatten_split(&files),
        expected_split(&[
            ("src/word_unbalanced.rs (modified)", "src/word_unbalanced.rs (modified)"),
            ("+1 -3", "+1 -3"),
            ("@@ -1,5 +1,3 @@", "@@ -1,5 +1,3 @@"),
            ("fn g() {", "fn g() {"),
            ("    a();", "  ~  "),
            ("    b();", "  ~  "),
            ("    c();", "  ~  "),
            ("  ~  ", "    d();"),
            ("}", "}"),
        ])
    );
}

#[test]
fn split_pure_add_uses_filler_left() {
    let files = vec![patch_file("src/word_pure_add.rs", PatchStatus::Modified, 2, 0, WORD_PURE_ADD, "x")];
    assert_eq!(
        flatten_split(&files),
        expected_split(&[
            ("src/word_pure_add.rs (modified)", "src/word_pure_add.rs (modified)"),
            ("+2 -0", "+2 -0"),
            ("@@ -1,1 +1,3 @@", "@@ -1,1 +1,3 @@"),
            ("fn h() {}", "fn h() {}"),
            ("  ~  ", "fn i() {}"),
            ("  ~  ", "fn j() {}"),
        ])
    );
}
