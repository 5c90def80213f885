use git_dashboard::diff::{adjacent_file, file_position_text, hunk_jump, hunk_start_rows};
use git_dashboard::palette::{escape_step, EscapeStep};
use git_dashboard::diff::{line_similarity, parse_unified_diff, DiffRowKind, DiffRow};
use git_dashboard::git::ChangedFile;
use git_dashboard::search::get_diff_search_matches;
use git_dashboard::tree::{build_diff_tree, collapse_top_dirs_if_large, compress_diff_tree, file_label, file_stats, DiffTreeNode};

fn similarity(a: &str, b: &str) -> f32 {
    let (num, den) = line_similarity(a, b);
    num as f32 / den as f32
}

#[test]
fn test_parse_unified_diff_additions_only() {
    let diff = "\
--- a/foo.rs
+++ b/foo.rs
@@ -1,2 +1,4 @@
 fn main() {
+    let x = 1;
+    let y = 2;
 }
";
    let rows = parse_unified_diff(diff);
    let added: Vec<_> = rows.iter().filter(|r| r.kind == DiffRowKind::Added).collect();
    assert_eq!(added.len(), 2);
    assert_eq!(added[0].right_text.as_deref(), Some("    let x = 1;"));
    assert!(added[0].left_text.is_none());
}

#[test]
fn test_parse_unified_diff_modified_pairs() {
    let diff = "\
--- a/foo.rs
+++ b/foo.rs
@@ -1,3 +1,3 @@
 fn main() {
-    let x = 1;
+    let x = 42;
 }
";
    let rows = parse_unified_diff(diff);
    let modified: Vec<_> = rows.iter().filter(|r| r.kind == DiffRowKind::Modified).collect();
    assert_eq!(modified.len(), 1);
    assert_eq!(modified[0].left_text.as_deref(), Some("    let x = 1;"));
    assert_eq!(modified[0].right_text.as_deref(), Some("    let x = 42;"));
}

#[test]
fn test_parse_unified_diff_removals_only() {
    let diff = "\
--- a/foo.rs
+++ b/foo.rs
@@ -1,4 +1,2 @@
 fn main() {
-    let x = 1;
-    let y = 2;
 }
";
    let rows = parse_unified_diff(diff);
    let removed: Vec<_> = rows.iter().filter(|r| r.kind == DiffRowKind::Removed).collect();
    assert_eq!(removed.len(), 2);
    assert!(removed[0].right_text.is_none());
}

#[test]
fn test_parse_unified_diff_context() {
    let diff = "\
--- a/foo.rs
+++ b/foo.rs
@@ -1,3 +1,3 @@
 fn a() {}
 fn b() {}
 fn c() {}
";
    let rows = parse_unified_diff(diff);
    assert!(rows.iter().all(|r| r.kind == DiffRowKind::Context));
    assert_eq!(rows.len(), 3);
    assert_eq!(rows[0].left_no, Some(1));
    assert_eq!(rows[0].right_no, Some(1));
}

#[test]
fn test_parse_unified_diff_multiple_hunks() {
    let diff = "\
--- a/foo.rs
+++ b/foo.rs
@@ -1,3 +1,3 @@
-line1
+line1 changed
 line2
 line3
@@ -10,3 +10,3 @@
 line10
-line11
+line11 changed
 line12
";
    let rows = parse_unified_diff(diff);
    let modified: Vec<_> = rows.iter().filter(|r| r.kind == DiffRowKind::Modified).collect();
    assert_eq!(modified.len(), 2);
    assert_eq!(modified[0].left_no, Some(1));
    assert_eq!(modified[1].left_no, Some(11));
}

#[test]
fn test_parse_unified_diff_dissimilar_pair_splits() {
    let diff = "\
--- a/foo.rs
+++ b/foo.rs
@@ -1,2 +1,2 @@
-completely different old content
+zzz qqq xxx
 ctx
";
    let rows = parse_unified_diff(diff);
    assert_eq!(rows.len(), 3);
    assert_eq!(rows[0].kind, DiffRowKind::Removed);
    assert_eq!(rows[0].left_no, Some(1));
    assert_eq!(rows[0].right_no, None);
    assert_eq!(rows[1].kind, DiffRowKind::Added);
    assert_eq!(rows[1].left_no, None);
    assert_eq!(rows[1].right_no, Some(1));
    assert_eq!(rows[2].kind, DiffRowKind::Context);
}

#[test]
fn test_parse_unified_diff_similar_pair_modified() {
    let diff = "\
--- a/foo.rs
+++ b/foo.rs
@@ -1,1 +1,1 @@
-let value = compute(1);
+let value = compute(2);
";
    let rows = parse_unified_diff(diff);
    assert_eq!(rows.len(), 1);
    assert_eq!(rows[0].kind, DiffRowKind::Modified);
    assert_eq!(rows[0].left_no, Some(1));
    assert_eq!(rows[0].right_no, Some(1));
}

#[test]
fn test_parse_unified_diff_no_newline_marker() {
    let diff = "\
--- a/foo.rs
+++ b/foo.rs
@@ -1,2 +1,2 @@
 line1
-old value
\\ No newline at end of file
+new value
\\ No newline at end of file
";
    let rows = parse_unified_diff(diff);
    assert_eq!(rows.len(), 2);
    assert_eq!(rows[0].kind, DiffRowKind::Context);
    assert_eq!(rows[1].kind, DiffRowKind::Modified);
    assert_eq!(rows[1].left_no, Some(2));
    assert_eq!(rows[1].right_no, Some(2));
}

#[test]
fn test_line_similarity() {
    assert!(similarity("let x = foo;", "let x = bar;") >= 0.5);
    assert!(similarity("abcdef", "xyzqwp") < 0.5);
    assert_eq!(similarity("", ""), 1.0);
    assert_eq!(similarity("abc", ""), 0.0);
}

#[test]
fn line_similarity_exact_ratio() {
    // 2 * common / (len a + len b): "abcd" and "abxd" share 3 characters.
    assert_eq!(line_similarity("abcd", "abxd"), (6, 8));
}

fn changed(path: &str, status: &str, additions: usize, deletions: usize) -> ChangedFile {
    ChangedFile {
        path: path.to_string(),
        status: status.to_string(),
        additions,
        deletions,
        old_path: None,
    }
}

#[test]
fn test_build_and_compress_tree() {
    let files = vec![
        changed("src/app/mod.rs", "M", 10, 5),
        changed("src/app/diff.rs", "A", 100, 0),
        changed("Cargo.toml", "M", 1, 1),
    ];

    let mut tree = build_diff_tree(&files);
    assert_eq!(tree.len(), 2);

    compress_diff_tree(&mut tree);
    assert_eq!(tree.len(), 2);

    if let DiffTreeNode::Dir { name, full_path, children } = &tree[0] {
        assert_eq!(name, "src/app");
        assert_eq!(full_path, "src/app");
        assert_eq!(children.len(), 2);
    } else {
        panic!("Expected directory node at index 0");
    }
}

#[test]
fn tree_levels_are_sorted_directories_first() {
    let files = vec![
        changed("b.txt", "M", 1, 0),
        changed("z/x.rs", "M", 1, 0),
        changed("a.txt", "M", 1, 0),
        changed("c/y.rs", "M", 1, 0),
    ];
    let tree = build_diff_tree(&files);
    let names: Vec<String> = tree
        .iter()
        .map(|n| match n {
            DiffTreeNode::Dir { name, .. } => name.clone(),
            DiffTreeNode::File { name, .. } => name.clone(),
        })
        .collect();
    assert_eq!(names, vec!["c", "z", "a.txt", "b.txt"]);
    if let DiffTreeNode::File { file, .. } = &tree[2] {
        assert_eq!(file.path, "a.txt");
    } else {
        panic!("expected a file");
    }
}

#[test]
fn collapse_only_when_large() {
    let files = vec![changed("src/a.rs", "M", 1, 0), changed("top.rs", "M", 1, 0)];
    let tree = build_diff_tree(&files);
    assert!(collapse_top_dirs_if_large(&tree, 500).is_empty());
    assert_eq!(collapse_top_dirs_if_large(&tree, 501), vec!["src".to_string()]);
}

fn row(left: Option<&str>, right: Option<&str>) -> DiffRow {
    DiffRow {
        kind: DiffRowKind::Context,
        left_no: None,
        left_text: left.map(|s| s.to_string()),
        right_no: None,
        right_text: right.map(|s| s.to_string()),
    }
}

#[test]
fn diff_search_ignores_case() {
    let rows = vec![row(Some("Hello"), None), row(None, Some("world")), row(Some("HELLO"), Some("x"))];
    assert_eq!(get_diff_search_matches(&rows, "hello"), vec![0, 2]);
    assert_eq!(get_diff_search_matches(&rows, "WORLD"), vec![1]);
    assert!(get_diff_search_matches(&rows, "").is_empty());
}

#[test]
fn hunk_and_file_navigation() {
    let row = |kind: DiffRowKind| DiffRow { kind, left_no: None, left_text: None, right_no: None, right_text: None };
    let rows = vec![
        row(DiffRowKind::Added),
        row(DiffRowKind::Added),
        row(DiffRowKind::Context),
        row(DiffRowKind::Modified),
        row(DiffRowKind::Context),
        row(DiffRowKind::Context),
        row(DiffRowKind::Removed),
    ];
    let starts = hunk_start_rows(&rows);
    assert_eq!(starts, vec![0, 3, 6]);
    assert_eq!(hunk_jump(&starts, 0, true), 3);
    assert_eq!(hunk_jump(&starts, 3, true), 6);
    assert_eq!(hunk_jump(&starts, 6, true), 0);
    assert_eq!(hunk_jump(&starts, 3, false), 0);
    assert_eq!(hunk_jump(&starts, 0, false), 6);
    assert_eq!(hunk_jump(&starts, 4, false), 3);

    let file = |p: &str| ChangedFile { status: "M".to_string(), path: p.to_string(), old_path: None, additions: 1, deletions: 0 };
    let files = vec![file("a.rs"), file("b.rs"), file("c.rs")];
    assert_eq!(adjacent_file(&files, &Some("b.rs".to_string()), true), 2);
    assert_eq!(adjacent_file(&files, &Some("c.rs".to_string()), true), 0);
    assert_eq!(adjacent_file(&files, &Some("a.rs".to_string()), false), 2);
    assert_eq!(adjacent_file(&files, &Some("gone.rs".to_string()), false), 0);
    assert_eq!(adjacent_file(&files, &None, true), 0);
    assert_eq!(file_position_text(&files, "b.rs"), Some("2/3".to_string()));
    assert_eq!(file_position_text(&files, "zzz"), None);
}

#[test]
fn escape_steps_back() {
    assert_eq!(escape_step(true, true, true, true, true, true), EscapeStep::ClosePalette);
    assert_eq!(escape_step(false, true, true, true, false, true), EscapeStep::CloseSearch);
    assert_eq!(escape_step(false, false, true, true, false, true), EscapeStep::ClearLineSelection);
    assert_eq!(escape_step(false, false, false, true, false, true), EscapeStep::CloseDiff);
    assert_eq!(escape_step(false, false, false, false, true, true), EscapeStep::CloseSettings);
    assert_eq!(escape_step(false, false, false, false, false, true), EscapeStep::CloseRepository);
    assert_eq!(escape_step(false, false, false, false, false, false), EscapeStep::Nothing);
}

#[test]
fn tree_file_labels() {
    let renamed = ChangedFile { status: "R".to_string(), path: "src/new.rs".to_string(), old_path: Some("src/old.rs".to_string()), additions: 12, deletions: 0 };
    assert_eq!(file_label("new.rs", &renamed), "new.rs (← src/old.rs)");
    assert_eq!(file_stats(&renamed), "+12 -0");
    let plain = ChangedFile { status: "M".to_string(), path: "a.rs".to_string(), old_path: None, additions: 1, deletions: 3 };
    assert_eq!(file_label("a.rs", &plain), "a.rs");
    assert_eq!(file_stats(&plain), "+1 -3");
}

#[test]
fn tree_directories_have_paths_and_unique_names() {
    let files = vec![
        changed("a/b/c.rs", "M", 1, 0),
        changed("a/e.rs", "M", 1, 0),
        changed("a/b/d.rs", "M", 1, 0),
    ];
    let tree = build_diff_tree(&files);
    assert_eq!(tree.len(), 1);
    if let DiffTreeNode::Dir { name, full_path, children } = &tree[0] {
        assert_eq!(name, "a");
        assert_eq!(full_path, "a");
        assert_eq!(children.len(), 2);
        if let DiffTreeNode::Dir { name, full_path, children } = &children[0] {
            assert_eq!(name, "b");
            assert_eq!(full_path, "a/b");
            assert_eq!(children.len(), 2);
            assert!(matches!(&children[0], DiffTreeNode::File { name, file } if name == "c.rs" && file.path == "a/b/c.rs"));
        } else {
            panic!("expected the directory b first");
        }
        assert!(matches!(&children[1], DiffTreeNode::File { name, .. } if name == "e.rs"));
    } else {
        panic!("expected the directory a");
    }
}

#[test]
fn diff_columns_count_up_from_each_header() {
    let diff = "\
@@ -5,3 +7,3 @@
 keep
-old
+new one
+new two
\\ No newline at end of file
@@ -20 +30 @@
-gone
 tail
";
    let rows = parse_unified_diff(diff);
    let left: Vec<(String, usize)> = rows
        .iter()
        .filter_map(|r| r.left_text.clone().map(|t| (t, r.left_no.unwrap())))
        .collect();
    let right: Vec<(String, usize)> = rows
        .iter()
        .filter_map(|r| r.right_text.clone().map(|t| (t, r.right_no.unwrap())))
        .collect();
    let l = |t: &str, n: usize| (t.to_string(), n);
    assert_eq!(left, vec![l("keep", 5), l("old", 6), l("gone", 20), l("tail", 21)]);
    assert_eq!(right, vec![l("keep", 7), l("new one", 8), l("new two", 9), l("tail", 30)]);
}
