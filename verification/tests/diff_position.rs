//! Where the lines of a diff stand in the old and in the new file.
use gitlab_mr_lsp::gitlab::diff::{
    line_numbers_fit, lsp_line_to_position, parse_diff_line_map, parse_hunk_header, position_at,
};
use gitlab_mr_lsp::gitlab::types::DiffRefs;

const SAMPLE_DIFF: &str = r#"@@ -1,5 +1,7 @@
 line one
 line two
+added line A
+added line B
 line three
-removed line
 line five
"#;

#[test]
fn parse_context_lines_map_correctly() {
    let map = parse_diff_line_map(SAMPLE_DIFF);
    // "line one" is new_line 1 → old_line 1 (context)
    assert_eq!(map.get(&1), Some(&Some(1)));
    // "line two" → new 2, old 2
    assert_eq!(map.get(&2), Some(&Some(2)));
    // "added line A" → new 3, old None
    assert_eq!(map.get(&3), Some(&None));
    // "added line B" → new 4, old None
    assert_eq!(map.get(&4), Some(&None));
    // "line three" → new 5, old 3
    assert_eq!(map.get(&5), Some(&Some(3)));
    // removed line increments old only (old becomes 4)
    // "line five" → new 6, old 5
    assert_eq!(map.get(&6), Some(&Some(5)));
}

#[test]
fn lsp_line_converts_to_1indexed() {
    let refs = DiffRefs {
        base_sha: "b".into(),
        head_sha: "h".into(),
        start_sha: "s".into(),
    };
    let pos = lsp_line_to_position(9, "src/foo.rs", &refs);
    assert_eq!(pos.new_line, Some(10));
    assert_eq!(pos.new_path, "src/foo.rs");
}

#[test]
fn multi_hunk_diff_position() {
    let diff = "\
@@ -1,3 +1,4 @@
 alpha
+inserted
 beta
 gamma
@@ -10,3 +11,2 @@
 delta
-removed
 epsilon
";
    let map = parse_diff_line_map(diff);

    // First hunk
    assert_eq!(map[&1], Some(1)); // alpha: context
    assert_eq!(map[&2], None); // inserted: added
    assert_eq!(map[&3], Some(2)); // beta: context
    assert_eq!(map[&4], Some(3)); // gamma: context

    // Second hunk (starts at new=11, old=10)
    assert_eq!(map[&11], Some(10)); // delta: context
                                    // old line 11 = "removed" → old increments to 12, new stays at 12
    assert_eq!(map[&12], Some(12)); // epsilon: context
}

#[test]
fn added_only_diff() {
    let diff = "\
@@ -0,0 +1,3 @@
+first
+second
+third
";
    let map = parse_diff_line_map(diff);
    assert_eq!(map[&1], None);
    assert_eq!(map[&2], None);
    assert_eq!(map[&3], None);
}

#[test]
fn a_position_on_a_line_carries_the_commits() {
    let refs = DiffRefs { base_sha: "b".into(), head_sha: "h".into(), start_sha: "s".into() };
    let pos = position_at(3, "src/foo.rs", &refs);
    assert_eq!(pos.new_line, Some(3));
    assert_eq!(pos.old_line, None);
    assert_eq!(pos.old_path.as_deref(), Some("src/foo.rs"));
    assert_eq!(pos.position_type, "text");
    assert_eq!((pos.base_sha, pos.head_sha, pos.start_sha), ("b".into(), "h".into(), "s".into()));
}

#[test]
fn headers_and_markers_are_skipped() {
    let diff = "diff --git a/x b/x\nindex 1..2\n--- a/x\n+++ b/x\n@@ -3 +5 @@ fn f()\n a\n\\ No newline\n+b\n--- a/y\n c\n";
    let map = parse_diff_line_map(diff);
    assert_eq!(map.len(), 2);
    assert_eq!(map[&5], Some(3));
    assert_eq!(map[&6], None);
}

#[test]
fn a_line_of_a_hunk_may_look_like_a_header() {
    // A removed line "-- note" and an added line "++ note"
    let map = parse_diff_line_map("@@ -1,2 +1,1 @@\n--- note\n b\n");
    assert_eq!(map.len(), 1);
    assert_eq!(map[&1], Some(2));
    let map = parse_diff_line_map("@@ -1,1 +1,2 @@\n+++ note\n b\n");
    assert_eq!(map.len(), 2);
    assert_eq!(map[&1], None);
    assert_eq!(map[&2], Some(1));
}

#[test]
fn a_hunk_that_lacks_lines_ends_at_a_header() {
    let map = parse_diff_line_map("@@ -1,2 +1,2 @@\n a\n+++ b\n");
    assert_eq!(map.len(), 1);
    assert_eq!(map[&1], Some(1));
    let map = parse_diff_line_map("@@ -1,4 +1,4 @@\n a\n--- a/y\n+++ b/y\n+c\n@@ -7 +9 @@\n b\n");
    assert_eq!(map.len(), 2);
    assert_eq!(map[&1], Some(1));
    assert_eq!(map[&9], Some(7));
}

#[test]
fn a_marker_in_a_hunk_takes_no_number() {
    let map = parse_diff_line_map(
        "@@ -1,2 +1,2 @@\n-a\n\\ No newline at end of file\n--- b\n+++ c\n+d\n\\ No newline\n",
    );
    assert_eq!(map.len(), 2);
    assert_eq!((map[&1], map[&2]), (None, None));
}

#[test]
fn behind_a_whole_hunk_headers_are_headers() {
    let map = parse_diff_line_map("@@ -1 +1 @@\n a\n--- a/y\n+++ b/y\n@@ -7 +9 @@\n-b\n+c\n");
    assert_eq!(map.len(), 2);
    assert_eq!(map[&1], Some(1));
    assert_eq!(map[&9], None);
}

#[test]
fn hunk_headers_are_read() {
    assert_eq!(parse_hunk_header("@@ -10,6 +12,8 @@ fn foo() {"), Some((10, 12)));
    assert_eq!(parse_hunk_header("@@ -1 +2"), Some((1, 2)));
    assert_eq!(parse_hunk_header("@@ -1"), None);
    assert_eq!(parse_hunk_header("@@ +1 -2 @@"), None);
    assert_eq!(parse_hunk_header("@@ -x,1 +2 @@"), None);
    assert_eq!(parse_hunk_header("@@@ -1 +2 @@"), None);
    assert_eq!(parse_hunk_header("@@ -1,2 +4294967296 @@"), None);
}

#[test]
fn a_hunk_header_that_cannot_be_read_changes_nothing() {
    let map = parse_diff_line_map("@@ -1 +1 @@\n a\n@@ nonsense\n b\n");
    assert_eq!(map[&1], Some(1));
    assert_eq!(map[&2], Some(2));
}

#[test]
fn numbers_past_32_bits_are_noticed() {
    assert!(line_numbers_fit("@@ -1 +4294967294 @@\n+a\n"));
    assert!(!line_numbers_fit("@@ -1 +4294967295 @@\n+a\n"));
    assert!(!line_numbers_fit("@@ -4294967295 +1 @@\n-a\n"));
    assert!(line_numbers_fit(""));
}
