//! What the state derives from what was loaded, and which files count as seen.
use gitlab_mr_lsp::backend::BackendState;
use gitlab_mr_lsp::config::Config;
use gitlab_mr_lsp::file_map::FileMap;
use gitlab_mr_lsp::gitlab::types::{Discussion, MrDiff, Note, NotePosition, User};
use gitlab_mr_lsp::ignore::is_ignored;

fn diff(path: &str, text: &str) -> MrDiff {
    MrDiff {
        old_path: path.to_owned(),
        new_path: path.to_owned(),
        diff: text.to_owned(),
        new_file: false,
        deleted_file: false,
        renamed_file: false,
    }
}

fn note(path: Option<&str>) -> Note {
    Note {
        id: 1,
        body: "b".to_owned(),
        author: User { id: 1, username: "u".to_owned(), name: "U".to_owned() },
        created_at: String::new(),
        position: path.map(|p| NotePosition {
            new_path: p.to_owned(),
            new_line: Some(1),
            old_path: None,
            old_line: None,
            position_type: "text".to_owned(),
            base_sha: String::new(),
            head_sha: String::new(),
            start_sha: String::new(),
        }),
        resolvable: true,
        resolved: false,
    }
}

fn discussion(id: &str, notes: Vec<Note>) -> Discussion {
    Discussion { id: id.to_owned(), resolved: false, notes }
}

fn config(patterns: &[&str]) -> Config {
    Config {
        gitlab_host: "h".to_owned(),
        gitlab_token: "t".to_owned(),
        mr_iid: None,
        poll_interval_secs: 60,
        ignore_patterns: patterns.iter().map(|p| (*p).to_owned()).collect(),
    }
}

fn ids(s: &BackendState, file: &str) -> Vec<String> {
    s.discussions_by_file
        .get(file)
        .map(|ds| ds.iter().map(|d| d.id.clone()).collect())
        .unwrap_or_default()
}

#[test]
fn discussions_are_grouped_by_the_file_of_their_first_note() {
    let mut s = BackendState {
        discussions: vec![
            discussion("1", vec![note(Some("b"))]),
            discussion("2", vec![note(Some("a")), note(Some("b"))]),
            discussion("3", vec![]),
            discussion("4", vec![note(None), note(Some("a"))]),
            discussion("5", vec![note(Some("b"))]),
        ],
        ..Default::default()
    };
    s.rebuild_derived();
    assert_eq!(s.discussions_by_file.len(), 2);
    assert_eq!(s.discussions_by_file.path_list(), vec!["b", "a"]);
    assert_eq!(ids(&s, "b"), vec!["1", "5"]);
    assert_eq!(ids(&s, "a"), vec!["2"]);
    assert!(!s.discussions_by_file.contains_key("c"));
}

#[test]
fn the_last_diff_of_a_file_gives_its_line_map() {
    let mut s = BackendState {
        diffs: vec![
            diff("a", "@@ -1 +1 @@\n x\n"),
            diff("b", "@@ -1 +9 @@\n+x\n"),
            diff("a", "@@ -4 +5 @@\n x\n"),
        ],
        ..Default::default()
    };
    s.rebuild_derived();
    let a = s.line_maps.get("a").unwrap();
    assert_eq!(a.len(), 1);
    assert_eq!(a[&5], Some(4));
    assert_eq!(s.line_maps.get("b").unwrap()[&9], None);
}

#[test]
fn rebuilding_forgets_what_was_there() {
    let mut s = BackendState {
        discussions: vec![discussion("1", vec![note(Some("a"))])],
        ..Default::default()
    };
    s.rebuild_derived();
    s.discussions = vec![];
    s.rebuild_derived();
    assert_eq!(s.discussions_by_file.len(), 0);
}

#[test]
fn a_discussion_is_resolvable_if_a_note_is() {
    let mut fixed = note(None);
    fixed.resolvable = false;
    assert!(!discussion("1", vec![]).resolvable());
    assert!(!discussion("1", vec![fixed.clone()]).resolvable());
    assert!(discussion("1", vec![fixed, note(None)]).resolvable());
}

#[test]
fn ignored_files_are_marked_as_seen() {
    let mut s = BackendState {
        config: Some(config(&["*.lock", "[", "vendor/**", "README.md"])),
        diffs: vec![
            diff("Cargo.lock", ""),
            diff("src/main.rs", ""),
            diff("vendor/x/y.rs", ""),
            diff("README.md", ""),
        ],
        ..Default::default()
    };
    s.seen_files.insert("Cargo.lock".to_owned(), "old".to_owned());
    s.seen_files.insert("src/main.rs".to_owned(), "old".to_owned());
    s.apply_ignore_patterns("new");
    assert_eq!(s.seen_files.get("Cargo.lock").unwrap(), "new");
    assert_eq!(s.seen_files.get("vendor/x/y.rs").unwrap(), "new");
    assert_eq!(s.seen_files.get("README.md").unwrap(), "new");
    // A file that is not ignored keeps its mark, which is stale at the new head
    assert_eq!(s.seen_files.get("src/main.rs").unwrap(), "old");
}

#[test]
fn without_patterns_nothing_is_marked() {
    let mut s = BackendState { diffs: vec![diff("a", "")], ..Default::default() };
    s.apply_ignore_patterns("head");
    assert_eq!(s.seen_files.len(), 0);
    s.config = Some(config(&[]));
    s.apply_ignore_patterns("head");
    assert_eq!(s.seen_files.len(), 0);
    // A pattern that is not valid matches nothing
    s.config = Some(config(&["a**"]));
    s.apply_ignore_patterns("head");
    assert_eq!(s.seen_files.len(), 0);
}

#[test]
fn files_are_marked_as_the_answers_say() {
    let mut s = BackendState { diffs: vec![diff("a", ""), diff("b", "")], ..Default::default() };
    s.mark_seen("h", &vec![false, true]);
    assert!(s.seen_files.get("a").is_none());
    assert_eq!(s.seen_files.get("b").unwrap(), "h");
}

#[test]
fn patterns_match_as_globs() {
    let patterns: Vec<String> = vec!["docs/*.md".to_owned(), "exact".to_owned()];
    assert!(is_ignored(&patterns, "docs/a.md"));
    assert!(is_ignored(&patterns, "exact"));
    assert!(!is_ignored(&patterns, "exactly"));
    assert!(!is_ignored(&patterns, "docs/a.txt"));
    assert!(!is_ignored(&vec![], "exact"));
}

#[test]
fn a_file_map_holds_each_path_once() {
    let mut m: FileMap<u32> = FileMap::new();
    m.insert("a".to_owned(), 1);
    m.insert("b".to_owned(), 2);
    m.insert("a".to_owned(), 3);
    assert_eq!(m.len(), 2);
    assert_eq!(m.get("a"), Some(&3));
    assert_eq!(m.get("c"), None);
    assert_eq!(m.at(0), ("a", &3));
    assert_eq!(m.at(1), ("b", &2));
    assert_eq!(m.clone().path_list(), vec!["a", "b"]);
}

#[test]
fn a_copy_of_the_state_says_the_same() {
    let mut s = BackendState {
        config: Some(config(&["x"])),
        repo_root: "/r".to_owned(),
        diffs: vec![diff("a", "@@ -1 +1 @@\n x\n")],
        discussions: vec![discussion("1", vec![note(Some("a"))])],
        last_out_of_sync_sha: Some("sha".to_owned()),
        ..Default::default()
    };
    s.rebuild_derived();
    s.seen_files.insert("a".to_owned(), "h".to_owned());
    let copy = s.clone();
    assert_eq!(copy.config.unwrap().ignore_patterns, vec!["x"]);
    assert_eq!(copy.repo_root, "/r");
    assert_eq!(copy.diffs[0].diff, s.diffs[0].diff);
    assert_eq!(copy.discussions_by_file.get("a").unwrap()[0].id, "1");
    assert_eq!(copy.line_maps.get("a"), s.line_maps.get("a"));
    assert_eq!(copy.last_out_of_sync_sha.as_deref(), Some("sha"));
    assert_eq!(copy.seen_files.get("a").unwrap(), "h");
}

#[test]
fn stars_and_question_marks_match_anything() {
    let is = |pattern: &str, path: &str| is_ignored(&vec![pattern.to_owned()], path);
    assert!(is("*.lock", "Cargo.lock"));
    assert!(is("*.lock", "deep/down/x.lock"));
    assert!(is("*.lock", ".lock"));
    assert!(!is("*.lock", "x.lockfile"));
    assert!(is("a*b*c", "a/b/c"));
    assert!(!is("a*b*c", "a/c/b"));
    assert!(is("?", "/"));
    assert!(!is("?", ""));
    assert!(is("", ""));
    assert!(!is("a]", "a"));
    assert!(is("a]", "a]"));
    assert!(is("*a*bc", "abxabc"));
    assert!(!is("*a*bc", "abxab"));
}
