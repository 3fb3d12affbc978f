//! Diagnostics, symbols, threads and hints.
use gitlab_mr_lsp::convert::{
    are_showable, diffs_to_changed_file_diagnostics, diffs_to_symbols, discussion_is_resolved,
    discussions_to_diagnostics, discussions_to_inlay_hints, listed_symbols, note_is_outdated,
    render_thread, InlayHintKind, Position, Severity, SymbolKind,
};
use gitlab_mr_lsp::gitlab::types::{DiffRefs, Discussion, MrDiff, Note, NotePosition, User};

fn refs(head: &str) -> DiffRefs {
    DiffRefs { base_sha: "b".to_owned(), head_sha: head.to_owned(), start_sha: "s".to_owned() }
}

fn note(body: &str, line: Option<u32>) -> Note {
    Note {
        id: 1,
        body: body.to_owned(),
        author: User { id: 2, username: "bob".to_owned(), name: "Bob".to_owned() },
        created_at: "2026-01-02T03:04:05Z".to_owned(),
        position: Some(NotePosition {
            new_path: "src/main.rs".to_owned(),
            new_line: line,
            old_path: None,
            old_line: None,
            position_type: "text".to_owned(),
            base_sha: "b".to_owned(),
            head_sha: "h".to_owned(),
            start_sha: "s".to_owned(),
        }),
        resolvable: true,
        resolved: false,
    }
}

fn thread(notes: Vec<Note>) -> Discussion {
    Discussion { id: "d".to_owned(), resolved: false, notes }
}

fn diff(path: &str) -> MrDiff {
    MrDiff {
        old_path: path.to_owned(),
        new_path: path.to_owned(),
        diff: String::new(),
        new_file: false,
        deleted_file: false,
        renamed_file: false,
    }
}

#[test]
fn a_thread_is_resolved_by_its_flag_or_a_note() {
    let mut d = thread(vec![note("a", Some(1)), note("b", Some(1))]);
    assert!(!discussion_is_resolved(&d));
    d.notes[1].resolved = true;
    assert!(discussion_is_resolved(&d));
    // A note that cannot be resolved does not count
    d.notes[1].resolvable = false;
    assert!(!discussion_is_resolved(&d));
    d.resolved = true;
    assert!(discussion_is_resolved(&d));
}

#[test]
fn a_note_is_outdated_at_another_version() {
    let n = note("a", Some(1));
    assert!(!note_is_outdated(&n, Some(&refs("h"))));
    assert!(note_is_outdated(&n, Some(&refs("h2"))));
    assert!(!note_is_outdated(&n, None));
    // Another base or start outdates it as well
    let at = |base: &str, start: &str| DiffRefs {
        base_sha: base.to_owned(),
        head_sha: "h".to_owned(),
        start_sha: start.to_owned(),
    };
    assert!(!note_is_outdated(&n, Some(&at("b", "s"))));
    assert!(note_is_outdated(&n, Some(&at("b2", "s"))));
    assert!(note_is_outdated(&n, Some(&at("b", "s2"))));
    let mut general = note("a", None);
    general.position = None;
    assert!(!note_is_outdated(&general, Some(&refs("h2"))));
}

#[test]
fn a_live_comment_informs() {
    let d = discussions_to_diagnostics(
        &vec![thread(vec![note("  please fix \nmore", Some(10))])],
        "src/main.rs",
        Some(&refs("h")),
    );
    assert_eq!(d.len(), 1);
    assert_eq!(d[0].message, "@bob - please fix");
    assert_eq!(d[0].severity, Severity::Information);
    assert_eq!(d[0].source, "gitlab-mr");
    assert_eq!(d[0].range.start, Position { line: 9, character: 0 });
    assert_eq!(d[0].range.end, Position { line: 9, character: u32::MAX });
}

#[test]
fn marks_of_outdated_and_resolved_comments() {
    let mut d = thread(vec![note("x", Some(1))]);
    d.resolved = true;
    let shown = discussions_to_diagnostics(&vec![d.clone()], "src/main.rs", Some(&refs("h")));
    assert_eq!(shown[0].message, "[resolved] @bob - x");
    assert_eq!(shown[0].severity, Severity::Hint);
    // Outdated comes first
    let shown = discussions_to_diagnostics(&vec![d], "src/main.rs", Some(&refs("new")));
    assert_eq!(shown[0].message, "[outdated] @bob - x");
    assert_eq!(shown[0].severity, Severity::Hint);
}

#[test]
fn only_comments_on_a_line_of_the_file_are_shown() {
    let mut general = note("x", None);
    general.position = None;
    let ds = vec![
        thread(vec![]),
        thread(vec![general]),
        thread(vec![note("whole file", None)]),
        thread(vec![note("here", Some(2))]),
    ];
    let shown = discussions_to_diagnostics(&ds, "src/main.rs", None);
    assert_eq!(shown.len(), 1);
    assert_eq!(shown[0].message, "@bob - here");
    assert!(discussions_to_diagnostics(&ds, "other.rs", None).is_empty());
}

#[test]
fn long_openings_are_cut_after_60_bytes() {
    let line = "a".repeat(60);
    let shown = |body: &str| {
        discussions_to_diagnostics(&vec![thread(vec![note(body, Some(1))])], "src/main.rs", None)[0]
            .message
            .clone()
    };
    assert_eq!(shown(&line), format!("@bob - {}", line));
    assert_eq!(shown(&format!("{}b", line)), format!("@bob - {}...", line));
    assert_eq!(shown(""), "@bob - ");
}

#[test]
fn what_cannot_be_shown_is_noticed() {
    assert!(are_showable(&vec![thread(vec![note("x", Some(1))]), thread(vec![])]));
    assert!(!are_showable(&vec![thread(vec![note("x", Some(0))])]));
    // The 60th byte lies inside a character
    let split = format!("{}ü and more", "a".repeat(59));
    assert!(!are_showable(&vec![thread(vec![note(&split, Some(1))])]));
    assert!(are_showable(&vec![thread(vec![note(&split, None)])]));
}

#[test]
fn changed_files_get_a_hint() {
    let d = diffs_to_changed_file_diagnostics("MR !42");
    assert_eq!(d.message, "Changed in MR !42");
    assert_eq!(d.severity, Severity::Hint);
    assert_eq!(d.source, "gitlab-mr");
    assert_eq!(d.range.start, Position { line: 0, character: 0 });
    assert_eq!(d.range.end, Position { line: 0, character: 0 });
}

#[test]
fn symbols_are_searched_in_any_case() {
    let diffs = vec![diff("src/Main.rs"), diff("docs/ÄRGER.md"), diff("src/lib.rs")];
    let names = |query: &str| {
        diffs_to_symbols(&diffs, "/repo", "MR !1", query)
            .into_iter()
            .map(|s| s.name)
            .collect::<Vec<String>>()
    };
    assert_eq!(names(""), vec!["src/Main.rs", "docs/ÄRGER.md", "src/lib.rs"]);
    assert_eq!(names("MAIN"), vec!["src/Main.rs"]);
    assert_eq!(names("ärg"), vec!["docs/ÄRGER.md"]);
    assert_eq!(names("src/"), vec!["src/Main.rs", "src/lib.rs"]);
    assert!(names("nothing").is_empty());
}

#[test]
fn a_symbol_names_its_file() {
    let s = &diffs_to_symbols(&vec![diff("src/lib.rs")], "/repo", "MR !1", "LIB")[0];
    assert_eq!(s.uri, "file:///repo/src/lib.rs");
    assert_eq!(s.kind, SymbolKind::File);
    assert_eq!(s.container_name, "MR !1");
    assert_eq!(s.range.start, Position { line: 0, character: 0 });
    // Without a root there is no URI, and no symbol
    assert!(diffs_to_symbols(&vec![diff("src/lib.rs")], "", "MR !1", "").is_empty());
}

#[test]
fn symbols_are_listed_from_what_is_given() {
    let diffs = vec![diff("A"), diff("B"), diff("C")];
    let lc: Vec<String> = vec!["a".to_owned(), "b".to_owned(), "c".to_owned()];
    let uris = vec![Some("u:a".to_owned()), None, Some("u:c".to_owned())];
    let all = listed_symbols(&diffs, &lc, &uris, "L", "");
    assert_eq!(all.len(), 2);
    assert_eq!((all[0].name.as_str(), all[0].uri.as_str()), ("A", "u:a"));
    assert_eq!((all[1].name.as_str(), all[1].uri.as_str()), ("C", "u:c"));
    assert_eq!(listed_symbols(&diffs, &lc, &uris, "L", "c").len(), 1);
    assert!(listed_symbols(&diffs, &lc, &uris, "L", "b").is_empty());
}

#[test]
fn a_thread_is_rendered_note_by_note() {
    let mut d = thread(vec![note("first\nline", Some(1)), note("re", Some(1))]);
    assert_eq!(
        render_thread(&d, Some(&refs("h"))),
        "**@bob** · 2026-01-02 03:04\n> first\n> line\n\n  **@bob** · 2026-01-02 03:04\n  > re\n\n"
    );
    d.resolved = true;
    assert_eq!(
        render_thread(&d, Some(&refs("new"))),
        "**[outdated — made on a previous version of this diff]**\n\n\
         **@bob** · 2026-01-02 03:04\n> first\n> line\n\n  **@bob** · 2026-01-02 03:04\n  > re\n\n\
         ✓ *Resolved*\n"
    );
    assert_eq!(render_thread(&thread(vec![]), None), "");
}

#[test]
fn a_short_time_stamp_is_shown_whole() {
    let mut n = note("x", Some(1));
    n.created_at = "2026T".to_owned();
    assert_eq!(render_thread(&thread(vec![n]), None), "**@bob** · 2026 \n> x\n\n");
}

fn labels(ds: Vec<Discussion>, head: &str) -> Vec<(u32, String)> {
    let mut hints: Vec<(u32, String)> =
        discussions_to_inlay_hints(&ds, "src/main.rs", Some(&refs(head)))
            .into_iter()
            .map(|h| {
                assert!(h.padding_right);
                assert_eq!(h.kind, InlayHintKind::Type);
                assert_eq!(h.position.character, 0);
                (h.position.line, h.label)
            })
            .collect();
    hints.sort();
    hints
}

#[test]
fn hints_count_the_comments_of_a_line() {
    let open = thread(vec![note("x", Some(3))]);
    let mut done = open.clone();
    done.resolved = true;
    assert_eq!(labels(vec![open.clone()], "h"), vec![(2, "1/1 unresolved".to_owned())]);
    assert_eq!(
        labels(vec![open.clone(), done.clone()], "h"),
        vec![(2, "1/2 unresolved".to_owned())]
    );
    assert_eq!(labels(vec![done.clone()], "h"), vec![(2, "✓ 1 comment".to_owned())]);
    assert_eq!(labels(vec![done.clone(), done.clone()], "h"), vec![(2, "✓ 2 comments".to_owned())]);
    assert_eq!(labels(vec![open.clone(), done.clone()], "new"), vec![(2, "2 outdated".to_owned())]);
    let mut old = open.clone();
    old.notes[0].position.as_mut().unwrap().head_sha = "before".to_owned();
    assert_eq!(
        labels(vec![open.clone(), old], "h"),
        vec![(2, "1/1 unresolved, 1 outdated".to_owned())]
    );
}

#[test]
fn each_line_has_one_hint() {
    let ds = vec![
        thread(vec![note("x", Some(3))]),
        thread(vec![note("y", Some(1))]),
        thread(vec![note("z", Some(3))]),
        thread(vec![note("file", None)]),
        thread(vec![]),
    ];
    assert_eq!(
        labels(ds, "h"),
        vec![(0, "1/1 unresolved".to_owned()), (2, "2/2 unresolved".to_owned())]
    );
}
