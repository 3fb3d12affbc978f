//! What the server answers the editor.
use gitlab_mr_lsp::backend::{BackendState, PendingAction};
use gitlab_mr_lsp::commands::Command;
use gitlab_mr_lsp::config::Config;
use gitlab_mr_lsp::convert::CannotShow;
use gitlab_mr_lsp::editor::{
    code_action, code_actions_on, did_close, did_open, file_closed, first_note_preview, hover,
    hover_text, initialize, initialized, inlay_hint, inlay_hints_in, is_hintable, is_offerable,
    symbol, workspace_root, Argument,
};
use gitlab_mr_lsp::git::GitError;
use gitlab_mr_lsp::gitlab::diff::lsp_line_to_position;
use gitlab_mr_lsp::gitlab::types::{
    DiffRefs, Discussion, MergeRequest, MrDiff, Note, NotePosition, User,
};
use gitlab_mr_lsp::message::MessageType;

fn user() -> User {
    User { id: 1, username: "u".to_owned(), name: "U".to_owned() }
}

fn note(body: &str, line: u32) -> Note {
    Note {
        id: 1,
        body: body.to_owned(),
        author: user(),
        created_at: String::new(),
        position: Some(NotePosition {
            new_path: "src/a.rs".to_owned(),
            new_line: Some(line),
            old_path: None,
            old_line: None,
            position_type: "text".to_owned(),
            base_sha: String::new(),
            head_sha: String::new(),
            start_sha: String::new(),
        }),
        resolvable: true,
        resolved: false,
    }
}

fn config() -> Config {
    Config {
        gitlab_host: "https://h".to_owned(),
        gitlab_token: "t".to_owned(),
        mr_iid: None,
        poll_interval_secs: 60,
        ignore_patterns: vec![],
    }
}

fn state(discussions: Vec<(&str, Vec<Note>)>) -> BackendState {
    let mut s = BackendState {
        config: Some(config()),
        repo_root: "/repo".to_owned(),
        project_path: "g/r".to_owned(),
        mr: Some(MergeRequest {
            iid: 42,
            title: "Fix".to_owned(),
            state: "opened".to_owned(),
            source_branch: "f".to_owned(),
            target_branch: "main".to_owned(),
            sha: "abc".to_owned(),
            diff_refs: None,
            author: user(),
        }),
        diffs: vec![MrDiff {
            old_path: "src/a.rs".to_owned(),
            new_path: "src/a.rs".to_owned(),
            diff: String::new(),
            new_file: false,
            deleted_file: false,
            renamed_file: false,
        }],
        discussions: discussions
            .into_iter()
            .map(|(id, notes)| Discussion { id: id.to_owned(), resolved: false, notes })
            .collect(),
        ..Default::default()
    };
    s.rebuild_derived();
    s
}

const URI: &str = "file:///repo/src/a.rs";

#[test]
fn the_first_folder_comes_before_the_root() {
    assert_eq!(
        workspace_root(Some("file:///a"), Some("file:///b")).as_deref(),
        Some("/a")
    );
    assert_eq!(workspace_root(None, Some("file:///b")).as_deref(), Some("/b"));
    // A folder that is no file does not count
    assert_eq!(workspace_root(Some("untitled:x"), Some("file:///b")).as_deref(), Some("/b"));
    assert_eq!(workspace_root(None, None), None);
}

#[test]
fn initializing_takes_over_the_root_where_there_is_one() {
    let mut s = BackendState::default();
    initialize(&mut s, Some(config()), Some("/ws".to_owned()));
    assert_eq!(s.repo_root, "/ws");
    assert!(s.config.is_some());
    initialize(&mut s, None, None);
    assert_eq!(s.repo_root, "/ws");
    assert!(s.config.is_none());
}

#[test]
fn git_sets_the_root_only_if_none_is_set() {
    let mut s = BackendState::default();
    initialized(&mut s, Ok("/git".to_owned()), Ok("g/r".to_owned()));
    assert_eq!((s.repo_root.as_str(), s.project_path.as_str()), ("/git", "g/r"));
    initialized(&mut s, Ok("/other".to_owned()), Err(GitError::NoPath));
    assert_eq!((s.repo_root.as_str(), s.project_path.as_str()), ("/git", "g/r"));
    let mut s = BackendState::default();
    initialized(&mut s, Err(GitError::NoRepository), Err(GitError::DetachedHead));
    assert_eq!((s.repo_root.as_str(), s.project_path.as_str()), ("", ""));
}

#[test]
fn symbols_stand_under_number_and_title() {
    let mut s = state(vec![]);
    let found = symbol(&s, "A.RS");
    assert_eq!(found.len(), 1);
    assert_eq!(found[0].container_name, "MR !42 — Fix");
    assert_eq!(found[0].uri, URI);
    s.mr = None;
    assert_eq!(symbol(&s, "")[0].container_name, "");
}

#[test]
fn hovering_shows_the_threads_of_the_line() {
    let s = state(vec![
        ("1", vec![note("one", 5)]),
        ("2", vec![note("two", 6), note("re", 5)]),
        ("3", vec![note("three", 7)]),
    ]);
    let md = hover(&s, URI, 4).unwrap();
    assert_eq!(
        md,
        "**@u** · \n> one\n\n\n\n---\n\n**@u** · \n> two\n\n  **@u** · \n  > re\n\n\n\n---\n\n"
    );
    assert_eq!(hover(&s, URI, 0), None);
    assert_eq!(hover(&s, "file:///elsewhere/a.rs", 4), None);
    assert_eq!(hover_text(&s, &Some("src/b.rs".to_owned()), 4), None);
    assert_eq!(hover_text(&s, &None, 4), None);
}

fn titles(s: &BackendState, line: u32) -> Vec<String> {
    code_action(s, URI, line).unwrap().unwrap().into_iter().map(|a| a.title).collect()
}

#[test]
fn actions_are_offered_on_a_line() {
    let mut s = state(vec![
        ("1", vec![note("please fix\nmore", 5)]),
        ("2", vec![note("elsewhere", 6), note("re", 5)]),
    ]);
    assert_eq!(
        titles(&s, 4),
        vec!["Add review comment", "View MR diff", "Show thread (please fix)", "Approve MR !42"]
    );
    s.pending_input =
        Some(("/tmp/x".to_owned(), PendingAction::Reply { discussion_id: "1".to_owned() }));
    assert_eq!(titles(&s, 0)[0], "Submit MR input");
    s.mr.as_mut().unwrap().state = "merged".to_owned();
    s.diffs = vec![];
    assert_eq!(titles(&s, 0), vec!["Submit MR input", "Add review comment"]);
}

#[test]
fn actions_carry_their_arguments() {
    let s = state(vec![("1", vec![note("x", 5)])]);
    let actions = code_actions_on(&s, &Some("src/a.rs".to_owned()), 4).unwrap();
    assert_eq!(actions[0].command, Command::AddComment);
    assert!(matches!(&actions[0].argument, Argument::FileLine { file, line: 5 } if file == "src/a.rs"));
    assert_eq!(actions[1].command, Command::ViewDiff);
    assert!(matches!(&actions[1].argument, Argument::File { file } if file == "src/a.rs"));
    assert_eq!(actions[2].command, Command::ShowThread);
    assert!(matches!(&actions[2].argument, Argument::Thread { discussion_id } if discussion_id == "1"));
    assert_eq!(actions[3].command, Command::ApproveMr);
    assert!(matches!(&actions[3].argument, Argument::Nothing));
    assert!(code_actions_on(&s, &None, 4).is_none());
}

#[test]
fn titles_are_cut_after_40_bytes() {
    let line = "a".repeat(40);
    let of = |body: &str| {
        first_note_preview(&Discussion {
            id: String::new(),
            resolved: false,
            notes: vec![note(body, 1)],
        })
    };
    assert_eq!(of(&line), line);
    assert_eq!(of(&format!("{}b", line)), format!("{}…", line));
    assert_eq!(of("  kept "), "  kept ");
    let empty = Discussion { id: String::new(), resolved: false, notes: vec![] };
    assert_eq!(first_note_preview(&empty), "");
}

#[test]
fn a_title_that_cannot_be_cut_is_noticed() {
    let s = state(vec![("1", vec![note(&format!("{}ü", "a".repeat(39)), 5)])]);
    assert!(!is_offerable(&s, "src/a.rs", 5));
    assert!(is_offerable(&s, "src/a.rs", 6));
    assert!(matches!(code_action(&s, URI, 4), Err(CannotShow)));
    assert!(code_action(&s, URI, 5).is_ok());
}

#[test]
fn hints_are_given_in_a_file() {
    let s = state(vec![("1", vec![note("x", 5)])]);
    let hints = inlay_hint(&s, URI).unwrap();
    assert_eq!(hints.len(), 1);
    assert_eq!((hints[0].position.line, hints[0].label.as_str()), (4, "1/1 unresolved"));
    assert!(inlay_hint(&s, "file:///elsewhere").unwrap().is_empty());
    assert!(inlay_hints_in(&s, &Some("src/b.rs".to_owned())).is_empty());
}

#[test]
fn a_line_number_zero_is_noticed() {
    let s = state(vec![("1", vec![note("x", 0)])]);
    assert!(!is_hintable(&s, "src/a.rs"));
    assert!(is_hintable(&s, "src/b.rs"));
    assert!(matches!(inlay_hint(&s, URI), Err(CannotShow)));
    assert!(matches!(did_open(&s, URI), Err(CannotShow)));
}

#[test]
fn nothing_is_shown_as_long_as_something_is_missing() {
    let full = || state(vec![("1", vec![note("x", 5)])]);
    assert!(hover(&full(), URI, 4).is_some());
    let mut no_token = full();
    no_token.config.as_mut().unwrap().gitlab_token = String::new();
    let mut no_project = full();
    no_project.project_path = String::new();
    let mut no_mr = full();
    no_mr.mr = None;
    for s in [no_token, no_project, no_mr] {
        assert!(hover(&s, URI, 4).is_none());
        assert!(code_action(&s, URI, 4).unwrap().is_none());
        assert!(inlay_hint(&s, URI).unwrap().is_empty());
    }
}

#[test]
fn opening_a_file_tells_its_diagnostics() {
    let mut s = state(vec![("1", vec![note("x", 5)])]);
    let told = did_open(&s, URI).unwrap().unwrap();
    assert_eq!(told.uri, URI);
    let messages: Vec<&str> = told.diagnostics.iter().map(|d| d.message.as_str()).collect();
    assert_eq!(messages, vec!["Changed in MR !42", "@u - x"]);
    s.diffs = vec![];
    assert_eq!(did_open(&s, URI).unwrap().unwrap().diagnostics.len(), 1);
    assert!(did_open(&s, "file:///repo/b.rs").unwrap().unwrap().diagnostics.is_empty());
    assert!(did_open(&s, "file:///elsewhere").unwrap().is_none());
}

#[test]
fn closing_the_input_buffer_cancels() {
    let mut s = state(vec![]);
    assert!(did_close(&mut s, "file:///tmp/input.md").is_none());
    s.pending_input =
        Some(("/tmp/input.md".to_owned(), PendingAction::Reply { discussion_id: "1".to_owned() }));
    assert!(did_close(&mut s, "file:///tmp/other.md").is_none());
    assert!(file_closed(&mut s, &None).is_none());
    assert!(s.pending_input.is_some());
    let m = did_close(&mut s, "file:///tmp/input.md").unwrap();
    assert_eq!((m.kind, m.text.as_str()), (MessageType::Info, "MR input cancelled (buffer closed)."));
    assert!(s.pending_input.is_none());
}

#[test]
fn a_comment_comes_back_on_its_line() {
    let refs = DiffRefs { base_sha: "b".into(), head_sha: "h".into(), start_sha: "s".into() };
    let mut posted = note("hm", 1);
    posted.position = Some(lsp_line_to_position(4, "src/a.rs", &refs));
    let mut s = state(vec![("1", vec![posted])]);
    s.mr.as_mut().unwrap().diff_refs = Some(refs);
    assert!(hover(&s, URI, 4).is_some());
    assert!(titles(&s, 4).contains(&"Show thread (hm)".to_owned()));
    let told = did_open(&s, URI).unwrap().unwrap();
    assert_eq!(told.diagnostics[1].range.start.line, 4);
    assert_eq!(told.diagnostics[1].message, "@u - hm");
}
