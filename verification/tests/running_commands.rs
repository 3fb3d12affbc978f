//! The commands of the editor.
use gitlab_mr_lsp::backend::{BackendState, PendingAction};
use gitlab_mr_lsp::commands::{
    approve_outcome, command_named, command_names, diff_shown, diff_unwritten, diff_without_uri,
    handle_add_comment, handle_reply, handle_show_thread, handle_view_diff, input_body,
    input_path, input_shown, input_unreadable, input_written, refuse_input, resolve_outcome,
    snap_config_mr, submit_input, take_input, thread_action, Command, NewNote, Submission,
    ThreadAction,
};
use gitlab_mr_lsp::config::Config;
use gitlab_mr_lsp::gitlab::client::{Body, Call, ClientError, GitLabClient, Stage};
use gitlab_mr_lsp::gitlab::diff::parse_diff_line_map;
use gitlab_mr_lsp::gitlab::types::{DiffRefs, Discussion, MergeRequest, MrDiff, Note, User};
use gitlab_mr_lsp::message::MessageType;

fn user() -> User {
    User { id: 1, username: "u".to_owned(), name: "U".to_owned() }
}

fn mr(refs: bool) -> MergeRequest {
    MergeRequest {
        iid: 42,
        title: "T".to_owned(),
        state: "opened".to_owned(),
        source_branch: "f".to_owned(),
        target_branch: "main".to_owned(),
        sha: "abc".to_owned(),
        diff_refs: if refs {
            Some(DiffRefs { base_sha: "b".into(), head_sha: "h".into(), start_sha: "s".into() })
        } else {
            None
        },
        author: user(),
    }
}

fn ready(refs: bool) -> BackendState {
    BackendState {
        config: Some(Config {
            gitlab_host: "https://h".to_owned(),
            gitlab_token: "t".to_owned(),
            mr_iid: None,
            poll_interval_secs: 60,
            ignore_patterns: vec![],
        }),
        project_path: "g/r".to_owned(),
        mr: Some(mr(refs)),
        ..Default::default()
    }
}

fn failed() -> ClientError {
    GitLabClient::new("https://h", "t").create_note("g/r", 42, "x").failure(Stage::Status)
}

#[test]
fn every_announced_command_can_be_run() {
    let names = command_names();
    assert_eq!(
        names,
        vec![
            "gitlab-mr.addComment",
            "gitlab-mr.showThread",
            "gitlab-mr.replyToThread",
            "gitlab-mr.resolveThread",
            "gitlab-mr.submitInput",
            "gitlab-mr.viewDiff",
            "gitlab-mr.approveMr",
        ]
    );
    for name in &names {
        assert_eq!(command_named(name).unwrap().name(), name);
    }
    assert_eq!(command_named("gitlab-mr.viewDiff"), Some(Command::ViewDiff));
    assert_eq!(command_named("gitlab-mr.other"), None);
}

#[test]
fn a_comment_is_asked_for_with_a_prompt() {
    let r = handle_add_comment(Some("src/a.rs"), Some(12));
    assert_eq!(
        r.prompt,
        "# Write your review comment below. Lines starting with # are ignored.\n\
         # Save and run 'Submit MR input' (gitlab-mr.submitInput) when done.\n"
    );
    assert!(matches!(r.action, PendingAction::AddComment { file, line: 12 } if file == "src/a.rs"));
    // What is not named, and a line past 32 bits
    assert!(matches!(
        handle_add_comment(None, None).action,
        PendingAction::AddComment { file, line: 0 } if file.is_empty()
    ));
    assert!(matches!(
        handle_add_comment(None, Some((1u64 << 32) + 5)).action,
        PendingAction::AddComment { line: 5, .. }
    ));
}

#[test]
fn a_reply_is_asked_for_with_a_prompt() {
    let r = handle_reply(Some("d1"));
    assert_eq!(
        r.prompt,
        "# Write your reply below. Lines starting with # are ignored.\n\
         # Save and run 'Submit MR input' (gitlab-mr.submitInput) when done.\n"
    );
    assert!(matches!(r.action, PendingAction::Reply { discussion_id } if discussion_id == "d1"));
    assert!(matches!(
        handle_reply(None).action,
        PendingAction::Reply { discussion_id } if discussion_id.is_empty()
    ));
}

#[test]
fn a_prompt_that_is_submitted_untouched_cancels() {
    assert_eq!(input_body(&handle_add_comment(None, None).prompt), "");
    assert_eq!(input_body(&handle_reply(None).prompt), "");
}

#[test]
fn a_pending_input_is_not_overwritten() {
    let mut s = ready(true);
    assert!(refuse_input(&s).is_none());
    let action = PendingAction::Reply { discussion_id: "d".to_owned() };
    assert!(input_written(&mut s, "/tmp/x", action, None).is_none());
    let m = refuse_input(&s).unwrap();
    assert_eq!(m.kind, MessageType::Warning);
    assert_eq!(
        m.text,
        "A comment is already in progress. Submit or cancel it first (delete the contents and run 'Submit MR input')."
    );
}

#[test]
fn the_input_buffer_can_fail_to_open() {
    let mut s = ready(true);
    let action = || PendingAction::Reply { discussion_id: "d".to_owned() };
    let m = input_written(&mut s, "/tmp/x", action(), Some("disk full")).unwrap();
    assert_eq!((m.kind, m.text.as_str()), (MessageType::Error, "Failed to open input buffer: disk full"));
    assert!(s.pending_input.is_none());

    assert!(input_written(&mut s, "/tmp/x", action(), None).is_none());
    assert_eq!(
        input_shown(&mut s, true).text,
        "Write your comment, save, then run 'Submit MR input' (gitlab-mr.submitInput)."
    );
    assert!(s.pending_input.is_some());
    let m = input_shown(&mut s, false);
    assert_eq!((m.kind, m.text.as_str()), (MessageType::Error, "Helix could not open the input buffer."));
    assert!(s.pending_input.is_none());
}

#[test]
fn the_input_is_written_to_a_temporary_file() {
    assert_eq!(input_path("/tmp"), "/tmp/gitlab-mr-input.md");
    assert_eq!(input_path("/tmp/"), "/tmp/gitlab-mr-input.md");
    assert_eq!(input_unreadable("gone").text, "Could not read input file: gone");
}

#[test]
fn submitting_takes_the_input() {
    let mut s = ready(true);
    let m = take_input(&mut s).unwrap_err();
    assert_eq!((m.kind, m.text.as_str()), (MessageType::Warning, "No pending MR input to submit."));
    let action = PendingAction::Reply { discussion_id: "d".to_owned() };
    input_written(&mut s, "/tmp/x", action, None);
    let (path, action) = take_input(&mut s).unwrap();
    assert_eq!(path, "/tmp/x");
    assert!(matches!(action, PendingAction::Reply { .. }));
    assert!(s.pending_input.is_none());
}

#[test]
fn lines_starting_with_a_hash_are_ignored() {
    assert_eq!(input_body("# prompt\nhello\n#x\n\n world # not\r\n"), "hello\n\n world # not");
    assert_eq!(input_body(" # kept"), " # kept");
    assert_eq!(input_body(""), "");
}

#[test]
fn an_empty_body_cancels_before_anything_else() {
    let action = PendingAction::Reply { discussion_id: "d".to_owned() };
    match submit_input(&BackendState::default(), action, "# x\n  \n") {
        Submission::Cancelled { message } => {
            assert_eq!(message.kind, MessageType::Info);
            assert_eq!(message.text, "Submission cancelled (empty body).");
        }
        other => panic!("{:?}", other),
    }
}

#[test]
fn nothing_is_posted_without_configuration_or_mr() {
    let reply = || PendingAction::Reply { discussion_id: "d".to_owned() };
    let mut s = ready(true);
    s.mr = None;
    assert!(matches!(submit_input(&s, reply(), "x"), Submission::Unready));
    assert!(snap_config_mr(&s).is_none());
    let mut s = ready(true);
    s.config = None;
    assert!(matches!(submit_input(&s, reply(), "x"), Submission::Unready));
}

#[test]
fn a_comment_goes_on_its_line() {
    let action = PendingAction::AddComment { file: "src/a.rs".to_owned(), line: 12 };
    match submit_input(&ready(true), action, "hello") {
        Submission::Post { target, note } => {
            assert_eq!((target.project_path.as_str(), target.mr_iid), ("g/r", 42));
            let gl = GitLabClient::new("https://h", "t");
            let r = note.request(&gl, "g/r", 42);
            assert_eq!(r.url, "https://h/api/v4/projects/g%2Fr/merge_requests/42/discussions");
            match r.body {
                Body::DiffNote(b) => {
                    assert_eq!(b.body, "hello");
                    assert_eq!(b.position.new_path, "src/a.rs");
                    assert_eq!(b.position.new_line, Some(12));
                    assert_eq!(b.position.head_sha, "h");
                }
                other => panic!("{:?}", other),
            }
        }
        other => panic!("{:?}", other),
    }
}

#[test]
fn without_commits_a_comment_goes_on_the_mr() {
    let action = PendingAction::AddComment { file: "src/a.rs".to_owned(), line: 12 };
    match submit_input(&ready(false), action, "hello") {
        Submission::Post { note, .. } => {
            assert!(matches!(&note, NewNote::General { body } if body == "hello"));
            let gl = GitLabClient::new("https://h", "t");
            assert_eq!(
                note.request(&gl, "g/r", 42).url,
                "https://h/api/v4/projects/g%2Fr/merge_requests/42/notes"
            );
        }
        other => panic!("{:?}", other),
    }
}

#[test]
fn a_reply_goes_into_its_thread() {
    let action = PendingAction::Reply { discussion_id: "d1".to_owned() };
    match submit_input(&ready(true), action, "re") {
        Submission::Post { note, .. } => {
            let gl = GitLabClient::new("https://h", "t");
            assert_eq!(
                note.request(&gl, "g/r", 42).url,
                "https://h/api/v4/projects/g%2Fr/merge_requests/42/discussions/d1/notes"
            );
            assert_eq!(note.request(&gl, "g/r", 42).call, Call::ReplyToDiscussion);
            let o = note.posted(Ok(()));
            assert_eq!((o.message.text.as_str(), o.refresh), ("Reply posted to GitLab.", true));
            let o = note.posted(Err(failed()));
            assert_eq!(o.message.kind, MessageType::Error);
            assert_eq!(o.message.text, "Failed to post reply: create_note returned non-2xx");
            assert!(!o.refresh);
        }
        other => panic!("{:?}", other),
    }
}

#[test]
fn the_user_hears_how_a_request_ended() {
    let note = NewNote::General { body: "x".to_owned() };
    assert_eq!(note.posted(Ok(())).message.text, "Comment posted to GitLab.");
    assert_eq!(
        note.posted(Err(ClientError::EmptyNotes)).message.text,
        "Failed to post comment: create_diff_note: empty notes in response"
    );
    assert_eq!(resolve_outcome(true, Ok(())).message.text, "Thread resolved.");
    assert_eq!(resolve_outcome(false, Ok(())).message.text, "Thread unresolved.");
    assert_eq!(
        resolve_outcome(true, Err(failed())).message.text,
        "Failed to resolve: create_note returned non-2xx"
    );
    let o = approve_outcome(42, Ok(()));
    assert_eq!((o.message.text.as_str(), o.refresh), ("MR !42 approved.", true));
    let o = approve_outcome(42, Err(failed()));
    assert_eq!(o.message.text, "Failed to approve MR: create_note returned non-2xx");
    assert!(!o.refresh);
}

#[test]
fn a_thread_is_shown_with_choices() {
    let mut s = ready(true);
    let m = handle_show_thread(&s, "d1").unwrap_err();
    assert_eq!((m.kind, m.text.as_str()), (MessageType::Warning, "gitlab-mr-lsp: thread not found."));

    s.discussions = vec![Discussion {
        id: "d1".to_owned(),
        resolved: false,
        notes: vec![Note {
            id: 1,
            body: "hm".to_owned(),
            author: user(),
            created_at: "2026-01-02T03:04:05Z".to_owned(),
            position: None,
            resolvable: true,
            resolved: false,
        }],
    }];
    let t = handle_show_thread(&s, "d1").unwrap();
    assert_eq!(t.text, "**@u** · 2026-01-02 03:04\n> hm\n\n");
    assert!(!t.resolved);
    assert_eq!(t.choices, vec!["Reply", "Resolve", "Dismiss"]);
    s.discussions[0].notes[0].resolved = true;
    let t = handle_show_thread(&s, "d1").unwrap();
    assert!(t.resolved);
    assert_eq!(t.choices, vec!["Reply", "Unresolve", "Dismiss"]);
}

#[test]
fn the_choice_decides() {
    assert_eq!(thread_action(Some("Reply"), false), ThreadAction::Reply);
    assert_eq!(thread_action(Some("Resolve"), false), ThreadAction::SetResolved(true));
    assert_eq!(thread_action(Some("Unresolve"), true), ThreadAction::SetResolved(false));
    assert_eq!(thread_action(Some("Dismiss"), false), ThreadAction::Dismiss);
    assert_eq!(thread_action(Some("else"), false), ThreadAction::Dismiss);
    assert_eq!(thread_action(None, true), ThreadAction::Dismiss);
}

#[test]
fn a_diff_is_shown_under_a_header() {
    let mut s = ready(true);
    let m = handle_view_diff(&s, "a/b.rs", '/').unwrap_err();
    assert_eq!((m.kind, m.text.as_str()), (MessageType::Warning, "No diff found for a/b.rs"));

    let text = "@@ -1,2 +3,2 @@\n a\n+b\n";
    s.diffs = vec![MrDiff {
        old_path: "a/old.rs".to_owned(),
        new_path: "a/b.rs".to_owned(),
        diff: text.to_owned(),
        new_file: false,
        deleted_file: false,
        renamed_file: true,
    }];
    let d = handle_view_diff(&s, "a/b.rs", '\\').unwrap();
    assert_eq!(
        d.contents,
        format!("diff --git a/a/old.rs b/a/b.rs\n--- a/a/old.rs\n+++ b/a/b.rs\n{}", text)
    );
    assert_eq!(d.file_name, "gitlab-mr-42-a_b.rs.diff");
    assert_eq!(parse_diff_line_map(&d.contents), parse_diff_line_map(text));

    s.mr = None;
    assert_eq!(handle_view_diff(&s, "a/b.rs", '/').unwrap().file_name, "gitlab-mr-0-a_b.rs.diff");
}

#[test]
fn both_separators_leave_the_name_of_a_diff() {
    let mut s = ready(true);
    s.diffs = vec![MrDiff {
        old_path: "a/b\\c".to_owned(),
        new_path: "a/b\\c".to_owned(),
        diff: String::new(),
        new_file: false,
        deleted_file: false,
        renamed_file: false,
    }];
    assert_eq!(handle_view_diff(&s, "a/b\\c", '\\').unwrap().file_name, "gitlab-mr-42-a_b_c.diff");
    assert_eq!(handle_view_diff(&s, "a/b\\c", '/').unwrap().file_name, "gitlab-mr-42-a_b\\c.diff");
}

#[test]
fn the_user_hears_where_a_diff_cannot_be_shown() {
    assert_eq!(diff_unwritten("full").text, "Failed to write diff: full");
    assert_eq!(diff_without_uri().text, "Failed to build URI for diff file");
    assert_eq!(diff_shown(Some(false)).unwrap().text, "Helix could not open the diff pane");
    assert!(diff_shown(Some(true)).is_none());
    assert!(diff_shown(None).is_none());
}
