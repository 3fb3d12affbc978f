//! A round of bringing the state up to date.
use gitlab_mr_lsp::backend::BackendState;
use gitlab_mr_lsp::config::Config;
use gitlab_mr_lsp::convert::CannotShow;
use gitlab_mr_lsp::gitlab::client::{Call, ClientError, GitLabClient, Stage};
use gitlab_mr_lsp::gitlab::types::{Discussion, MergeRequest, MrDiff, Note, NotePosition, User};
use gitlab_mr_lsp::message::MessageType;
use gitlab_mr_lsp::refresh::{
    begin_extra_round, begin_round, can_be_shortened, check_sync, do_all_fit,
    label_of_mr, lookup_request, looks_up_by_branch, store_extra_round, store_round, take_lookup,
    will_warn, Begin, Looked,
};

fn config(token: &str, mr_iid: Option<u64>) -> Config {
    Config {
        gitlab_host: "https://h".to_owned(),
        gitlab_token: token.to_owned(),
        mr_iid,
        poll_interval_secs: 30,
        ignore_patterns: vec![],
    }
}

fn user() -> User {
    User { id: 1, username: "u".to_owned(), name: "U".to_owned() }
}

fn mr(iid: u64) -> MergeRequest {
    MergeRequest {
        iid,
        title: "T".to_owned(),
        state: "opened".to_owned(),
        source_branch: "f".to_owned(),
        target_branch: "main".to_owned(),
        sha: "abcdef0123456789".to_owned(),
        diff_refs: None,
        author: user(),
    }
}

fn diff(path: &str) -> MrDiff {
    MrDiff {
        old_path: path.to_owned(),
        new_path: path.to_owned(),
        diff: "@@ -1 +1 @@\n x\n".to_owned(),
        new_file: false,
        deleted_file: false,
        renamed_file: false,
    }
}

fn comment(path: &str, line: u32) -> Discussion {
    Discussion {
        id: "d".to_owned(),
        resolved: false,
        notes: vec![Note {
            id: 1,
            body: "hm".to_owned(),
            author: user(),
            created_at: String::new(),
            position: Some(NotePosition {
                new_path: path.to_owned(),
                new_line: Some(line),
                old_path: None,
                old_line: None,
                position_type: "text".to_owned(),
                base_sha: String::new(),
                head_sha: String::new(),
                start_sha: String::new(),
            }),
            resolvable: true,
            resolved: false,
        }],
    }
}

fn failed() -> ClientError {
    GitLabClient::new("https://h", "t").find_mr("g/r", "b").failure(Stage::Send)
}

#[test]
fn nothing_configured_stops_the_loop() {
    let mut s = BackendState::default();
    assert!(matches!(begin_round(&mut s), Begin::Stop));
    assert!(begin_extra_round(&s).is_none());
}

#[test]
fn a_missing_token_is_told_once() {
    let mut s = BackendState { config: Some(config("", None)), ..Default::default() };
    match begin_round(&mut s) {
        Begin::Wait { secs, message } => {
            assert_eq!(secs, 30);
            let m = message.unwrap();
            assert_eq!(m.kind, MessageType::Warning);
            assert_eq!(
                m.text,
                "gitlab-mr-lsp: no GitLab token found. Set GITLAB_TOKEN or run `glab auth login`."
            );
        }
        other => panic!("{:?}", other),
    }
    assert!(s.notified_no_token);
    assert!(matches!(begin_round(&mut s), Begin::Wait { secs: 30, message: None }));
}

#[test]
fn with_a_token_gitlab_is_asked() {
    let mut s = BackendState {
        config: Some(config("t", None)),
        project_path: "g/r".to_owned(),
        ..Default::default()
    };
    match begin_round(&mut s) {
        Begin::Ask { config, project_path } => {
            assert_eq!(config.gitlab_token, "t");
            assert_eq!(project_path, "g/r");
        }
        other => panic!("{:?}", other),
    }
    assert_eq!(begin_extra_round(&s).unwrap().1, "g/r");
}

#[test]
fn the_mr_is_looked_up_by_number_or_branch() {
    let gl = GitLabClient::new("https://h", "t");
    assert!(looks_up_by_branch(&config("t", None)));
    assert!(!looks_up_by_branch(&config("t", Some(3))));
    assert_eq!(
        lookup_request(&gl, &config("t", Some(3)), "g/r", "b").url,
        "https://h/api/v4/projects/g%2Fr/merge_requests/3"
    );
    assert_eq!(lookup_request(&gl, &config("t", Some(3)), "g/r", "b").call, Call::GetMr);
    let r = lookup_request(&gl, &config("t", None), "g/r", "b");
    assert_eq!(r.call, Call::FindMr);
    assert_eq!(r.url, "https://h/api/v4/projects/g%2Fr/merge_requests");
    assert_eq!(r.query[0], ("source_branch".to_owned(), "b".to_owned()));
}

#[test]
fn a_missing_mr_is_told_once() {
    let mut s = BackendState::default();
    match take_lookup(&mut s, Ok(None), "fix") {
        Looked::Wait { message } => {
            let m = message.unwrap();
            assert_eq!(m.kind, MessageType::Info);
            assert_eq!(m.text, "gitlab-mr-lsp: no open MR found for branch `fix`");
        }
        other => panic!("{:?}", other),
    }
    assert!(matches!(take_lookup(&mut s, Ok(None), "fix"), Looked::Wait { message: None }));
}

#[test]
fn a_failed_lookup_is_passed_over() {
    let mut s = BackendState::default();
    assert!(matches!(take_lookup(&mut s, Err(failed()), "b"), Looked::Wait { message: None }));
    assert!(!s.notified_no_mr);
    assert!(matches!(take_lookup(&mut s, Ok(Some(mr(5))), "b"), Looked::Found { mr } if mr.iid == 5));
}

#[test]
fn out_of_sync_is_told_once_per_head() {
    let mut s = BackendState::default();
    let sha = "abcdef0123456789";
    assert!(will_warn(&s, "1111111122222222", sha));
    let m = check_sync(&mut s, "1111111122222222", sha).unwrap();
    assert_eq!(m.kind, MessageType::Warning);
    assert_eq!(
        m.text,
        "gitlab-mr-lsp: local HEAD (11111111) does not match the MR head on GitLab (abcdef01). \
         Comments may be misaligned until you push."
    );
    assert!(check_sync(&mut s, "1111111122222222", sha).is_none());
    // Another head that does not match
    assert!(check_sync(&mut s, "3333333344444444", sha).is_some());
}

#[test]
fn drift_after_sync_is_told_again() {
    let mut s = BackendState::default();
    assert!(check_sync(&mut s, "1111111122222222", "abcdef0123456789").is_some());
    assert!(check_sync(&mut s, "abcdef0123456789", "abcdef0123456789").is_none());
    assert_eq!(s.last_out_of_sync_sha, None);
    assert!(check_sync(&mut s, "1111111122222222", "abcdef0123456789").is_some());
}

#[test]
fn short_names_of_commits() {
    assert!(can_be_shortened("12345678"));
    assert!(!can_be_shortened("1234567"));
    assert!(!can_be_shortened("1234567ü"));
}

#[test]
fn a_round_takes_over_what_came() {
    let mut s = BackendState { diffs: vec![diff("old")], ..Default::default() };
    store_round(&mut s, mr(1), Ok(vec![diff("a")]), Ok(vec![comment("a", 1)]));
    assert_eq!(s.mr.as_ref().unwrap().iid, 1);
    assert_eq!(s.diffs[0].new_path, "a");
    assert_eq!(s.discussions_by_file.path_list(), vec!["a"]);
    assert!(s.line_maps.contains_key("a"));
    // What did not come is taken as empty
    store_round(&mut s, mr(2), Err(failed()), Err(failed()));
    assert!(s.diffs.is_empty() && s.discussions.is_empty());
    assert_eq!(s.discussions_by_file.len(), 0);
}

#[test]
fn an_extra_round_keeps_what_did_not_come() {
    let mut s = BackendState { diffs: vec![diff("old")], ..Default::default() };
    store_extra_round(&mut s, mr(1), Err(failed()), Ok(vec![comment("x", 1)]));
    assert_eq!(s.diffs[0].new_path, "old");
    assert!(s.line_maps.contains_key("old"));
    store_extra_round(&mut s, mr(1), Ok(vec![]), Err(failed()));
    assert!(s.diffs.is_empty());
    assert_eq!(s.discussions.len(), 1);
}

#[test]
fn diffs_with_too_large_numbers_are_noticed() {
    let mut big = diff("a");
    big.diff = "@@ -1 +4294967295 @@\n+x\n".to_owned();
    assert!(do_all_fit(&vec![diff("a")]));
    assert!(!do_all_fit(&vec![diff("a"), big]));
}

#[test]
fn the_plan_marks_shows_and_clears() {
    let mut s = BackendState { repo_root: "/repo".to_owned(), ..Default::default() };
    store_round(&mut s, mr(1), Ok(vec![diff("gone"), diff("stays")]), Ok(vec![comment("talk", 1)]));
    let before = s.told_file_list();
    assert_eq!(before, vec!["gone", "stays", "talk"]);

    store_round(
        &mut s,
        mr(42),
        Ok(vec![diff("stays"), diff("new"), diff("new")]),
        Ok(vec![comment("new", 7), comment("aside", 2)]),
    );
    assert_eq!(s.planned_file_list(&before), vec!["stays", "new", "aside", "gone", "talk"]);
    let plan: Vec<(String, Vec<String>)> = s
        .publications(&before)
        .unwrap()
        .into_iter()
        .map(|p| (p.uri, p.diagnostics.into_iter().map(|d| d.message).collect()))
        .collect();
    let hint = "Changed in MR !42".to_owned();
    assert_eq!(
        plan,
        vec![
            ("file:///repo/stays".to_owned(), vec![hint.clone()]),
            ("file:///repo/new".to_owned(), vec![hint, "@u - hm".to_owned()]),
            ("file:///repo/aside".to_owned(), vec!["@u - hm".to_owned()]),
            ("file:///repo/gone".to_owned(), vec![]),
            ("file:///repo/talk".to_owned(), vec![]),
        ]
    );

}

#[test]
fn a_file_without_a_uri_is_left_out() {
    let mut s = BackendState::default();
    store_round(&mut s, mr(1), Ok(vec![diff("a"), diff("b")]), Ok(vec![comment("a", 0)]));
    let told = s.publications_under(&vec![], &vec![None, Some("file:///b".to_owned())]);
    assert_eq!(told.len(), 1);
    assert_eq!(told[0].uri, "file:///b");
    assert_eq!(told[0].diagnostics[0].message, "Changed in MR !1");
    // Relative to no root there are no URIs, and what cannot be shown is not shown
    assert!(s.publications(&vec![]).unwrap().is_empty());
    s.repo_root = "/repo".to_owned();
    assert!(matches!(s.publications(&vec![]), Err(CannotShow)));
}

#[test]
fn the_label_of_the_mr() {
    assert_eq!(label_of_mr(&Some(mr(42))), "MR !42");
    assert_eq!(label_of_mr(&None), "");
}

#[test]
fn groups_that_cannot_be_shown_are_noticed() {
    let mut s = BackendState { discussions: vec![comment("a", 0)], ..Default::default() };
    s.rebuild_derived();
    assert!(!s.is_group_showable("a"));
    assert!(s.is_group_showable("b"));
}
