//! The requests to GitLab, and what its answers say.
use gitlab_mr_lsp::gitlab::client::{
    created_note, found_mr, Body, Call, ClientError, GitLabClient, Method, Progress,
    Request, Stage,
};
use gitlab_mr_lsp::gitlab::types::{Discussion, MergeRequest, Note, NotePosition, User};

fn client() -> GitLabClient {
    GitLabClient::new("https://gitlab.example.com/", "glpat-xxx")
}

fn user() -> User {
    User { id: 1, username: "alice".to_owned(), name: "Alice".to_owned() }
}

fn mr(iid: u64) -> MergeRequest {
    MergeRequest {
        iid,
        title: "T".to_owned(),
        state: "opened".to_owned(),
        source_branch: "f".to_owned(),
        target_branch: "main".to_owned(),
        sha: "abc".to_owned(),
        diff_refs: None,
        author: user(),
    }
}

fn note(id: u64) -> Note {
    Note {
        id,
        body: "b".to_owned(),
        author: user(),
        created_at: String::new(),
        position: None,
        resolvable: false,
        resolved: false,
    }
}

const PROJECT: &str = "https://gitlab.example.com/api/v4/projects/a%2Fb%2Fc";

fn is_plain(r: &Request) -> bool {
    r.token == "glpat-xxx" && r.query.is_empty()
}

#[test]
fn the_path_of_a_project_is_one_segment() {
    assert_eq!(client().encode_path("a/b/c"), "a%2Fb%2Fc");
    assert_eq!(client().encode_path("plain"), "plain");
    assert_eq!(client().project_url("a/b/c"), PROJECT);
}

#[test]
fn slashes_behind_the_host_do_not_matter() {
    assert_eq!(
        GitLabClient::new("https://h///", "t").project_url("p"),
        "https://h/api/v4/projects/p"
    );
    assert_eq!(GitLabClient::new("https://h", "t").project_url("p"), "https://h/api/v4/projects/p");
}

#[test]
fn finding_asks_for_the_open_mr_of_the_branch() {
    let r = client().find_mr("a/b/c", "fix/it");
    assert_eq!(r.method, Method::Get);
    assert_eq!(r.url, format!("{}/merge_requests", PROJECT));
    assert_eq!(r.token, "glpat-xxx");
    let query: Vec<(&str, &str)> = r.query.iter().map(|(k, v)| (k.as_str(), v.as_str())).collect();
    assert_eq!(query, vec![("source_branch", "fix/it"), ("state", "opened"), ("per_page", "1")]);
    assert!(matches!(r.body, Body::Empty));
}

#[test]
fn getting_asks_by_number() {
    let r = client().get_mr("a/b/c", 42);
    assert!(is_plain(&r));
    assert_eq!(r.method, Method::Get);
    assert_eq!(r.url, format!("{}/merge_requests/42", PROJECT));
}

#[test]
fn notes_are_posted_with_their_body() {
    let r = client().create_note("a/b/c", 42, "hello");
    assert!(is_plain(&r));
    assert_eq!(r.method, Method::Post);
    assert_eq!(r.url, format!("{}/merge_requests/42/notes", PROJECT));
    assert!(matches!(r.body, Body::Note(b) if b.body == "hello"));

    let position = NotePosition {
        new_path: "x".to_owned(),
        new_line: Some(3),
        old_path: None,
        old_line: None,
        position_type: "text".to_owned(),
        base_sha: String::new(),
        head_sha: String::new(),
        start_sha: String::new(),
    };
    let r = client().create_diff_note("a/b/c", 42, "on line", &position);
    assert_eq!(r.method, Method::Post);
    assert_eq!(r.url, format!("{}/merge_requests/42/discussions", PROJECT));
    assert!(matches!(r.body, Body::DiffNote(b) if b.body == "on line" && b.position.new_line == Some(3)));

    let r = client().reply_to_discussion("a/b/c", 42, "d1", "re");
    assert_eq!(r.method, Method::Post);
    assert_eq!(r.url, format!("{}/merge_requests/42/discussions/d1/notes", PROJECT));
    assert!(matches!(r.body, Body::Note(b) if b.body == "re"));
}

#[test]
fn resolving_and_approving() {
    let r = client().resolve_discussion("a/b/c", 42, "d1", false);
    assert_eq!(r.method, Method::Put);
    assert_eq!(r.url, format!("{}/merge_requests/42/discussions/d1", PROJECT));
    assert!(matches!(r.body, Body::Resolve(b) if !b.resolved));

    let r = client().approve_mr("a/b/c", 42);
    assert_eq!(r.method, Method::Post);
    assert_eq!(r.url, format!("{}/merge_requests/42/approve", PROJECT));
    assert!(matches!(r.body, Body::Empty));
}

#[test]
fn the_last_mr_of_the_answer_counts() {
    assert_eq!(found_mr(vec![mr(1), mr(2)]).unwrap().iid, 2);
    assert!(found_mr(vec![]).is_none());
}

#[test]
fn the_first_note_of_the_answer_counts() {
    let d = |notes| Discussion { id: "d".to_owned(), resolved: false, notes };
    assert_eq!(created_note(d(vec![note(7), note(8)])).unwrap().id, 7);
    let e = created_note(d(vec![])).unwrap_err();
    assert!(matches!(e, ClientError::EmptyNotes));
    assert_eq!(e.message(), "create_diff_note: empty notes in response");
}

#[test]
fn pages_are_collected_in_order() {
    let pager = client().list_discussions("a/b/c", 42);
    let d = |id: &str| Discussion { id: id.to_owned(), resolved: false, notes: vec![] };

    let r = pager.request();
    assert_eq!(r.url, format!("{}/merge_requests/42/discussions", PROJECT));
    assert_eq!(r.query[0], ("per_page".to_owned(), "100".to_owned()));
    assert_eq!(r.query[1], ("page".to_owned(), "1".to_owned()));

    let Progress::More(pager) = pager.answered(Ok((vec![d("a"), d("b")], Some("2".to_owned()))))
    else {
        panic!("another page follows")
    };
    assert_eq!(pager.page(), 2);
    assert_eq!(pager.request().query[1].1, "2");
    let Progress::More(pager) = pager.answered(Ok((vec![], Some("3".to_owned())))) else {
        panic!("another page follows")
    };
    // An empty header says that no page follows
    let Progress::Done(all) = pager.answered(Ok((vec![d("c")], Some(String::new())))) else {
        panic!("no page follows")
    };
    let ids: Vec<String> = all.into_iter().map(|d| d.id).collect();
    assert_eq!(ids, vec!["a", "b", "c"]);
}

#[test]
fn a_list_of_one_page() {
    let pager = client().list_diffs("a/b/c", 1);
    assert_eq!(pager.request().url, format!("{}/merge_requests/1/diffs", PROJECT));
    assert_eq!(pager.request().method, Method::Get);
    assert!(matches!(pager.answered(Ok((vec![], None))), Progress::Done(v) if v.is_empty()));
}

#[test]
fn a_page_that_fails_ends_the_list() {
    let d = Discussion { id: "a".to_owned(), resolved: false, notes: vec![] };
    let pager = client().list_discussions("a/b/c", 42);
    let Progress::More(pager) = pager.answered(Ok((vec![d], Some("2".to_owned())))) else {
        panic!("another page follows")
    };
    match pager.answered(Err(Stage::Status)) {
        Progress::Failed(e) => assert_eq!(
            e.message(),
            format!("paginate GET {}/merge_requests/42/discussions page 2 non-2xx", PROJECT)
        ),
        other => panic!("{:?}", other),
    }
}

#[test]
fn each_failure_has_its_message() {
    let gl = client();
    let position = NotePosition {
        new_path: "x".to_owned(),
        new_line: Some(3),
        old_path: None,
        old_line: None,
        position_type: "text".to_owned(),
        base_sha: String::new(),
        head_sha: String::new(),
        start_sha: String::new(),
    };
    let text = |r: Request, stage| r.failure(stage).message();
    assert_eq!(text(gl.find_mr("p", "b"), Stage::Send), "find_mr request failed");
    assert_eq!(text(gl.get_mr("p", 1), Stage::Status), "get_mr returned non-2xx");
    assert_eq!(text(gl.create_note("p", 1, "x"), Stage::Decode), "create_note deserialise failed");
    assert_eq!(
        text(gl.create_diff_note("p", 1, "x", &position), Stage::Send),
        "create_diff_note request failed"
    );
    assert_eq!(
        text(gl.reply_to_discussion("p", 1, "d", "x"), Stage::Status),
        "reply_to_discussion returned non-2xx"
    );
    assert_eq!(
        text(gl.resolve_discussion("p", 1, "d", true), Stage::Send),
        "resolve_discussion request failed"
    );
    assert_eq!(text(gl.approve_mr("p", 1), Stage::Status), "approve_mr returned non-2xx");

    let page = |stage| text(gl.list_diffs("p", 1).request(), stage);
    let url = "https://gitlab.example.com/api/v4/projects/p/merge_requests/1/diffs";
    assert_eq!(page(Stage::Send), format!("paginate GET {} page 1 failed", url));
    assert_eq!(page(Stage::Status), format!("paginate GET {} page 1 non-2xx", url));
    assert_eq!(page(Stage::Decode), "paginate deserialise page 1 failed");
    assert!(matches!(gl.get_mr("p", 1).failure(Stage::Send),
        ClientError::Failed { call: Call::GetMr, .. }));
}
