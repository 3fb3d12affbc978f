//! What a remote's URL names, and what git commands answer.
use gitlab_mr_lsp::git::{
    current_branch, host_from_remote, local_head_sha, mr_shas, parse_host, parse_project_path,
    project_path_from_remote, repo_root, run, GitError, Output, Probe, Query,
};

#[test]
fn parse_ssh_remote() {
    assert_eq!(
        parse_project_path("git@gitlab.com:mygroup/myrepo.git").unwrap(),
        "mygroup/myrepo"
    );
}

#[test]
fn parse_https_remote() {
    assert_eq!(
        parse_project_path("https://gitlab.com/mygroup/myrepo.git").unwrap(),
        "mygroup/myrepo"
    );
}

#[test]
fn parse_https_remote_no_dotgit() {
    assert_eq!(
        parse_project_path("https://gitlab.com/mygroup/myrepo").unwrap(),
        "mygroup/myrepo"
    );
}

#[test]
fn parse_ssh_nested_group() {
    assert_eq!(
        parse_project_path("git@gitlab.com:a/b/c.git").unwrap(),
        "a/b/c"
    );
}

#[test]
fn parse_host_ssh() {
    assert_eq!(
        parse_host("git@gitlab.example.com:group/repo.git").unwrap(),
        "https://gitlab.example.com"
    );
}

#[test]
fn parse_host_https() {
    assert_eq!(
        parse_host("https://gitlab.example.com/group/repo.git").unwrap(),
        "https://gitlab.example.com"
    );
}

#[test]
fn parse_host_gitlab_com() {
    assert_eq!(
        parse_host("git@gitlab.com:a/b.git").unwrap(),
        "https://gitlab.com"
    );
}

fn ended(success: bool, stdout: &str, stderr: &str) -> Option<Output> {
    Some(Output { success, stdout: stdout.to_owned(), stderr: stderr.to_owned() })
}

#[test]
fn the_host_of_an_http_remote_is_asked_over_https() {
    assert_eq!(parse_host("http://host/a/b").unwrap(), "https://host");
    assert_eq!(parse_host("http://host:8080/a/b").unwrap(), "https://host:8080");
    assert_eq!(parse_project_path("http://host/a/b.git\n").unwrap(), "a/b");
}

#[test]
fn a_host_without_a_user() {
    assert_eq!(parse_host("host:a/b.git").unwrap(), "https://host");
    assert_eq!(parse_project_path("host:a/b.git").unwrap(), "a/b");
}

#[test]
fn white_space_and_leading_slashes() {
    assert_eq!(parse_project_path(" git@h:/g/r.git\n").unwrap(), "/g/r");
    assert_eq!(parse_host("\t git@h:/g/r.git\n").unwrap(), "https://h");
    assert_eq!(parse_project_path("https://h//g/r \n").unwrap(), "/g/r");
    assert_eq!(parse_host(" https://h//g/r").unwrap(), "https://h");
}

#[test]
fn each_remote_error_has_its_message() {
    let e = parse_host(" /just/a/path ").unwrap_err();
    assert!(matches!(e, GitError::UnknownRemote { .. }));
    assert_eq!(e.message(), "unrecognised remote URL format: /just/a/path");

    let e = parse_project_path("no-colon").unwrap_err();
    assert_eq!(e.message(), "unrecognised remote URL format: no-colon");

    let e = parse_project_path("https://host").unwrap_err();
    assert!(matches!(e, GitError::NoPath));
    assert_eq!(e.message(), "unexpected remote URL format");
    assert_eq!(parse_host("https://host").unwrap(), "https://host");
}

#[test]
fn commands_answer_with_trimmed_output() {
    assert_eq!(local_head_sha(&ended(true, " abc123\n", "")).unwrap(), "abc123");
    assert_eq!(current_branch(&ended(true, "main\n", "")).unwrap(), "main");
    assert_eq!(
        project_path_from_remote(&ended(true, "git@h:g/r.git\n", "")).unwrap(),
        "g/r"
    );
    assert_eq!(host_from_remote(&ended(true, "git@h:g/r.git\n", "")).unwrap(), "https://h");
}

#[test]
fn a_failed_command_is_reported_with_its_words() {
    let e = local_head_sha(&ended(false, "", "fatal: not a repo")).unwrap_err();
    assert_eq!(e.message(), "`git rev-parse HEAD` failed: fatal: not a repo");
    let e = host_from_remote(&ended(false, "x", "no remote")).unwrap_err();
    assert_eq!(e.message(), "`git remote get-url origin` failed: no remote");
    let e = project_path_from_remote(&None).unwrap_err();
    assert_eq!(e.message(), "failed to spawn `git`");
    let args = vec!["a".to_owned(), "b".to_owned()];
    assert_eq!(run("ls", &args, &ended(false, "", "no")).unwrap_err().message(), "`ls a b` failed: no");
}

#[test]
fn a_detached_head_has_no_branch() {
    let e = current_branch(&ended(true, "\n", "")).unwrap_err();
    assert!(matches!(e, GitError::DetachedHead));
    assert_eq!(e.message(), "git branch --show-current returned empty (detached HEAD?)");
    assert!(matches!(
        current_branch(&ended(false, "", "x")).unwrap_err(),
        GitError::Failed { .. }
    ));
}

#[test]
fn the_three_shas_and_the_first_failure() {
    let shas = mr_shas("main", &ended(true, "b\n", ""), &ended(true, "h", ""), &ended(true, "s", ""))
        .unwrap();
    let copy = shas.clone();
    assert_eq!((copy.base_sha, copy.head_sha, copy.start_sha),
        ("b".to_owned(), "h".to_owned(), "s".to_owned()));

    let bad = ended(false, "", "bad");
    let ok = ended(true, "x", "");
    assert_eq!(
        mr_shas("main", &bad, &None, &ok).unwrap_err().message(),
        "`git merge-base HEAD origin/main` failed: bad"
    );
    assert_eq!(mr_shas("main", &ok, &None, &bad).unwrap_err().message(), "failed to spawn `git`");
    assert_eq!(
        mr_shas("dev", &ok, &ok, &bad).unwrap_err().message(),
        "`git rev-parse origin/dev` failed: bad"
    );
}

#[test]
fn each_question_has_its_arguments() {
    assert_eq!(Query::HeadSha.args(), vec!["rev-parse", "HEAD"]);
    assert_eq!(Query::CurrentBranch.args(), vec!["branch", "--show-current"]);
    assert_eq!(
        Query::MergeBase { base: "main".to_owned() }.args(),
        vec!["merge-base", "HEAD", "origin/main"]
    );
    assert_eq!(
        Query::OriginSha { base: "main".to_owned() }.args(),
        vec!["rev-parse", "origin/main"]
    );
    assert_eq!(Query::RemoteUrl.args(), vec!["remote", "get-url", "origin"]);
}

#[test]
fn the_nearest_repository_counts() {
    let probe = |dir: &str, has_git: bool| Probe { dir: dir.to_owned(), has_git };
    assert_eq!(
        repo_root(&Some(vec![probe("/a/b/c", false), probe("/a/b", true), probe("/a", true)]))
            .unwrap(),
        "/a/b"
    );
    let e = repo_root(&Some(vec![probe("/a", false), probe("/", false)])).unwrap_err();
    assert_eq!(e.message(), "reached filesystem root without finding .git");
}

#[test]
fn without_a_working_directory_there_is_no_repository() {
    let e = repo_root(&None).unwrap_err();
    assert!(matches!(e, GitError::NoWorkingDirectory));
    assert_eq!(e.message(), "cannot determine CWD");
}
