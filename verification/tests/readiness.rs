//! Which prerequisite of review features is missing.
use gitlab_mr_lsp::backend::{BackendState, NotReady};
use gitlab_mr_lsp::config::Config;
use gitlab_mr_lsp::gitlab::types::{MergeRequest, User};

fn config_with_token(token: &str) -> Config {
    Config {
        gitlab_host: "https://gitlab.com".to_owned(),
        gitlab_token: token.to_owned(),
        mr_iid: None,
        poll_interval_secs: 60,
        ignore_patterns: vec![],
    }
}

fn dummy_mr() -> MergeRequest {
    MergeRequest {
        iid: 1,
        title: "Test MR".to_owned(),
        state: "opened".to_owned(),
        source_branch: "feature".to_owned(),
        target_branch: "main".to_owned(),
        sha: "abc123".to_owned(),
        diff_refs: None,
        author: User {
            id: 1,
            username: "alice".to_owned(),
            name: "Alice".to_owned(),
        },
    }
}

fn state(config: Option<Config>, project_path: &str, mr: Option<MergeRequest>) -> BackendState {
    BackendState {
        config,
        project_path: project_path.to_owned(),
        mr,
        ..Default::default()
    }
}

#[test]
fn ready_when_token_project_path_and_mr_present() {
    let s = state(Some(config_with_token("glpat-xxx")), "group/repo", Some(dummy_mr()));
    assert_eq!(s.review_blocker(), None);
}

#[test]
fn no_auth_when_config_missing() {
    let s = state(None, "group/repo", Some(dummy_mr()));
    assert_eq!(s.review_blocker(), Some(NotReady::NoAuth));
}

#[test]
fn no_auth_when_token_empty() {
    let s = state(Some(config_with_token("")), "group/repo", Some(dummy_mr()));
    assert_eq!(s.review_blocker(), Some(NotReady::NoAuth));
}

#[test]
fn no_upstream_when_project_path_empty() {
    let s = state(Some(config_with_token("glpat-xxx")), "", Some(dummy_mr()));
    assert_eq!(s.review_blocker(), Some(NotReady::NoUpstream));
}

#[test]
fn no_mr_when_mr_absent() {
    let s = state(Some(config_with_token("glpat-xxx")), "group/repo", None);
    assert_eq!(s.review_blocker(), Some(NotReady::NoMr));
}

#[test]
fn auth_takes_priority_over_upstream_and_mr() {
    // With nothing configured, the first missing prerequisite is reported.
    let s = state(None, "", None);
    assert_eq!(s.review_blocker(), Some(NotReady::NoAuth));
}

#[test]
fn upstream_takes_priority_over_mr() {
    let s = state(Some(config_with_token("glpat-xxx")), "", None);
    assert_eq!(s.review_blocker(), Some(NotReady::NoUpstream));
}

#[test]
fn each_reason_has_its_message() {
    assert_eq!(
        NotReady::NoAuth.message(),
        "no GitLab token found — set GITLAB_TOKEN or run `glab auth login`"
    );
    assert_eq!(
        NotReady::NoUpstream.message(),
        "no GitLab upstream — could not derive a project path from the git remote `origin`"
    );
    assert_eq!(NotReady::NoMr.message(), "no open MR found for the current branch");
}
