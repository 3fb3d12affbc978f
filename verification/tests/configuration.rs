//! Where each setting comes from, and the token in what `glab` prints.
use gitlab_mr_lsp::config::{
    glab_args, needs_last_source, resolve_host, strip_ansi, token_from_glab, Config, TomlConfig,
};

fn text(s: &str) -> Option<String> {
    Some(s.to_owned())
}

#[test]
fn the_file_comes_before_the_environment() {
    let toml = TomlConfig {
        gitlab_host: text("https://file"),
        gitlab_token: text("from-file"),
        mr_iid: Some(7),
        poll_interval_secs: Some(5),
        ignore_patterns: Some(vec!["*.lock".to_owned()]),
    };
    let c = Config::load(toml, text("https://env"), text("https://remote"), text("from-env"), text("glab"));
    assert_eq!(c.gitlab_host, "https://file");
    assert_eq!(c.gitlab_token, "from-file");
    assert_eq!(c.mr_iid, Some(7));
    assert_eq!(c.poll_interval_secs, 5);
    assert_eq!(c.ignore_patterns, vec!["*.lock".to_owned()]);
}

#[test]
fn the_environment_comes_before_git_and_glab() {
    let c = Config::load(
        TomlConfig::default(),
        text("https://env"),
        text("https://remote"),
        text("from-env"),
        text("glab"),
    );
    assert_eq!(c.gitlab_host, "https://env");
    assert_eq!(c.gitlab_token, "from-env");
}

#[test]
fn the_last_sources_and_the_defaults() {
    let c = Config::load(TomlConfig::default(), None, text("https://remote"), None, text("glab"));
    assert_eq!(c.gitlab_host, "https://remote");
    assert_eq!(c.gitlab_token, "glab");

    let c = Config::load(TomlConfig::default(), None, None, None, None);
    assert_eq!(c.gitlab_host, "https://gitlab.com");
    assert_eq!(c.gitlab_token, "");
    assert_eq!(c.mr_iid, None);
    assert_eq!(c.poll_interval_secs, 60);
    assert!(c.ignore_patterns.is_empty());
}

#[test]
fn the_last_source_is_asked_only_if_needed() {
    assert!(needs_last_source(&None, &None));
    assert!(!needs_last_source(&text("a"), &None));
    assert!(!needs_last_source(&None, &text("b")));
    assert_eq!(resolve_host(&None, &None, &None), "https://gitlab.com");
    assert_eq!(resolve_host(&None, &None, &text("https://h")), "https://h");
}

#[test]
fn glab_is_asked_for_a_bare_host() {
    assert_eq!(
        glab_args("https://gitlab.example.com/"),
        vec!["auth", "status", "--show-token", "--hostname", "gitlab.example.com"]
    );
    assert_eq!(glab_args("http://host//")[4], "host");
    assert_eq!(glab_args("host")[4], "host");
}

#[test]
fn escape_sequences_are_removed() {
    assert_eq!(strip_ansi("\x1b[32m✓\x1b[0m ok"), "✓ ok");
    assert_eq!(strip_ansi("plain"), "plain");
    assert_eq!(strip_ansi("\x1b[1;31mred"), "red");
    // An escape without a bracket stays, an unfinished sequence swallows the rest
    assert_eq!(strip_ansi("a\x1bb"), "a\x1bb");
    assert_eq!(strip_ansi("a\x1b[12"), "a");
}

#[test]
fn the_token_is_found_behind_its_label() {
    assert_eq!(
        token_from_glab("gitlab.com\n  \x1b[32m✓\x1b[0m Token found: glpat-xxxx\n", "").as_deref(),
        Some("glpat-xxxx")
    );
    assert_eq!(token_from_glab("", "Token found:  abc  ").as_deref(), Some("abc"));
}

#[test]
fn standard_error_comes_before_standard_output() {
    assert_eq!(token_from_glab("Token found: err", "Token found: out").as_deref(), Some("err"));
    // An empty token does not count
    assert_eq!(token_from_glab("Token found:   ", "Token found: out").as_deref(), Some("out"));
    assert_eq!(token_from_glab("no", "nothing"), None);
}
