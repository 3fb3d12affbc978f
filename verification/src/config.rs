//! The server's configuration: where each setting comes from, and how a token is found in what
//! `glab` prints.
use vstd::prelude::*;

use crate::gitlab::types::text_model;
use crate::text::{
    chars_of,
    find_text,
    is_core,
    is_space,
    law_find_text,
    law_second_piece,
    law_trim,
    law_trim_start_text,
    lines,
    lines_of,
    piece_after,
    second_piece,
    string_of,
    string_texts,
    texts,
    trim,
    trim_end_char,
    trim_start_text,
    trimmed,
    without_leading_text,
    without_trailing_char,
};

verus! {

/// Top-level configuration for the LSP server.
#[derive(Debug)]
pub struct Config {
    pub gitlab_host: String,
    pub gitlab_token: String,
    pub mr_iid: Option<u64>,
    pub poll_interval_secs: u64,
    /// Glob patterns of the files that need no review.
    pub ignore_patterns: Vec<String>,
}

/// Model of [`Config`].
pub struct ConfigModel {
    pub gitlab_host: Seq<char>,
    pub gitlab_token: Seq<char>,
    pub mr_iid: Option<u64>,
    pub poll_interval_secs: u64,
    pub ignore_patterns: Seq<Seq<char>>,
}

impl View for Config {
    type V = ConfigModel;

    open spec fn view(&self) -> ConfigModel {
        ConfigModel {
            gitlab_host: self.gitlab_host@,
            gitlab_token: self.gitlab_token@,
            mr_iid: self.mr_iid,
            poll_interval_secs: self.poll_interval_secs,
            ignore_patterns: string_texts(self.ignore_patterns@),
        }
    }
}

/// A copy of the strings.
fn copy_strings(v: &Vec<String>) -> (r: Vec<String>)
    ensures
        string_texts(r@) == string_texts(v@),
{
    let mut r: Vec<String> = Vec::new();
    let mut i: usize = 0;
    while i < v.len()
        invariant
            i <= v.len(),
            r.len() == i,
            forall|j: int| 0 <= j < i ==> (#[trigger] r@[j])@ == v@[j]@,
        decreases v.len() - i,
    {
        r.push(v[i].clone());
        i += 1;
    }
    assert(string_texts(r@) =~= string_texts(v@));
    r
}

impl Clone for Config {
    fn clone(&self) -> (r: Self)
        ensures
            r@ == self@,
    {
        Config {
            gitlab_host: self.gitlab_host.clone(),
            gitlab_token: self.gitlab_token.clone(),
            mr_iid: self.mr_iid,
            poll_interval_secs: self.poll_interval_secs,
            ignore_patterns: copy_strings(&self.ignore_patterns),
        }
    }
}

/// What `.helix/mr-lsp.toml` can set.
#[derive(Debug)]
pub struct TomlConfig {
    pub gitlab_host: Option<String>,
    pub gitlab_token: Option<String>,
    pub mr_iid: Option<u64>,
    pub poll_interval_secs: Option<u64>,
    pub ignore_patterns: Option<Vec<String>>,
}

impl Default for TomlConfig {
    /// A file that sets nothing.
    fn default() -> (r: Self)
        ensures
            r == (TomlConfig {
                gitlab_host: None,
                gitlab_token: None,
                mr_iid: None,
                poll_interval_secs: None,
                ignore_patterns: None,
            }),
    {
        TomlConfig {
            gitlab_host: None,
            gitlab_token: None,
            mr_iid: None,
            poll_interval_secs: None,
            ignore_patterns: None,
        }
    }
}

// ── Where the settings come from ────────────────────────────────────────────────────────────────

/// The first of three sources that has a setting, or the default.
pub open spec fn first_set(
    file: Option<Seq<char>>,
    env: Option<Seq<char>>,
    last: Option<Seq<char>>,
    default: Seq<char>,
) -> Seq<char> {
    match (file, env, last) {
        (Some(s), _, _) => s,
        (None, Some(s), _) => s,
        (None, None, Some(s)) => s,
        (None, None, None) => default,
    }
}

/// GitLab's address: from the file, else the environment, else the git remote, else gitlab.com.
pub open spec fn host_of(
    file: Option<Seq<char>>,
    env: Option<Seq<char>>,
    remote: Option<Seq<char>>,
) -> Seq<char> {
    first_set(file, env, remote, "https://gitlab.com"@)
}

/// The token: from the file, else the environment, else `glab`, else empty.
pub open spec fn token_of(
    file: Option<Seq<char>>,
    env: Option<Seq<char>>,
    glab: Option<Seq<char>>,
) -> Seq<char> {
    first_set(file, env, glab, Seq::empty())
}

/// The configuration, from what the file sets, the environment, the git remote and `glab`.
pub open spec fn loaded(
    file: TomlConfig,
    env_host: Option<Seq<char>>,
    remote_host: Option<Seq<char>>,
    env_token: Option<Seq<char>>,
    glab_token: Option<Seq<char>>,
) -> ConfigModel {
    ConfigModel {
        gitlab_host: host_of(text_model(file.gitlab_host), env_host, remote_host),
        gitlab_token: token_of(text_model(file.gitlab_token), env_token, glab_token),
        mr_iid: file.mr_iid,
        poll_interval_secs: match file.poll_interval_secs {
            Some(secs) => secs,
            None => 60,
        },
        ignore_patterns: match file.ignore_patterns {
            Some(patterns) => string_texts(patterns@),
            None => Seq::empty(),
        },
    }
}

fn first_text(file: &Option<String>, env: &Option<String>, last: &Option<String>, default: &str) -> (r:
    String)
    ensures
        r@ == first_set(text_model(*file), text_model(*env), text_model(*last), default@),
{
    match file {
        Some(s) => s.clone(),
        None => match env {
            Some(s) => s.clone(),
            None => match last {
                Some(s) => s.clone(),
                None => default.to_owned(),
            },
        },
    }
}

/// Whether neither the file nor the environment sets a text, so that the last source is asked.
pub fn needs_last_source(file: &Option<String>, env: &Option<String>) -> (r: bool)
    ensures
        r == (file is None && env is None),
{
    file.is_none() && env.is_none()
}

/// GitLab's address, from the file, the environment and the git remote.
pub fn resolve_host(file: &Option<String>, env: &Option<String>, remote: &Option<String>) -> (host:
    String)
    ensures
        host@ == host_of(text_model(*file), text_model(*env), text_model(*remote)),
{
    first_text(file, env, remote, "https://gitlab.com")
}

impl Config {
    /// Load configuration using the priority chain:
    /// 1. `.helix/mr-lsp.toml` in the workspace root
    /// 2. Environment variables (`GITLAB_TOKEN`, `GITLAB_HOST`)
    /// 3. Host derived from the git remote origin URL
    /// 4. `glab auth status --show-token -h <host>` (shell out)
    pub fn load(
        toml_cfg: TomlConfig,
        env_host: Option<String>,
        remote_host: Option<String>,
        env_token: Option<String>,
        glab_token: Option<String>,
    ) -> (config: Config)
        ensures
            config@ == loaded(
                toml_cfg,
                text_model(env_host),
                text_model(remote_host),
                text_model(env_token),
                text_model(glab_token),
            ),
    {
        let gitlab_host = resolve_host(&toml_cfg.gitlab_host, &env_host, &remote_host);
        let gitlab_token = first_text(&toml_cfg.gitlab_token, &env_token, &glab_token, "");
        proof {
            reveal_strlit("");
            assert(""@ =~= Seq::<char>::empty());
        }
        let ignore_patterns = match toml_cfg.ignore_patterns {
            Some(patterns) => patterns,
            None => {
                let none: Vec<String> = Vec::new();
                assert(string_texts(none@) =~= Seq::<Seq<char>>::empty());
                none
            },
        };
        Config {
            gitlab_host,
            gitlab_token,
            mr_iid: toml_cfg.mr_iid,
            poll_interval_secs: match toml_cfg.poll_interval_secs {
                Some(secs) => secs,
                None => 60,
            },
            ignore_patterns,
        }
    }
}

// ── What glab prints ────────────────────────────────────────────────────────────────────────────

/// The bare name of a host: no scheme before it, no slash behind it.
pub open spec fn bare_host(host: Seq<char>) -> Seq<char> {
    trim_end_char(trim_start_text(trim_start_text(host, "https://"@), "http://"@), '/')
}

/// The name by which `glab` knows a host.
fn glab_hostname(host: &str) -> (r: String)
    ensures
        r@ == bare_host(host@),
{
    proof {
        reveal_strlit("https://");
        reveal_strlit("http://");
    }
    let host = chars_of(host);
    let no_https = without_leading_text(host.as_slice(), "https://");
    let no_scheme = without_leading_text(no_https, "http://");
    string_of(without_trailing_char(no_scheme, '/'))
}

/// The arguments with which `glab` is asked for the token of `host`.
pub fn glab_args(host: &str) -> (r: Vec<String>)
    ensures
        string_texts(r@) == seq![
            "auth"@,
            "status"@,
            "--show-token"@,
            "--hostname"@,
            bare_host(host@),
        ],
{
    let mut r: Vec<String> = Vec::new();
    r.push("auth".to_owned());
    r.push("status".to_owned());
    r.push("--show-token".to_owned());
    r.push("--hostname".to_owned());
    r.push(glab_hostname(host));
    assert(string_texts(r@) =~= seq![
        "auth"@,
        "status"@,
        "--show-token"@,
        "--hostname"@,
        bare_host(host@),
    ]);
    r
}

/// `c` is an ASCII letter.
pub open spec fn is_letter(c: char) -> bool {
    'a' <= c <= 'z' || 'A' <= c <= 'Z'
}

/// What follows the first letter of `s`; nothing where there is no letter.
pub open spec fn past_letter(s: Seq<char>) -> Seq<char>
    decreases s.len(),
{
    if s.len() == 0 {
        s
    } else if is_letter(s[0]) {
        s.drop_first()
    } else {
        past_letter(s.drop_first())
    }
}

/// An escape sequence starts at the head of `s`.
pub open spec fn at_escape(s: Seq<char>) -> bool {
    s.len() >= 2 && s[0] == '\x1b' && s[1] == '['
}

/// `s` without its escape sequences: each goes from an escape and a bracket to the next letter.
pub open spec fn without_escapes(s: Seq<char>) -> Seq<char>
    decreases s.len(),
{
    if s.len() == 0 {
        s
    } else if at_escape(s) {
        proof {
            lemma_past_letter(s.skip(2));
        }
        without_escapes(past_letter(s.skip(2)))
    } else {
        seq![s[0]] + without_escapes(s.drop_first())
    }
}

/// What follows a letter is no longer than the whole.
pub proof fn lemma_past_letter(s: Seq<char>)
    ensures
        past_letter(s).len() <= s.len(),
    decreases s.len(),
{
    if s.len() > 0 && !is_letter(s[0]) {
        lemma_past_letter(s.drop_first());
    }
}

/// Remove ANSI escape sequences (e.g. `\x1b[32m`) from a string.
pub fn strip_ansi(s: &str) -> (r: String)
    ensures
        r@ == without_escapes(s@),
{
    let chars = chars_of(s);
    let mut out = String::new();
    let mut i: usize = 0;
    assert(chars@.skip(0) =~= chars@);
    assert(out@ + without_escapes(chars@) =~= without_escapes(chars@));
    while i < chars.len()
        invariant
            i <= chars.len(),
            chars@ == s@,
            out@ + without_escapes(chars@.skip(i as int)) == without_escapes(s@),
        decreases chars.len() - i,
    {
        let ghost rest = chars@.skip(i as int);
        let ghost done = out@;
        if chars[i] == '\x1b' && i + 1 < chars.len() && chars[i + 1] == '[' {
            assert(at_escape(rest));
            assert(rest.skip(2) =~= chars@.skip(i + 2));
            let ghost start = i;
            i += 2;
            let mut ended: bool = false;
            while i < chars.len() && !ended
                invariant
                    start < i <= chars.len(),
                    past_letter(rest.skip(2)) == (if ended {
                        chars@.skip(i as int)
                    } else {
                        past_letter(chars@.skip(i as int))
                    }),
                decreases chars.len() - i,
            {
                let c: char = chars[i];
                ended = (c >= 'a' && c <= 'z') || (c >= 'A' && c <= 'Z');
                assert(chars@.skip(i as int).drop_first() =~= chars@.skip(i + 1));
                i += 1;
            }
        } else {
            out.push(chars[i]);
            assert(rest.drop_first() =~= chars@.skip(i + 1));
            assert(out@ + without_escapes(chars@.skip(i + 1)) =~= done + (seq![rest[0]]
                + without_escapes(rest.drop_first())));
            i += 1;
        }
    }
    assert(out@ + without_escapes(chars@.skip(i as int)) =~= out@);
    out
}

/// The token that a line of `glab`'s output shows.
pub open spec fn token_in_line(line: Seq<char>) -> Option<Seq<char>> {
    match second_piece(line, "Token found:"@) {
        Some(rest) => if trim(rest).len() > 0 {
            Some(trim(rest))
        } else {
            None
        },
        None => None,
    }
}

/// The token that the first line shows that shows one.
pub open spec fn token_in(ls: Seq<Seq<char>>) -> Option<Seq<char>>
    decreases ls.len(),
{
    if ls.len() == 0 {
        None
    } else if token_in_line(ls[0]) is Some {
        token_in_line(ls[0])
    } else {
        token_in(ls.drop_first())
    }
}

fn first_token(ls: &Vec<Vec<char>>) -> (r: Option<String>)
    ensures
        text_model(r) == token_in(texts(ls@)),
{
    let ghost all = texts(ls@);
    let mut i: usize = 0;
    assert(all.skip(0) =~= all);
    while i < ls.len()
        invariant
            i <= ls.len(),
            all == texts(ls@),
            token_in(all) == token_in(all.skip(i as int)),
        decreases ls.len() - i,
    {
        assert(ls@[i as int]@ == all.skip(i as int)[0]);
        assert(all.skip(i as int).drop_first() =~= all.skip(i + 1));
        match piece_after(ls[i].as_slice(), "Token found:") {
            Some(rest) => {
                let token = trimmed(rest);
                if token.len() > 0 {
                    return Some(string_of(token));
                }
            },
            None => {},
        }
        i += 1;
    }
    None
}

proof fn lemma_token_in_concat(a: Seq<Seq<char>>, b: Seq<Seq<char>>)
    ensures
        token_in(a + b) == (if token_in(a) is Some {
            token_in(a)
        } else {
            token_in(b)
        }),
    decreases a.len(),
{
    if a.len() == 0 {
        assert(a + b =~= b);
    } else {
        assert((a + b).drop_first() =~= a.drop_first() + b);
        lemma_token_in_concat(a.drop_first(), b);
    }
}

/// The token in what `glab auth status --show-token` printed, escape sequences aside: on a line
/// such as `  Token found: glpat-xxxx`, of standard error before standard output.
pub fn token_from_glab(stderr: &str, stdout: &str) -> (r: Option<String>)
    ensures
        text_model(r) == token_in(
            lines(without_escapes(stderr@)) + lines(without_escapes(stdout@)),
        ),
{
    proof {
        lemma_token_in_concat(lines(without_escapes(stderr@)), lines(without_escapes(stdout@)));
    }
    let stderr_clean = strip_ansi(stderr);
    let in_stderr = first_token(&lines_of(chars_of(stderr_clean.as_str()).as_slice()));
    if in_stderr.is_some() {
        return in_stderr;
    }
    let stdout_clean = strip_ansi(stdout);
    first_token(&lines_of(chars_of(stdout_clean.as_str()).as_slice()))
}

// ── Laws ────────────────────────────────────────────────────────────────────────────────────────

/// A source is not asked where one before it has the setting: what it would say changes nothing.
pub proof fn law_later_source_unused(
    file: Option<Seq<char>>,
    env: Option<Seq<char>>,
    last1: Option<Seq<char>>,
    last2: Option<Seq<char>>,
    default: Seq<char>,
)
    requires
        file is Some || env is Some,
    ensures
        first_set(file, env, last1, default) == first_set(file, env, last2, default),
{
}

/// No escape sequence starts in `s`: no escape character stands before a bracket.
pub open spec fn is_plain_text(s: Seq<char>) -> bool {
    forall|i: int| 0 <= i < s.len() - 1 && #[trigger] s[i] == '\x1b' ==> s[i + 1] != '['
}

/// Text in which no escape sequence starts is left as it is.
pub proof fn law_plain_text_kept(s: Seq<char>)
    requires
        is_plain_text(s),
    ensures
        without_escapes(s) == s,
    decreases s.len(),
{
    if s.len() > 0 {
        let rest = s.drop_first();
        assert forall|i: int| 0 <= i < rest.len() - 1 && #[trigger] rest[i] == '\x1b' implies rest[i
            + 1] != '[' by {
            assert(s[i + 1] == rest[i]);
        }
        assert(s[0] == '\x1b' ==> s.len() < 2 || s[1] != '[');
        law_plain_text_kept(s.drop_first());
        assert(seq![s[0]] + s.drop_first() =~= s);
    }
}

/// The first escape sequence of a text is removed whole, and nothing but it: an escape character
/// and a bracket, `parameters` that hold no letter, and the letter that ends them.
pub proof fn law_sequence_removed(
    text: Seq<char>,
    parameters: Seq<char>,
    letter: char,
    rest: Seq<char>,
)
    requires
        is_plain_text(text),
        forall|i: int| 0 <= i < parameters.len() ==> !is_letter(parameters[i]),
        is_letter(letter),
    ensures
        without_escapes(text + seq!['\x1b', '['] + parameters + seq![letter] + rest) == text
            + without_escapes(rest),
    decreases text.len(),
{
    let all = text + seq!['\x1b', '['] + parameters + seq![letter] + rest;
    if text.len() == 0 {
        assert(all.skip(2) =~= parameters + seq![letter] + rest);
        lemma_past_parameters(parameters, letter, rest);
        assert(text + without_escapes(rest) =~= without_escapes(rest));
    } else {
        let after = text.drop_first();
        assert forall|i: int| 0 <= i < after.len() - 1 && #[trigger] after[i] == '\x1b' implies
            after[i + 1] != '[' by {
            assert(text[i + 1] == after[i]);
        }
        assert(!at_escape(all)) by {
            assert(all[1] == if text.len() > 1 {
                text[1]
            } else {
                '\x1b'
            });
            assert(text[0] == '\x1b' ==> text.len() < 2 || text[1] != '[');
        }
        law_sequence_removed(after, parameters, letter, rest);
        assert(all.drop_first() =~= text.drop_first() + seq!['\x1b', '['] + parameters
            + seq![letter] + rest);
        assert(all[0] == text[0]);
        assert(seq![text[0]] + (text.drop_first() + without_escapes(rest)) =~= text
            + without_escapes(rest));
    }
}

proof fn lemma_past_parameters(parameters: Seq<char>, letter: char, rest: Seq<char>)
    requires
        forall|i: int| 0 <= i < parameters.len() ==> !is_letter(parameters[i]),
        is_letter(letter),
    ensures
        past_letter(parameters + seq![letter] + rest) == rest,
    decreases parameters.len(),
{
    let all = parameters + seq![letter] + rest;
    if parameters.len() == 0 {
        assert(all.drop_first() =~= rest);
    } else {
        assert(all[0] == parameters[0]);
        assert(all.drop_first() =~= parameters.drop_first() + seq![letter] + rest);
        lemma_past_parameters(parameters.drop_first(), letter, rest);
    }
}

/// A setting is taken from the first source that has it: the file, the environment, then the last
/// one; and it is the default where none has.
pub proof fn law_first_source_counts(
    text: Seq<char>,
    env: Option<Seq<char>>,
    last: Option<Seq<char>>,
    default: Seq<char>,
)
    ensures
        first_set(Some(text), env, last, default) == text,
        first_set(None, Some(text), last, default) == text,
        first_set(None, None, Some(text), default) == text,
        first_set(None, None, None, default) == default,
        host_of(Some(text), env, last) == text,
        host_of(None, Some(text), last) == text,
        host_of(None, None, Some(text)) == text,
        host_of(None, None, None) == "https://gitlab.com"@,
        token_of(Some(text), env, last) == text,
        token_of(None, Some(text), last) == text,
        token_of(None, None, Some(text)) == text,
        token_of(None, None, None) == Seq::<char>::empty(),
{
}

/// A host is asked for by its bare name: the scheme before it and the slashes behind it do not
/// matter.
pub proof fn law_bare_host(name: Seq<char>)
    requires
        name.len() > 0,
        name[name.len() - 1] != '/',
        forall|t: Seq<char>| name != #[trigger] ("https://"@ + t),
        forall|t: Seq<char>| name != #[trigger] ("http://"@ + t),
    ensures
        bare_host(name) == name,
        bare_host(name + seq!['/']) == bare_host("https://"@ + name),
        bare_host("https://"@ + name) == name,
        bare_host("http://"@ + name) == name,
        bare_host("https://"@ + name + seq!['/']) == name,
{
    lemma_bare(name);
    lemma_bare_slash(name);
}

proof fn lemma_bare(name: Seq<char>)
    requires
        name.len() > 0,
        name[name.len() - 1] != '/',
        forall|t: Seq<char>| name != #[trigger] ("https://"@ + t),
        forall|t: Seq<char>| name != #[trigger] ("http://"@ + t),
    ensures
        bare_host(name) == name,
        bare_host("https://"@ + name) == name,
        bare_host("http://"@ + name) == name,
{
    reveal_strlit("https://");
    reveal_strlit("http://");
    law_trim_start_text(name, "https://"@);
    law_trim_start_text(name, "http://"@);
    let web = "http://"@ + name;
    assert forall|t: Seq<char>| web != #[trigger] ("https://"@ + t) by {
        assert(web[4] == ':');
        assert(("https://"@ + t)[4] == 's');
    }
    law_trim_start_text(web, "https://"@);
    assert(name.last() != '/');
}

proof fn lemma_bare_slash(name: Seq<char>)
    requires
        name.len() > 0,
        name[name.len() - 1] != '/',
        forall|t: Seq<char>| name != #[trigger] ("https://"@ + t),
        forall|t: Seq<char>| name != #[trigger] ("http://"@ + t),
    ensures
        bare_host(name + seq!['/']) == name,
        bare_host("https://"@ + name + seq!['/']) == name,
{
    reveal_strlit("https://");
    reveal_strlit("http://");
    let slashed = name + seq!['/'];
    assert forall|t: Seq<char>| slashed != #[trigger] ("https://"@ + t) by {
        if slashed == "https://"@ + t {
            if t.len() == 0 {
                assert(slashed =~= "https://"@);
                assert(slashed[6] == '/');
                assert(name[6] == slashed[6]);
                assert(name.len() == 7);
            } else {
                assert(slashed.drop_last() =~= name);
                assert(("https://"@ + t).drop_last() =~= "https://"@ + t.drop_last());
            }
        }
    }
    assert forall|t: Seq<char>| slashed != #[trigger] ("http://"@ + t) by {
        if slashed == "http://"@ + t {
            if t.len() == 0 {
                assert(slashed =~= "http://"@);
                assert(slashed[5] == '/');
                assert(name[5] == slashed[5]);
                assert(name.len() == 6);
            } else {
                assert(slashed.drop_last() =~= name);
                assert(("http://"@ + t).drop_last() =~= "http://"@ + t.drop_last());
            }
        }
    }
    law_trim_start_text(slashed, "https://"@);
    law_trim_start_text(slashed, "http://"@);
    assert("https://"@ + name + seq!['/'] =~= "https://"@ + slashed);
    assert(slashed.drop_last() =~= name);
    assert(name.last() != '/');
    assert(trim_end_char(slashed, '/') == trim_end_char(name, '/'));
}

/// ASCII letters end an escape sequence, and nothing else does.
pub proof fn law_letters(c: char)
    ensures
        is_letter(c) <==> ('a' <= c <= 'z' || 'A' <= c <= 'Z'),
{
}

/// An escape sequence that no letter ends goes on to the end of the text.
pub proof fn law_unfinished_sequence(text: Seq<char>, parameters: Seq<char>)
    requires
        is_plain_text(text),
        forall|i: int| 0 <= i < parameters.len() ==> !is_letter(parameters[i]),
    ensures
        without_escapes(text + seq!['\x1b', '['] + parameters) == text,
    decreases text.len(),
{
    let all = text + seq!['\x1b', '['] + parameters;
    if text.len() == 0 {
        assert(all.skip(2) =~= parameters);
        lemma_no_letter(parameters);
        assert(without_escapes(all) == without_escapes(past_letter(parameters)));
        assert(without_escapes(all) =~= text);
    } else {
        let after = text.drop_first();
        assert forall|i: int| 0 <= i < after.len() - 1 && #[trigger] after[i] == '\x1b' implies
            after[i + 1] != '[' by {
            assert(text[i + 1] == after[i]);
        }
        assert(!at_escape(all)) by {
            assert(all[1] == if text.len() > 1 {
                text[1]
            } else {
                '\x1b'
            });
            assert(text[0] == '\x1b' ==> text.len() < 2 || text[1] != '[');
        }
        law_unfinished_sequence(after, parameters);
        assert(all.drop_first() =~= after + seq!['\x1b', '['] + parameters);
        assert(all[0] == text[0]);
        assert(seq![text[0]] + after =~= text);
    }
}

proof fn lemma_no_letter(parameters: Seq<char>)
    requires
        forall|i: int| 0 <= i < parameters.len() ==> !is_letter(parameters[i]),
    ensures
        past_letter(parameters).len() == 0,
    decreases parameters.len(),
{
    if parameters.len() > 0 {
        assert forall|i: int| 0 <= i < parameters.drop_first().len() implies !is_letter(
            parameters.drop_first()[i],
        ) by {
            assert(parameters.drop_first()[i] == parameters[i + 1]);
        }
        lemma_no_letter(parameters.drop_first());
    }
}

/// Between the first `Token found:`, which stands at `i`, and `end`, where the next one stands or
/// the line ends, is the token, with nothing but white space around it; it begins at `k` there.
pub open spec fn is_shown(line: Seq<char>, token: Seq<char>, i: int, end: int, k: int) -> bool {
    let n = i + 12;
    &&& 0 <= i && n <= end <= line.len()
    &&& line.subrange(i, n) == "Token found:"@
    &&& forall|j: int| 0 <= j < i ==> #[trigger] line.subrange(j, j + 12) != "Token found:"@
    &&& end == line.len() || (end + 12 <= line.len() && line.subrange(end, end + 12)
        == "Token found:"@)
    &&& is_core(line.subrange(n, end), token, k)
}

/// A line shows a token where something other than white space stands behind its first
/// `Token found:`, up to the next one; and the token is that, without the white space around it.
pub proof fn law_token_in_line(line: Seq<char>)
    ensures
        (match token_in_line(line) {
            Some(token) => token.len() > 0 && exists|i: int, end: int, k: int| #[trigger]
                is_shown(line, token, i, end, k),
            None => (forall|j: int|
                0 <= j <= line.len() - 12 ==> #[trigger] line.subrange(j, j + 12)
                    != "Token found:"@) || (second_piece(line, "Token found:"@) matches Some(piece)
                && forall|k: int| 0 <= k < piece.len() ==> is_space(#[trigger] piece[k])),
        }),
{
    reveal_strlit("Token found:");
    let p = "Token found:"@;
    assert(p.len() == 12);
    law_second_piece(line, p);
    if second_piece(line, p) is None {
        assert forall|j: int| 0 <= j <= line.len() - 12 implies #[trigger] line.subrange(j, j + 12)
            != p by {
            assert(line.subrange(j, j + p.len()) != p);
        }
    }
    if let Some(piece) = second_piece(line, p) {
        law_trim(piece);
        let k = choose|k: int| #[trigger] is_core(piece, trim(piece), k);
        if trim(piece).len() > 0 {
            let i = choose|i: int|
                {
                    let n = i + p.len();
                    &&& 0 <= i && n + piece.len() <= line.len()
                    &&& #[trigger] line.subrange(i, i + p.len()) == p
                    &&& forall|j: int| 0 <= j < i ==> #[trigger] line.subrange(j, j + p.len()) != p
                    &&& piece == line.subrange(n, n + piece.len())
                    &&& forall|j: int|
                        n <= j < n + piece.len() && j + p.len() <= line.len()
                            ==> #[trigger] line.subrange(j, j + p.len()) != p
                    &&& n + piece.len() == line.len() || (n + piece.len() + p.len() <= line.len()
                        && line.subrange(n + piece.len(), n + piece.len() + p.len()) == p)
                };
            assert(is_shown(line, trim(piece), i, i + 12 + piece.len(), k));
        } else {
            assert forall|j: int| 0 <= j < piece.len() implies is_space(#[trigger] piece[j]) by {
            }
        }
    }
}

/// The usual line shows its token.
pub proof fn law_usual_token_line(before: Seq<char>, lead: Seq<char>, token: Seq<char>, trail: Seq<char>)
    requires
        forall|i: int| 0 <= i < before.len() ==> before[i] != 'T',
        forall|i: int| 0 <= i < lead.len() ==> is_space(lead[i]),
        forall|i: int| 0 <= i < trail.len() ==> is_space(trail[i]),
        forall|i: int| 0 <= i < token.len() ==> token[i] != ':' && !is_space(token[i]),
        token.len() > 0,
    ensures
        token_in_line(before + "Token found:"@ + (lead + token + trail)) == Some(token),
{
    reveal_strlit("Token found:");
    let p = "Token found:"@;
    let rest = lead + token + trail;
    let line = before + p + rest;
    law_find_text(line, p);
    let n = before.len() as int;
    assert(line.subrange(n, n + 12) =~= p);
    let i = find_text(line, p)->0;
    assert(i >= n) by {
        if i < n {
            assert(line.subrange(i, i + 12)[0] == line[i]);
            assert(line[i] == before[i]);
        }
    }
    assert(i <= n);
    assert(line.skip(n + 12) =~= rest);
    law_find_text(rest, p);
    assert forall|c: char| is_space(c) implies c != ':' by {
    }
    assert forall|k: int| 0 <= k < rest.len() implies rest[k] != ':' by {
        if k < lead.len() {
            assert(rest[k] == lead[k]);
        } else if k < lead.len() + token.len() {
            assert(rest[k] == token[k - lead.len()]);
        } else {
            assert(rest[k] == trail[k - lead.len() - token.len()]);
        }
    }
    if let Some(j) = find_text(rest, p) {
        assert(rest.subrange(j, j + 12)[11] == rest[j + 11]);
        assert(p[11] == ':');
    }
    law_trim(rest);
    let core = trim(rest);
    let k = choose|k: int| #[trigger] is_core(rest, core, k);
    let a = lead.len() as int;
    let b = a + token.len();
    assert(rest[a] == token[0]);
    assert(rest[b - 1] == token[token.len() - 1]);
    assert(k <= a);
    assert(k + core.len() >= b);
    if k < a {
        assert(core[0] == rest[k]);
        assert(rest[k] == lead[k]);
    }
    if k + core.len() > b {
        assert(core[core.len() - 1] == rest[k + core.len() - 1]);
        assert(rest[k + core.len() - 1] == trail[k + core.len() - 1 - b]);
    }
    assert(core =~= token);
}

/// The token is that of the first line that shows one, and there is none where no line does.
pub proof fn law_first_token(ls: Seq<Seq<char>>)
    ensures
        (match token_in(ls) {
            Some(token) => exists|i: int|
                0 <= i < ls.len() && token_in_line(#[trigger] ls[i]) == Some(token) && forall|j: int|
                    0 <= j < i ==> token_in_line(#[trigger] ls[j]) is None,
            None => forall|i: int| 0 <= i < ls.len() ==> token_in_line(#[trigger] ls[i]) is None,
        }),
    decreases ls.len(),
{
    if ls.len() > 0 {
        if token_in_line(ls[0]) is Some {
            assert(token_in_line(ls[0]) == token_in(ls));
        } else {
            let rest = ls.drop_first();
            law_first_token(rest);
            match token_in(rest) {
                Some(token) => {
                    let i = choose|i: int|
                        0 <= i < rest.len() && token_in_line(#[trigger] rest[i]) == Some(token)
                            && forall|j: int|
                            0 <= j < i ==> token_in_line(#[trigger] rest[j]) is None;
                    assert(ls[i + 1] == rest[i]);
                    assert forall|j: int| 0 <= j < i + 1 implies token_in_line(
                        #[trigger] ls[j],
                    ) is None by {
                        if j > 0 {
                            assert(ls[j] == rest[j - 1]);
                        }
                    }
                },
                None => {
                    assert forall|i: int| 0 <= i < ls.len() implies token_in_line(
                        #[trigger] ls[i],
                    ) is None by {
                        if i > 0 {
                            assert(ls[i] == rest[i - 1]);
                        }
                    }
                },
            }
        }
    }
}

/// A configuration's view shows every setting.
pub proof fn law_config_shown(c: Config)
    ensures
        c@.gitlab_host == c.gitlab_host@,
        c@.gitlab_token == c.gitlab_token@,
        c@.mr_iid == c.mr_iid,
        c@.poll_interval_secs == c.poll_interval_secs,
        c@.ignore_patterns == c.ignore_patterns@.map_values(|p: String| p@),
{
}

/// What the file sets is what counts, whatever the other sources say; and what it does not set comes
/// from the environment, then from the git remote or `glab`, then from the defaults.
pub proof fn law_load(
    file: TomlConfig,
    env_host: Option<Seq<char>>,
    remote_host: Option<Seq<char>>,
    env_token: Option<Seq<char>>,
    glab_token: Option<Seq<char>>,
)
    ensures
        ({
            let c = loaded(file, env_host, remote_host, env_token, glab_token);
            &&& file.gitlab_host matches Some(h) ==> c.gitlab_host == h@
            &&& file.gitlab_token matches Some(t) ==> c.gitlab_token == t@
            &&& file.mr_iid == c.mr_iid
            &&& file.poll_interval_secs matches Some(n) ==> c.poll_interval_secs == n
            &&& file.poll_interval_secs is None ==> c.poll_interval_secs == 60
            &&& file.ignore_patterns matches Some(v) ==> c.ignore_patterns == v@.map_values(
                |p: String| p@,
            )
            &&& file.ignore_patterns is None ==> c.ignore_patterns.len() == 0
            &&& file.gitlab_host is None ==> c.gitlab_host == (match (env_host, remote_host) {
                (Some(h), _) => h,
                (None, Some(h)) => h,
                (None, None) => "https://gitlab.com"@,
            })
            &&& file.gitlab_token is None ==> c.gitlab_token == (match (env_token, glab_token) {
                (Some(t), _) => t,
                (None, Some(t)) => t,
                (None, None) => Seq::empty(),
            })
        }),
{
}

} // verus!
