//! What the local repository tells: the project and the host that a remote names, and the answers
//! of git commands.
use vstd::prelude::*;
use vstd::string::StringExecFns;

use crate::text::{
    after,
    before,
    chars_of,
    ends_with,
    has_prefix,
    is_space,
    join,
    joined,
    law_cut_of_two,
    law_trim_start_text,
    lemma_find_unique,
    starts_with,
    string_of,
    string_texts,
    text_after,
    text_before,
    trim,
    trim_end_text,
    trim_start,
    trim_start_text,
    trimmed,
    without_leading_text,
    without_trailing_text,
};

verus! {

/// SHAs required by the GitLab diff position API.
#[derive(Debug)]
pub struct MrShas {
    pub base_sha: String,
    pub head_sha: String,
    pub start_sha: String,
}

impl Clone for MrShas {
    fn clone(&self) -> (r: Self)
        ensures
            r == *self,
    {
        MrShas {
            base_sha: self.base_sha.clone(),
            head_sha: self.head_sha.clone(),
            start_sha: self.start_sha.clone(),
        }
    }
}

/// Why the repository could not be asked, or gave no answer.
#[derive(Debug)]
pub enum GitError {
    /// The command could not be started.
    Spawn { program: String },
    /// The command ended with a failure.
    Failed { command: String, stderr: String },
    /// No branch is checked out.
    DetachedHead,
    /// The working directory is not known.
    NoWorkingDirectory,
    /// No directory from the working directory up to the root of the file system holds `.git`.
    NoRepository,
    /// The remote has a scheme and a host, and no path.
    NoPath,
    /// The remote is of no known form.
    UnknownRemote { url: String },
}

/// Model of [`GitError`].
pub enum GitErrorModel {
    Spawn { program: Seq<char> },
    Failed { command: Seq<char>, stderr: Seq<char> },
    DetachedHead,
    NoWorkingDirectory,
    NoRepository,
    NoPath,
    UnknownRemote { url: Seq<char> },
}

impl View for GitError {
    type V = GitErrorModel;

    open spec fn view(&self) -> GitErrorModel {
        match self {
            GitError::Spawn { program } => GitErrorModel::Spawn { program: program@ },
            GitError::Failed { command, stderr } => GitErrorModel::Failed {
                command: command@,
                stderr: stderr@,
            },
            GitError::DetachedHead => GitErrorModel::DetachedHead,
            GitError::NoWorkingDirectory => GitErrorModel::NoWorkingDirectory,
            GitError::NoRepository => GitErrorModel::NoRepository,
            GitError::NoPath => GitErrorModel::NoPath,
            GitError::UnknownRemote { url } => GitErrorModel::UnknownRemote { url: url@ },
        }
    }
}

/// Model of an answer, or of why there is none.
pub open spec fn answer_model(r: Result<String, GitError>) -> Result<Seq<char>, GitErrorModel> {
    match r {
        Ok(s) => Ok(s@),
        Err(e) => Err(e@),
    }
}

impl GitErrorModel {
    /// What the error says.
    pub open spec fn text(self) -> Seq<char> {
        match self {
            GitErrorModel::Spawn { program } => "failed to spawn `"@ + program + "`"@,
            GitErrorModel::Failed { command, stderr } => "`"@ + command + "` failed: "@ + stderr,
            GitErrorModel::DetachedHead =>
                "git branch --show-current returned empty (detached HEAD?)"@,
            GitErrorModel::NoWorkingDirectory => "cannot determine CWD"@,
            GitErrorModel::NoRepository => "reached filesystem root without finding .git"@,
            GitErrorModel::NoPath => "unexpected remote URL format"@,
            GitErrorModel::UnknownRemote { url } => "unrecognised remote URL format: "@ + url,
        }
    }
}

impl GitError {
    /// A human-readable explanation.
    pub fn message(&self) -> (r: String)
        ensures
            r@ == self@.text(),
    {
        match self {
            GitError::Spawn { program } => {
                let mut m = "failed to spawn `".to_owned();
                m.append(program.as_str());
                m.append("`");
                m
            },
            GitError::Failed { command, stderr } => {
                let mut m = "`".to_owned();
                m.append(command.as_str());
                m.append("` failed: ");
                m.append(stderr.as_str());
                m
            },
            GitError::DetachedHead =>
                "git branch --show-current returned empty (detached HEAD?)".to_owned(),
            GitError::NoWorkingDirectory => "cannot determine CWD".to_owned(),
            GitError::NoRepository => "reached filesystem root without finding .git".to_owned(),
            GitError::NoPath => "unexpected remote URL format".to_owned(),
            GitError::UnknownRemote { url } => {
                let mut m = "unrecognised remote URL format: ".to_owned();
                m.append(url.as_str());
                m
            },
        }
    }
}

// ── Commands ────────────────────────────────────────────────────────────────────────────────────

/// What a command that has ended left behind.
#[derive(Debug)]
pub struct Output {
    pub success: bool,
    pub stdout: String,
    pub stderr: String,
}

/// What a command tells: its standard output without the white space around it if it succeeded,
/// its standard error if it did not.
pub open spec fn told(cmd: Seq<char>, words: Seq<Seq<char>>, output: Option<Output>) -> Result<
    Seq<char>,
    GitErrorModel,
> {
    match output {
        Some(out) => if out.success {
            Ok(trim(out.stdout@))
        } else {
            Err(
                GitErrorModel::Failed {
                    command: cmd + " "@ + join(words, " "@),
                    stderr: out.stderr@,
                },
            )
        },
        None => Err(GitErrorModel::Spawn { program: cmd }),
    }
}

/// What the command tells that left `output` behind, or nothing where it could not be started.
pub fn run(cmd: &str, args: &Vec<String>, output: &Option<Output>) -> (r: Result<String, GitError>)
    ensures
        answer_model(r) == told(cmd@, string_texts(args@), *output),
{
    match output {
        Some(out) => {
            if !out.success {
                let mut command = cmd.to_owned();
                command.append(" ");
                command.append(joined(args, " ").as_str());
                return Err(GitError::Failed { command, stderr: out.stderr.clone() });
            }
            let stdout = chars_of(out.stdout.as_str());
            Ok(string_of(trimmed(stdout.as_slice())))
        },
        None => Err(GitError::Spawn { program: cmd.to_owned() }),
    }
}

/// A question that git answers.
#[derive(Debug)]
pub enum Query {
    /// The commit that is checked out.
    HeadSha,
    /// The branch that is checked out.
    CurrentBranch,
    /// The commit at which the work on top of the remote's branch `base` began.
    MergeBase { base: String },
    /// The commit at which the remote's branch `base` stands.
    OriginSha { base: String },
    /// The address of the remote.
    RemoteUrl,
}

/// The name under which git keeps the branch `branch` of the remote.
pub open spec fn origin_name(branch: Seq<char>) -> Seq<char> {
    "origin/"@ + branch
}

/// Model of [`Query`].
pub enum QueryModel {
    HeadSha,
    CurrentBranch,
    MergeBase { base: Seq<char> },
    OriginSha { base: Seq<char> },
    RemoteUrl,
}

impl View for Query {
    type V = QueryModel;

    open spec fn view(&self) -> QueryModel {
        match self {
            Query::HeadSha => QueryModel::HeadSha,
            Query::CurrentBranch => QueryModel::CurrentBranch,
            Query::MergeBase { base } => QueryModel::MergeBase { base: base@ },
            Query::OriginSha { base } => QueryModel::OriginSha { base: base@ },
            Query::RemoteUrl => QueryModel::RemoteUrl,
        }
    }
}

impl QueryModel {
    /// What git is called with.
    pub open spec fn words(self) -> Seq<Seq<char>> {
        match self {
            QueryModel::HeadSha => seq!["rev-parse"@, "HEAD"@],
            QueryModel::CurrentBranch => seq!["branch"@, "--show-current"@],
            QueryModel::MergeBase { base } => seq!["merge-base"@, "HEAD"@, origin_name(base)],
            QueryModel::OriginSha { base } => seq!["rev-parse"@, origin_name(base)],
            QueryModel::RemoteUrl => seq!["remote"@, "get-url"@, "origin"@],
        }
    }
}

impl Query {
    /// The arguments with which git is called.
    pub fn args(&self) -> (r: Vec<String>)
        ensures
            string_texts(r@) == self@.words(),
    {
        let mut r: Vec<String> = Vec::new();
        match self {
            Query::HeadSha => {
                r.push("rev-parse".to_owned());
                r.push("HEAD".to_owned());
            },
            Query::CurrentBranch => {
                r.push("branch".to_owned());
                r.push("--show-current".to_owned());
            },
            Query::MergeBase { base } => {
                r.push("merge-base".to_owned());
                r.push("HEAD".to_owned());
                r.push(origin_branch(base.as_str()));
            },
            Query::OriginSha { base } => {
                r.push("rev-parse".to_owned());
                r.push(origin_branch(base.as_str()));
            },
            Query::RemoteUrl => {
                r.push("remote".to_owned());
                r.push("get-url".to_owned());
                r.push("origin".to_owned());
            },
        }
        assert(string_texts(r@) =~= self@.words());
        r
    }
}

/// The name under which git keeps the branch `branch` of the remote.
fn origin_branch(branch: &str) -> (r: String)
    ensures
        r@ == origin_name(branch@),
{
    let mut r = "origin/".to_owned();
    r.append(branch);
    r
}

/// What git tells when it is asked `query`.
pub open spec fn git_told(query: QueryModel, output: Option<Output>) -> Result<
    Seq<char>,
    GitErrorModel,
> {
    told("git"@, query.words(), output)
}

/// What git tells when it is asked `query`.
fn ask(query: &Query, output: &Option<Output>) -> (r: Result<String, GitError>)
    ensures
        answer_model(r) == git_told(query@, *output),
{
    run("git", &query.args(), output)
}

/// The local HEAD SHA, from what `git rev-parse HEAD` left behind.
pub fn local_head_sha(output: &Option<Output>) -> (r: Result<String, GitError>)
    ensures
        answer_model(r) == git_told(QueryModel::HeadSha, *output),
{
    ask(&Query::HeadSha, output)
}

/// The branch that git names, where it names one.
pub open spec fn named_branch(answer: Result<Seq<char>, GitErrorModel>) -> Result<
    Seq<char>,
    GitErrorModel,
> {
    match answer {
        Ok(out) => if out.len() == 0 {
            Err(GitErrorModel::DetachedHead)
        } else {
            Ok(out)
        },
        Err(e) => Err(e),
    }
}

/// The current branch name, from what `git branch --show-current` left behind.
pub fn current_branch(output: &Option<Output>) -> (r: Result<String, GitError>)
    ensures
        answer_model(r) == named_branch(git_told(QueryModel::CurrentBranch, *output)),
{
    match ask(&Query::CurrentBranch, output) {
        Ok(out) => if out.as_str().is_empty() {
            Err(GitError::DetachedHead)
        } else {
            Ok(out)
        },
        Err(e) => Err(e),
    }
}

/// The three SHAs needed for GitLab diff position API, from what git left behind when it was
/// asked for the merge base with `base_branch` on the remote, the local head, and the remote
/// branch. The first question that was not answered is the one that is reported.
pub fn mr_shas(
    base_branch: &str,
    merge_base: &Option<Output>,
    head: &Option<Output>,
    origin: &Option<Output>,
) -> (r: Result<MrShas, GitError>)
    ensures
        ({
            let first = git_told(QueryModel::MergeBase { base: base_branch@ }, *merge_base);
            let second = git_told(QueryModel::HeadSha, *head);
            let third = git_told(QueryModel::OriginSha { base: base_branch@ }, *origin);
            match (first, second, third) {
                (Ok(base), Ok(tip), Ok(start)) => r matches Ok(shas) && shas.base_sha@ == base
                    && shas.head_sha@ == tip && shas.start_sha@ == start,
                (Err(why), _, _) => r matches Err(e) && e@ == why,
                (Ok(_), Err(why), _) => r matches Err(e) && e@ == why,
                (Ok(_), Ok(_), Err(why)) => r matches Err(e) && e@ == why,
            }
        }),
{
    let base_sha = match ask(&Query::MergeBase { base: base_branch.to_owned() }, merge_base) {
        Ok(sha) => sha,
        Err(e) => {
            return Err(e);
        },
    };
    let head_sha = match ask(&Query::HeadSha, head) {
        Ok(sha) => sha,
        Err(e) => {
            return Err(e);
        },
    };
    let start_sha = match ask(&Query::OriginSha { base: base_branch.to_owned() }, origin) {
        Ok(sha) => sha,
        Err(e) => {
            return Err(e);
        },
    };
    Ok(MrShas { base_sha, head_sha, start_sha })
}

/// A directory, and whether it holds `.git`.
#[derive(Debug)]
pub struct Probe {
    pub dir: String,
    pub has_git: bool,
}

/// The first of the directories that holds `.git`.
pub open spec fn nearest_root(probes: Seq<Probe>) -> Option<Seq<char>>
    decreases probes.len(),
{
    if probes.len() == 0 {
        None
    } else if probes[0].has_git {
        Some(probes[0].dir@)
    } else {
        nearest_root(probes.drop_first())
    }
}

/// The repository's root, or why there is none.
pub open spec fn root_told(probes: Option<Vec<Probe>>) -> Result<Seq<char>, GitErrorModel> {
    match probes {
        Some(v) => match nearest_root(v@) {
            Some(dir) => Ok(dir),
            None => Err(GitErrorModel::NoRepository),
        },
        None => Err(GitErrorModel::NoWorkingDirectory),
    }
}

/// The first of the directories that holds `.git`: the nearest one, where they go from the
/// working directory up. There are none where the working directory is not known.
pub fn repo_root(probes: &Option<Vec<Probe>>) -> (r: Result<String, GitError>)
    ensures
        answer_model(r) == root_told(*probes),
{
    let dirs = match probes {
        Some(v) => v,
        None => {
            return Err(GitError::NoWorkingDirectory);
        },
    };
    let mut i: usize = 0;
    assert(dirs@.skip(0) =~= dirs@);
    while i < dirs.len()
        invariant
            i <= dirs.len(),
            *probes == Some(*dirs),
            nearest_root(dirs@) == nearest_root(dirs@.skip(i as int)),
        decreases dirs.len() - i,
    {
        assert(dirs@.skip(i as int)[0] == dirs@[i as int]);
        assert(dirs@.skip(i as int).drop_first() =~= dirs@.skip(i + 1));
        if dirs[i].has_git {
            return Ok(dirs[i].dir.clone());
        }
        i += 1;
    }
    Err(GitError::NoRepository)
}

// ── Remotes ─────────────────────────────────────────────────────────────────────────────────────

/// The URL has the scheme `http` or `https`.
pub open spec fn is_web_url(url: Seq<char>) -> bool {
    starts_with(url, "http://"@) || starts_with(url, "https://"@)
}

/// The URL reads `user@host:path`: there is a colon, and no `http` at the start.
pub open spec fn is_ssh_url(url: Seq<char>) -> bool {
    !starts_with(url, "http"@) && after(url, ':') is Some
}

/// What follows the scheme of a web URL.
pub open spec fn without_scheme(url: Seq<char>) -> Seq<char> {
    trim_start_text(trim_start_text(url, "https://"@), "http://"@)
}

/// GitLab's address, where `url` tells it.
pub open spec fn host_in(url: Seq<char>) -> Option<Seq<char>> {
    if is_ssh_url(url) {
        let user_host = before(url, ':');
        Some(
            "https://"@ + (match after(user_host, '@') {
                Some(host) => host,
                None => user_host,
            }),
        )
    } else if is_web_url(url) {
        Some("https://"@ + before(without_scheme(url), '/'))
    } else {
        None
    }
}

/// The project's path, where `url` tells it.
pub open spec fn project_in(url: Seq<char>) -> Option<Seq<char>> {
    if is_ssh_url(url) {
        Some(trim_end_text(after(url, ':')->0, ".git"@))
    } else if is_web_url(url) {
        match after(without_scheme(url), '/') {
            Some(path) => Some(trim_end_text(path, ".git"@)),
            None => None,
        }
    } else {
        None
    }
}

/// GitLab's address, or why `url` does not tell it.
pub open spec fn host_told(url: Seq<char>) -> Result<Seq<char>, GitErrorModel> {
    match host_in(url) {
        Some(host) => Ok(host),
        None => Err(GitErrorModel::UnknownRemote { url }),
    }
}

/// The project's path, or why `url` does not tell it.
pub open spec fn project_told(url: Seq<char>) -> Result<Seq<char>, GitErrorModel> {
    match project_in(url) {
        Some(path) => Ok(path),
        None => if is_web_url(url) {
            Err(GitErrorModel::NoPath)
        } else {
            Err(GitErrorModel::UnknownRemote { url })
        },
    }
}

fn scheme_cut(url: &[char]) -> (r: &[char])
    ensures
        r@ == without_scheme(url@),
{
    proof {
        reveal_strlit("https://");
        reveal_strlit("http://");
    }
    without_leading_text(without_leading_text(url, "https://"), "http://")
}

/// The GitLab host (as an HTTPS URL) that a remote's URL names.
///
/// - `git@gitlab.example.com:group/repo.git`  -> `https://gitlab.example.com`
/// - `https://gitlab.example.com/group/repo`  -> `https://gitlab.example.com`
pub fn parse_host(remote_url: &str) -> (r: Result<String, GitError>)
    ensures
        answer_model(r) == host_told(trim(remote_url@)),
{
    let chars = chars_of(remote_url);
    let url = trimmed(chars.as_slice());

    // SSH: git@host:path
    if !has_prefix(url, "http") && text_after(url, ':').is_some() {
        let user_host = text_before(url, ':');
        let host = match text_after(user_host, '@') {
            Some(h) => h,
            None => user_host,
        };
        let mut r = "https://".to_owned();
        r.append(string_of(host).as_str());
        return Ok(r);
    }

    // HTTPS: https://host/path
    if has_prefix(url, "http://") || has_prefix(url, "https://") {
        let host = text_before(scheme_cut(url), '/');
        let mut r = "https://".to_owned();
        r.append(string_of(host).as_str());
        return Ok(r);
    }
    Err(GitError::UnknownRemote { url: string_of(url) })
}

/// The project path (`group/repo`) that a remote's URL names.
///
/// Handles both SSH (`git@gitlab.com:group/repo.git`) and
/// HTTPS (`https://gitlab.com/group/repo.git`) remotes.
pub fn parse_project_path(remote_url: &str) -> (r: Result<String, GitError>)
    ensures
        answer_model(r) == project_told(trim(remote_url@)),
{
    proof {
        reveal_strlit(".git");
        reveal_strlit("http");
        reveal_strlit("http://");
        reveal_strlit("https://");
    }
    let chars = chars_of(remote_url);
    let url = trimmed(chars.as_slice());

    // SSH: git@host:group/repo.git
    if !has_prefix(url, "http") {
        match text_after(url, ':') {
            Some(path) => {
                return Ok(string_of(without_trailing_text(path, ".git")));
            },
            None => {},
        }
    }

    // HTTPS: https://host/group/repo.git  or  http://host/group/repo.git
    if has_prefix(url, "http://") || has_prefix(url, "https://") {
        return match text_after(scheme_cut(url), '/') {
            Some(path) => Ok(string_of(without_trailing_text(path, ".git"))),
            None => Err(GitError::NoPath),
        };
    }
    Err(GitError::UnknownRemote { url: string_of(url) })
}

/// Derives `group/repo` from the `origin` remote URL, from what git left behind when it was asked
/// for that URL.
pub fn project_path_from_remote(output: &Option<Output>) -> (r: Result<String, GitError>)
    ensures
        answer_model(r) == (match git_told(QueryModel::RemoteUrl, *output) {
            Ok(url) => project_told(trim(url)),
            Err(e) => Err(e),
        }),
{
    match ask(&Query::RemoteUrl, output) {
        Ok(url) => parse_project_path(url.as_str()),
        Err(e) => Err(e),
    }
}

/// Extracts the GitLab host (as an HTTPS URL) from the `origin` remote, from what git left behind
/// when it was asked for the remote's URL.
pub fn host_from_remote(output: &Option<Output>) -> (r: Result<String, GitError>)
    ensures
        answer_model(r) == (match git_told(QueryModel::RemoteUrl, *output) {
            Ok(url) => host_told(trim(url)),
            Err(e) => Err(e),
        }),
{
    match ask(&Query::RemoteUrl, output) {
        Ok(url) => parse_host(url.as_str()),
        Err(e) => Err(e),
    }
}

// ── Laws ────────────────────────────────────────────────────────────────────────────────────────

/// A project's path as a remote may have it, with `suffix` behind it: not empty, no `.git` at its
/// end, and no white space at the end of the two.
pub open spec fn is_project_path(path: Seq<char>, suffix: Seq<char>) -> bool {
    path.len() > 0 && !ends_with(path, ".git"@) && !is_space((path + suffix).last())
}

/// The host is no scheme that a path with a slash at its start would complete.
pub open spec fn is_host_before(host: Seq<char>, path: Seq<char>) -> bool {
    &&& forall|i: int| 0 <= i < host.len() ==> host[i] != '/'
    &&& path.len() > 0 && path[0] == '/' ==> host != "https:"@ && host != "http:"@
}

/// Nothing but white space.
pub open spec fn is_blank(s: Seq<char>) -> bool {
    forall|i: int| 0 <= i < s.len() ==> is_space(#[trigger] s[i])
}

/// A remote may end in `.git`, and need not.
pub open spec fn is_git_suffix(suffix: Seq<char>) -> bool {
    suffix == ".git"@ || suffix.len() == 0
}

/// White space around a text does not matter.
proof fn lemma_trim_around(lead: Seq<char>, s: Seq<char>, trail: Seq<char>)
    requires
        s.len() > 0,
        !is_space(s[0]),
        !is_space(s.last()),
        is_blank(lead),
        is_blank(trail),
    ensures
        trim(lead + s + trail) == s,
    decreases lead.len() + trail.len(),
{
    let all = lead + s + trail;
    if lead.len() > 0 {
        assert(all[0] == lead[0]);
        assert forall|i: int| 0 <= i < lead.drop_first().len() implies is_space(
            #[trigger] lead.drop_first()[i],
        ) by {
            assert(lead.drop_first()[i] == lead[i + 1]);
        }
        assert(all.drop_first() =~= lead.drop_first() + s + trail);
        lemma_trim_around(lead.drop_first(), s, trail);
    } else {
        assert(all =~= s + trail);
        assert(trim_start(all) == all);
        if trail.len() > 0 {
            assert(all.last() == trail.last());
            assert(is_space(trail[trail.len() - 1]));
            assert forall|i: int| 0 <= i < trail.drop_last().len() implies is_space(
                #[trigger] trail.drop_last()[i],
            ) by {
                assert(trail.drop_last()[i] == trail[i]);
            }
            assert(all.drop_last() =~= lead + s + trail.drop_last());
            lemma_trim_around(lead, s, trail.drop_last());
            assert(trim_start(all.drop_last()) == all.drop_last());
        } else {
            assert(all =~= s);
        }
    }
}

proof fn lemma_git_suffix(path: Seq<char>, suffix: Seq<char>)
    requires
        is_project_path(path, suffix),
        is_git_suffix(suffix),
    ensures
        trim_end_text(path + suffix, ".git"@) == path,
{
    reveal_strlit(".git");
    let all = path + suffix;
    if suffix.len() == 0 {
        assert(all =~= path);
    } else {
        assert(all.skip(all.len() - 4) =~= ".git"@);
        assert(all.take(all.len() - 4) =~= path);
        assert(trim_end_text(path, ".git"@) == path);
    }
}

/// The parts of an SSH remote: the user and the host before the colon, the rest behind it.
proof fn lemma_ssh_parts(host: Seq<char>, rest: Seq<char>)
    requires
        forall|i: int| 0 <= i < host.len() ==> host[i] != ':',
    ensures
        ({
            let url = "git@"@ + host + ":"@ + rest;
            &&& !starts_with(url, "http"@)
            &&& before(url, ':') == "git@"@ + host
            &&& after(url, ':') == Some(rest)
            &&& url[0] == 'g'
        }),
{
    reveal_strlit("git@");
    reveal_strlit(":");
    reveal_strlit("http");
    let url = "git@"@ + host + ":"@ + rest;
    assert(!starts_with(url, "http"@)) by {
        if starts_with(url, "http"@) {
            assert(url.take(4)[0] == 'h');
        }
    }
    let colon: int = 4 + host.len() as int;
    assert forall|j: int| 0 <= j < colon implies url[j] != ':' by {
        if j >= 4 {
            assert(url[j] == host[j - 4]);
        }
    }
    lemma_find_unique(url, ':', colon);
    assert(before(url, ':') =~= "git@"@ + host);
    assert(url.skip(colon + 1) =~= rest);
}

proof fn lemma_user_cut(host: Seq<char>)
    ensures
        after("git@"@ + host, '@') == Some(host),
{
    reveal_strlit("git@");
    let user_host = "git@"@ + host;
    lemma_find_unique(user_host, '@', 3);
    assert(user_host.skip(4) =~= host);
}

/// An SSH remote names its project and its host: of `git@host:path`, with or without `.git`
/// behind it and white space around it, the project is `path` and GitLab is at `https://host`.
pub proof fn law_ssh_remote(
    lead: Seq<char>,
    host: Seq<char>,
    path: Seq<char>,
    suffix: Seq<char>,
    trail: Seq<char>,
)
    requires
        forall|i: int| 0 <= i < host.len() ==> host[i] != ':',
        is_project_path(path, suffix),
        is_git_suffix(suffix),
        is_blank(lead),
        is_blank(trail),
    ensures
        ({
            let url = lead + ("git@"@ + host + ":"@ + (path + suffix)) + trail;
            &&& project_in(trim(url)) == Some(path)
            &&& host_in(trim(url)) == Some("https://"@ + host)
        }),
{
    let url = "git@"@ + host + ":"@ + (path + suffix);
    lemma_git_suffix(path, suffix);
    lemma_ssh_parts(host, path + suffix);
    lemma_user_cut(host);
    assert(url.last() == (path + suffix).last());
    lemma_trim_around(lead, url, trail);
}

/// `host/path` does not start with a scheme, which would have two slashes in a row.
proof fn lemma_no_second_scheme(host: Seq<char>, path: Seq<char>, scheme: Seq<char>, k: int)
    requires
        forall|i: int| 0 <= i < host.len() ==> host[i] != '/',
        path.len() > 0,
        path[0] == '/' ==> host != scheme.take(k),
        scheme.len() == k + 2,
        k > 0,
        scheme[k] == '/',
        scheme[k + 1] == '/',
        forall|i: int| 0 <= i < k ==> scheme[i] != '/',
    ensures
        !starts_with(host + seq!['/'] + path, scheme),
{
    let rest = host + seq!['/'] + path;
    if starts_with(rest, scheme) {
        let n = host.len() as int;
        assert(rest[n] == '/');
        assert forall|i: int| 0 <= i < k + 2 implies rest[i] == scheme[i] by {
            assert(rest.take(k + 2)[i] == rest[i]);
        }
        if n > k {
            assert(rest[k] == host[k]);
        } else if n == k {
            assert(rest[k + 1] == path[0]);
            assert(host =~= scheme.take(k)) by {
                assert forall|i: int| 0 <= i < k implies host[i] == scheme[i] by {
                    assert(rest[i] == host[i]);
                }
            }
        }
    }
}

/// What follows the scheme of a web remote: the host, a slash and the path.
#[verifier::spinoff_prover]
proof fn lemma_host_and_path(host: Seq<char>, path: Seq<char>, suffix: Seq<char>)
    requires
        is_host_before(host, path),
        is_project_path(path, suffix),
        is_git_suffix(suffix),
    ensures
        ({
            let rest = host + "/"@ + path + suffix;
            &&& trim_start_text(rest, "https://"@) == rest
            &&& trim_start_text(rest, "http://"@) == rest
            &&& before(rest, '/') == host
            &&& after(rest, '/') == Some(path + suffix)
            &&& rest.len() > 0
            &&& rest.last() == (path + suffix).last()
        }),
{
    reveal_strlit("/");
    reveal_strlit("http://");
    reveal_strlit("https://");
    reveal_strlit("http:");
    reveal_strlit("https:");
    let rest = host + "/"@ + path + suffix;
    assert("https://"@.take(6) =~= "https:"@);
    assert("http://"@.take(5) =~= "http:"@);
    assert("/"@ =~= seq!['/']);
    assert(host + seq!['/'] + (path + suffix) =~= rest);
    assert((path + suffix)[0] == path[0]);
    lemma_no_second_scheme(host, path + suffix, "https://"@, 6);
    assert(!starts_with(rest, "https://"@));
    lemma_no_second_scheme(host, path + suffix, "http://"@, 5);
    assert(!starts_with(rest, "http://"@));
    assert forall|j: int| 0 <= j < host.len() implies rest[j] != '/' by {
        assert(rest[j] == host[j]);
    }
    lemma_find_unique(rest, '/', host.len() as int);
    assert(rest.take(host.len() as int) =~= host);
    assert(rest.skip(host.len() as int + 1) =~= path + suffix);
}

/// The parts of a URL with the scheme `https`.
proof fn lemma_https_url(lead: Seq<char>, rest: Seq<char>, trail: Seq<char>)
    requires
        trim_start_text(rest, "https://"@) == rest,
        trim_start_text(rest, "http://"@) == rest,
        rest.len() > 0,
        !is_space(rest.last()),
        is_blank(lead),
        is_blank(trail),
    ensures
        ({
            let url = "https://"@ + rest;
            &&& trim(lead + url + trail) == url
            &&& is_web_url(url)
            &&& starts_with(url, "http"@)
            &&& without_scheme(url) == rest
        }),
{
    let url = "https://"@ + rest;
    reveal_strlit("http");
    reveal_strlit("https://");
    lemma_trim_around(lead, url, trail);
    assert(url.take(4) =~= "http"@);
    assert(url.take(8) =~= "https://"@);
    assert(url.skip(8) =~= rest);
    assert(trim_start_text(url, "https://"@) == trim_start_text(rest, "https://"@));
}

/// The parts of a URL with the scheme `http`.
proof fn lemma_http_url(lead: Seq<char>, rest: Seq<char>, trail: Seq<char>)
    requires
        trim_start_text(rest, "http://"@) == rest,
        rest.len() > 0,
        !is_space(rest.last()),
        is_blank(lead),
        is_blank(trail),
    ensures
        ({
            let url = "http://"@ + rest;
            &&& trim(lead + url + trail) == url
            &&& is_web_url(url)
            &&& starts_with(url, "http"@)
            &&& without_scheme(url) == rest
        }),
{
    let url = "http://"@ + rest;
    reveal_strlit("http");
    reveal_strlit("http://");
    reveal_strlit("https://");
    lemma_trim_around(lead, url, trail);
    assert(url.take(4) =~= "http"@);
    assert(url.take(7) =~= "http://"@);
    assert(url.skip(7) =~= rest);
    assert(!starts_with(url, "https://"@)) by {
        if starts_with(url, "https://"@) {
            assert(url.take(8)[4] == 's');
        }
    }
    assert(trim_start_text(url, "https://"@) == url);
    assert(trim_start_text(url, "http://"@) == trim_start_text(rest, "http://"@));
}

/// A web remote names its project and its host: of `https://host/path`, with or without `.git`
/// behind it and white space around it, the project is `path` and GitLab is at `https://host`.
pub proof fn law_https_remote(
    lead: Seq<char>,
    host: Seq<char>,
    path: Seq<char>,
    suffix: Seq<char>,
    trail: Seq<char>,
)
    requires
        is_host_before(host, path),
        is_project_path(path, suffix),
        is_git_suffix(suffix),
        is_blank(lead),
        is_blank(trail),
    ensures
        ({
            let url = lead + ("https://"@ + (host + "/"@ + path + suffix)) + trail;
            &&& project_in(trim(url)) == Some(path)
            &&& host_in(trim(url)) == Some("https://"@ + host)
        }),
{
    lemma_git_suffix(path, suffix);
    lemma_host_and_path(host, path, suffix);
    lemma_https_url(lead, host + "/"@ + path + suffix, trail);
}

/// A web remote names its project and its host: of `http://host/path`, with or without `.git`
/// behind it and white space around it, the project is `path` and GitLab is at `https://host`.
pub proof fn law_http_remote(
    lead: Seq<char>,
    host: Seq<char>,
    path: Seq<char>,
    suffix: Seq<char>,
    trail: Seq<char>,
)
    requires
        is_host_before(host, path),
        is_project_path(path, suffix),
        is_git_suffix(suffix),
        is_blank(lead),
        is_blank(trail),
    ensures
        ({
            let url = lead + ("http://"@ + (host + "/"@ + path + suffix)) + trail;
            &&& project_in(trim(url)) == Some(path)
            &&& host_in(trim(url)) == Some("https://"@ + host)
        }),
{
    lemma_git_suffix(path, suffix);
    lemma_host_and_path(host, path, suffix);
    lemma_http_url(lead, host + "/"@ + path + suffix, trail);
}

/// The host comes back as an HTTPS URL, whatever remote it is taken from.
pub proof fn law_host_is_https(url: Seq<char>)
    requires
        host_in(url) is Some,
    ensures
        starts_with(host_in(url)->0, "https://"@),
{
    let host = host_in(url)->0;
    let n = "https://"@.len() as int;
    let rest = if is_ssh_url(url) {
        match after(before(url, ':'), '@') {
            Some(h) => h,
            None => before(url, ':'),
        }
    } else {
        before(without_scheme(url), '/')
    };
    assert(host == "https://"@ + rest);
    assert(host.take(n) =~= "https://"@);
}

/// A command tells its output without the white space around it where it succeeded, its command line
/// and its complaint where it failed, and its name where it could not be started.
pub proof fn law_command_tells(cmd: Seq<char>, words: Seq<Seq<char>>, out: Output)
    ensures
        out.success ==> told(cmd, words, Some(out)) == Ok::<Seq<char>, GitErrorModel>(
            trim(out.stdout@),
        ),
        !out.success ==> told(cmd, words, Some(out)) == Err::<Seq<char>, GitErrorModel>(
            GitErrorModel::Failed {
                command: cmd + " "@ + join(words, " "@),
                stderr: out.stderr@,
            },
        ),
        told(cmd, words, None) == Err::<Seq<char>, GitErrorModel>(
            GitErrorModel::Spawn { program: cmd },
        ),
{
}

/// Git is asked each question in its own words.
pub proof fn law_questions(base: Seq<char>, output: Option<Output>, query: QueryModel)
    ensures
        QueryModel::HeadSha.words() == seq!["rev-parse"@, "HEAD"@],
        QueryModel::CurrentBranch.words() == seq!["branch"@, "--show-current"@],
        (QueryModel::MergeBase { base }).words() == seq!["merge-base"@, "HEAD"@, "origin/"@ + base],
        (QueryModel::OriginSha { base }).words() == seq!["rev-parse"@, "origin/"@ + base],
        QueryModel::RemoteUrl.words() == seq!["remote"@, "get-url"@, "origin"@],
        git_told(query, output) == told("git"@, query.words(), output),
{
}

/// The branch is the one that git names; where it names none, no branch is checked out.
pub proof fn law_branch(name: Seq<char>, e: GitErrorModel)
    ensures
        name.len() > 0 ==> named_branch(Ok(name)) == Ok::<Seq<char>, GitErrorModel>(name),
        name.len() == 0 ==> named_branch(Ok(name)) == Err::<Seq<char>, GitErrorModel>(
            GitErrorModel::DetachedHead,
        ),
        named_branch(Err(e)) == Err::<Seq<char>, GitErrorModel>(e),
{
}

/// The repository's root is the first of the directories that holds `.git`, and there is none where
/// no directory does.
pub proof fn law_nearest_root(probes: Seq<Probe>)
    ensures
        (match nearest_root(probes) {
            Some(dir) => exists|i: int|
                0 <= i < probes.len() && (#[trigger] probes[i]).has_git && probes[i].dir@ == dir
                    && forall|j: int| 0 <= j < i ==> !(#[trigger] probes[j]).has_git,
            None => forall|i: int| 0 <= i < probes.len() ==> !(#[trigger] probes[i]).has_git,
        }),
    decreases probes.len(),
{
    if probes.len() > 0 {
        if probes[0].has_git {
            assert(nearest_root(probes) == Some(probes[0].dir@));
        } else {
            let rest = probes.drop_first();
            law_nearest_root(rest);
            match nearest_root(rest) {
                Some(dir) => {
                    let i = choose|i: int|
                        0 <= i < rest.len() && (#[trigger] rest[i]).has_git && rest[i].dir@ == dir
                            && forall|j: int| 0 <= j < i ==> !(#[trigger] rest[j]).has_git;
                    assert(probes[i + 1] == rest[i]);
                    assert forall|j: int| 0 <= j < i + 1 implies !(#[trigger] probes[j]).has_git by {
                        if j > 0 {
                            assert(probes[j] == rest[j - 1]);
                        }
                    }
                },
                None => {
                    assert forall|i: int| 0 <= i < probes.len() implies !(
                    #[trigger] probes[i]).has_git by {
                        if i > 0 {
                            assert(probes[i] == rest[i - 1]);
                        }
                    }
                },
            }
        }
    }
}

/// A remote that does not begin with `http` is cut at its first colon: the host stands before it,
/// behind the first `@` where there is one, and the project behind it.
pub proof fn law_remote_with_colon(user: Seq<char>, host: Seq<char>, path: Seq<char>)
    requires
        forall|i: int| 0 <= i < user.len() ==> user[i] != ':' && user[i] != '@',
        forall|i: int| 0 <= i < host.len() ==> host[i] != ':',
        !starts_with(user + seq!['@'] + host + seq![':'] + path, "http"@),
    ensures
        host_in(user + seq!['@'] + host + seq![':'] + path) == Some("https://"@ + host),
        project_in(user + seq!['@'] + host + seq![':'] + path) == Some(
            trim_end_text(path, ".git"@),
        ),
{
    let who = user + seq!['@'] + host;
    assert forall|i: int| 0 <= i < who.len() implies who[i] != ':' by {
        if i < user.len() {
            assert(who[i] == user[i]);
        } else if i > user.len() {
            assert(who[i] == host[i - user.len() - 1]);
        }
    }
    law_cut_of_two(who, ':', path);
    law_cut_of_two(user, '@', host);
}

/// A remote that does not begin with `http` and has no `@` before its first colon is a host, the colon
/// and a project.
pub proof fn law_remote_without_user(host: Seq<char>, path: Seq<char>)
    requires
        forall|i: int| 0 <= i < host.len() ==> host[i] != ':' && host[i] != '@',
        !starts_with(host + seq![':'] + path, "http"@),
    ensures
        host_in(host + seq![':'] + path) == Some("https://"@ + host),
        project_in(host + seq![':'] + path) == Some(trim_end_text(path, ".git"@)),
{
    law_cut_of_two(host, ':', path);
    law_cut_of_two(host, '@', Seq::empty());
}

/// A remote is of no known form where it is no web address and either begins with `http` or has no
/// colon; and then neither its host nor its project is told.
pub proof fn law_unknown_remote(url: Seq<char>)
    requires
        !starts_with(url, "http://"@),
        !starts_with(url, "https://"@),
        starts_with(url, "http"@) || forall|i: int| 0 <= i < url.len() ==> url[i] != ':',
    ensures
        host_told(url) == Err::<Seq<char>, GitErrorModel>(GitErrorModel::UnknownRemote { url }),
        project_told(url) == Err::<Seq<char>, GitErrorModel>(GitErrorModel::UnknownRemote { url }),
{
    if !starts_with(url, "http"@) {
        law_cut_of_two(url, ':', Seq::empty());
    }
}

/// A web address without a path tells its host and no project.
pub proof fn law_remote_without_path(host: Seq<char>)
    requires
        forall|i: int| 0 <= i < host.len() ==> host[i] != '/',
    ensures
        project_told("https://"@ + host) == Err::<Seq<char>, GitErrorModel>(GitErrorModel::NoPath),
        host_told("https://"@ + host) == Ok::<Seq<char>, GitErrorModel>("https://"@ + host),
        project_told("http://"@ + host) == Err::<Seq<char>, GitErrorModel>(GitErrorModel::NoPath),
        host_told("http://"@ + host) == Ok::<Seq<char>, GitErrorModel>("https://"@ + host),
{
    reveal_strlit("http");
    reveal_strlit("http://");
    reveal_strlit("https://");
    let secure = "https://"@ + host;
    let plain = "http://"@ + host;
    assert(secure.take(4) =~= "http"@);
    assert(plain.take(4) =~= "http"@);
    assert(secure.take(8) =~= "https://"@);
    assert(plain.take(7) =~= "http://"@);
    assert forall|t: Seq<char>| host != #[trigger] ("https://"@ + t) by {
        if host == "https://"@ + t {
            assert(host[6] == '/');
        }
    }
    assert forall|t: Seq<char>| host != #[trigger] ("http://"@ + t) by {
        if host == "http://"@ + t {
            assert(host[5] == '/');
        }
    }
    assert forall|t: Seq<char>| plain != #[trigger] ("https://"@ + t) by {
        if plain == "https://"@ + t {
            assert(plain[4] == ':');
        }
    }
    law_trim_start_text(host, "https://"@);
    law_trim_start_text(host, "http://"@);
    law_trim_start_text(plain, "https://"@);
    law_cut_of_two(host, '/', Seq::empty());
}

/// What is wrong is said with what it is about.
pub proof fn law_error_texts(a: Seq<char>, b: Seq<char>)
    ensures
        (GitErrorModel::Spawn { program: a }).text() == "failed to spawn `"@ + a + "`"@,
        (GitErrorModel::Failed { command: a, stderr: b }).text() == "`"@ + a + "` failed: "@ + b,
        (GitErrorModel::UnknownRemote { url: a }).text() == "unrecognised remote URL format: "@ + a,
{
}

} // verus!
