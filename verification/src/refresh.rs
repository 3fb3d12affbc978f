//! One round of bringing the state up to date with GitLab: what is asked, what is taken over, and
//! what the editor is told. Asking, waiting and telling are left to the caller.
use vstd::prelude::*;
use vstd::string::StringExecFns;

use crate::backend::{
    by_file,
    files_model,
    law_one_group_a_file,
    on_file,
    BackendState,
};
use crate::bytes::{byte_len, byte_prefix, leading_bytes, lemma_cut_unique};
use crate::config::Config;
use crate::convert::{
    all_can_show,
    are_showable,
    can_show,
    changed_hint,
    current_model,
    diagnostics_model,
    diagnostics_of,
    diffs_to_changed_file_diagnostics,
    discussions_to_diagnostics,
    option_texts,
    CannotShow,
    Diagnostic,
    DiagnosticModel,
};
use crate::gitlab::client::{
    mr_address,
    project_address,
    BodyModel,
    Call,
    ClientError,
    GitLabClient,
    Method,
    Request,
    RequestModel,
};
use crate::gitlab::diff::{line_numbers_fit, numbers_fit};
use crate::gitlab::types::{
    diffs_model,
    discussions_model,
    refs_model,
    text_model,
    DiffRefs,
    DiffRefsModel,
    Discussion,
    DiscussionModel,
    MergeRequest,
    MrDiff,
    MrDiffModel,
};
use crate::message::{info_text, message_model, warning_text, Message, MessageModel};
use crate::number::{decimal, decimal_of};
use crate::paths::{is_uri_in, uri_in};
use crate::text::{chars_of, same_text, string_of, string_texts};

verus! {

// ── Before GitLab is asked ──────────────────────────────────────────────────────────────────────

/// How a round begins.
#[derive(Debug)]
pub enum Begin {
    /// Not at all, and never again: nothing is configured.
    Stop,
    /// Not now: the next round is due after so many seconds.
    Wait { secs: u64, message: Option<Message> },
    /// GitLab is asked about the project.
    Ask { config: Config, project_path: String },
}

/// A message that is given once: not where it has been given before.
pub open spec fn told_once(before: bool, message: MessageModel) -> Option<MessageModel> {
    if before {
        None
    } else {
        Some(message)
    }
}

/// What the user is told, once, where there is no token.
pub open spec fn no_token_text() -> Seq<char> {
    "gitlab-mr-lsp: no GitLab token found. Set GITLAB_TOKEN or run `glab auth login`."@
}

/// Begins a round of the polling loop.
pub fn begin_round(s: &mut BackendState) -> (r: Begin)
    ensures
        (match old(s).config {
            None => r is Stop && *final(s) == *old(s),
            Some(c) => if c.gitlab_token@.len() == 0 {
                &&& r matches Begin::Wait { secs, message }
                &&& secs == c.poll_interval_secs
                &&& message_model(message) == told_once(
                    old(s).notified_no_token,
                    warning_text(no_token_text()),
                )
                &&& *final(s) == (BackendState { notified_no_token: true, ..*old(s) })
            } else {
                &&& r matches Begin::Ask { config, project_path }
                &&& config@ == c@
                &&& project_path@ == old(s).project_path@
                &&& *final(s) == *old(s)
            },
        }),
{
    let config = match &s.config {
        Some(c) => c.clone(),
        None => {
            return Begin::Stop;
        },
    };
    if config.gitlab_token.as_str().is_empty() {
        let message = if s.notified_no_token {
            None
        } else {
            Some(
                Message::warning(
                    "gitlab-mr-lsp: no GitLab token found. Set GITLAB_TOKEN or run `glab auth login`.",
                ),
            )
        };
        s.notified_no_token = true;
        return Begin::Wait { secs: config.poll_interval_secs, message };
    }
    Begin::Ask { config, project_path: s.project_path.clone() }
}

/// Begins a round outside the polling loop, where anything is configured.
pub fn begin_extra_round(s: &BackendState) -> (r: Option<(Config, String)>)
    ensures
        (match (s.config, r) {
            (Some(c), Some(p)) => p.0@ == c@ && p.1@ == s.project_path@,
            (None, None) => true,
            _ => false,
        }),
{
    match &s.config {
        Some(c) => Some((c.clone(), s.project_path.clone())),
        None => None,
    }
}

/// Whether the merge request is looked up by the branch that is checked out, and not by the
/// number that is configured.
pub fn looks_up_by_branch(config: &Config) -> (r: bool)
    ensures
        r == (config.mr_iid is None),
{
    config.mr_iid.is_none()
}

/// The request that looks the merge request up: by the number that is configured, else by the
/// branch.
pub fn lookup_request(gl: &GitLabClient, config: &Config, project_path: &str, branch: &str) -> (r:
    Request<'static>)
    ensures
        r@ == (match config.mr_iid {
            Some(iid) => RequestModel {
                call: Call::GetMr,
                method: Method::Get,
                url: mr_address(gl.base(), project_path@, iid),
                token: gl.secret(),
                query: Seq::empty(),
                body: BodyModel::Empty,
            },
            None => RequestModel {
                call: Call::FindMr,
                method: Method::Get,
                url: project_address(gl.base(), project_path@) + "/merge_requests"@,
                token: gl.secret(),
                query: seq![
                    ("source_branch"@, branch@),
                    ("state"@, "opened"@),
                    ("per_page"@, "1"@),
                ],
                body: BodyModel::Empty,
            },
        }),
{
    match config.mr_iid {
        Some(iid) => gl.get_mr(project_path, iid),
        None => gl.find_mr(project_path, branch),
    }
}

// ── The merge request ───────────────────────────────────────────────────────────────────────────

/// What follows the lookup of the merge request.
#[derive(Debug)]
pub enum Looked {
    /// Nothing in this round.
    Wait { message: Option<Message> },
    /// Its diffs and discussions are asked for.
    Found { mr: MergeRequest },
}

/// What the user is told, once, where the branch has no merge request.
pub open spec fn no_mr_text(branch: Seq<char>) -> Seq<char> {
    "gitlab-mr-lsp: no open MR found for branch `"@ + branch + "`"@
}

/// Takes in what the lookup of the merge request gave.
pub fn take_lookup(
    s: &mut BackendState,
    found: Result<Option<MergeRequest>, ClientError>,
    branch: &str,
) -> (r: Looked)
    ensures
        (match found {
            Ok(Some(mr)) => r == (Looked::Found { mr }) && *final(s) == *old(s),
            Ok(None) => {
                &&& r matches Looked::Wait { message }
                &&& message_model(message) == told_once(
                    old(s).notified_no_mr,
                    info_text(no_mr_text(branch@)),
                )
                &&& *final(s) == (BackendState { notified_no_mr: true, ..*old(s) })
            },
            Err(_) => r == (Looked::Wait { message: None }) && *final(s) == *old(s),
        }),
{
    match found {
        Ok(Some(mr)) => Looked::Found { mr },
        Ok(None) => {
            let message = if s.notified_no_mr {
                None
            } else {
                let mut text = "gitlab-mr-lsp: no open MR found for branch `".to_owned();
                text.append(branch);
                text.append("`");
                Some(Message::info(text.as_str()))
            };
            s.notified_no_mr = true;
            Looked::Wait { message }
        },
        Err(_) => Looked::Wait { message: None },
    }
}

// ── In sync or not ──────────────────────────────────────────────────────────────────────────────

/// The user is warned: the local head is not the merge request's, and there was no warning for
/// that local head yet.
pub open spec fn warns(last: Option<Seq<char>>, local_head: Seq<char>, mr_sha: Seq<char>) -> bool {
    local_head != mr_sha && last != Some(local_head)
}

/// The local head for which the last warning was given, after the two heads have been compared.
pub open spec fn warned_after(local_head: Seq<char>, mr_sha: Seq<char>) -> Option<Seq<char>> {
    if local_head != mr_sha {
        Some(local_head)
    } else {
        None
    }
}

/// The name of a commit can be cut after eight bytes.
pub open spec fn has_short_form(sha: Seq<char>) -> bool {
    byte_prefix(sha, 8) is Some
}

/// What the warning says.
pub open spec fn out_of_sync_text(local_head: Seq<char>, mr_sha: Seq<char>) -> Seq<char> {
    "gitlab-mr-lsp: local HEAD ("@ + byte_prefix(local_head, 8)->0
        + ") does not match the MR head on GitLab ("@ + byte_prefix(mr_sha, 8)->0
        + "). Comments may be misaligned until you push."@
}

/// Whether the name of a commit can be cut after eight bytes.
pub fn can_be_shortened(sha: &str) -> (r: bool)
    ensures
        r == has_short_form(sha@),
{
    let chars = chars_of(sha);
    leading_bytes(chars.as_slice(), 8).is_some()
}

/// The first eight bytes of a commit's name.
fn short_form(sha: &str) -> (r: String)
    requires
        has_short_form(sha@),
    ensures
        byte_prefix(sha@, 8) == Some(r@),
{
    let chars = chars_of(sha);
    match leading_bytes(chars.as_slice(), 8) {
        Some(t) => string_of(t),
        None => String::new(),
    }
}

/// Whether comparing the local head with the merge request's makes a warning.
pub fn will_warn(s: &BackendState, local_head: &str, mr_sha: &str) -> (r: bool)
    ensures
        r == warns(text_model(s.last_out_of_sync_sha), local_head@, mr_sha@),
{
    if same_text(local_head, mr_sha) {
        return false;
    }
    match &s.last_out_of_sync_sha {
        Some(last) => !same_text(last.as_str(), local_head),
        None => true,
    }
}

/// Out-of-sync check: compare local HEAD to the SHA GitLab has indexed.
/// We warn once per unique local SHA that doesn't match, so the warning
/// re-fires if the user rebases and still hasn't pushed. Back in sync, the
/// stored SHA is cleared so we warn again if it drifts out of sync again later.
pub fn check_sync(s: &mut BackendState, local_head: &str, mr_sha: &str) -> (r: Option<Message>)
    requires
        warns(text_model(old(s).last_out_of_sync_sha), local_head@, mr_sha@) ==> has_short_form(
            local_head@,
        ) && has_short_form(mr_sha@),
    ensures
        message_model(r) == (if warns(
            text_model(old(s).last_out_of_sync_sha),
            local_head@,
            mr_sha@,
        ) {
            Some(warning_text(out_of_sync_text(local_head@, mr_sha@)))
        } else {
            None
        }),
        text_model(final(s).last_out_of_sync_sha) == warned_after(local_head@, mr_sha@),
        *final(s) == (BackendState {
            last_out_of_sync_sha: final(s).last_out_of_sync_sha,
            ..*old(s)
        }),
{
    let warn = will_warn(s, local_head, mr_sha);
    if same_text(local_head, mr_sha) {
        s.last_out_of_sync_sha = None;
        return None;
    }
    s.last_out_of_sync_sha = Some(local_head.to_owned());
    if warn {
        let mut text = "gitlab-mr-lsp: local HEAD (".to_owned();
        text.append(short_form(local_head).as_str());
        text.append(") does not match the MR head on GitLab (");
        text.append(short_form(mr_sha).as_str());
        text.append("). Comments may be misaligned until you push.");
        Some(Message::warning(text.as_str()))
    } else {
        None
    }
}

// ── Taking over what came ───────────────────────────────────────────────────────────────────────

/// Every line number that one of the diffs comes to fits in 32 bits.
pub open spec fn all_fit(diffs: Seq<MrDiff>) -> bool {
    forall|i: int| 0 <= i < diffs.len() ==> numbers_fit((#[trigger] diffs[i]).diff@)
}

/// Whether every line number that one of the diffs comes to fits in 32 bits.
pub fn do_all_fit(diffs: &Vec<MrDiff>) -> (r: bool)
    ensures
        r == all_fit(diffs@),
{
    let mut i: usize = 0;
    while i < diffs.len()
        invariant
            i <= diffs.len(),
            forall|j: int| 0 <= j < i ==> numbers_fit((#[trigger] diffs@[j]).diff@),
        decreases diffs.len() - i,
    {
        if !line_numbers_fit(diffs[i].diff.as_str()) {
            return false;
        }
        i += 1;
    }
    true
}

/// A list that came, or what stands in its place where it did not.
pub open spec fn what_came<T>(list: Result<Vec<T>, ClientError>, instead: Seq<T>) -> Seq<T> {
    match list {
        Ok(v) => v@,
        Err(_) => instead,
    }
}

/// Takes over the merge request, its diffs and its discussions. A list that did not come is taken
/// as empty.
pub fn store_round(
    s: &mut BackendState,
    mr: MergeRequest,
    diffs: Result<Vec<MrDiff>, ClientError>,
    discussions: Result<Vec<Discussion>, ClientError>,
)
    requires
        diffs matches Ok(d) ==> all_fit(d@),
    ensures
        final(s).is_derived(),
        final(s).mr == Some(mr),
        final(s).diffs@ == what_came(diffs, Seq::empty()),
        final(s).discussions@ == what_came(discussions, Seq::empty()),
        *final(s) == (BackendState {
            mr: final(s).mr,
            diffs: final(s).diffs,
            discussions: final(s).discussions,
            discussions_by_file: final(s).discussions_by_file,
            line_maps: final(s).line_maps,
            ..*old(s)
        }),
{
    s.mr = Some(mr);
    s.diffs = match diffs {
        Ok(d) => d,
        Err(_) => Vec::new(),
    };
    s.discussions = match discussions {
        Ok(d) => d,
        Err(_) => Vec::new(),
    };
    s.rebuild_derived();
}

/// Takes over the merge request, its diffs and its discussions, outside the polling loop. In the
/// place of a list that did not come the one that was there stays.
pub fn store_extra_round(
    s: &mut BackendState,
    mr: MergeRequest,
    diffs: Result<Vec<MrDiff>, ClientError>,
    discussions: Result<Vec<Discussion>, ClientError>,
)
    requires
        (match diffs {
            Ok(d) => all_fit(d@),
            Err(_) => all_fit(old(s).diffs@),
        }),
    ensures
        final(s).is_derived(),
        final(s).mr == Some(mr),
        final(s).diffs == (match diffs {
            Ok(d) => d,
            Err(_) => old(s).diffs,
        }),
        final(s).diffs@ == what_came(diffs, old(s).diffs@),
        final(s).discussions == (match discussions {
            Ok(d) => d,
            Err(_) => old(s).discussions,
        }),
        final(s).discussions@ == what_came(discussions, old(s).discussions@),
        *final(s) == (BackendState {
            mr: final(s).mr,
            diffs: final(s).diffs,
            discussions: final(s).discussions,
            discussions_by_file: final(s).discussions_by_file,
            line_maps: final(s).line_maps,
            ..*old(s)
        }),
{
    s.mr = Some(mr);
    match diffs {
        Ok(d) => {
            s.diffs = d;
        },
        Err(_) => {},
    }
    match discussions {
        Ok(d) => {
            s.discussions = d;
        },
        Err(_) => {},
    }
    s.rebuild_derived();
}

// ── What the editor is told ─────────────────────────────────────────────────────────────────────

/// A file and its diagnostics.
pub type Entry = (Seq<char>, Seq<DiagnosticModel>);

/// The files, each once, in the order in which they first come.
pub open spec fn distinct(files: Seq<Seq<char>>) -> Seq<Seq<char>>
    decreases files.len(),
{
    if files.len() == 0 {
        Seq::empty()
    } else {
        let found = distinct(files.drop_last());
        if found.contains(files.last()) {
            found
        } else {
            found.push(files.last())
        }
    }
}

/// The files that are none of `excluded`, in order.
pub open spec fn without(files: Seq<Seq<char>>, excluded: Seq<Seq<char>>) -> Seq<Seq<char>>
    decreases files.len(),
{
    if files.len() == 0 {
        Seq::empty()
    } else if excluded.contains(files.last()) {
        without(files.drop_last(), excluded)
    } else {
        without(files.drop_last(), excluded).push(files.last())
    }
}

/// The paths of the changed files, each once.
pub open spec fn changed_files(diffs: Seq<MrDiffModel>) -> Seq<Seq<char>> {
    distinct(diffs.map_values(|d: MrDiffModel| d.new_path))
}

/// The diagnostics for the discussions on the file.
pub open spec fn shown_on(
    groups: Map<Seq<char>, Seq<DiscussionModel>>,
    file: Seq<char>,
    refs: Option<DiffRefsModel>,
) -> Seq<DiagnosticModel> {
    if groups.contains_key(file) {
        diagnostics_of(groups[file], file, refs)
    } else {
        Seq::empty()
    }
}

/// The name of the merge request: its number.
pub open spec fn mr_label(mr: Option<MergeRequest>) -> Seq<char> {
    match mr {
        Some(m) => "MR !"@ + decimal(m.iid as nat),
        None => Seq::empty(),
    }
}

/// The commits of the merge request's diff.
pub open spec fn refs_of(mr: Option<MergeRequest>) -> Option<DiffRefsModel> {
    match mr {
        Some(m) => refs_model(m.diff_refs),
        None => None,
    }
}

impl BackendState {
    /// The paths of the changed files, each once.
    pub open spec fn changed(&self) -> Seq<Seq<char>> {
        changed_files(diffs_model(self.diffs@))
    }

    /// Every file of which the editor is told something: the changed ones, and those on which
    /// discussions stand.
    pub open spec fn told_files(&self) -> Seq<Seq<char>> {
        self.changed() + self.discussions_by_file.paths()
    }

    /// The diagnostics for the discussions on the file.
    pub open spec fn shown(&self, file: Seq<char>) -> Seq<DiagnosticModel> {
        shown_on(files_model(self.discussions_by_file), file, refs_of(self.mr))
    }

    /// Every changed file: the hint that it is changed, and the diagnostics for the discussions
    /// on it.
    pub open spec fn changed_entries(&self) -> Seq<Entry> {
        self.changed().map_values(
            |file: Seq<char>|
                (file, seq![changed_hint(mr_label(self.mr))] + self.shown(file)),
        )
    }

    /// Every other file on which discussions stand: the diagnostics for them.
    pub open spec fn other_entries(&self) -> Seq<Entry> {
        without(self.discussions_by_file.paths(), self.changed()).map_values(
            |file: Seq<char>| (file, self.shown(file)),
        )
    }

    /// Every file of which the editor was told something before, and of which there is nothing to
    /// tell any more: no diagnostics.
    pub open spec fn stale_entries(&self, before: Seq<Seq<char>>) -> Seq<Entry> {
        without(before, self.told_files()).map_values(
            |file: Seq<char>| (file, Seq::<DiagnosticModel>::empty()),
        )
    }

    /// What the editor is told, file by file, after it was told of the files `before`.
    pub open spec fn plan(&self, before: Seq<Seq<char>>) -> Seq<Entry> {
        self.changed_entries() + self.other_entries() + self.stale_entries(before)
    }

    /// The files of which the editor is told, after it was told of the files `before`.
    pub open spec fn planned_files(&self, before: Seq<Seq<char>>) -> Seq<Seq<char>> {
        self.changed() + without(self.discussions_by_file.paths(), self.changed()) + without(
            before,
            self.told_files(),
        )
    }

    /// Every discussion that is kept under the file can be shown.
    pub open spec fn group_can_be_shown(&self, file: Seq<char>) -> bool {
        self.discussions_by_file@.contains_key(file) ==> all_can_show(
            discussions_model(self.discussions_by_file@[file]@),
        )
    }

    /// Every discussion can be shown on the file under which it is kept.
    pub open spec fn can_be_shown(&self) -> bool {
        forall|file: Seq<char>| #[trigger] self.group_can_be_shown(file)
    }
}

/// Whether `files` holds `file`.
pub fn holds_file(files: &Vec<String>, file: &str) -> (r: bool)
    ensures
        r == string_texts(files@).contains(file@),
{
    let ghost all = string_texts(files@);
    let mut i: usize = 0;
    while i < files.len()
        invariant
            i <= files.len(),
            all == string_texts(files@),
            forall|j: int| 0 <= j < i ==> all[j] != file@,
        decreases files.len() - i,
    {
        assert(all[i as int] == files@[i as int]@);
        if same_text(files[i].as_str(), file) {
            assert(all.contains(all[i as int]));
            return true;
        }
        i += 1;
    }
    false
}

/// The paths of the changed files, each once.
fn changed_list(diffs: &Vec<MrDiff>) -> (r: Vec<String>)
    ensures
        string_texts(r@) == changed_files(diffs_model(diffs@)),
{
    let ghost all = diffs_model(diffs@).map_values(|d: MrDiffModel| d.new_path);
    let mut r: Vec<String> = Vec::new();
    let mut i: usize = 0;
    assert(string_texts(r@) =~= distinct(all.take(0)));
    while i < diffs.len()
        invariant
            i <= diffs.len(),
            all == diffs_model(diffs@).map_values(|d: MrDiffModel| d.new_path),
            string_texts(r@) == distinct(all.take(i as int)),
        decreases diffs.len() - i,
    {
        assert(all.take(i + 1).drop_last() =~= all.take(i as int));
        let path = &diffs[i].new_path;
        assert(all[i as int] == path@);
        if !holds_file(&r, path.as_str()) {
            let ghost before = r@;
            let copy = path.clone();
            r.push(copy);
            assert(string_texts(r@) =~= string_texts(before).push(copy@));
        }
        i += 1;
    }
    assert(all.take(all.len() as int) =~= all);
    r
}

/// The files that are none of `excluded`.
fn files_without(files: &Vec<String>, excluded: &Vec<String>) -> (r: Vec<String>)
    ensures
        string_texts(r@) == without(string_texts(files@), string_texts(excluded@)),
{
    let ghost all = string_texts(files@);
    let ghost not = string_texts(excluded@);
    let mut r: Vec<String> = Vec::new();
    let mut i: usize = 0;
    assert(string_texts(r@) =~= without(all.take(0), not));
    while i < files.len()
        invariant
            i <= files.len(),
            all == string_texts(files@),
            not == string_texts(excluded@),
            string_texts(r@) == without(all.take(i as int), not),
        decreases files.len() - i,
    {
        assert(all.take(i + 1).drop_last() =~= all.take(i as int));
        assert(all[i as int] == files@[i as int]@);
        if !holds_file(excluded, files[i].as_str()) {
            let ghost before = r@;
            let copy = files[i].clone();
            r.push(copy);
            assert(string_texts(r@) =~= string_texts(before).push(copy@));
        }
        i += 1;
    }
    assert(all.take(all.len() as int) =~= all);
    r
}

/// The name of the merge request.
pub fn label_of_mr(mr: &Option<MergeRequest>) -> (r: String)
    ensures
        r@ == mr_label(*mr),
{
    match mr {
        Some(m) => {
            let mut r = "MR !".to_owned();
            r.append(decimal_of(m.iid).as_str());
            r
        },
        None => {
            let r = String::new();
            assert(r@ =~= Seq::<char>::empty());
            r
        },
    }
}

/// The commits of the merge request's diff.
pub fn current_refs(mr: &Option<MergeRequest>) -> (r: Option<&DiffRefs>)
    ensures
        current_model(r) == refs_of(*mr),
{
    match mr {
        Some(m) => match &m.diff_refs {
            Some(refs) => Some(refs),
            None => None,
        },
        None => None,
    }
}

impl BackendState {
    /// Every file of which the editor is told something.
    pub fn told_file_list(&self) -> (r: Vec<String>)
        ensures
            string_texts(r@) == self.told_files(),
    {
        let mut r = changed_list(&self.diffs);
        let ghost first = string_texts(r@);
        let mut rest = self.discussions_by_file.path_list();
        let ghost second = string_texts(rest@);
        r.append(&mut rest);
        assert(string_texts(r@) =~= first + second);
        r
    }

    /// Whether every discussion that is kept under the file can be shown.
    pub fn is_group_showable(&self, file: &str) -> (r: bool)
        ensures
            r == self.group_can_be_shown(file@),
    {
        match self.discussions_by_file.get(file) {
            Some(ds) => are_showable(ds.as_slice()),
            None => true,
        }
    }

    /// The diagnostics for the discussions on the file.
    pub fn diagnostics_on(&self, file: &str) -> (r: Vec<Diagnostic>)
        requires
            self.group_can_be_shown(file@),
        ensures
            diagnostics_model(r@) == self.shown(file@),
    {
        match self.discussions_by_file.get(file) {
            Some(ds) => {
                assert forall|i: int| 0 <= i < ds.len() implies can_show(
                    (#[trigger] ds@[i])@,
                ) by {
                    assert(discussions_model(ds@)[i] == ds@[i]@);
                }
                discussions_to_diagnostics(ds.as_slice(), file, current_refs(&self.mr))
            },
            None => {
                let r: Vec<Diagnostic> = Vec::new();
                assert(diagnostics_model(r@) =~= Seq::<DiagnosticModel>::empty());
                r
            },
        }
    }

    /// The hint that a file is changed, and the diagnostics for the discussions on it.
    pub fn changed_diagnostics_on(&self, file: &str) -> (r: Vec<Diagnostic>)
        requires
            self.group_can_be_shown(file@),
        ensures
            diagnostics_model(r@) == seq![changed_hint(mr_label(self.mr))] + self.shown(file@),
    {
        let hint = diffs_to_changed_file_diagnostics(label_of_mr(&self.mr).as_str());
        let mut rest = self.diagnostics_on(file);
        let ghost shown = rest@;
        let mut r: Vec<Diagnostic> = Vec::new();
        r.push(hint);
        r.append(&mut rest);
        assert(diagnostics_model(r@) =~= seq![hint@] + diagnostics_model(shown));
        r
    }

    /// The files of which the editor is told, after it was told of the files `before`.
    pub fn planned_file_list(&self, before: &Vec<String>) -> (r: Vec<String>)
        ensures
            string_texts(r@) == self.planned_files(string_texts(before@)),
    {
        let mut r = changed_list(&self.diffs);
        let mut others = files_without(&self.discussions_by_file.path_list(), &r);
        let mut stale = files_without(before, &self.told_file_list());
        let ghost first = string_texts(r@);
        let ghost second = string_texts(others@);
        let ghost third = string_texts(stale@);
        r.append(&mut others);
        r.append(&mut stale);
        assert(string_texts(r@) =~= first + second + third);
        r
    }
}

/// The diagnostics of the file at `uri`.
#[derive(Debug)]
pub struct Publication {
    pub uri: String,
    pub diagnostics: Vec<Diagnostic>,
}

impl View for Publication {
    type V = Entry;

    open spec fn view(&self) -> Entry {
        (self.uri@, diagnostics_model(self.diagnostics@))
    }
}

/// Models of several publications.
pub open spec fn publications_model(v: Seq<Publication>) -> Seq<Entry> {
    v.map_values(|p: Publication| p@)
}

/// What is planned, under the URIs of the files. A file without a URI is left out.
pub open spec fn addressed(plan: Seq<Entry>, uris: Seq<Option<Seq<char>>>) -> Seq<Entry>
    decreases plan.len(),
{
    if plan.len() == 0 {
        Seq::empty()
    } else {
        let k = plan.len() - 1;
        match uris[k] {
            Some(uri) => addressed(plan.drop_last(), uris).push((uri, plan[k].1)),
            None => addressed(plan.drop_last(), uris),
        }
    }
}

/// `uris` are what is known to be the URIs of the files, of a repository at `root`.
pub open spec fn are_uris_for(
    plan: Seq<Entry>,
    root: Seq<char>,
    uris: Seq<Option<Seq<char>>>,
) -> bool {
    &&& uris.len() == plan.len()
    &&& forall|i: int|
        0 <= i < plan.len() ==> is_uri_in(root, plan[i].0, #[trigger] uris[i])
}

impl BackendState {
    /// Of every planned file that has a URI, every discussion that is kept under it can be shown.
    pub open spec fn addressed_can_be_shown(
        &self,
        plan: Seq<Entry>,
        uris: Seq<Option<Seq<char>>>,
    ) -> bool {
        forall|i: int|
            0 <= i < plan.len() && (#[trigger] uris[i]) is Some ==> self.group_can_be_shown(
                plan[i].0,
            )
    }

    /// The planned file number `k`, and what is told of it.
    proof fn lemma_planned(&self, before: Seq<Seq<char>>, k: int)
        requires
            0 <= k < self.plan(before).len(),
        ensures
            self.plan(before)[k].0 == self.planned_files(before)[k],
            ({
                let n = self.changed().len();
                let m = n + without(self.discussions_by_file.paths(), self.changed()).len();
                let file = self.planned_files(before)[k];
                self.plan(before)[k].1 == (if k < n {
                    seq![changed_hint(mr_label(self.mr))] + self.shown(file)
                } else if k < m {
                    self.shown(file)
                } else {
                    Seq::empty()
                })
            }),
    {
    }

    /// What is told of the planned file number `k`.
    fn told_of(&self, file: &str, k: usize, n: usize, m: usize) -> (r: Vec<Diagnostic>)
        requires
            self.group_can_be_shown(file@),
        ensures
            diagnostics_model(r@) == (if k < n {
                seq![changed_hint(mr_label(self.mr))] + self.shown(file@)
            } else if k < m {
                self.shown(file@)
            } else {
                Seq::empty()
            }),
    {
        if k < n {
            self.changed_diagnostics_on(file)
        } else if k < m {
            self.diagnostics_on(file)
        } else {
            let r: Vec<Diagnostic> = Vec::new();
            assert(diagnostics_model(r@) =~= Seq::<DiagnosticModel>::empty());
            r
        }
    }

    /// What the editor is told, after it was told of the files `before`, under the URIs that are
    /// given for the planned files. For every changed file the "Changed in MR !N" hint with any
    /// diagnostics for the discussions on that file; for files with discussions but not in the
    /// diff list the diagnostics alone; and for the files of `before` that are in neither list no
    /// diagnostics, which clears them.
    pub fn publications_under(&self, before: &Vec<String>, uris: &Vec<Option<String>>) -> (r: Vec<
        Publication,
    >)
        requires
            uris.len() == self.plan(string_texts(before@)).len(),
            self.addressed_can_be_shown(
                self.plan(string_texts(before@)),
                option_texts(uris@),
            ),
        ensures
            publications_model(r@) == addressed(
                self.plan(string_texts(before@)),
                option_texts(uris@),
            ),
    {
        let ghost was = string_texts(before@);
        let ghost all = self.plan(was);
        let ghost found = option_texts(uris@);
        let files = self.planned_file_list(before);
        let changed = changed_list(&self.diffs);
        let others = files_without(&self.discussions_by_file.path_list(), &changed);
        let n = changed.len();
        assert(n == self.changed().len());
        assert(others.len() == without(self.discussions_by_file.paths(), self.changed()).len());
        assert(string_texts(files@).len() == all.len());
        assert(n + others.len() <= files.len());
        let m: usize = n + others.len();
        let mut r: Vec<Publication> = Vec::new();
        let mut i: usize = 0;
        assert(publications_model(r@) =~= addressed(all.take(0), found));
        while i < uris.len()
            invariant
                i <= uris.len(),
                was == string_texts(before@),
                all == self.plan(was),
                all.len() == uris.len(),
                files.len() == uris.len(),
                string_texts(files@) == self.planned_files(was),
                n == self.changed().len(),
                m == n + without(self.discussions_by_file.paths(), self.changed()).len(),
                found == option_texts(uris@),
                self.addressed_can_be_shown(all, found),
                publications_model(r@) == addressed(all.take(i as int), found),
            decreases uris.len() - i,
        {
            assert(all.take(i + 1).drop_last() =~= all.take(i as int));
            assert(found[i as int] == text_model(uris@[i as int]));
            assert(string_texts(files@)[i as int] == files@[i as int]@);
            proof {
                self.lemma_planned(was, i as int);
            }
            match &uris[i] {
                Some(uri) => {
                    let ghost done = r@;
                    let one = Publication {
                        uri: uri.clone(),
                        diagnostics: self.told_of(files[i].as_str(), i, n, m),
                    };
                    r.push(one);
                    assert(publications_model(r@) =~= publications_model(done).push(one@));
                    assert(one@ == (uri@, all[i as int].1));
                },
                None => {},
            }
            i += 1;
        }
        assert(all.take(all.len() as int) =~= all);
        r
    }

    /// What the editor is told, after it was told of the files `before`, where every discussion on
    /// a file with a URI can be shown.
    pub fn publications(&self, before: &Vec<String>) -> (r: Result<
        Vec<Publication>,
        CannotShow,
    >)
        ensures
            exists|uris: Seq<Option<Seq<char>>>| #[trigger]
                are_uris_for(self.plan(string_texts(before@)), self.repo_root@, uris) && ({
                    let plan = self.plan(string_texts(before@));
                    match r {
                        Ok(told) => self.addressed_can_be_shown(plan, uris) && publications_model(
                            told@,
                        ) == addressed(plan, uris),
                        Err(_) => !self.addressed_can_be_shown(plan, uris),
                    }
                }),
    {
        let ghost was = string_texts(before@);
        let ghost all = self.plan(was);
        let files = self.planned_file_list(before);
        assert(string_texts(files@).len() == all.len());
        let mut uris: Vec<Option<String>> = Vec::new();
        let mut can_show: bool = true;
        let mut i: usize = 0;
        while i < files.len()
            invariant
                i <= files.len(),
                uris.len() == i,
                was == string_texts(before@),
                all == self.plan(was),
                files.len() == all.len(),
                string_texts(files@) == self.planned_files(was),
                forall|j: int|
                    0 <= j < i ==> is_uri_in(
                        self.repo_root@,
                        all[j].0,
                        text_model(#[trigger] uris@[j]),
                    ),
                can_show == forall|j: int|
                    0 <= j < i && (#[trigger] uris@[j]) is Some ==> self.group_can_be_shown(
                        all[j].0,
                    ),
            decreases files.len() - i,
        {
            assert(string_texts(files@)[i as int] == files@[i as int]@);
            proof {
                self.lemma_planned(was, i as int);
            }
            let uri = uri_in(self.repo_root.as_str(), files[i].as_str());
            let fits = uri.is_none() || self.is_group_showable(files[i].as_str());
            let ghost known = uris@;
            uris.push(uri);
            assert(uris@[i as int] is Some ==> fits == self.group_can_be_shown(all[i as int].0));
            assert(forall|j: int| 0 <= j < i ==> #[trigger] uris@[j] == known[j]);
            assert(forall|j: int| 0 <= j < i ==> uris@[j] == #[trigger] known[j]);
            assert(uris@[i as int] is None ==> fits);
            can_show = can_show && fits;
            i += 1;
        }
        let ghost found = option_texts(uris@);
        assert forall|j: int| 0 <= j < all.len() implies (#[trigger] found[j]) == text_model(
            uris@[j],
        ) by {
        }
        assert(are_uris_for(all, self.repo_root@, found));
        assert(can_show == self.addressed_can_be_shown(all, found)) by {
            if self.addressed_can_be_shown(all, found) {
                assert forall|j: int| 0 <= j < i && (#[trigger] uris@[j]) is Some implies
                    self.group_can_be_shown(all[j].0) by {
                    assert(found[j] is Some);
                }
            }
            if can_show {
                assert forall|j: int| 0 <= j < all.len() && (#[trigger] found[j]) is Some implies
                    self.group_can_be_shown(all[j].0) by {
                    assert(uris@[j] is Some);
                }
            }
        }
        if can_show {
            Ok(self.publications_under(before, &uris))
        } else {
            Err(CannotShow)
        }
    }
}

// ── Laws ────────────────────────────────────────────────────────────────────────────────────────

/// One warning per local head: after the comparison that made it, the same head makes no other.
pub proof fn law_warned_once_per_head(
    local_head: Seq<char>,
    mr_sha: Seq<char>,
    later_sha: Seq<char>,
)
    requires
        local_head != mr_sha,
    ensures
        !warns(warned_after(local_head, mr_sha), local_head, later_sha),
{
}

/// Another local head that does not match makes another warning.
pub proof fn law_new_head_warns(
    local_head: Seq<char>,
    mr_sha: Seq<char>,
    new_head: Seq<char>,
)
    requires
        local_head != mr_sha,
        new_head != mr_sha,
        new_head != local_head,
    ensures
        warns(warned_after(local_head, mr_sha), new_head, mr_sha),
{
}

/// Once back in sync, the next drift makes a warning, even at a head for which there was one.
pub proof fn law_drift_after_sync_warns(
    head: Seq<char>,
    local_head: Seq<char>,
    mr_sha: Seq<char>,
)
    requires
        local_head != mr_sha,
    ensures
        warns(warned_after(head, head), local_head, mr_sha),
{
}

/// In sync there is no warning.
pub proof fn law_no_warning_in_sync(last: Option<Seq<char>>, head: Seq<char>)
    ensures
        !warns(last, head, head),
{
}

proof fn lemma_distinct(files: Seq<Seq<char>>, file: Seq<char>)
    ensures
        distinct(files).no_duplicates(),
        distinct(files).contains(file) <==> files.contains(file),
    decreases files.len(),
{
    if files.len() > 0 {
        let rest = files.drop_last();
        lemma_distinct(rest, file);
        let found = distinct(rest);
        let now = distinct(files);
        if files.contains(file) {
            let k = files.index_of(file);
            if k < rest.len() {
                assert(rest[k] == file);
                let m = found.index_of(file);
                assert(now[m] == file);
            } else if !found.contains(file) {
                assert(now[now.len() - 1] == file);
            }
        }
        if now.contains(file) {
            let m = now.index_of(file);
            if m < found.len() {
                assert(found[m] == file);
                let k = rest.index_of(file);
                assert(files[k] == file);
            } else {
                assert(files[files.len() - 1] == file);
            }
        }
    }
}

proof fn lemma_without(files: Seq<Seq<char>>, excluded: Seq<Seq<char>>, file: Seq<char>)
    ensures
        without(files, excluded).contains(file) <==> files.contains(file) && !excluded.contains(
            file,
        ),
        files.no_duplicates() ==> without(files, excluded).no_duplicates(),
    decreases files.len(),
{
    if files.len() > 0 {
        let rest = files.drop_last();
        let kept = without(rest, excluded);
        let now = without(files, excluded);
        lemma_without(rest, excluded, file);
        lemma_without(rest, excluded, files.last());
        if files.contains(file) && !excluded.contains(file) {
            let k = files.index_of(file);
            if k < rest.len() {
                assert(rest[k] == file);
                let m = kept.index_of(file);
                assert(now[m] == file);
            } else {
                assert(now[now.len() - 1] == file);
            }
        }
        if now.contains(file) {
            let m = now.index_of(file);
            if m < kept.len() {
                assert(kept[m] == file);
                let k = rest.index_of(file);
                assert(files[k] == file);
            } else {
                assert(files[files.len() - 1] == file);
            }
        }
        if files.no_duplicates() {
            assert(rest.no_duplicates());
            assert(!rest.contains(files.last())) by {
                if rest.contains(files.last()) {
                    let k = rest.index_of(files.last());
                    assert(files[k] == files[files.len() - 1]);
                }
            }
        }
    }
}

/// Every changed file is marked: it is told of, and what is told begins with the hint, before any
/// diagnostics for discussions.
pub proof fn law_changed_file_marked(s: BackendState, before: Seq<Seq<char>>, i: int)
    requires
        0 <= i < s.diffs.len(),
    ensures
        s.plan(before).contains(
            (
                s.diffs@[i].new_path@,
                seq![changed_hint(mr_label(s.mr))] + s.shown(s.diffs@[i].new_path@),
            ),
        ),
{
    let paths = diffs_model(s.diffs@).map_values(|d: MrDiffModel| d.new_path);
    let file = s.diffs@[i].new_path@;
    assert(paths[i] == file);
    assert(paths.contains(file));
    lemma_distinct(paths, file);
    let k = s.changed().index_of(file);
    assert(s.plan(before)[k] == s.changed_entries()[k]);
}

/// A file on which discussions stand is told of, changed or not.
pub proof fn law_discussed_file_told(s: BackendState, before: Seq<Seq<char>>, file: Seq<char>)
    requires
        s.discussions_by_file.paths().contains(file),
        !s.changed().contains(file),
    ensures
        s.plan(before).contains((file, s.shown(file))),
{
    let others = without(s.discussions_by_file.paths(), s.changed());
    lemma_without(s.discussions_by_file.paths(), s.changed(), file);
    let k = others.index_of(file);
    assert(s.other_entries()[k] == (file, s.shown(file)));
    assert(s.plan(before)[s.changed_entries().len() + k] == s.other_entries()[k]);
}

/// What went stale is cleared: a file that was told of before and of which there is nothing to
/// tell any more gets no diagnostics.
pub proof fn law_stale_file_cleared(s: BackendState, before: Seq<Seq<char>>, file: Seq<char>)
    requires
        before.contains(file),
        !s.told_files().contains(file),
    ensures
        s.plan(before).contains((file, Seq::<DiagnosticModel>::empty())),
{
    lemma_without(before, s.told_files(), file);
    let stale = without(before, s.told_files());
    let k = stale.index_of(file);
    assert(s.stale_entries(before)[k] == (file, Seq::<DiagnosticModel>::empty()));
    let n = s.changed_entries().len() + s.other_entries().len();
    assert(s.plan(before)[n + k] == s.stale_entries(before)[k]);
}

/// Nothing that was just told is cleared in the same round: no file that is told of is among
/// those that are cleared.
pub proof fn law_told_file_not_cleared(s: BackendState, before: Seq<Seq<char>>, k: int)
    requires
        0 <= k < s.stale_entries(before).len(),
    ensures
        !s.changed().contains(s.stale_entries(before)[k].0),
        !s.discussions_by_file.paths().contains(s.stale_entries(before)[k].0),
{
    let stale = without(before, s.told_files());
    let file = stale[k];
    assert(stale.contains(file));
    lemma_without(before, s.told_files(), file);
    let told = s.told_files();
    if s.changed().contains(file) {
        let j = s.changed().index_of(file);
        assert(told[j] == file);
    }
    if s.discussions_by_file.paths().contains(file) {
        let j = s.discussions_by_file.paths().index_of(file);
        assert(told[s.changed().len() + j] == file);
    }
}

/// A file is told of once: no changed file comes twice, and no other file that is told of is a
/// changed one.
pub proof fn law_told_once(s: BackendState, i: int, j: int)
    requires
        s.is_derived(),
        0 <= i < j < s.changed_entries().len() + s.other_entries().len(),
    ensures
        ({
            let told = s.changed_entries() + s.other_entries();
            told[i].0 != told[j].0
        }),
{
    let changed = s.changed();
    let others = without(s.discussions_by_file.paths(), changed);
    let told = s.changed_entries() + s.other_entries();
    let paths = diffs_model(s.diffs@).map_values(|d: MrDiffModel| d.new_path);
    law_one_group_a_file(discussions_model(s.discussions@));
    lemma_distinct(paths, told[i].0);
    lemma_without(s.discussions_by_file.paths(), changed, told[j].0);
    let n = changed.len() as int;
    if j < n {
        assert(told[i].0 == changed[i]);
        assert(told[j].0 == changed[j]);
    } else if i < n {
        assert(told[i].0 == changed[i]);
        assert(changed.contains(changed[i]));
        assert(told[j].0 == others[j - n]);
        assert(others.contains(others[j - n]));
    } else {
        assert(told[i].0 == others[i - n]);
        assert(told[j].0 == others[j - n]);
    }
}

/// What an editor has been told of each file, after these entries have been told to it one by one:
/// of each file the last one counts.
pub open spec fn told_after(known: Map<Seq<char>, Seq<DiagnosticModel>>, plan: Seq<Entry>) -> Map<
    Seq<char>,
    Seq<DiagnosticModel>,
>
    decreases plan.len(),
{
    if plan.len() == 0 {
        known
    } else {
        told_after(known, plan.drop_last()).insert(plan.last().0, plan.last().1)
    }
}

/// What an editor shows of the file: what it has been told, or nothing.
pub open spec fn shown_of(known: Map<Seq<char>, Seq<DiagnosticModel>>, file: Seq<char>) -> Seq<
    DiagnosticModel,
> {
    if known.contains_key(file) {
        known[file]
    } else {
        Seq::empty()
    }
}

impl BackendState {
    /// What there is to tell of the file: the hint where it is changed, and the diagnostics for
    /// the discussions on it.
    pub open spec fn to_tell(&self, file: Seq<char>) -> Seq<DiagnosticModel> {
        if self.changed().contains(file) {
            seq![changed_hint(mr_label(self.mr))] + self.shown(file)
        } else {
            self.shown(file)
        }
    }
}

proof fn lemma_told_after(
    known: Map<Seq<char>, Seq<DiagnosticModel>>,
    plan: Seq<Entry>,
    file: Seq<char>,
    told: Seq<DiagnosticModel>,
)
    requires
        forall|k: int| 0 <= k < plan.len() && (#[trigger] plan[k]).0 == file ==> plan[k].1 == told,
    ensures
        (exists|k: int| 0 <= k < plan.len() && (#[trigger] plan[k]).0 == file) ==> shown_of(
            told_after(known, plan),
            file,
        ) == told,
        !(exists|k: int| 0 <= k < plan.len() && (#[trigger] plan[k]).0 == file) ==> shown_of(
            told_after(known, plan),
            file,
        ) == shown_of(known, file),
    decreases plan.len(),
{
    if plan.len() > 0 {
        let rest = plan.drop_last();
        assert forall|k: int| 0 <= k < rest.len() && (#[trigger] rest[k]).0 == file implies rest[k].1
            == told by {
            assert(plan[k] == rest[k]);
        }
        lemma_told_after(known, rest, file, told);
        let last = plan[plan.len() - 1];
        if last.0 != file {
            if exists|k: int| 0 <= k < plan.len() && (#[trigger] plan[k]).0 == file {
                let k = choose|k: int| 0 <= k < plan.len() && (#[trigger] plan[k]).0 == file;
                assert(rest[k].0 == file);
            } else {
                assert forall|k: int| 0 <= k < rest.len() implies (#[trigger] rest[k]).0 != file by {
                    assert(plan[k] == rest[k]);
                }
            }
        }
    }
}

proof fn lemma_entry_is_to_tell(s: BackendState, before: Seq<Seq<char>>, k: int)
    requires
        s.is_derived(),
        0 <= k < s.plan(before).len(),
    ensures
        s.plan(before)[k].1 == s.to_tell(s.plan(before)[k].0),
{
    let plan = s.plan(before);
    let n = s.changed_entries().len() as int;
    let m = n + s.other_entries().len();
    if k < n {
        assert(plan[k] == s.changed_entries()[k]);
        assert(s.changed().contains(s.changed()[k]));
    } else if k < m {
        let others = without(s.discussions_by_file.paths(), s.changed());
        assert(plan[k] == s.other_entries()[k - n]);
        assert(others.contains(others[k - n]));
        lemma_without(s.discussions_by_file.paths(), s.changed(), others[k - n]);
    } else {
        let file = s.stale_entries(before)[k - m].0;
        assert(plan[k] == s.stale_entries(before)[k - m]);
        law_told_file_not_cleared(s, before, k - m);
        assert(!by_file(discussions_model(s.discussions@)).contains_key(file));
        assert(!files_model(s.discussions_by_file).contains_key(file));
    }
}

/// After a round the editor shows what the state says, of every file: the hint and the comments of
/// a changed file, the comments of another one, and nothing of any other file, whatever the editor
/// was told before, as long as all of that was on files of `before`.
pub proof fn law_editor_shows_state(
    s: BackendState,
    before: Seq<Seq<char>>,
    known: Map<Seq<char>, Seq<DiagnosticModel>>,
    file: Seq<char>,
)
    requires
        s.is_derived(),
        shown_of(known, file).len() > 0 ==> before.contains(file),
    ensures
        shown_of(told_after(known, s.plan(before)), file) == s.to_tell(file),
{
    let plan = s.plan(before);
    assert forall|k: int| 0 <= k < plan.len() && (#[trigger] plan[k]).0 == file implies plan[k].1
        == s.to_tell(file) by {
        lemma_entry_is_to_tell(s, before, k);
    }
    lemma_told_after(known, plan, file, s.to_tell(file));
    if !(exists|k: int| 0 <= k < plan.len() && (#[trigger] plan[k]).0 == file) {
        if s.changed().contains(file) {
            let k = s.changed().index_of(file);
            assert(plan[k] == s.changed_entries()[k]);
        } else if s.discussions_by_file.paths().contains(file) {
            law_discussed_file_told(s, before, file);
            let k = plan.index_of((file, s.shown(file)));
            assert(plan[k].0 == file);
        } else {
            if before.contains(file) {
                assert(!s.told_files().contains(file)) by {
                    if s.told_files().contains(file) {
                        let j = s.told_files().index_of(file);
                        if j < s.changed().len() {
                            assert(s.changed()[j] == file);
                        } else {
                            assert(s.discussions_by_file.paths()[j - s.changed().len()] == file);
                        }
                    }
                }
                law_stale_file_cleared(s, before, file);
                let k = plan.index_of((file, Seq::<DiagnosticModel>::empty()));
                assert(plan[k].0 == file);
            }
            assert(!by_file(discussions_model(s.discussions@)).contains_key(file));
            assert(!files_model(s.discussions_by_file).contains_key(file));
            assert(shown_of(known, file) =~= Seq::<DiagnosticModel>::empty());
        }
    }
}

/// Rounds follow on each other: whatever the editor shows after a round is on a file that the state
/// names as told of, which is what the next round takes as told before.
pub proof fn law_told_files_cover(s: BackendState, file: Seq<char>)
    requires
        s.is_derived(),
        s.to_tell(file).len() > 0,
    ensures
        s.told_files().contains(file),
{
    let told = s.told_files();
    if s.changed().contains(file) {
        let k = s.changed().index_of(file);
        assert(told[k] == file);
    } else {
        assert(files_model(s.discussions_by_file).contains_key(file));
        let k = s.discussions_by_file.paths().index_of(file);
        assert(told[s.changed().len() + k] == file);
    }
}

/// What can be shown is known before it is grouped: where every discussion can be shown, every
/// group of them can, and the editor is told of every file that has a URI.
pub proof fn law_groups_can_be_shown(s: BackendState)
    requires
        s.is_derived(),
        all_can_show(discussions_model(s.discussions@)),
    ensures
        s.can_be_shown(),
        forall|plan: Seq<Entry>, uris: Seq<Option<Seq<char>>>| #[trigger]
            s.addressed_can_be_shown(plan, uris),
{
    let ds = discussions_model(s.discussions@);
    assert forall|file: Seq<char>| #[trigger] s.group_can_be_shown(file) by {
        if s.discussions_by_file@.contains_key(file) {
            assert(files_model(s.discussions_by_file).contains_key(file));
            assert(files_model(s.discussions_by_file)[file] == discussions_model(
                s.discussions_by_file@[file]@,
            ));
            lemma_group_can_show(ds, file);
        }
    }
}

proof fn lemma_group_can_show(ds: Seq<DiscussionModel>, file: Seq<char>)
    requires
        all_can_show(ds),
    ensures
        all_can_show(on_file(ds, file)),
    decreases ds.len(),
{
    if ds.len() > 0 {
        assert forall|i: int| 0 <= i < ds.drop_last().len() implies can_show(
            #[trigger] ds.drop_last()[i],
        ) by {
            assert(ds.drop_last()[i] == ds[i]);
        }
        lemma_group_can_show(ds.drop_last(), file);
        assert(can_show(ds[ds.len() - 1]));
    }
}

/// A warning is given exactly where the two heads differ and none was given for this local head.
pub proof fn law_when_warned(last: Option<Seq<char>>, local_head: Seq<char>, mr_sha: Seq<char>)
    ensures
        warns(last, local_head, mr_sha) <==> local_head != mr_sha && last != Some(local_head),
        warned_after(local_head, mr_sha) == (if local_head == mr_sha {
            None
        } else {
            Some(local_head)
        }),
{
}

/// The warning names both heads by their first eight bytes, the local one first.
pub proof fn law_warning_names_heads(
    local: Seq<char>,
    local_rest: Seq<char>,
    mr: Seq<char>,
    mr_rest: Seq<char>,
)
    requires
        byte_len(local) == 8,
        byte_len(mr) == 8,
    ensures
        has_short_form(local + local_rest),
        out_of_sync_text(local + local_rest, mr + mr_rest) == "gitlab-mr-lsp: local HEAD ("@ + local
            + ") does not match the MR head on GitLab ("@ + mr
            + "). Comments may be misaligned until you push."@,
{
    let a = local + local_rest;
    let b = mr + mr_rest;
    assert(a.take(local.len() as int) =~= local);
    assert(b.take(mr.len() as int) =~= mr);
    lemma_cut_unique(a, 8, local.len() as int);
    lemma_cut_unique(b, 8, mr.len() as int);
}

/// Where the branch has no merge request, the message names the branch.
pub proof fn law_branch_named(branch: Seq<char>)
    ensures
        no_mr_text(branch) == "gitlab-mr-lsp: no open MR found for branch `"@ + branch + "`"@,
{
}

/// A merge request is called by its number, and the commits of its diff are its own.
pub proof fn law_mr_label(mr: MergeRequest)
    ensures
        mr_label(Some(mr)) == "MR !"@ + decimal(mr.iid as nat),
        mr_label(None) == Seq::<char>::empty(),
        refs_of(Some(mr)) == refs_model(mr.diff_refs),
        refs_of(None) is None,
{
}

/// The changed files are the new paths of the loaded diffs, each once.
pub proof fn law_changed_files(s: BackendState, file: Seq<char>)
    ensures
        s.changed().no_duplicates(),
        s.changed().contains(file) <==> diffs_model(s.diffs@).any(
            |d: MrDiffModel| d.new_path == file,
        ),
{
    let all = diffs_model(s.diffs@);
    let f = |d: MrDiffModel| d.new_path == file;
    let paths = all.map_values(|d: MrDiffModel| d.new_path);
    lemma_distinct(paths, file);
    if all.any(f) {
        let i = choose|i: int| 0 <= i < all.len() && f(#[trigger] all[i]);
        assert(paths[i] == file);
    }
    if paths.contains(file) {
        let i = paths.index_of(file);
        assert(f(all[i]));
    }
}

/// Files are left out one by one: those that are excluded, and no others, in order.
pub proof fn law_without(files: Seq<Seq<char>>, excluded: Seq<Seq<char>>)
    ensures
        without(files, excluded) == files.filter(|file: Seq<char>| !excluded.contains(file)),
    decreases files.len(),
{
    reveal(Seq::filter);
    if files.len() > 0 {
        law_without(files.drop_last(), excluded);
    }
}

/// The files that the editor is told of are the changed ones and those with discussions.
pub proof fn law_told_files(s: BackendState, file: Seq<char>)
    ensures
        s.told_files().contains(file) <==> (diffs_model(s.diffs@).any(
            |d: MrDiffModel| d.new_path == file,
        ) || s.discussions_by_file.paths().contains(file)),
{
    law_changed_files(s, file);
    let all = s.told_files();
    let n = s.changed().len();
    if all.contains(file) {
        let k = all.index_of(file);
        if k < n {
            assert(s.changed()[k] == file);
        } else {
            assert(s.discussions_by_file.paths()[k - n] == file);
        }
    }
    if s.changed().contains(file) {
        let k = s.changed().index_of(file);
        assert(all[k] == file);
    }
    if s.discussions_by_file.paths().contains(file) {
        let k = s.discussions_by_file.paths().index_of(file);
        assert(all[n + k] == file);
    }
}

/// What is told of a planned file depends on the file alone: the hint and the comments of a changed
/// one, the comments of another one that has any, and nothing of a file that was told of before.
pub proof fn law_planned_entry(s: BackendState, before: Seq<Seq<char>>, k: int)
    requires
        s.is_derived(),
        0 <= k < s.plan(before).len(),
    ensures
        ({
            let (file, told) = s.plan(before)[k];
            let comments = if s.discussions_by_file@.contains_key(file) {
                diagnostics_of(
                    discussions_model(s.discussions_by_file@[file]@),
                    file,
                    refs_of(s.mr),
                )
            } else {
                Seq::empty()
            };
            &&& s.told_files().contains(file) || before.contains(file)
            &&& told == (if diffs_model(s.diffs@).any(|d: MrDiffModel| d.new_path == file) {
                seq![changed_hint(mr_label(s.mr))] + comments
            } else {
                comments
            })
        }),
{
    let (file, told) = s.plan(before)[k];
    lemma_entry_is_to_tell(s, before, k);
    law_changed_files(s, file);
    law_told_files(s, file);
    let n = s.changed().len() as int;
    let others = without(s.discussions_by_file.paths(), s.changed());
    let stale = without(before, s.told_files());
    if k < n {
        assert(s.changed()[k] == file);
    } else if k < n + others.len() {
        assert(others[k - n] == file);
        lemma_without(s.discussions_by_file.paths(), s.changed(), file);
    } else {
        assert(stale[k - n - others.len()] == file);
        lemma_without(before, s.told_files(), file);
    }
}

/// What is planned is told under the URIs of the files, in order, and a file without a URI is left
/// out.
pub proof fn law_addressed(plan: Seq<Entry>, uris: Seq<Option<Seq<char>>>)
    ensures
        addressed(plan, uris) == Seq::new(
            plan.len(),
            |i: int| (uris[i], plan[i].1),
        ).filter(|e: (Option<Seq<char>>, Seq<DiagnosticModel>)| e.0 is Some).map_values(
            |e: (Option<Seq<char>>, Seq<DiagnosticModel>)| (e.0->0, e.1),
        ),
    decreases plan.len(),
{
    reveal(Seq::filter);
    let all = Seq::new(plan.len(), |i: int| (uris[i], plan[i].1));
    let p = |e: (Option<Seq<char>>, Seq<DiagnosticModel>)| e.0 is Some;
    let f = |e: (Option<Seq<char>>, Seq<DiagnosticModel>)| (e.0->0, e.1);
    if plan.len() > 0 {
        let fewer = plan.drop_last();
        law_addressed(fewer, uris);
        let rest = Seq::new(fewer.len(), |i: int| (uris[i], fewer[i].1));
        assert(all.drop_last() =~= rest);
        let kept = rest.filter(p);
        if p(all.last()) {
            assert(kept.push(all.last()).map_values(f) =~= kept.map_values(f).push(f(all.last())));
        }
    } else {
        assert(all.filter(p).map_values(f) =~= Seq::<Entry>::empty());
    }
}

/// A list that came is taken over whole, and one that did not is not taken over at all.
pub proof fn law_taken_whole<T>(list: Vec<T>, e: ClientError, instead: Seq<T>)
    ensures
        what_came(Ok(list), instead) == list@,
        what_came(Err(e), instead) == instead,
{
}

/// A group cannot be shown if and only if one of the discussions that are kept under the file cannot.
pub proof fn law_group_showable(s: BackendState, file: Seq<char>)
    ensures
        ({
            let ds = discussions_model(s.discussions_by_file@[file]@);
            !s.group_can_be_shown(file) <==> s.discussions_by_file@.contains_key(file) && exists|
                i: int,
            |
                0 <= i < ds.len() && !can_show(#[trigger] ds[i])
        }),
{
}

/// What is told once is told the first time, as it is, and never again.
pub proof fn law_told_once_only(message: MessageModel)
    ensures
        told_once(false, message) == Some(message),
        told_once(true, message) is None,
        no_token_text()
            == "gitlab-mr-lsp: no GitLab token found. Set GITLAB_TOKEN or run `glab auth login`."@,
{
}

} // verus!
