//! What the server answers the editor: symbols, hovers, code actions, hints, and what it does when
//! a document is opened or closed.
use vstd::prelude::*;
use vstd::string::StringExecFns;

use crate::backend::BackendState;
use crate::bytes::{byte_len, byte_prefix, law_cut_after_bytes, leading_bytes, longer_than};
use crate::commands::Command;
use crate::config::Config;
use crate::convert::{
    are_uris_of,
    changed_hint,
    diagnostic_of,
    diagnostics_model,
    diagnostics_of,
    diffs_to_symbols,
    discussions_to_inlay_hints,
    hints_model,
    hints_of,
    is_outdated,
    line_in,
    lines_count_from_one,
    lower_paths,
    lowercase_of,
    lowers_ascii,
    render_thread,
    symbols_model,
    symbols_of,
    thread_text,
    CannotShow,
    Diagnostic,
    DiagnosticModel,
    HintModel,
    InlayHint,
    SymbolInformation,
};
use crate::git::GitError;
use crate::gitlab::diff::position_on;
use crate::gitlab::types::{
    diffs_model,
    discussions_model,
    refs_model,
    text_model,
    DiffRefs,
    DiffRefsModel,
    Discussion,
    DiscussionModel,
    MergeRequest,
    MrDiffModel,
    NoteModel,
};
use crate::message::{info_text, message_model, Message};
use crate::number::{decimal, decimal_of};
use crate::paths::{
    file_of_uri,
    is_file_in,
    is_kept_path,
    is_path_of,
    is_same,
    is_same_path,
    is_uri_in,
    is_uri_of,
    uri_in,
    uri_to_repo_path,
    url_of_file,
};
use crate::refresh::{
    current_refs,
    law_changed_file_marked,
    mr_label,
    refs_of,
    Publication,
};
use crate::text::{
    chars_of,
    contains,
    first_line,
    first_line_of,
    same_text,
    starts_with,
    string_of,
};

verus! {

// ── initialize, initialized ─────────────────────────────────────────────────────────────────────

/// The workspace's directory: that of its first folder, else that of its root.
pub open spec fn first_path(folder: Option<Seq<char>>, root: Option<Seq<char>>) -> Option<
    Seq<char>,
> {
    if folder is Some {
        folder
    } else {
        root
    }
}

/// What is known of the path of the file at an optional URI.
pub open spec fn is_path_of_option(uri: Option<Seq<char>>, path: Option<Seq<char>>) -> bool {
    match uri {
        Some(u) => is_path_of(u, path),
        None => path is None,
    }
}

/// The text of an optional string that is borrowed.
pub open spec fn borrowed_text(s: Option<&str>) -> Option<Seq<char>> {
    match s {
        Some(t) => Some(t@),
        None => None,
    }
}

/// The file at an optional URI.
fn file_of_option(uri: Option<&str>) -> (r: Option<String>)
    ensures
        is_path_of_option(borrowed_text(uri), text_model(r)),
{
    match uri {
        Some(u) => file_of_uri(u),
        None => None,
    }
}

/// The workspace's directory, from the URI of its first folder and from that of its root.
pub fn workspace_root(first_folder: Option<&str>, root_uri: Option<&str>) -> (r: Option<String>)
    ensures
        exists|folder: Option<Seq<char>>, root: Option<Seq<char>>|
            #![trigger first_path(folder, root)]
            is_path_of_option(borrowed_text(first_folder), folder) && is_path_of_option(
                borrowed_text(root_uri),
                root,
            ) && text_model(r) == first_path(folder, root),
{
    let folder = file_of_option(first_folder);
    let root = file_of_option(root_uri);
    let ghost found = first_path(text_model(folder), text_model(root));
    let r = if folder.is_some() {
        folder
    } else {
        root
    };
    assert(text_model(r) == found);
    r
}

/// The repository's root once a workspace is opened: its directory, where it has one.
pub open spec fn opened_root(workspace: Option<String>, was: String) -> String {
    match workspace {
        Some(root) => root,
        None => was,
    }
}

/// The repository's root once git has been asked: what git found, unless one was known.
pub open spec fn found_root(found: Result<String, GitError>, was: String) -> String {
    match found {
        Ok(root) => if was@.len() == 0 {
            root
        } else {
            was
        },
        Err(_) => was,
    }
}

/// The project's path once git has been asked: what git found, if anything.
pub open spec fn found_project(found: Result<String, GitError>, was: String) -> String {
    match found {
        Ok(path) => path,
        Err(_) => was,
    }
}

/// Takes over the configuration, and the workspace's directory where there is one.
pub fn initialize(s: &mut BackendState, config: Option<Config>, workspace_root: Option<String>)
    ensures
        *final(s) == (BackendState {
            config,
            repo_root: opened_root(workspace_root, old(s).repo_root),
            ..*old(s)
        }),
{
    s.config = config;
    match workspace_root {
        Some(root) => {
            s.repo_root = root;
        },
        None => {},
    }
}

/// Takes over what git tells: the repository's root only if none is set yet, and the project.
pub fn initialized(
    s: &mut BackendState,
    repo_root: Result<String, GitError>,
    project_path: Result<String, GitError>,
)
    ensures
        *final(s) == (BackendState {
            repo_root: found_root(repo_root, old(s).repo_root),
            project_path: found_project(project_path, old(s).project_path),
            ..*old(s)
        }),
{
    match repo_root {
        Ok(root) => {
            if s.repo_root.as_str().is_empty() {
                s.repo_root = root;
            }
        },
        Err(_) => {},
    }
    match project_path {
        Ok(path) => {
            s.project_path = path;
        },
        Err(_) => {},
    }
}

// ── workspace/symbol ────────────────────────────────────────────────────────────────────────────

/// The merge request's number and title.
pub open spec fn long_label(mr: Option<MergeRequest>) -> Seq<char> {
    match mr {
        Some(m) => "MR !"@ + decimal(m.iid as nat) + " — "@ + m.title@,
        None => Seq::empty(),
    }
}

/// The changed files whose path holds the query, under the merge request's number and title.
pub fn symbol(s: &BackendState, query: &str) -> (r: Vec<SymbolInformation>)
    ensures
        exists|uris: Seq<Option<Seq<char>>>| #[trigger]
            are_uris_of(diffs_model(s.diffs@), s.repo_root@, uris) && symbols_model(r@)
                == symbols_of(
                diffs_model(s.diffs@),
                lower_paths(diffs_model(s.diffs@)),
                uris,
                long_label(s.mr),
                lowercase_of(query@),
            ),
        lowers_ascii(query@),
        forall|i: int| 0 <= i < s.diffs.len() ==> lowers_ascii((#[trigger] s.diffs@[i]).new_path@),
{
    let label = match &s.mr {
        Some(m) => {
            let mut r = "MR !".to_owned();
            r.append(decimal_of(m.iid).as_str());
            r.append(" — ");
            r.append(m.title.as_str());
            r
        },
        None => String::new(),
    };
    assert(s.mr is None ==> label@ =~= Seq::<char>::empty());
    diffs_to_symbols(s.diffs.as_slice(), s.repo_root.as_str(), label.as_str(), query)
}

// ── textDocument/hover ──────────────────────────────────────────────────────────────────────────

/// One of the discussion's notes stands on the line, whichever file that is a line of.
pub open spec fn has_note_on(d: DiscussionModel, line: u32) -> bool {
    exists|i: int|
        0 <= i < d.notes.len() && (#[trigger] d.notes[i]).position is Some
            && d.notes[i].position->0.new_line == Some(line)
}

/// The threads of which a note stands on the line, one after the other, with a rule behind each.
pub open spec fn threads_text(
    ds: Seq<DiscussionModel>,
    line: u32,
    refs: Option<DiffRefsModel>,
) -> Seq<char>
    decreases ds.len(),
{
    if ds.len() == 0 {
        Seq::empty()
    } else if has_note_on(ds.last(), line) {
        threads_text(ds.drop_last(), line, refs) + thread_text(ds.last(), refs) + "\n\n---\n\n"@
    } else {
        threads_text(ds.drop_last(), line, refs)
    }
}

impl BackendState {
    /// The discussions that are kept under the file.
    pub open spec fn group(&self, file: Seq<char>) -> Seq<DiscussionModel> {
        if self.discussions_by_file@.contains_key(file) {
            discussions_model(self.discussions_by_file@[file]@)
        } else {
            Seq::empty()
        }
    }

    /// What is shown over the line, counted from zero, of the file: the threads of which a note
    /// stands there. Nothing where there is none, where the file is not in the repository, or
    /// where review features lack something.
    pub open spec fn hover_on(&self, file: Option<Seq<char>>, lsp_line: u32) -> Option<Seq<char>> {
        match file {
            Some(f) => if self.blocker() is None && (exists|i: int|
                0 <= i < self.group(f).len() && has_note_on(
                    #[trigger] self.group(f)[i],
                    (lsp_line + 1) as u32,
                )) {
                Some(threads_text(self.group(f), (lsp_line + 1) as u32, refs_of(self.mr)))
            } else {
                None
            },
            None => None,
        }
    }
}

/// Whether one of the discussion's notes stands on the line.
fn is_noted_on(d: &Discussion, line: u32) -> (r: bool)
    ensures
        r == has_note_on(d@, line),
{
    let mut i: usize = 0;
    while i < d.notes.len()
        invariant
            i <= d.notes.len(),
            forall|j: int|
                0 <= j < i ==> !((#[trigger] d@.notes[j]).position is Some
                    && d@.notes[j].position->0.new_line == Some(line)),
        decreases d.notes.len() - i,
    {
        assert(d@.notes[i as int] == d.notes@[i as int]@);
        match &d.notes[i].position {
            Some(pos) => {
                if pos.new_line == Some(line) {
                    return true;
                }
            },
            None => {},
        }
        i += 1;
    }
    false
}

/// The threads of which a note stands on the line, where there are any.
fn threads_on(ds: &Vec<Discussion>, line: u32, refs: Option<&DiffRefs>) -> (r: Option<String>)
    ensures
        (match r {
            Some(md) => {
                &&& exists|i: int|
                    0 <= i < ds.len() && has_note_on(
                        #[trigger] discussions_model(ds@)[i],
                        line,
                    )
                &&& md@ == threads_text(
                    discussions_model(ds@),
                    line,
                    crate::convert::current_model(refs),
                )
            },
            None => forall|i: int|
                0 <= i < ds.len() ==> !has_note_on(#[trigger] discussions_model(ds@)[i], line),
        }),
{
    let ghost all = discussions_model(ds@);
    let ghost current = crate::convert::current_model(refs);
    let mut md = String::new();
    let mut any: bool = false;
    let mut i: usize = 0;
    assert(md@ =~= threads_text(all.take(0), line, current));
    while i < ds.len()
        invariant
            i <= ds.len(),
            all == discussions_model(ds@),
            current == crate::convert::current_model(refs),
            md@ == threads_text(all.take(i as int), line, current),
            any == exists|j: int| 0 <= j < i && has_note_on(#[trigger] all[j], line),
        decreases ds.len() - i,
    {
        assert(all.take(i + 1).drop_last() =~= all.take(i as int));
        let d = &ds[i];
        assert(all[i as int] == d@);
        if is_noted_on(d, line) {
            md.append(render_thread(d, refs).as_str());
            md.append("\n\n---\n\n");
            any = true;
        }
        i += 1;
    }
    assert(all.take(all.len() as int) =~= all);
    if any {
        Some(md)
    } else {
        None
    }
}

/// What is shown over a line of the file of that repo-relative path.
#[verifier::spinoff_prover]
pub fn hover_text(s: &BackendState, file: &Option<String>, lsp_line: u32) -> (r: Option<String>)
    requires
        lsp_line < u32::MAX,
    ensures
        text_model(r) == s.hover_on(text_model(*file), lsp_line),
{
    let path = match file {
        Some(f) => f,
        None => {
            return None;
        },
    };
    if s.review_blocker().is_some() {
        return None;
    }
    let gitlab_line: u32 = lsp_line + 1;
    match s.discussions_by_file.get(path.as_str()) {
        Some(ds) => {
            let ghost all = discussions_model(ds@);
            assert(s.group(path@) == all);
            let r = threads_on(ds, gitlab_line, current_refs(&s.mr));
            assert(r is Some <==> exists|i: int|
                0 <= i < all.len() && has_note_on(#[trigger] all[i], gitlab_line));
            r
        },
        None => None,
    }
}

/// What is shown over a line, counted from zero, of the document at `uri`.
pub fn hover(s: &BackendState, uri: &str, lsp_line: u32) -> (r: Option<String>)
    requires
        lsp_line < u32::MAX,
    ensures
        exists|file: Option<Seq<char>>| #[trigger]
            is_file_in(s.repo_root@, uri@, file) && text_model(r) == s.hover_on(
                file,
                lsp_line,
            ),
{
    let file = uri_to_repo_path(uri, s.repo_root.as_str());
    assert(is_file_in(s.repo_root@, uri@, text_model(file)));
    hover_text(s, &file, lsp_line)
}

// ── textDocument/codeAction ─────────────────────────────────────────────────────────────────────

/// What a command is run with.
#[derive(Debug)]
pub enum Argument {
    Nothing,
    FileLine { file: String, line: u32 },
    File { file: String },
    Thread { discussion_id: String },
}

/// Model of [`Argument`].
pub enum ArgumentModel {
    Nothing,
    FileLine { file: Seq<char>, line: u32 },
    File { file: Seq<char> },
    Thread { discussion_id: Seq<char> },
}

impl View for Argument {
    type V = ArgumentModel;

    open spec fn view(&self) -> ArgumentModel {
        match self {
            Argument::Nothing => ArgumentModel::Nothing,
            Argument::FileLine { file, line } => ArgumentModel::FileLine {
                file: file@,
                line: *line,
            },
            Argument::File { file } => ArgumentModel::File { file: file@ },
            Argument::Thread { discussion_id } => ArgumentModel::Thread {
                discussion_id: discussion_id@,
            },
        }
    }
}

/// An action that the editor offers.
#[derive(Debug)]
pub struct CodeAction {
    pub title: String,
    pub command: Command,
    pub argument: Argument,
}

/// Model of [`CodeAction`].
pub struct ActionModel {
    pub title: Seq<char>,
    pub command: Command,
    pub argument: ArgumentModel,
}

impl View for CodeAction {
    type V = ActionModel;

    open spec fn view(&self) -> ActionModel {
        ActionModel { title: self.title@, command: self.command, argument: self.argument@ }
    }
}

/// Models of a list of actions.
pub open spec fn actions_model(v: Seq<CodeAction>) -> Seq<ActionModel> {
    v.map_values(|a: CodeAction| a@)
}

fn make_command(title: &str, command: Command, argument: Argument) -> (r: CodeAction)
    ensures
        r@ == (ActionModel { title: title@, command, argument: argument@ }),
{
    CodeAction { title: title.to_owned(), command, argument }
}

/// How the discussion begins: the first line of its first note, cut after 40 bytes.
pub open spec fn title_preview(d: DiscussionModel) -> Seq<char> {
    if d.notes.len() == 0 {
        Seq::empty()
    } else {
        let l = first_line(d.notes[0].body);
        if byte_len(l) > 40 {
            byte_prefix(l, 40)->0 + "…"@
        } else {
            l
        }
    }
}

/// Where the first line of the discussion is cut no character lies across the cut.
pub open spec fn can_be_titled(d: DiscussionModel) -> bool {
    d.notes.len() > 0 && byte_len(first_line(d.notes[0].body)) > 40 ==> byte_prefix(
        first_line(d.notes[0].body),
        40,
    ) is Some
}

/// Whether where the first line of the discussion is cut no character lies across the cut.
fn is_titleable(d: &Discussion) -> (r: bool)
    ensures
        r == can_be_titled(d@),
{
    if d.notes.len() == 0 {
        return true;
    }
    assert(d@.notes[0] == d.notes@[0]@);
    let body = chars_of(d.notes[0].body.as_str());
    let l = first_line_of(body.as_slice());
    !longer_than(l, 40) || leading_bytes(l, 40).is_some()
}

/// How the discussion begins.
pub fn first_note_preview(discussion: &Discussion) -> (r: String)
    requires
        can_be_titled(discussion@),
    ensures
        r@ == title_preview(discussion@),
{
    if discussion.notes.len() == 0 {
        let r = String::new();
        assert(r@ =~= Seq::<char>::empty());
        return r;
    }
    assert(discussion@.notes[0] == discussion.notes@[0]@);
    let body = chars_of(discussion.notes[0].body.as_str());
    let l = first_line_of(body.as_slice());
    if longer_than(l, 40) {
        match leading_bytes(l, 40) {
            Some(t) => {
                let mut r = string_of(t);
                r.append("…");
                r
            },
            None => String::new(),
        }
    } else {
        string_of(l)
    }
}

/// The discussion's first note stands on the line.
pub open spec fn begins_on(d: DiscussionModel, line: u32) -> bool {
    d.position() is Some && d.position()->0.new_line == Some(line)
}

/// The action that shows the discussion.
pub open spec fn show_action(d: DiscussionModel) -> ActionModel {
    ActionModel {
        title: "Show thread ("@ + title_preview(d) + ")"@,
        command: Command::ShowThread,
        argument: ArgumentModel::Thread { discussion_id: d.id },
    }
}

/// The actions that show the discussions that begin on the line, in order.
pub open spec fn show_actions(ds: Seq<DiscussionModel>, line: u32) -> Seq<ActionModel>
    decreases ds.len(),
{
    if ds.len() == 0 {
        Seq::empty()
    } else if begins_on(ds.last(), line) {
        show_actions(ds.drop_last(), line).push(show_action(ds.last()))
    } else {
        show_actions(ds.drop_last(), line)
    }
}

/// The action that submits what the user has written.
pub open spec fn submit_action() -> ActionModel {
    ActionModel {
        title: "Submit MR input"@,
        command: Command::SubmitInput,
        argument: ArgumentModel::Nothing,
    }
}

/// The action that adds a comment on the line, counted from one, of the file.
pub open spec fn comment_action(file: Seq<char>, line: u32) -> ActionModel {
    ActionModel {
        title: "Add review comment"@,
        command: Command::AddComment,
        argument: ArgumentModel::FileLine { file, line },
    }
}

/// The action that shows the diff of the file.
pub open spec fn diff_action(file: Seq<char>) -> ActionModel {
    ActionModel {
        title: "View MR diff"@,
        command: Command::ViewDiff,
        argument: ArgumentModel::File { file },
    }
}

/// The action that approves the merge request.
pub open spec fn approve_action(iid: u64) -> ActionModel {
    ActionModel {
        title: "Approve MR !"@ + decimal(iid as nat),
        command: Command::ApproveMr,
        argument: ArgumentModel::Nothing,
    }
}

impl BackendState {
    /// The file is one of the changed ones.
    pub open spec fn is_changed(&self, file: Seq<char>) -> bool {
        exists|i: int| 0 <= i < self.diffs.len() && (#[trigger] self.diffs@[i]).new_path@ == file
    }

    /// What is offered on the line, counted from one, of the file: to submit what is pending, to
    /// comment, to view the diff of a changed file, to show the threads that begin there, and to
    /// approve the merge request while it is open.
    pub open spec fn offered(&self, file: Seq<char>, line: u32) -> Seq<ActionModel> {
        (if self.pending_input is Some {
            seq![submit_action()]
        } else {
            Seq::empty()
        }) + seq![comment_action(file, line)] + (if self.is_changed(file) {
            seq![diff_action(file)]
        } else {
            Seq::empty()
        }) + show_actions(self.group(file), line) + (if self.mr is Some && self.mr->0.state@
            == "opened"@ {
            seq![approve_action(self.mr->0.iid)]
        } else {
            Seq::empty()
        })
    }

    /// What is offered on the line, counted from zero, of the file. Nothing where the file is not
    /// in the repository, or where review features lack something.
    pub open spec fn actions_on(&self, file: Option<Seq<char>>, lsp_line: u32) -> Option<
        Seq<ActionModel>,
    > {
        match file {
            Some(f) => if self.blocker() is None {
                Some(self.offered(f, (lsp_line + 1) as u32))
            } else {
                None
            },
            None => None,
        }
    }

    /// Every thread that begins on the line of the file can be given a title.
    pub open spec fn can_be_offered(&self, file: Seq<char>, line: u32) -> bool {
        forall|i: int|
            0 <= i < self.group(file).len() && begins_on(#[trigger] self.group(file)[i], line)
                ==> can_be_titled(self.group(file)[i])
    }
}

/// Whether the discussion's first note stands on the line.
fn does_begin_on(d: &Discussion, line: u32) -> (r: bool)
    ensures
        r == begins_on(d@, line),
{
    match d.position() {
        Some(pos) => pos.new_line == Some(line),
        None => false,
    }
}

/// Whether the file is one of the changed ones.
fn does_change(s: &BackendState, file: &str) -> (r: bool)
    ensures
        r == s.is_changed(file@),
{
    let mut i: usize = 0;
    while i < s.diffs.len()
        invariant
            i <= s.diffs.len(),
            forall|j: int| 0 <= j < i ==> (#[trigger] s.diffs@[j]).new_path@ != file@,
        decreases s.diffs.len() - i,
    {
        if same_text(s.diffs[i].new_path.as_str(), file) {
            return true;
        }
        i += 1;
    }
    false
}

/// Whether every thread that begins on the line, counted from one, of the file can be given a
/// title.
pub fn is_offerable(s: &BackendState, file: &str, line: u32) -> (r: bool)
    ensures
        r == s.can_be_offered(file@, line),
{
    let ds = match s.discussions_by_file.get(file) {
        Some(ds) => ds,
        None => {
            return true;
        },
    };
    let ghost all = discussions_model(ds@);
    assert(s.group(file@) == all);
    let mut i: usize = 0;
    while i < ds.len()
        invariant
            i <= ds.len(),
            all == discussions_model(ds@),
            s.group(file@) == all,
            forall|j: int| 0 <= j < i && begins_on(#[trigger] all[j], line) ==> can_be_titled(all[j]),
        decreases ds.len() - i,
    {
        assert(all[i as int] == ds@[i as int]@);
        if does_begin_on(&ds[i], line) && !is_titleable(&ds[i]) {
            assert(begins_on(s.group(file@)[i as int], line));
            return false;
        }
        i += 1;
    }
    true
}

/// Adds the actions that show the discussions that begin on the line.
fn offer_threads(ds: &Vec<Discussion>, line: u32, r: &mut Vec<CodeAction>)
    requires
        forall|i: int|
            0 <= i < ds.len() && begins_on((#[trigger] ds@[i])@, line) ==> can_be_titled(
                ds@[i]@,
            ),
    ensures
        actions_model(final(r)@) == actions_model(old(r)@) + show_actions(
            discussions_model(ds@),
            line,
        ),
{
    let ghost all = discussions_model(ds@);
    let ghost given = actions_model(r@);
    let mut i: usize = 0;
    assert(actions_model(r@) =~= given + show_actions(all.take(0), line));
    while i < ds.len()
        invariant
            i <= ds.len(),
            all == discussions_model(ds@),
            forall|j: int|
                0 <= j < ds.len() && begins_on((#[trigger] ds@[j])@, line) ==> can_be_titled(
                    ds@[j]@,
                ),
            actions_model(r@) == given + show_actions(all.take(i as int), line),
        decreases ds.len() - i,
    {
        assert(all.take(i + 1).drop_last() =~= all.take(i as int));
        let d = &ds[i];
        assert(all[i as int] == d@);
        if does_begin_on(d, line) {
            let ghost before = r@;
            let ghost shown = show_actions(all.take(i as int), line);
            let mut title = "Show thread (".to_owned();
            title.append(first_note_preview(d).as_str());
            title.append(")");
            let action = make_command(
                title.as_str(),
                Command::ShowThread,
                Argument::Thread { discussion_id: d.id.clone() },
            );
            r.push(action);
            assert(actions_model(r@) =~= actions_model(before).push(action@));
            assert((given + shown).push(action@) =~= given + shown.push(action@));
        }
        i += 1;
    }
    assert(all.take(all.len() as int) =~= all);
}

/// Adds one action.
fn offer(r: &mut Vec<CodeAction>, action: CodeAction)
    ensures
        actions_model(final(r)@) == actions_model(old(r)@).push(action@),
{
    r.push(action);
    assert(actions_model(r@) =~= actions_model(old(r)@).push(action@));
}

/// What is offered on the line, counted from one, of the file.
fn offers(s: &BackendState, file: &str, line: u32) -> (r: Vec<CodeAction>)
    requires
        s.can_be_offered(file@, line),
    ensures
        actions_model(r@) == s.offered(file@, line),
{
    let mut r: Vec<CodeAction> = Vec::new();
    if s.pending_input.is_some() {
        offer(&mut r, make_command("Submit MR input", Command::SubmitInput, Argument::Nothing));
    }
    offer(
        &mut r,
        make_command(
            "Add review comment",
            Command::AddComment,
            Argument::FileLine { file: file.to_owned(), line },
        ),
    );
    if does_change(s, file) {
        offer(
            &mut r,
            make_command(
                "View MR diff",
                Command::ViewDiff,
                Argument::File { file: file.to_owned() },
            ),
        );
    }
    let ghost first = actions_model(r@);
    assert(first =~= (if s.pending_input is Some {
        seq![submit_action()]
    } else {
        Seq::empty()
    }) + seq![comment_action(file@, line)] + (if s.is_changed(file@) {
        seq![diff_action(file@)]
    } else {
        Seq::empty()
    }));
    match s.discussions_by_file.get(file) {
        Some(ds) => {
            assert(s.group(file@) == discussions_model(ds@));
            assert forall|i: int|
                0 <= i < ds.len() && begins_on((#[trigger] ds@[i])@, line) implies can_be_titled(
                ds@[i]@,
            ) by {
                assert(s.group(file@)[i] == ds@[i]@);
            }
            offer_threads(ds, line, &mut r);
        },
        None => {},
    }
    let ghost second = actions_model(r@);
    assert(second =~= first + show_actions(s.group(file@), line));
    match &s.mr {
        Some(mr) => {
            if same_text(mr.state.as_str(), "opened") {
                let mut title = "Approve MR !".to_owned();
                title.append(decimal_of(mr.iid).as_str());
                offer(
                    &mut r,
                    make_command(title.as_str(), Command::ApproveMr, Argument::Nothing),
                );
            }
        },
        None => {},
    }
    assert(actions_model(r@) =~= s.offered(file@, line));
    r
}

/// Model of an optional list of actions.
pub open spec fn action_list_model(v: Option<Vec<CodeAction>>) -> Option<Seq<ActionModel>> {
    match v {
        Some(x) => Some(actions_model(x@)),
        None => None,
    }
}

/// What is offered on a line, counted from zero, of the file of that repo-relative path.
pub fn code_actions_on(s: &BackendState, file: &Option<String>, lsp_line: u32) -> (r: Option<
    Vec<CodeAction>,
>)
    requires
        lsp_line < u32::MAX,
        file is Some && s.blocker() is None ==> s.can_be_offered(
            file->0@,
            (lsp_line + 1) as u32,
        ),
    ensures
        action_list_model(r) == s.actions_on(text_model(*file), lsp_line),
{
    match file {
        Some(f) => if s.review_blocker().is_some() {
            None
        } else {
            Some(offers(s, f.as_str(), lsp_line + 1))
        },
        None => None,
    }
}

/// What is offered on a line, counted from zero, of the document at `uri`.
pub fn code_action(s: &BackendState, uri: &str, lsp_line: u32) -> (r: Result<
    Option<Vec<CodeAction>>,
    CannotShow,
>)
    requires
        lsp_line < u32::MAX,
    ensures
        exists|file: Option<Seq<char>>| #[trigger]
            is_file_in(s.repo_root@, uri@, file) && ({
                let line = (lsp_line + 1) as u32;
                let offers = s.blocker() is Some || file is None || s.can_be_offered(
                    file->0,
                    line,
                );
                match r {
                    Ok(actions) => offers && action_list_model(actions) == s.actions_on(
                        file,
                        lsp_line,
                    ),
                    Err(_) => !offers,
                }
            }),
{
    let file = uri_to_repo_path(uri, s.repo_root.as_str());
    assert(is_file_in(s.repo_root@, uri@, text_model(file)));
    let blocked = s.review_blocker().is_some();
    match &file {
        Some(f) => {
            if !blocked && !is_offerable(s, f.as_str(), lsp_line + 1) {
                return Err(CannotShow);
            }
        },
        None => {},
    }
    Ok(code_actions_on(s, &file, lsp_line))
}

// ── textDocument/inlayHint ──────────────────────────────────────────────────────────────────────

impl BackendState {
    /// The hints in the file: none where it is not in the repository, or where review features
    /// lack something.
    pub open spec fn hints_in(&self, file: Option<Seq<char>>) -> Seq<HintModel> {
        match file {
            Some(f) => if self.blocker() is None {
                hints_of(discussions_model(self.discussions@), f, refs_of(self.mr))
            } else {
                Seq::empty()
            },
            None => Seq::empty(),
        }
    }
}

/// Whether no discussion stands on a line number zero of the file.
pub fn is_hintable(s: &BackendState, file: &str) -> (r: bool)
    ensures
        r == lines_count_from_one(discussions_model(s.discussions@), file@),
{
    let ghost all = discussions_model(s.discussions@);
    let mut i: usize = 0;
    while i < s.discussions.len()
        invariant
            i <= s.discussions.len(),
            all == discussions_model(s.discussions@),
            forall|j: int| 0 <= j < i ==> line_in(#[trigger] all[j], file@) != Some(0u32),
        decreases s.discussions.len() - i,
    {
        assert(all[i as int] == s.discussions@[i as int]@);
        match s.discussions[i].position() {
            Some(pos) => {
                if same_text(pos.new_path.as_str(), file) && pos.new_line == Some(0u32) {
                    assert(line_in(all[i as int], file@) == Some(0u32));
                    return false;
                }
            },
            None => {},
        }
        i += 1;
    }
    true
}

/// The hints in the file of that repo-relative path.
pub fn inlay_hints_in(s: &BackendState, file: &Option<String>) -> (r: Vec<InlayHint>)
    requires
        file is Some && s.blocker() is None ==> lines_count_from_one(
            discussions_model(s.discussions@),
            file->0@,
        ),
    ensures
        hints_model(r@) == s.hints_in(text_model(*file)),
{
    let none: Vec<InlayHint> = Vec::new();
    assert(hints_model(none@) =~= Seq::<HintModel>::empty());
    match file {
        Some(f) => if s.review_blocker().is_some() {
            none
        } else {
            discussions_to_inlay_hints(s.discussions.as_slice(), f.as_str(), current_refs(&s.mr))
        },
        None => none,
    }
}

/// The hints in the document at `uri`.
pub fn inlay_hint(s: &BackendState, uri: &str) -> (r: Result<Vec<InlayHint>, CannotShow>)
    ensures
        exists|file: Option<Seq<char>>| #[trigger]
            is_file_in(s.repo_root@, uri@, file) && ({
                let hints_fit = s.blocker() is Some || file is None || lines_count_from_one(
                    discussions_model(s.discussions@),
                    file->0,
                );
                match r {
                    Ok(hints) => hints_fit && hints_model(hints@) == s.hints_in(file),
                    Err(_) => !hints_fit,
                }
            }),
{
    let file = uri_to_repo_path(uri, s.repo_root.as_str());
    assert(is_file_in(s.repo_root@, uri@, text_model(file)));
    let blocked = s.review_blocker().is_some();
    match &file {
        Some(f) => {
            if !blocked && !is_hintable(s, f.as_str()) {
                return Err(CannotShow);
            }
        },
        None => {},
    }
    Ok(inlay_hints_in(s, &file))
}

// ── textDocument/didOpen ────────────────────────────────────────────────────────────────────────

impl BackendState {
    /// What the editor is told of a file when it is opened: the hint where it is changed, and the
    /// diagnostics for the discussions on it.
    pub open spec fn told_on_open(&self, file: Seq<char>) -> Seq<DiagnosticModel> {
        (if self.is_changed(file) {
            seq![changed_hint(mr_label(self.mr))]
        } else {
            Seq::empty()
        }) + self.shown(file)
    }
}

/// What the editor is told of the file of that repo-relative path when it is opened.
pub fn diagnostics_on_open(s: &BackendState, file: &str) -> (r: Vec<Diagnostic>)
    requires
        s.group_can_be_shown(file@),
    ensures
        diagnostics_model(r@) == s.told_on_open(file@),
{
    if does_change(s, file) {
        s.changed_diagnostics_on(file)
    } else {
        let r = s.diagnostics_on(file);
        assert(Seq::<DiagnosticModel>::empty() + s.shown(file@) =~= s.shown(file@));
        r
    }
}

/// What is told of the file of that repo-relative path when it is opened, under the URI `uri`:
/// nothing where there is none.
pub open spec fn opening_told(
    s: BackendState,
    file: Seq<char>,
    uri: Option<Seq<char>>,
) -> Option<(Seq<char>, Seq<DiagnosticModel>)> {
    match uri {
        Some(u) => Some((u, s.told_on_open(file))),
        None => None,
    }
}

/// `told` is what is told of the file of that repo-relative path when it is opened, under what is
/// known to be its URI.
pub open spec fn is_opening(
    s: BackendState,
    file: Seq<char>,
    told: Option<(Seq<char>, Seq<DiagnosticModel>)>,
) -> bool {
    exists|uri: Option<Seq<char>>| #[trigger]
        is_uri_in(s.repo_root@, file, uri) && told == opening_told(s, file, uri)
}

/// Model of an optional publication.
pub open spec fn publication_model(p: Option<Publication>) -> Option<
    (Seq<char>, Seq<DiagnosticModel>),
> {
    match p {
        Some(x) => Some(x@),
        None => None,
    }
}

/// What the editor is told when it opens the file of that repo-relative path.
pub fn file_opened(s: &BackendState, file: &str) -> (r: Option<Publication>)
    requires
        s.group_can_be_shown(file@),
    ensures
        is_opening(*s, file@, publication_model(r)),
{
    let diagnostics = diagnostics_on_open(s, file);
    let uri = uri_in(s.repo_root.as_str(), file);
    assert(is_uri_in(s.repo_root@, file@, text_model(uri)));
    match uri {
        Some(uri) => Some(Publication { uri, diagnostics }),
        None => None,
    }
}

/// What the editor is told when it opens the document at `uri`: nothing where it is not in the
/// repository.
pub fn did_open(s: &BackendState, uri: &str) -> (r: Result<
    Option<Publication>,
    CannotShow,
>)
    ensures
        exists|file: Option<Seq<char>>| #[trigger]
            is_file_in(s.repo_root@, uri@, file) && (match (file, r) {
                (Some(file), Ok(told)) => s.group_can_be_shown(file) && is_opening(
                    *s,
                    file,
                    publication_model(told),
                ),
                (Some(file), Err(_)) => !s.group_can_be_shown(file),
                (None, Ok(told)) => told is None,
                (None, Err(_)) => false,
            }),
{
    let file = uri_to_repo_path(uri, s.repo_root.as_str());
    assert(is_file_in(s.repo_root@, uri@, text_model(file)));
    match file {
        Some(f) => {
            if !s.is_group_showable(f.as_str()) {
                return Err(CannotShow);
            }
            Ok(file_opened(s, f.as_str()))
        },
        None => Ok(None),
    }
}

// ── textDocument/didClose ───────────────────────────────────────────────────────────────────────

/// What is known of whether the file at `path` is the one in which the user writes.
pub open spec fn is_input_file(s: BackendState, path: Option<Seq<char>>, is_input: bool) -> bool {
    match (s.pending_input, path) {
        (Some((pending, action)), Some(p)) => is_same(pending@, p, is_input),
        _ => !is_input,
    }
}

/// Takes in that a file was closed, which is the one in which the user writes, or is not. If it is,
/// nothing is pending any more: the user discarded it by closing without submitting.
pub fn input_closed(s: &mut BackendState, is_input: bool) -> (r: Option<Message>)
    ensures
        message_model(r) == (if is_input {
            Some(info_text("MR input cancelled (buffer closed)."@))
        } else {
            None
        }),
        *final(s) == (if is_input {
            BackendState { pending_input: None, ..*old(s) }
        } else {
            *old(s)
        }),
{
    if is_input {
        s.pending_input = None;
        Some(Message::info("MR input cancelled (buffer closed)."))
    } else {
        None
    }
}

/// Takes in that the file at `path` was closed.
pub fn file_closed(s: &mut BackendState, path: &Option<String>) -> (r: Option<Message>)
    ensures
        exists|is_input: bool| #[trigger]
            is_input_file(*old(s), text_model(*path), is_input) && message_model(r) == (
            if is_input {
                Some(info_text("MR input cancelled (buffer closed)."@))
            } else {
                None
            }) && *final(s) == (if is_input {
                BackendState { pending_input: None, ..*old(s) }
            } else {
                *old(s)
            }),
{
    let is_input = match (&s.pending_input, path) {
        (Some((pending, _)), Some(p)) => is_same_path(pending.as_str(), p.as_str()),
        _ => false,
    };
    assert(is_input_file(*old(s), text_model(*path), is_input));
    input_closed(s, is_input)
}

/// Takes in that the document at `uri` was closed.
pub fn did_close(s: &mut BackendState, uri: &str) -> (r: Option<Message>)
    ensures
        exists|path: Option<Seq<char>>, is_input: bool|
            #![trigger is_input_file(*old(s), path, is_input)]
            is_path_of(uri@, path) && is_input_file(*old(s), path, is_input) && message_model(r)
                == (if is_input {
                Some(info_text("MR input cancelled (buffer closed)."@))
            } else {
                None
            }) && *final(s) == (if is_input {
                BackendState { pending_input: None, ..*old(s) }
            } else {
                *old(s)
            }),
{
    let path = file_of_uri(uri);
    assert(is_path_of(uri@, text_model(path)));
    file_closed(s, &path)
}

// ── Laws ────────────────────────────────────────────────────────────────────────────────────────

/// As long as review features lack something, the workspace is not cluttered: no hover, no code
/// action and no hint is given, wherever the user looks.
pub proof fn law_blocked_shows_nothing(s: BackendState, file: Option<Seq<char>>, lsp_line: u32)
    requires
        s.blocker() is Some,
    ensures
        s.hover_on(file, lsp_line) is None,
        s.actions_on(file, lsp_line) is None,
        s.hints_in(file).len() == 0,
{
}

/// Outside the repository nothing is shown.
pub proof fn law_outside_shows_nothing(s: BackendState, lsp_line: u32)
    ensures
        s.hover_on(None, lsp_line) is None,
        s.actions_on(None, lsp_line) is None,
        s.hints_in(None).len() == 0,
{
}

proof fn lemma_contains_longer(s: Seq<char>, more: Seq<char>, p: Seq<char>)
    requires
        contains(s, p),
    ensures
        contains(s + more, p),
{
    let i = choose|i: int| 0 <= i <= s.len() && #[trigger] starts_with(s.skip(i), p);
    assert((s + more).skip(i).take(p.len() as int) =~= s.skip(i).take(p.len() as int));
    assert(starts_with((s + more).skip(i), p));
}

/// Every thread of which a note stands on the line is shown when hovering over it.
pub proof fn law_thread_hovered(
    ds: Seq<DiscussionModel>,
    line: u32,
    refs: Option<DiffRefsModel>,
    i: int,
)
    requires
        0 <= i < ds.len(),
        has_note_on(ds[i], line),
    ensures
        contains(threads_text(ds, line, refs), thread_text(ds[i], refs)),
    decreases ds.len(),
{
    let rest = threads_text(ds.drop_last(), line, refs);
    let rule = "\n\n---\n\n"@;
    if i == ds.len() - 1 {
        let text = thread_text(ds[i], refs);
        let all = rest + text + rule;
        assert(all.skip(rest.len() as int).take(text.len() as int) =~= text);
        assert(starts_with(all.skip(rest.len() as int), text));
    } else {
        law_thread_hovered(ds.drop_last(), line, refs, i);
        if has_note_on(ds.last(), line) {
            let text = thread_text(ds.last(), refs);
            lemma_contains_longer(rest, text, thread_text(ds[i], refs));
            lemma_contains_longer(rest + text, rule, thread_text(ds[i], refs));
        }
    }
}

/// What is pending comes first: the first action submits it.
pub proof fn law_submit_offered_first(s: BackendState, file: Seq<char>, line: u32)
    requires
        s.pending_input is Some,
    ensures
        s.offered(file, line)[0] == submit_action(),
{
}

/// Every line can be commented on.
pub proof fn law_comment_offered(s: BackendState, file: Seq<char>, line: u32)
    ensures
        s.offered(file, line).contains(comment_action(file, line)),
{
    let k: int = if s.pending_input is Some {
        1
    } else {
        0
    };
    assert(s.offered(file, line)[k] == comment_action(file, line));
}

/// Every thread that begins on the line can be shown.
pub proof fn law_thread_offered(s: BackendState, file: Seq<char>, line: u32, i: int)
    requires
        0 <= i < s.group(file).len(),
        begins_on(s.group(file)[i], line),
    ensures
        s.offered(file, line).contains(show_action(s.group(file)[i])),
{
    let ds = s.group(file);
    lemma_show_action(ds, line, i);
    let shown = show_actions(ds, line);
    let k = shown.index_of(show_action(ds[i]));
    let n: int = (if s.pending_input is Some {
        1int
    } else {
        0
    }) + 1 + (if s.is_changed(file) {
        1int
    } else {
        0
    });
    assert(s.offered(file, line)[n + k] == shown[k]);
}

proof fn lemma_show_action(ds: Seq<DiscussionModel>, line: u32, i: int)
    requires
        0 <= i < ds.len(),
        begins_on(ds[i], line),
    ensures
        show_actions(ds, line).contains(show_action(ds[i])),
    decreases ds.len(),
{
    let shown = show_actions(ds, line);
    if i == ds.len() - 1 {
        assert(shown[shown.len() - 1] == show_action(ds[i]));
    } else {
        lemma_show_action(ds.drop_last(), line, i);
        let before = show_actions(ds.drop_last(), line);
        let k = before.index_of(show_action(ds[i]));
        assert(shown[k] == show_action(ds[i]));
    }
}

/// The merge request can be approved exactly while it is open: an approval is offered if and only
/// if its state is `opened`.
pub proof fn law_approval_offered(s: BackendState, file: Seq<char>, line: u32)
    requires
        s.mr is Some,
    ensures
        s.mr->0.state@ == "opened"@ ==> s.offered(file, line).last() == approve_action(
            s.mr->0.iid,
        ),
        s.mr->0.state@ != "opened"@ ==> forall|k: int|
            0 <= k < s.offered(file, line).len() ==> (#[trigger] s.offered(file, line)[k]).command
                != Command::ApproveMr,
{
    if s.mr->0.state@ != "opened"@ {
        lemma_show_actions_show(s.group(file), line);
        let all = s.offered(file, line);
        let shown = show_actions(s.group(file), line);
        let n: int = (if s.pending_input is Some {
            1int
        } else {
            0
        }) + 1 + (if s.is_changed(file) {
            1int
        } else {
            0
        });
        assert forall|k: int| 0 <= k < all.len() implies (#[trigger] all[k]).command
            != Command::ApproveMr by {
            if k >= n {
                assert(all[k] == shown[k - n]);
            }
        }
    }
}

proof fn lemma_show_actions_show(ds: Seq<DiscussionModel>, line: u32)
    ensures
        forall|k: int|
            0 <= k < show_actions(ds, line).len() ==> (#[trigger] show_actions(
                ds,
                line,
            )[k]).command == Command::ShowThread,
    decreases ds.len(),
{
    if ds.len() > 0 {
        lemma_show_actions_show(ds.drop_last(), line);
    }
}

/// Opening a changed file tells the same of it as a round of refreshing does.
pub proof fn law_open_agrees_with_round(s: BackendState, before: Seq<Seq<char>>, i: int)
    requires
        0 <= i < s.diffs.len(),
    ensures
        s.plan(before).contains((s.diffs@[i].new_path@, s.told_on_open(s.diffs@[i].new_path@))),
{
    law_changed_file_marked(s, before, i);
}

/// A comment comes back where it was made: the first note of a discussion, at the position that a
/// comment on a line of a file is posted with, is shown on that line of that file, is found by
/// hovering over the line and by the actions on it, and is not outdated while the merge request
/// stands at the same commits.
pub proof fn law_comment_comes_back(
    d: DiscussionModel,
    file: Seq<char>,
    lsp_line: u32,
    refs: DiffRefsModel,
)
    requires
        lsp_line < u32::MAX,
        d.notes.len() > 0,
        d.notes[0].position == Some(position_on((lsp_line + 1) as u32, file, refs)),
    ensures
        ({
            let line = (lsp_line + 1) as u32;
            &&& line_in(d, file) == Some(line)
            &&& diagnostic_of(d, line, Some(refs)).range.start.line == lsp_line
            &&& has_note_on(d, line)
            &&& begins_on(d, line)
            &&& !is_outdated(d.notes[0], Some(refs))
        }),
{
}

/// Closing the file in which the user writes is noticed: whatever is known to be the URI under which
/// the editor was shown the file, and whatever is known to be the path of that URI, it is taken for
/// that file, on every platform where a path that begins with a slash is a file's path.
pub proof fn law_closing_noticed(
    s: BackendState,
    uri: Seq<char>,
    path: Seq<char>,
    is_input: bool,
)
    requires
        s.pending_input matches Some((pending, action)) && is_kept_path(pending@) && is_uri_of(
            pending@,
            Some(uri),
        ),
        is_path_of(uri, Some(path)),
        path[0] == '/',
        is_input_file(s, Some(path), is_input),
    ensures
        is_input,
{
    reveal_strlit("file:");
    match s.pending_input {
        Some((pending, _)) => {
            let target = choose|target: Seq<char>|
                Some(uri) == #[trigger] url_of_file(target, pending@);
            assert(url_of_file(target, pending@) == Some(uri));
            assert(("file:"@ + pending@)[0] == 'f');
        },
        None => {},
    }
}

/// The text that is shown over a line is that of the threads of which a note stands on it, in order,
/// with a rule behind each, and nothing else.
pub proof fn law_hovered_threads(
    ds: Seq<DiscussionModel>,
    line: u32,
    refs: Option<DiffRefsModel>,
)
    ensures
        threads_text(ds, line, refs) == ds.filter(
            |d: DiscussionModel|
                d.notes.any(
                    |n: NoteModel| n.position matches Some(p) && p.new_line == Some(line),
                ),
        ).map_values(|d: DiscussionModel| thread_text(d, refs) + "\n\n---\n\n"@).flatten(),
    decreases ds.len(),
{
    reveal(Seq::filter);
    let p = |d: DiscussionModel|
        d.notes.any(|n: NoteModel| n.position matches Some(p) && p.new_line == Some(line));
    let f = |d: DiscussionModel| thread_text(d, refs) + "\n\n---\n\n"@;
    if ds.len() > 0 {
        law_hovered_threads(ds.drop_last(), line, refs);
        lemma_note_on(ds.last(), line);
        let kept = ds.drop_last().filter(p);
        if p(ds.last()) {
            assert(kept.push(ds.last()).map_values(f) =~= kept.map_values(f).push(f(ds.last())));
            kept.map_values(f).lemma_flatten_push(f(ds.last()));
            let before = threads_text(ds.drop_last(), line, refs);
            assert(before + thread_text(ds.last(), refs) + "\n\n---\n\n"@ =~= before + f(
                ds.last(),
            ));
        }
    } else {
        assert(ds.filter(p).map_values(f).flatten() =~= Seq::<char>::empty());
    }
}

proof fn lemma_note_on(d: DiscussionModel, line: u32)
    ensures
        has_note_on(d, line) <==> d.notes.any(
            |n: NoteModel| n.position matches Some(p) && p.new_line == Some(line),
        ),
{
    let f = |n: NoteModel| n.position matches Some(p) && p.new_line == Some(line);
    if has_note_on(d, line) {
        let i = choose|i: int|
            0 <= i < d.notes.len() && (#[trigger] d.notes[i]).position is Some
                && d.notes[i].position->0.new_line == Some(line);
        assert(f(d.notes[i]));
    }
    if d.notes.any(f) {
        let i = choose|i: int| 0 <= i < d.notes.len() && f(#[trigger] d.notes[i]);
        assert(d.notes[i].position is Some);
    }
}

/// Where review features have what they need, a line is hovered over with the threads that are kept
/// under the file and of which a note stands on it, as the merge request stands; and with nothing
/// exactly where there are none. The editor counts lines from zero, GitLab from one.
#[verifier::spinoff_prover]
pub proof fn law_hover(s: BackendState, file: Seq<char>, lsp_line: u32)
    requires
        s.blocker() is None,
        lsp_line < u32::MAX,
    ensures
        ({
            let line = (lsp_line + 1) as u32;
            let ds = if s.discussions_by_file@.contains_key(file) {
                discussions_model(s.discussions_by_file@[file]@)
            } else {
                Seq::empty()
            };
            let hovered = ds.any(
                |d: DiscussionModel|
                    d.notes.any(
                        |n: NoteModel| n.position matches Some(p) && p.new_line == Some(line),
                    ),
            );
            s.hover_on(Some(file), lsp_line) == (if hovered {
                Some(
                    threads_text(
                        ds,
                        line,
                        match s.mr {
                            Some(m) => refs_model(m.diff_refs),
                            None => None,
                        },
                    ),
                )
            } else {
                None
            })
        }),
{
    let line = (lsp_line + 1) as u32;
    let ds = s.group(file);
    let q = |d: DiscussionModel|
        d.notes.any(|n: NoteModel| n.position matches Some(p) && p.new_line == Some(line));
    let found = exists|i: int|
        0 <= i < s.group(file).len() && has_note_on(#[trigger] s.group(file)[i], line);
    if found {
        let i = choose|i: int|
            0 <= i < s.group(file).len() && has_note_on(#[trigger] s.group(file)[i], line);
        lemma_note_on(ds[i], line);
        assert(q(ds[i]));
        assert(ds.any(q));
    }
    if ds.any(q) {
        let i = choose|i: int| 0 <= i < ds.len() && q(#[trigger] ds[i]);
        lemma_note_on(ds[i], line);
        assert(has_note_on(s.group(file)[i], line));
        assert(found);
    }
    let refs = match s.mr {
        Some(m) => refs_model(m.diff_refs),
        None => None,
    };
    assert(refs == refs_of(s.mr));
    assert(s.hover_on(Some(file), lsp_line) == (if found {
        Some(threads_text(ds, line, refs))
    } else {
        None
    }));
}

/// A thread's title is the first line of its first note, all of it where it takes at most 40 bytes,
/// else its first 40 bytes and an ellipsis; and it is empty where the thread has no note.
pub proof fn law_title(d: DiscussionModel)
    requires
        can_be_titled(d),
    ensures
        d.notes.len() == 0 ==> title_preview(d) == Seq::<char>::empty(),
        d.notes.len() > 0 && byte_len(first_line(d.notes[0].body)) <= 40 ==> title_preview(d)
            == first_line(d.notes[0].body),
        d.notes.len() > 0 && byte_len(first_line(d.notes[0].body)) > 40 ==> exists|
            a: Seq<char>,
            b: Seq<char>,
        |
            first_line(d.notes[0].body) == #[trigger] (a + b) && byte_len(a) == 40 && title_preview(
                d,
            ) == a + "…"@,
{
    if d.notes.len() > 0 {
        law_cut_after_bytes(first_line(d.notes[0].body), 40);
    }
}

/// The threads that a line offers to show are those whose first note stands on it, in order, each by
/// its own id and under its own beginning.
pub proof fn law_threads_offered_in_order(ds: Seq<DiscussionModel>, line: u32)
    ensures
        show_actions(ds, line) == ds.filter(
            |d: DiscussionModel|
                d.notes.len() > 0 && (d.notes[0].position matches Some(p) && p.new_line == Some(
                    line,
                )),
        ).map_values(
            |d: DiscussionModel|
                ActionModel {
                    title: "Show thread ("@ + title_preview(d) + ")"@,
                    command: Command::ShowThread,
                    argument: ArgumentModel::Thread { discussion_id: d.id },
                },
        ),
    decreases ds.len(),
{
    reveal(Seq::filter);
    let p = |d: DiscussionModel|
        d.notes.len() > 0 && (d.notes[0].position matches Some(p) && p.new_line == Some(line));
    let f = |d: DiscussionModel|
        ActionModel {
            title: "Show thread ("@ + title_preview(d) + ")"@,
            command: Command::ShowThread,
            argument: ArgumentModel::Thread { discussion_id: d.id },
        };
    if ds.len() > 0 {
        law_threads_offered_in_order(ds.drop_last(), line);
        let kept = ds.drop_last().filter(p);
        if p(ds.last()) {
            assert(kept.push(ds.last()).map_values(f) =~= kept.map_values(f).push(f(ds.last())));
        }
    } else {
        assert(ds.filter(p).map_values(f) =~= Seq::<ActionModel>::empty());
    }
}

/// What a line offers, in order: to submit what is pending, where something is; to comment on this
/// line of this file; to view the file's diff, where one is loaded; to show the threads; and to
/// approve the merge request, where it is open. Nothing else is offered.
pub proof fn law_offered(s: BackendState, file: Seq<char>, lsp_line: u32)
    requires
        s.blocker() is None,
        lsp_line < u32::MAX,
    ensures
        ({
            let line = (lsp_line + 1) as u32;
            let pending = if s.pending_input is Some {
                1int
            } else {
                0
            };
            let changed = if diffs_model(s.diffs@).any(|d: MrDiffModel| d.new_path == file) {
                1int
            } else {
                0
            };
            let threads = show_actions(
                if s.discussions_by_file@.contains_key(file) {
                    discussions_model(s.discussions_by_file@[file]@)
                } else {
                    Seq::empty()
                },
                line,
            );
            let open = if s.mr matches Some(m) && m.state@ == "opened"@ {
                1int
            } else {
                0
            };
            let start = pending + 1 + changed;
            &&& s.actions_on(Some(file), lsp_line) is Some
            &&& s.actions_on(Some(file), lsp_line)->0.len() == start + threads.len() + open
            &&& pending == 1 ==> s.actions_on(Some(file), lsp_line)->0[0] == (ActionModel {
                title: "Submit MR input"@,
                command: Command::SubmitInput,
                argument: ArgumentModel::Nothing,
            })
            &&& s.actions_on(Some(file), lsp_line)->0[pending] == (ActionModel {
                title: "Add review comment"@,
                command: Command::AddComment,
                argument: ArgumentModel::FileLine { file, line },
            })
            &&& changed == 1 ==> s.actions_on(Some(file), lsp_line)->0[pending + 1] == (
            ActionModel {
                title: "View MR diff"@,
                command: Command::ViewDiff,
                argument: ArgumentModel::File { file },
            })
            &&& s.actions_on(Some(file), lsp_line)->0.subrange(start, start + threads.len())
                == threads
            &&& open == 1 ==> s.actions_on(Some(file), lsp_line)->0.last() == (ActionModel {
                title: "Approve MR !"@ + decimal(s.mr->0.iid as nat),
                command: Command::ApproveMr,
                argument: ArgumentModel::Nothing,
            })
        }),
{
    let line = (lsp_line + 1) as u32;
    lemma_changed(s, file);
    let pending = if s.pending_input is Some {
        1int
    } else {
        0
    };
    let changed = if s.is_changed(file) {
        1int
    } else {
        0
    };
    let threads = show_actions(s.group(file), line);
    let all = s.offered(file, line);
    let start = pending + 1 + changed;
    assert(all.subrange(start, start + threads.len()) =~= threads);
}

proof fn lemma_changed(s: BackendState, file: Seq<char>)
    ensures
        s.is_changed(file) <==> diffs_model(s.diffs@).any(|d: MrDiffModel| d.new_path == file),
{
    let f = |d: MrDiffModel| d.new_path == file;
    let all = diffs_model(s.diffs@);
    if s.is_changed(file) {
        let i = choose|i: int| 0 <= i < s.diffs.len() && (#[trigger] s.diffs@[i]).new_path@ == file;
        assert(all[i] == s.diffs@[i]@);
        assert(f(all[i]));
    }
    if all.any(f) {
        let i = choose|i: int| 0 <= i < all.len() && f(#[trigger] all[i]);
        assert(all[i] == s.diffs@[i]@);
        assert(s.diffs@[i].new_path@ == file);
    }
}

/// The hints of a file are those of all loaded discussions, as the merge request stands.
pub proof fn law_hints_shown(s: BackendState, file: Seq<char>)
    requires
        s.blocker() is None,
    ensures
        s.hints_in(Some(file)) == hints_of(
            discussions_model(s.discussions@),
            file,
            match s.mr {
                Some(m) => refs_model(m.diff_refs),
                None => None,
            },
        ),
{
}

/// An opened file is told of by the hint that it is changed, where a diff of it is loaded, and by
/// the diagnostics of the discussions that are kept under it.
pub proof fn law_told_on_open(s: BackendState, file: Seq<char>)
    ensures
        ({
            let shown = if s.discussions_by_file@.contains_key(file) {
                diagnostics_of(
                    discussions_model(s.discussions_by_file@[file]@),
                    file,
                    match s.mr {
                        Some(m) => refs_model(m.diff_refs),
                        None => None,
                    },
                )
            } else {
                Seq::empty()
            };
            s.told_on_open(file) == (if diffs_model(s.diffs@).any(
                |d: MrDiffModel| d.new_path == file,
            ) {
                seq![
                    changed_hint(
                        match s.mr {
                            Some(m) => "MR !"@ + decimal(m.iid as nat),
                            None => Seq::empty(),
                        },
                    ),
                ] + shown
            } else {
                shown
            })
        }),
{
    lemma_changed(s, file);
    let shown = s.shown(file);
    assert(Seq::<DiagnosticModel>::empty() + shown =~= shown);
}

/// The label of the picker's entries is the merge request's number and title.
pub proof fn law_long_label(mr: MergeRequest)
    ensures
        long_label(Some(mr)) == "MR !"@ + decimal(mr.iid as nat) + " — "@ + mr.title@,
        long_label(None) == Seq::<char>::empty(),
{
}

/// The first workspace folder counts before the root.
pub proof fn law_first_folder_counts(folder: Seq<char>, root: Option<Seq<char>>)
    ensures
        first_path(Some(folder), root) == Some(folder),
        first_path(None, root) == root,
{
}

/// A thread cannot be given a title if and only if the first line of its first note would have to be
/// cut inside a character; and a line cannot be offered if and only if a thread that begins on it
/// cannot be given one.
pub proof fn law_titleable(s: BackendState, file: Seq<char>, line: u32, d: DiscussionModel)
    ensures
        !can_be_titled(d) <==> d.notes.len() > 0 && byte_len(first_line(d.notes[0].body)) > 40
            && byte_prefix(first_line(d.notes[0].body), 40) is None,
        ({
            let ds = discussions_model(s.discussions_by_file@[file]@);
            s.discussions_by_file@.contains_key(file) ==> (!s.can_be_offered(file, line) <==> exists|
                i: int,
            |
                0 <= i < ds.len() && begins_on(#[trigger] ds[i], line) && !can_be_titled(ds[i]))
        }),
        !s.discussions_by_file@.contains_key(file) ==> s.can_be_offered(file, line),
{
    if s.discussions_by_file@.contains_key(file) {
        let ds = discussions_model(s.discussions_by_file@[file]@);
        assert(s.group(file) == ds);
    }
}

/// Only while something is pending can its file be closed, and the file that is pending is
/// recognised by its very path.
pub proof fn law_input_file(s: BackendState, path: Option<Seq<char>>, is_input: bool)
    requires
        is_input_file(s, path, is_input),
    ensures
        s.pending_input is None ==> !is_input,
        path is None ==> !is_input,
        (s.pending_input matches Some((pending, action)) && path == Some(pending@)) ==> is_input,
{
}

/// An opened file is told of under its URI, and not at all where it has none.
pub proof fn law_opening(s: BackendState, file: Seq<char>, uri: Seq<char>)
    ensures
        opening_told(s, file, Some(uri)) == Some((uri, s.told_on_open(file))),
        opening_told(s, file, None) is None,
{
}

/// The workspace's directory counts before the root that git finds, which counts only where none is
/// known; the project is the one that git finds, and stays where it finds none.
pub proof fn law_roots(workspace: String, found: String, was: String, e: GitError)
    ensures
        opened_root(Some(workspace), was) == workspace,
        opened_root(None, was) == was,
        was@.len() > 0 ==> found_root(Ok(found), was) == was,
        was@.len() == 0 ==> found_root(Ok(found), was) == found,
        found_root(Err(e), was) == was,
        found_project(Ok(found), was) == found,
        found_project(Err(e), was) == was,
{
}

} // verus!
