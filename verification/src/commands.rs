//! The commands that the editor offers: what each asks of GitLab, what it leaves in the state, and
//! what the user is told.
use vstd::prelude::*;
use vstd::string::StringExecFns;

use crate::backend::{BackendState, PendingAction, PendingModel};
use crate::config::Config;
use crate::convert::{discussion_is_resolved, is_resolved, render_thread, thread_text};
use crate::gitlab::client::{
    discussion_address,
    mr_address,
    BodyModel,
    Call,
    ClientError,
    GitLabClient,
    Method,
    Request,
    RequestModel,
};
use crate::gitlab::diff::{
    is_file_header,
    law_headers_ignored,
    line_map,
    position_at,
    position_on,
};
use crate::gitlab::types::{
    diffs_model,
    discussions_model,
    DiscussionModel,
    MrDiff,
    MrDiffModel,
    NotePosition,
    NotePositionModel,
};
use crate::message::{
    error_text,
    info_text,
    message_model,
    warning_text,
    Message,
    MessageType,
};
use crate::number::{decimal, decimal_of};
use crate::paths::{is_join, join_path};
use crate::refresh::{current_refs, refs_of};
use crate::text::{
    chars_of,
    is_core,
    is_space,
    join,
    joined,
    law_trim,
    lemma_lines_cons,
    lines,
    lines_of,
    replace,
    replaced,
    same_text,
    starts_with,
    string_of,
    string_texts,
    strip_cr,
    texts,
    trim,
    trimmed,
};

verus! {

// ── Which command ───────────────────────────────────────────────────────────────────────────────

/// A command that the editor can run.
#[derive(Debug, Clone, Copy, PartialEq, Eq, Structural)]
pub enum Command {
    AddComment,
    ShowThread,
    ReplyToThread,
    ResolveThread,
    SubmitInput,
    ViewDiff,
    ApproveMr,
}

impl Command {
    /// The name under which the editor runs the command.
    pub open spec fn text(self) -> Seq<char> {
        match self {
            Command::AddComment => "gitlab-mr.addComment"@,
            Command::ShowThread => "gitlab-mr.showThread"@,
            Command::ReplyToThread => "gitlab-mr.replyToThread"@,
            Command::ResolveThread => "gitlab-mr.resolveThread"@,
            Command::SubmitInput => "gitlab-mr.submitInput"@,
            Command::ViewDiff => "gitlab-mr.viewDiff"@,
            Command::ApproveMr => "gitlab-mr.approveMr"@,
        }
    }

    /// The name under which the editor runs the command.
    pub fn name(self) -> (r: &'static str)
        ensures
            r@ == self.text(),
    {
        match self {
            Command::AddComment => "gitlab-mr.addComment",
            Command::ShowThread => "gitlab-mr.showThread",
            Command::ReplyToThread => "gitlab-mr.replyToThread",
            Command::ResolveThread => "gitlab-mr.resolveThread",
            Command::SubmitInput => "gitlab-mr.submitInput",
            Command::ViewDiff => "gitlab-mr.viewDiff",
            Command::ApproveMr => "gitlab-mr.approveMr",
        }
    }
}

/// The commands, in the order in which they are announced.
pub open spec fn announced() -> Seq<Command> {
    seq![
        Command::AddComment,
        Command::ShowThread,
        Command::ReplyToThread,
        Command::ResolveThread,
        Command::SubmitInput,
        Command::ViewDiff,
        Command::ApproveMr,
    ]
}

/// The names of the commands, as they are announced to the editor.
pub fn command_names() -> (r: Vec<String>)
    ensures
        string_texts(r@) == announced().map_values(|c: Command| c.text()),
{
    let mut r: Vec<String> = Vec::new();
    r.push(Command::AddComment.name().to_owned());
    r.push(Command::ShowThread.name().to_owned());
    r.push(Command::ReplyToThread.name().to_owned());
    r.push(Command::ResolveThread.name().to_owned());
    r.push(Command::SubmitInput.name().to_owned());
    r.push(Command::ViewDiff.name().to_owned());
    r.push(Command::ApproveMr.name().to_owned());
    assert(string_texts(r@) =~= announced().map_values(|c: Command| c.text()));
    r
}

/// The command of that name, where there is one.
pub fn command_named(name: &str) -> (r: Option<Command>)
    ensures
        (match r {
            Some(c) => name@ == c.text(),
            None => forall|c: Command| name@ != #[trigger] c.text(),
        }),
{
    if same_text(name, Command::AddComment.name()) {
        Some(Command::AddComment)
    } else if same_text(name, Command::ShowThread.name()) {
        Some(Command::ShowThread)
    } else if same_text(name, Command::ReplyToThread.name()) {
        Some(Command::ReplyToThread)
    } else if same_text(name, Command::ResolveThread.name()) {
        Some(Command::ResolveThread)
    } else if same_text(name, Command::SubmitInput.name()) {
        Some(Command::SubmitInput)
    } else if same_text(name, Command::ViewDiff.name()) {
        Some(Command::ViewDiff)
    } else if same_text(name, Command::ApproveMr.name()) {
        Some(Command::ApproveMr)
    } else {
        assert forall|c: Command| name@ != #[trigger] c.text() by {
            match c {
                Command::AddComment => {},
                Command::ShowThread => {},
                Command::ReplyToThread => {},
                Command::ResolveThread => {},
                Command::SubmitInput => {},
                Command::ViewDiff => {},
                Command::ApproveMr => {},
            }
        }
        None
    }
}

// ── The buffer in which the user writes ─────────────────────────────────────────────────────────

/// A text that the user is to write, and what becomes of it.
#[derive(Debug)]
pub struct InputRequest {
    pub prompt: String,
    pub action: PendingAction,
}

/// The low 32 bits of a number.
pub open spec fn low_32_bits(n: u64) -> u32 {
    (n % 0x1_0000_0000) as u32
}

/// The comment on a line of a file that is asked for.
pub open spec fn comment_asked_for(file: Option<Seq<char>>, line: Option<u64>) -> PendingModel {
    PendingModel::AddComment {
        file: match file {
            Some(f) => f,
            None => Seq::empty(),
        },
        line: match line {
            Some(l) => low_32_bits(l),
            None => 0,
        },
    }
}

/// Asks for a comment on a line of a file. A file that is not named is the empty path, a line
/// that is not named is number zero, and of a line the low 32 bits count.
pub fn handle_add_comment(file: Option<&str>, line: Option<u64>) -> (r: InputRequest)
    ensures
        r.prompt@
            == "# Write your review comment below. Lines starting with # are ignored.\n# Save and run 'Submit MR input' (gitlab-mr.submitInput) when done.\n"@,
        r.action@ == comment_asked_for(
            match file {
                Some(f) => Some(f@),
                None => None,
            },
            line,
        ),
{
    let line: u32 = match line {
        Some(l) => {
            assert(l as u32 == l % 0x1_0000_0000) by (bit_vector);
            #[verifier::truncate]
            (l as u32)
        },
        None => 0,
    };
    InputRequest {
        prompt:
            "# Write your review comment below. Lines starting with # are ignored.\n# Save and run 'Submit MR input' (gitlab-mr.submitInput) when done.\n".to_owned(),
        action: PendingAction::AddComment { file: text_or_empty(file), line },
    }
}

/// Asks for a reply in a discussion. One that is not named has the empty id.
pub fn handle_reply(discussion_id: Option<&str>) -> (r: InputRequest)
    ensures
        r.prompt@
            == "# Write your reply below. Lines starting with # are ignored.\n# Save and run 'Submit MR input' (gitlab-mr.submitInput) when done.\n"@,
        r.action@ == (PendingModel::Reply {
            discussion_id: match discussion_id {
                Some(id) => id@,
                None => Seq::empty(),
            },
        }),
{
    InputRequest {
        prompt:
            "# Write your reply below. Lines starting with # are ignored.\n# Save and run 'Submit MR input' (gitlab-mr.submitInput) when done.\n".to_owned(),
        action: PendingAction::Reply { discussion_id: text_or_empty(discussion_id) },
    }
}

/// The text, or the empty one.
pub fn text_or_empty(text: Option<&str>) -> (r: String)
    ensures
        r@ == (match text {
            Some(t) => t@,
            None => Seq::empty(),
        }),
{
    match text {
        Some(t) => t.to_owned(),
        None => {
            let r = String::new();
            assert(r@ =~= Seq::<char>::empty());
            r
        },
    }
}

/// The file in which the user writes, in the directory for temporary files.
pub fn input_path(temp_dir: &str) -> (r: String)
    ensures
        is_join(temp_dir@, "gitlab-mr-input.md"@, r@),
{
    join_path(temp_dir, "gitlab-mr-input.md")
}

/// Guard: don't overwrite a pending input the user hasn't submitted yet.
pub fn refuse_input(s: &BackendState) -> (r: Option<Message>)
    ensures
        message_model(r) == (if s.pending_input is Some {
            Some(
                warning_text(
                    "A comment is already in progress. Submit or cancel it first (delete the contents and run 'Submit MR input')."@,
                ),
            )
        } else {
            None
        }),
{
    if s.pending_input.is_some() {
        Some(
            Message::warning(
                "A comment is already in progress. Submit or cancel it first (delete the contents and run 'Submit MR input').",
            ),
        )
    } else {
        None
    }
}

/// Model of a pending input.
pub open spec fn pending_model(p: Option<(String, PendingAction)>) -> Option<
    (Seq<char>, PendingModel),
> {
    match p {
        Some((path, action)) => Some((path@, action@)),
        None => None,
    }
}

/// Takes in whether the prompt could be written to the file at `path`; where it could not,
/// `failure` says why. What is to become of the input is kept once the prompt is written.
pub fn input_written(
    s: &mut BackendState,
    path: &str,
    action: PendingAction,
    failure: Option<&str>,
) -> (r: Option<Message>)
    ensures
        (match failure {
            Some(why) => {
                &&& message_model(r) == Some(
                    error_text("Failed to open input buffer: "@ + why@),
                )
                &&& *final(s) == *old(s)
            },
            None => {
                &&& r is None
                &&& pending_model(final(s).pending_input) == Some((path@, action@))
                &&& *final(s) == (BackendState {
                    pending_input: final(s).pending_input,
                    ..*old(s)
                })
            },
        }),
{
    match failure {
        Some(why) => {
            let mut text = "Failed to open input buffer: ".to_owned();
            text.append(why);
            Some(Message::error(text.as_str()))
        },
        None => {
            s.pending_input = Some((path.to_owned(), action));
            None
        },
    }
}

/// What is pending once the editor has answered whether it opened the file.
pub open spec fn still_pending(
    pending: Option<(String, PendingAction)>,
    opened: bool,
) -> Option<(String, PendingAction)> {
    if opened {
        pending
    } else {
        None
    }
}

/// Takes in whether the editor opened the file. Where it did not, nothing is pending any more.
pub fn input_shown(s: &mut BackendState, opened: bool) -> (r: Message)
    ensures
        r@ == (if opened {
            info_text(
                "Write your comment, save, then run 'Submit MR input' (gitlab-mr.submitInput)."@,
            )
        } else {
            error_text("Helix could not open the input buffer."@)
        }),
        *final(s) == (BackendState {
            pending_input: still_pending(old(s).pending_input, opened),
            ..*old(s)
        }),
{
    if opened {
        Message::info(
            "Write your comment, save, then run 'Submit MR input' (gitlab-mr.submitInput).",
        )
    } else {
        s.pending_input = None;
        Message::error("Helix could not open the input buffer.")
    }
}

// ── Submitting what the user wrote ──────────────────────────────────────────────────────────────

/// Takes the pending input out of the state: the file, and what is to become of its contents.
pub fn take_input(s: &mut BackendState) -> (r: Result<(String, PendingAction), Message>)
    ensures
        (match (old(s).pending_input, r) {
            (Some(p), Ok(q)) => p == q,
            (None, Err(m)) => m@ == warning_text("No pending MR input to submit."@),
            _ => false,
        }),
        *final(s) == (BackendState { pending_input: None, ..*old(s) }),
{
    match s.pending_input.take() {
        Some(p) => Ok(p),
        None => Err(Message::warning("No pending MR input to submit.")),
    }
}

/// What the user is told where the file cannot be read.
pub fn input_unreadable(why: &str) -> (r: Message)
    ensures
        r@ == error_text("Could not read input file: "@ + why@),
{
    let mut text = "Could not read input file: ".to_owned();
    text.append(why);
    Message::error(text.as_str())
}

/// The lines that do not start with `#`, in order.
pub open spec fn spoken(ls: Seq<Seq<char>>) -> Seq<Seq<char>>
    decreases ls.len(),
{
    if ls.len() == 0 {
        Seq::empty()
    } else if ls.last().len() > 0 && ls.last()[0] == '#' {
        spoken(ls.drop_last())
    } else {
        spoken(ls.drop_last()).push(ls.last())
    }
}

/// What the user wrote: the lines that do not start with `#`.
pub open spec fn written(contents: Seq<char>) -> Seq<char> {
    join(spoken(lines(contents)), "\n"@)
}

/// There is something to post: not nothing but white space.
pub open spec fn has_text(contents: Seq<char>) -> bool {
    trim(written(contents)).len() > 0
}

/// What the user wrote.
pub fn input_body(contents: &str) -> (r: String)
    ensures
        r@ == written(contents@),
{
    let chars = chars_of(contents);
    let all = lines_of(chars.as_slice());
    let ghost ls = texts(all@);
    let mut kept: Vec<String> = Vec::new();
    let mut i: usize = 0;
    assert(string_texts(kept@) =~= spoken(ls.take(0)));
    while i < all.len()
        invariant
            i <= all.len(),
            ls == texts(all@),
            string_texts(kept@) == spoken(ls.take(i as int)),
        decreases all.len() - i,
    {
        assert(ls.take(i + 1).drop_last() =~= ls.take(i as int));
        assert(ls[i as int] == all@[i as int]@);
        if all[i].len() == 0 || all[i][0] != '#' {
            let ghost before = kept@;
            let line = string_of(all[i].as_slice());
            kept.push(line);
            assert(string_texts(kept@) =~= string_texts(before).push(line@));
        }
        i += 1;
    }
    assert(ls.take(ls.len() as int) =~= ls);
    joined(&kept, "\n")
}

/// What every request on the merge request needs.
#[derive(Debug)]
pub struct Snapshot {
    pub config: Config,
    pub project_path: String,
    pub mr_iid: u64,
}

/// The configuration, the project and the number of the merge request, where something is
/// configured and a merge request is loaded.
pub fn snap_config_mr(s: &BackendState) -> (r: Option<Snapshot>)
    ensures
        (match r {
            Some(snap) => {
                &&& s.config matches Some(c) && snap.config@ == c@
                &&& s.mr matches Some(mr) && snap.mr_iid == mr.iid
                &&& snap.project_path@ == s.project_path@
            },
            None => s.config is None || s.mr is None,
        }),
{
    match (&s.config, &s.mr) {
        (Some(c), Some(mr)) => Some(
            Snapshot {
                config: c.clone(),
                project_path: s.project_path.clone(),
                mr_iid: mr.iid,
            },
        ),
        _ => None,
    }
}

/// A note to be posted.
#[derive(Debug)]
pub enum NewNote {
    /// On a line of the diff.
    OnLine { body: String, position: NotePosition },
    /// On the merge request as a whole.
    General { body: String },
    /// In a discussion.
    Reply { discussion_id: String, body: String },
}

/// Model of [`NewNote`].
pub enum NewNoteModel {
    OnLine { body: Seq<char>, position: NotePositionModel },
    General { body: Seq<char> },
    Reply { discussion_id: Seq<char>, body: Seq<char> },
}

impl View for NewNote {
    type V = NewNoteModel;

    open spec fn view(&self) -> NewNoteModel {
        match self {
            NewNote::OnLine { body, position } => NewNoteModel::OnLine {
                body: body@,
                position: position@,
            },
            NewNote::General { body } => NewNoteModel::General { body: body@ },
            NewNote::Reply { discussion_id, body } => NewNoteModel::Reply {
                discussion_id: discussion_id@,
                body: body@,
            },
        }
    }
}

/// The note that becomes of the input: a comment goes on its line where the commits of the diff
/// are known, and on the merge request as a whole where they are not.
pub open spec fn note_from(s: BackendState, action: PendingModel, body: Seq<char>) -> NewNoteModel {
    match action {
        PendingModel::AddComment { file, line } => match refs_of(s.mr) {
            Some(refs) => NewNoteModel::OnLine { body, position: position_on(line, file, refs) },
            None => NewNoteModel::General { body },
        },
        PendingModel::Reply { discussion_id } => NewNoteModel::Reply { discussion_id, body },
    }
}

/// What follows when the user submits.
#[derive(Debug)]
pub enum Submission {
    /// Nothing is posted: there is nothing but white space to post.
    Cancelled { message: Message },
    /// Nothing can be posted: nothing is configured, or no merge request is loaded.
    Unready,
    /// The note is posted.
    Post { target: Snapshot, note: NewNote },
}

/// What becomes of the contents of the file in which the user wrote.
pub fn submit_input(s: &BackendState, action: PendingAction, contents: &str) -> (r: Submission)
    ensures
        (match r {
            Submission::Cancelled { message } => !has_text(contents@) && message@ == info_text(
                "Submission cancelled (empty body)."@,
            ),
            Submission::Unready => has_text(contents@) && (s.config is None || s.mr is None),
            Submission::Post { target, note } => {
                &&& has_text(contents@)
                &&& s.config matches Some(c) && target.config@ == c@
                &&& s.mr matches Some(mr) && target.mr_iid == mr.iid
                &&& target.project_path@ == s.project_path@
                &&& note@ == note_from(*s, action@, written(contents@))
            },
        }),
{
    let body = input_body(contents);
    let chars = chars_of(body.as_str());
    if trimmed(chars.as_slice()).len() == 0 {
        return Submission::Cancelled {
            message: Message::info("Submission cancelled (empty body)."),
        };
    }
    let target = match snap_config_mr(s) {
        Some(t) => t,
        None => {
            return Submission::Unready;
        },
    };
    let note = match action {
        PendingAction::AddComment { file, line } => match current_refs(&s.mr) {
            Some(refs) => NewNote::OnLine { body, position: position_at(line, file.as_str(), refs) },
            None => NewNote::General { body },
        },
        PendingAction::Reply { discussion_id } => NewNote::Reply { discussion_id, body },
    };
    Submission::Post { target, note }
}

/// The request that posts the note.
pub open spec fn post_request(
    base: Seq<char>,
    token: Seq<char>,
    project_path: Seq<char>,
    iid: u64,
    note: NewNoteModel,
) -> RequestModel {
    let (call, url, body) = match note {
        NewNoteModel::OnLine { body, position } => (
            Call::CreateDiffNote,
            mr_address(base, project_path, iid) + "/discussions"@,
            BodyModel::DiffNote(body, position),
        ),
        NewNoteModel::General { body } => (
            Call::CreateNote,
            mr_address(base, project_path, iid) + "/notes"@,
            BodyModel::Note(body),
        ),
        NewNoteModel::Reply { discussion_id, body } => (
            Call::ReplyToDiscussion,
            discussion_address(base, project_path, iid, discussion_id) + "/notes"@,
            BodyModel::Note(body),
        ),
    };
    RequestModel { call, method: Method::Post, url, token, query: Seq::empty(), body }
}

/// What the user is told of a request that has ended, and whether the state is to be brought up to
/// date.
#[derive(Debug)]
pub struct Outcome {
    pub message: Message,
    pub refresh: bool,
}

/// A request that has ended well.
pub open spec fn is_success(o: Outcome, text: Seq<char>) -> bool {
    o.message@ == info_text(text) && o.refresh
}

/// A request that has failed.
pub open spec fn is_failure(o: Outcome, text: Seq<char>, e: ClientError) -> bool {
    o.message@ == error_text(text + e.text()) && !o.refresh
}

fn success(text: &str) -> (o: Outcome)
    ensures
        is_success(o, text@),
{
    Outcome { message: Message::info(text), refresh: true }
}

fn failure(text: &str, e: &ClientError) -> (o: Outcome)
    ensures
        is_failure(o, text@, *e),
{
    let mut m = text.to_owned();
    m.append(e.message().as_str());
    Outcome { message: Message::error(m.as_str()), refresh: false }
}

impl NewNote {
    /// The request that posts the note.
    pub fn request<'a>(&'a self, gl: &GitLabClient, project_path: &str, iid: u64) -> (r: Request<
        'a,
    >)
        ensures
            r@ == post_request(gl.base(), gl.secret(), project_path@, iid, self@),
    {
        match self {
            NewNote::OnLine { body, position } => gl.create_diff_note(
                project_path,
                iid,
                body.as_str(),
                position,
            ),
            NewNote::General { body } => gl.create_note(project_path, iid, body.as_str()),
            NewNote::Reply { discussion_id, body } => gl.reply_to_discussion(
                project_path,
                iid,
                discussion_id.as_str(),
                body.as_str(),
            ),
        }
    }

    /// What the user is told once the request has ended.
    pub fn posted(&self, result: Result<(), ClientError>) -> (o: Outcome)
        ensures
            (match (self@, result) {
                (NewNoteModel::Reply { discussion_id, body }, Ok(_)) => is_success(
                    o,
                    "Reply posted to GitLab."@,
                ),
                (NewNoteModel::Reply { discussion_id, body }, Err(e)) => is_failure(
                    o,
                    "Failed to post reply: "@,
                    e,
                ),
                (_, Ok(_)) => is_success(o, "Comment posted to GitLab."@),
                (_, Err(e)) => is_failure(o, "Failed to post comment: "@, e),
            }),
    {
        match (self, result) {
            (NewNote::Reply { .. }, Ok(_)) => success("Reply posted to GitLab."),
            (NewNote::Reply { .. }, Err(e)) => failure("Failed to post reply: ", &e),
            (_, Ok(_)) => success("Comment posted to GitLab."),
            (_, Err(e)) => failure("Failed to post comment: ", &e),
        }
    }
}

// ── Threads ─────────────────────────────────────────────────────────────────────────────────────

/// What the user is told once a request to resolve a thread, or to open it again, has ended.
pub fn resolve_outcome(resolve: bool, result: Result<(), ClientError>) -> (o: Outcome)
    ensures
        (match result {
            Ok(_) => is_success(
                o,
                if resolve {
                    "Thread resolved."@
                } else {
                    "Thread unresolved."@
                },
            ),
            Err(e) => is_failure(o, "Failed to resolve: "@, e),
        }),
{
    match result {
        Ok(_) => success(
            if resolve {
                "Thread resolved."
            } else {
                "Thread unresolved."
            },
        ),
        Err(e) => failure("Failed to resolve: ", &e),
    }
}

/// The first discussion with the id, where there is one.
pub open spec fn thread_with(ds: Seq<DiscussionModel>, id: Seq<char>) -> Option<DiscussionModel>
    decreases ds.len(),
{
    if ds.len() == 0 {
        None
    } else if ds[0].id == id {
        Some(ds[0])
    } else {
        thread_with(ds.drop_first(), id)
    }
}

/// What the user can choose to do with a thread.
pub open spec fn thread_choices(resolved: bool) -> Seq<Seq<char>> {
    seq![
        "Reply"@,
        if resolved {
            "Unresolve"@
        } else {
            "Resolve"@
        },
        "Dismiss"@,
    ]
}

/// A thread as it is shown.
#[derive(Debug)]
pub struct ShownThread {
    pub text: String,
    pub resolved: bool,
    /// What the user can choose.
    pub choices: Vec<String>,
}

/// Looks the thread up and renders it.
pub fn handle_show_thread(s: &BackendState, discussion_id: &str) -> (r: Result<
    ShownThread,
    Message,
>)
    ensures
        (match (thread_with(discussions_model(s.discussions@), discussion_id@), r) {
            (Some(d), Ok(shown)) => {
                &&& shown.text@ == thread_text(d, refs_of(s.mr))
                &&& shown.resolved == is_resolved(d)
                &&& string_texts(shown.choices@) == thread_choices(is_resolved(d))
            },
            (None, Err(m)) => m@ == warning_text("gitlab-mr-lsp: thread not found."@),
            _ => false,
        }),
{
    let ghost all = discussions_model(s.discussions@);
    let mut i: usize = 0;
    assert(all.skip(0) =~= all);
    while i < s.discussions.len()
        invariant
            i <= s.discussions.len(),
            all == discussions_model(s.discussions@),
            thread_with(all, discussion_id@) == thread_with(all.skip(i as int), discussion_id@),
        decreases s.discussions.len() - i,
    {
        let d = &s.discussions[i];
        assert(all.skip(i as int)[0] == d@);
        assert(all.skip(i as int).drop_first() =~= all.skip(i + 1));
        if same_text(d.id.as_str(), discussion_id) {
            let resolved = discussion_is_resolved(d);
            let mut choices: Vec<String> = Vec::new();
            choices.push("Reply".to_owned());
            choices.push(
                (if resolved {
                    "Unresolve"
                } else {
                    "Resolve"
                }).to_owned(),
            );
            choices.push("Dismiss".to_owned());
            assert(string_texts(choices@) =~= thread_choices(resolved));
            return Ok(
                ShownThread { text: render_thread(d, current_refs(&s.mr)), resolved, choices },
            );
        }
        i += 1;
    }
    Err(Message::warning("gitlab-mr-lsp: thread not found."))
}

/// What the user chose to do with a thread.
#[derive(Debug, Clone, Copy, PartialEq, Eq, Structural)]
pub enum ThreadAction {
    Reply,
    /// Resolve it, or open it again.
    SetResolved(bool),
    Dismiss,
}

/// What the user chose to do with a thread. No choice, and any that was not offered, dismisses it.
pub open spec fn action_for(chosen: Option<Seq<char>>, resolved: bool) -> ThreadAction {
    match chosen {
        Some(title) => if title == "Reply"@ {
            ThreadAction::Reply
        } else if title == "Resolve"@ || title == "Unresolve"@ {
            ThreadAction::SetResolved(!resolved)
        } else {
            ThreadAction::Dismiss
        },
        None => ThreadAction::Dismiss,
    }
}

/// What the user chose to do with a thread.
pub fn thread_action(chosen: Option<&str>, resolved: bool) -> (r: ThreadAction)
    ensures
        r == action_for(
            match chosen {
                Some(title) => Some(title@),
                None => None,
            },
            resolved,
        ),
{
    match chosen {
        Some(title) => if same_text(title, "Reply") {
            ThreadAction::Reply
        } else if same_text(title, "Resolve") || same_text(title, "Unresolve") {
            ThreadAction::SetResolved(!resolved)
        } else {
            ThreadAction::Dismiss
        },
        None => ThreadAction::Dismiss,
    }
}

// ── Diffs ───────────────────────────────────────────────────────────────────────────────────────

/// The first diff of the file, where there is one.
pub open spec fn diff_of(diffs: Seq<MrDiffModel>, file: Seq<char>) -> Option<MrDiffModel>
    decreases diffs.len(),
{
    if diffs.len() == 0 {
        None
    } else if diffs[0].new_path == file {
        Some(diffs[0])
    } else {
        diff_of(diffs.drop_first(), file)
    }
}

/// The diff with a standard header before it, by which editors recognise the file type and which
/// shows the file name clearly.
pub open spec fn diff_text(d: MrDiffModel) -> Seq<char> {
    "diff --git a/"@ + d.old_path + " b/"@ + d.new_path + "\n--- a/"@ + d.old_path + "\n+++ b/"@
        + d.new_path + "\n"@ + d.diff
}

/// The name of the file that shows the diff: it has the number of the merge request and the path
/// of the file in it, with an underscore for each separator.
pub open spec fn diff_file_name(iid: u64, file: Seq<char>, sep: char) -> Seq<char> {
    "gitlab-mr-"@ + decimal(iid as nat) + "-"@ + replace(replace(file, '/', "_"@), sep, "_"@)
        + ".diff"@
}

/// A diff as it is shown.
#[derive(Debug)]
pub struct ShownDiff {
    pub file_name: String,
    pub contents: String,
}

/// The diff of the file, under a name that stays the same so that re-running the command
/// refreshes the same buffer.
pub fn handle_view_diff(s: &BackendState, file: &str, sep: char) -> (r: Result<ShownDiff, Message>)
    ensures
        (match (diff_of(diffs_model(s.diffs@), file@), r) {
            (Some(d), Ok(shown)) => {
                &&& shown.contents@ == diff_text(d)
                &&& shown.file_name@ == diff_file_name(
                    match s.mr {
                        Some(mr) => mr.iid,
                        None => 0,
                    },
                    file@,
                    sep,
                )
            },
            (None, Err(m)) => m@ == warning_text("No diff found for "@ + file@),
            _ => false,
        }),
{
    let ghost all = diffs_model(s.diffs@);
    let mut i: usize = 0;
    assert(all.skip(0) =~= all);
    while i < s.diffs.len()
        invariant
            i <= s.diffs.len(),
            all == diffs_model(s.diffs@),
            diff_of(all, file@) == diff_of(all.skip(i as int), file@),
        decreases s.diffs.len() - i,
    {
        let d = &s.diffs[i];
        assert(all.skip(i as int)[0] == d@);
        assert(all.skip(i as int).drop_first() =~= all.skip(i + 1));
        if same_text(d.new_path.as_str(), file) {
            let iid: u64 = match &s.mr {
                Some(mr) => mr.iid,
                None => 0,
            };
            return Ok(
                ShownDiff { file_name: name_of_diff(iid, file, sep), contents: text_of_diff(d) },
            );
        }
        i += 1;
    }
    let mut text = "No diff found for ".to_owned();
    text.append(file);
    Err(Message::warning(text.as_str()))
}

/// The diff with a standard header before it.
fn text_of_diff(d: &MrDiff) -> (r: String)
    ensures
        r@ == diff_text(d@),
{
    let mut r = "diff --git a/".to_owned();
    r.append(d.old_path.as_str());
    r.append(" b/");
    r.append(d.new_path.as_str());
    r.append("\n--- a/");
    r.append(d.old_path.as_str());
    r.append("\n+++ b/");
    r.append(d.new_path.as_str());
    r.append("\n");
    r.append(d.diff.as_str());
    r
}

/// The name of the file that shows the diff.
fn name_of_diff(iid: u64, file: &str, sep: char) -> (r: String)
    ensures
        r@ == diff_file_name(iid, file@, sep),
{
    let path = chars_of(file);
    let half = replaced(path.as_slice(), '/', "_");
    let rest = chars_of(half.as_str());
    let mut r = "gitlab-mr-".to_owned();
    r.append(decimal_of(iid).as_str());
    r.append("-");
    r.append(replaced(rest.as_slice(), sep, "_").as_str());
    r.append(".diff");
    r
}

/// What the user is told where the file that shows the diff cannot be written.
pub fn diff_unwritten(why: &str) -> (r: Message)
    ensures
        r@ == error_text("Failed to write diff: "@ + why@),
{
    let mut text = "Failed to write diff: ".to_owned();
    text.append(why);
    Message::error(text.as_str())
}

/// What the user is told where the file that shows the diff has no URI.
pub fn diff_without_uri() -> (r: Message)
    ensures
        r@ == error_text("Failed to build URI for diff file"@),
{
    Message::error("Failed to build URI for diff file")
}

/// What the user is told once the editor has answered whether it shows the diff; `None` where it
/// has not answered.
pub fn diff_shown(opened: Option<bool>) -> (r: Option<Message>)
    ensures
        message_model(r) == (if opened == Some(false) {
            Some(warning_text("Helix could not open the diff pane"@))
        } else {
            None
        }),
{
    match opened {
        Some(false) => Some(Message::warning("Helix could not open the diff pane")),
        _ => None,
    }
}

// ── Approval ────────────────────────────────────────────────────────────────────────────────────

/// What the user is told once the request that approves the merge request has ended.
pub fn approve_outcome(iid: u64, result: Result<(), ClientError>) -> (o: Outcome)
    ensures
        (match result {
            Ok(_) => is_success(o, "MR !"@ + decimal(iid as nat) + " approved."@),
            Err(e) => is_failure(o, "Failed to approve MR: "@, e),
        }),
{
    match result {
        Ok(_) => {
            let mut text = "MR !".to_owned();
            text.append(decimal_of(iid).as_str());
            text.append(" approved.");
            success(text.as_str())
        },
        Err(e) => failure("Failed to approve MR: ", &e),
    }
}

// ── Laws ────────────────────────────────────────────────────────────────────────────────────────

/// No two commands have the same name, so that the editor runs the one that was announced.
pub proof fn law_names_differ(a: Command, b: Command)
    requires
        a != b,
    ensures
        a.text() != b.text(),
{
    reveal_strlit("gitlab-mr.addComment");
    reveal_strlit("gitlab-mr.showThread");
    reveal_strlit("gitlab-mr.replyToThread");
    reveal_strlit("gitlab-mr.resolveThread");
    reveal_strlit("gitlab-mr.submitInput");
    reveal_strlit("gitlab-mr.viewDiff");
    reveal_strlit("gitlab-mr.approveMr");
    let s = a.text();
    let t = b.text();
    if s == t {
        assert(s[10] == t[10]);
        assert(s[11] == t[11]);
        assert(s[12] == t[12]);
    }
}

/// Every command is announced.
pub proof fn law_every_command_announced(c: Command)
    ensures
        announced().contains(c),
{
    let k: int = match c {
        Command::AddComment => 0,
        Command::ShowThread => 1,
        Command::ReplyToThread => 2,
        Command::ResolveThread => 3,
        Command::SubmitInput => 4,
        Command::ViewDiff => 5,
        Command::ApproveMr => 6,
    };
    assert(announced()[k] == c);
}

proof fn lemma_spoken_cons(line: Seq<char>, ls: Seq<Seq<char>>)
    ensures
        spoken(seq![line] + ls) == (if line.len() > 0 && line[0] == '#' {
            spoken(ls)
        } else {
            seq![line] + spoken(ls)
        }),
    decreases ls.len(),
{
    let all = seq![line] + ls;
    if ls.len() == 0 {
        assert(all.drop_last() =~= Seq::<Seq<char>>::empty());
        assert(all.last() == line);
        assert(spoken(all.drop_last()) =~= Seq::<Seq<char>>::empty());
        assert(spoken(all) =~= if line.len() > 0 && line[0] == '#' {
            spoken(ls)
        } else {
            seq![line] + spoken(ls)
        });
    } else {
        assert(all.drop_last() =~= seq![line] + ls.drop_last());
        lemma_spoken_cons(line, ls.drop_last());
        assert(all.last() == ls.last());
        assert(spoken(all) =~= if line.len() > 0 && line[0] == '#' {
            spoken(ls)
        } else {
            seq![line] + spoken(ls)
        });
    }
}

/// Lines starting with `#` are ignored: with one more of them before it, a text says the same.
pub proof fn law_hash_line_ignored(line: Seq<char>, rest: Seq<char>)
    requires
        line.len() > 0,
        line[0] == '#',
        !line.contains('\n'),
    ensures
        written(line + seq!['\n'] + rest) == written(rest),
{
    lemma_lines_cons(line, rest);
    lemma_spoken_cons(strip_cr(line), lines(rest));
}

/// Other lines are kept: with one more of them before it, a text says that line first.
pub proof fn law_other_line_kept(line: Seq<char>, rest: Seq<char>)
    requires
        line.len() == 0 || line[0] != '#',
        !line.contains('\n'),
    ensures
        spoken(lines(line + seq!['\n'] + rest)) == seq![strip_cr(line)] + spoken(lines(rest)),
{
    lemma_lines_cons(line, rest);
    lemma_spoken_cons(strip_cr(line), lines(rest));
}

/// Who submits nothing but lines starting with `#` cancels.
pub proof fn law_only_hash_lines_cancel(contents: Seq<char>)
    requires
        forall|i: int|
            0 <= i < lines(contents).len() ==> (#[trigger] lines(contents)[i]).len() > 0
                && lines(contents)[i][0] == '#',
    ensures
        trim(written(contents)).len() == 0,
{
    lemma_nothing_spoken(lines(contents));
}

proof fn lemma_nothing_spoken(ls: Seq<Seq<char>>)
    requires
        forall|i: int| 0 <= i < ls.len() ==> (#[trigger] ls[i]).len() > 0 && ls[i][0] == '#',
    ensures
        spoken(ls).len() == 0,
    decreases ls.len(),
{
    if ls.len() > 0 {
        assert(ls[ls.len() - 1] == ls.last());
        assert forall|i: int| 0 <= i < ls.drop_last().len() implies (#[trigger] ls.drop_last()[i]).len()
            > 0 && ls.drop_last()[i][0] == '#' by {
            assert(ls.drop_last()[i] == ls[i]);
        }
        lemma_nothing_spoken(ls.drop_last());
    }
}

/// A comment is posted where it was asked for: as soon as the commits of the diff are known, on
/// that line of that file.
pub proof fn law_comment_on_its_line(s: BackendState, file: Seq<char>, line: u32, body: Seq<char>)
    requires
        refs_of(s.mr) is Some,
    ensures
        note_from(s, PendingModel::AddComment { file, line }, body) matches NewNoteModel::OnLine {
            body: posted,
            position,
        } && posted == body && position.new_path == file && position.new_line == Some(line),
{
}

/// The choice between resolving and opening again does what it says: it sets the thread to the
/// other state, whichever the thread is in.
pub proof fn law_choice_toggles(resolved: bool)
    ensures
        action_for(Some(thread_choices(resolved)[1]), resolved) == ThreadAction::SetResolved(
            !resolved,
        ),
        action_for(Some(thread_choices(resolved)[0]), resolved) == ThreadAction::Reply,
        action_for(Some(thread_choices(resolved)[2]), resolved) == ThreadAction::Dismiss,
{
    reveal_strlit("Reply");
    reveal_strlit("Resolve");
    reveal_strlit("Unresolve");
    reveal_strlit("Dismiss");
    assert("Reply"@.len() == 5);
    assert("Resolve"@[0] == 'R');
    assert("Dismiss"@[0] == 'D');
}

proof fn lemma_both_without(a: Seq<char>, b: Seq<char>, c: char)
    requires
        !a.contains(c),
        !b.contains(c),
    ensures
        !(a + b).contains(c),
{
    let all = a + b;
    if all.contains(c) {
        let k = all.index_of(c);
        if k < a.len() {
            assert(a[k] == c);
        } else {
            assert(b[k - a.len()] == c);
        }
    }
}

proof fn lemma_header_line(mark: Seq<char>, rest: Seq<char>)
    requires
        mark.len() >= 4,
        mark.take(4) == "--- "@ || mark.take(4) == "+++ "@ || (mark.len() >= 5 && mark.take(5)
            == "diff "@),
    ensures
        is_file_header(mark + rest),
        !starts_with(mark + rest, "@@"@),
        is_file_header(strip_cr(mark + rest)),
        !starts_with(strip_cr(mark + rest), "@@"@),
{
    reveal_strlit("--- ");
    reveal_strlit("+++ ");
    reveal_strlit("diff ");
    reveal_strlit("@@");
    let line = mark + rest;
    assert(line.take(4) =~= mark.take(4));
    if mark.len() >= 5 {
        assert(line.take(5) =~= mark.take(5));
    }
    assert(mark.take(4)[0] == mark[0]);
    assert(mark.take(4)[3] == mark[3]);
    if mark.len() >= 5 {
        assert(mark.take(5)[0] == mark[0]);
        assert(mark.take(5)[4] == mark[4]);
    }
    let cut = strip_cr(line);
    assert(line.last() == '\r' ==> line.len() > 4);
    if cut.len() < line.len() {
        if mark.take(4) == "--- "@ || mark.take(4) == "+++ "@ {
            assert(cut.take(4) =~= mark.take(4));
        } else {
            assert(line.len() > 5) by {
                if line.len() == 5 {
                    assert(line.last() == mark[4]);
                }
            }
            assert(cut.take(5) =~= mark.take(5));
        }
    }
    assert(starts_with(line, "@@"@) ==> line.take(2)[0] == '@');
    assert(starts_with(cut, "@@"@) ==> cut.take(2)[0] == '@');
    assert(cut[0] == mark[0]);
}

/// The header that is put before a diff changes nothing: the diff as it is shown maps the same
/// lines as the diff that came.
pub proof fn law_shown_diff_maps_alike(d: MrDiffModel)
    requires
        !d.old_path.contains('\n'),
        !d.new_path.contains('\n'),
    ensures
        line_map(diff_text(d)) == line_map(d.diff),
{
    reveal_strlit("diff --git a/");
    reveal_strlit(" b/");
    reveal_strlit("--- a/");
    reveal_strlit("\n--- a/");
    reveal_strlit("+++ b/");
    reveal_strlit("\n+++ b/");
    reveal_strlit("\n");
    reveal_strlit("--- ");
    reveal_strlit("+++ ");
    reveal_strlit("diff ");
    let first = "diff --git a/"@ + (d.old_path + " b/"@ + d.new_path);
    let second = "--- a/"@ + d.old_path;
    let third = "+++ b/"@ + d.new_path;
    let tail = third + seq!['\n'] + d.diff;
    let mid = second + seq!['\n'] + tail;
    assert(diff_text(d) =~= first + seq!['\n'] + mid);
    assert("diff --git a/"@.take(5) =~= "diff "@);
    assert("--- a/"@.take(4) =~= "--- "@);
    assert("+++ b/"@.take(4) =~= "+++ "@);
    lemma_header_line("diff --git a/"@, d.old_path + " b/"@ + d.new_path);
    lemma_header_line("--- a/"@, d.old_path);
    lemma_header_line("+++ b/"@, d.new_path);
    lemma_both_without(d.old_path, " b/"@, '\n');
    lemma_both_without(d.old_path + " b/"@, d.new_path, '\n');
    lemma_both_without("diff --git a/"@, d.old_path + " b/"@ + d.new_path, '\n');
    lemma_both_without("--- a/"@, d.old_path, '\n');
    lemma_both_without("+++ b/"@, d.new_path, '\n');
    lemma_lines_cons(first, mid);
    lemma_lines_cons(second, tail);
    lemma_lines_cons(third, d.diff);
    let headers = seq![strip_cr(first), strip_cr(second), strip_cr(third)];
    let ls = lines(d.diff);
    assert(lines(diff_text(d)) =~= headers + ls);
    law_headers_ignored(headers, ls, ls.len() as int);
}

/// The diff that is shown is of the file that was asked for: it is one of the loaded diffs, the file
/// is its new path, and no earlier diff has that path. None is shown exactly where no loaded diff
/// has that path.
pub proof fn law_diff_of_file(diffs: Seq<MrDiffModel>, file: Seq<char>)
    ensures
        (match diff_of(diffs, file) {
            Some(d) => d.new_path == file && exists|i: int|
                0 <= i < diffs.len() && d == #[trigger] diffs[i] && forall|j: int|
                    0 <= j < i ==> (#[trigger] diffs[j]).new_path != file,
            None => forall|i: int| 0 <= i < diffs.len() ==> (#[trigger] diffs[i]).new_path != file,
        }),
    decreases diffs.len(),
{
    if diffs.len() > 0 {
        if diffs[0].new_path == file {
            assert(diff_of(diffs, file) == Some(diffs[0]));
        } else {
            let rest = diffs.drop_first();
            law_diff_of_file(rest, file);
            match diff_of(rest, file) {
                Some(d) => {
                    let i = choose|i: int|
                        0 <= i < rest.len() && d == #[trigger] rest[i] && forall|j: int|
                            0 <= j < i ==> (#[trigger] rest[j]).new_path != file;
                    assert(diffs[i + 1] == d);
                    assert forall|j: int| 0 <= j < i + 1 implies (#[trigger] diffs[j]).new_path
                        != file by {
                        if j > 0 {
                            assert(rest[j - 1] == diffs[j]);
                        }
                    }
                },
                None => {
                    assert forall|i: int| 0 <= i < diffs.len() implies (
                    #[trigger] diffs[i]).new_path != file by {
                        if i > 0 {
                            assert(rest[i - 1] == diffs[i]);
                        }
                    }
                },
            }
        }
    }
}

/// The thread that is shown has the id that was asked for: it is one of the loaded discussions, and
/// no earlier one has that id. None is shown exactly where no loaded discussion has that id.
pub proof fn law_thread_with_id(ds: Seq<DiscussionModel>, id: Seq<char>)
    ensures
        (match thread_with(ds, id) {
            Some(d) => d.id == id && exists|i: int|
                0 <= i < ds.len() && d == #[trigger] ds[i] && forall|j: int|
                    0 <= j < i ==> (#[trigger] ds[j]).id != id,
            None => forall|i: int| 0 <= i < ds.len() ==> (#[trigger] ds[i]).id != id,
        }),
    decreases ds.len(),
{
    if ds.len() > 0 {
        if ds[0].id == id {
            assert(thread_with(ds, id) == Some(ds[0]));
        } else {
            let rest = ds.drop_first();
            law_thread_with_id(rest, id);
            match thread_with(rest, id) {
                Some(d) => {
                    let i = choose|i: int|
                        0 <= i < rest.len() && d == #[trigger] rest[i] && forall|j: int|
                            0 <= j < i ==> (#[trigger] rest[j]).id != id;
                    assert(ds[i + 1] == d);
                    assert forall|j: int| 0 <= j < i + 1 implies (#[trigger] ds[j]).id != id by {
                        if j > 0 {
                            assert(rest[j - 1] == ds[j]);
                        }
                    }
                },
                None => {
                    assert forall|i: int| 0 <= i < ds.len() implies (#[trigger] ds[i]).id != id by {
                        if i > 0 {
                            assert(rest[i - 1] == ds[i]);
                        }
                    }
                },
            }
        }
    }
}

/// A diff is shown whole, behind a header that names the old path and the new one.
pub proof fn law_diff_shown_whole(d: MrDiffModel)
    ensures
        diff_text(d) == "diff --git a/"@ + d.old_path + " b/"@ + d.new_path + "\n"@ + "--- a/"@
            + d.old_path + "\n"@ + "+++ b/"@ + d.new_path + "\n"@ + d.diff,
{
    reveal_strlit("\n");
    reveal_strlit("--- a/");
    reveal_strlit("+++ b/");
    reveal_strlit("\n--- a/");
    reveal_strlit("\n+++ b/");
    assert(diff_text(d) =~= "diff --git a/"@ + d.old_path + " b/"@ + d.new_path + "\n"@ + "--- a/"@
        + d.old_path + "\n"@ + "+++ b/"@ + d.new_path + "\n"@ + d.diff);
}

/// The file that shows a diff is named by the merge request's number and the path, of which each
/// separator has become an underscore and nothing else has changed.
pub proof fn law_diff_file_name(iid: u64, file: Seq<char>, sep: char)
    requires
        sep != '_',
    ensures
        diff_file_name(iid, file, sep) == "gitlab-mr-"@ + decimal(iid as nat) + "-"@
            + file.map_values(
            |c: char|
                if c == '/' || c == sep {
                    '_'
                } else {
                    c
                },
        ) + ".diff"@,
{
    reveal_strlit("_");
    assert("_"@ =~= seq!['_']);
    lemma_replace_one(file, '/', '_');
    let half = file.map_values(
        |c: char|
            if c == '/' {
                '_'
            } else {
                c
            },
    );
    lemma_replace_one(half, sep, '_');
    assert(half.map_values(
        |c: char|
            if c == sep {
                '_'
            } else {
                c
            },
    ) =~= file.map_values(
        |c: char|
            if c == '/' || c == sep {
                '_'
            } else {
                c
            },
    ));
}

proof fn lemma_replace_one(s: Seq<char>, c: char, with: char)
    ensures
        replace(s, c, seq![with]) == s.map_values(
            |x: char|
                if x == c {
                    with
                } else {
                    x
                },
        ),
    decreases s.len(),
{
    let f = |x: char|
        if x == c {
            with
        } else {
            x
        };
    if s.len() > 0 {
        lemma_replace_one(s.drop_last(), c, with);
        assert(s.map_values(f) =~= s.drop_last().map_values(f) + seq![f(s.last())]);
    } else {
        assert(s.map_values(f) =~= Seq::<char>::empty());
    }
}

/// What the user wrote is the lines of the file, in order, without those that start with `#`, and
/// with a line feed between each two.
pub proof fn law_written(contents: Seq<char>)
    ensures
        written(contents) == join(
            lines(contents).filter(|l: Seq<char>| !(l.len() > 0 && l[0] == '#')),
            "\n"@,
        ),
{
    lemma_spoken_filter(lines(contents));
}

proof fn lemma_spoken_filter(ls: Seq<Seq<char>>)
    ensures
        spoken(ls) == ls.filter(|l: Seq<char>| !(l.len() > 0 && l[0] == '#')),
    decreases ls.len(),
{
    reveal(Seq::filter);
    if ls.len() > 0 {
        lemma_spoken_filter(ls.drop_last());
    }
}

/// What the user wrote is posted where it was meant to go: a reply in its discussion, and a comment
/// on its line at the commits of the merge request, or, where they are not known, on the merge
/// request as a whole. The text is posted as it is.
pub proof fn law_note_goes_where_meant(
    s: BackendState,
    file: Seq<char>,
    line: u32,
    discussion_id: Seq<char>,
    body: Seq<char>,
)
    ensures
        note_from(s, PendingModel::Reply { discussion_id }, body) == (NewNoteModel::Reply {
            discussion_id,
            body,
        }),
        ({
            let note = note_from(s, PendingModel::AddComment { file, line }, body);
            match s.mr {
                Some(mr) => match mr.diff_refs {
                    Some(refs) => note matches NewNoteModel::OnLine { body: posted, position }
                        && posted == body && position.new_path == file && position.old_path == Some(
                        file,
                    ) && position.new_line == Some(line) && position.old_line is None
                        && position.base_sha == refs.base_sha@ && position.head_sha
                        == refs.head_sha@ && position.start_sha == refs.start_sha@
                        && position.position_type == "text"@,
                    None => note == (NewNoteModel::General { body }),
                },
                None => note == (NewNoteModel::General { body }),
            }
        }),
{
}

/// A note is posted to its own address, with the token and its text: one on a line among the
/// discussions of the merge request, one on the whole among its notes, a reply among the notes of
/// its discussion.
pub proof fn law_post_address(
    base: Seq<char>,
    token: Seq<char>,
    project_path: Seq<char>,
    iid: u64,
    note: NewNoteModel,
)
    ensures
        ({
            let r = post_request(base, token, project_path, iid, note);
            let mr = base + "/projects/"@ + replace(project_path, '/', "%2F"@)
                + "/merge_requests/"@ + decimal(iid as nat);
            &&& r.method == Method::Post
            &&& r.token == token
            &&& r.query.len() == 0
            &&& match note {
                NewNoteModel::OnLine { body, position } => r.url == mr + "/discussions"@ && r.body
                    == BodyModel::DiffNote(body, position) && r.call == Call::CreateDiffNote,
                NewNoteModel::General { body } => r.url == mr + "/notes"@ && r.body
                    == BodyModel::Note(body) && r.call == Call::CreateNote,
                NewNoteModel::Reply { discussion_id, body } => r.url == mr + "/discussions/"@
                    + discussion_id + "/notes"@ && r.body == BodyModel::Note(body) && r.call
                    == Call::ReplyToDiscussion,
            }
        }),
{
}

/// What the user chooses is done: to reply, to set the thread to the other state, or nothing, which
/// is also what any other answer and no answer mean.
pub proof fn law_choices(title: Seq<char>, resolved: bool)
    ensures
        action_for(None, resolved) == ThreadAction::Dismiss,
        action_for(Some("Reply"@), resolved) == ThreadAction::Reply,
        action_for(Some("Resolve"@), resolved) == ThreadAction::SetResolved(!resolved),
        action_for(Some("Unresolve"@), resolved) == ThreadAction::SetResolved(!resolved),
        title != "Reply"@ && title != "Resolve"@ && title != "Unresolve"@ ==> action_for(
            Some(title),
            resolved,
        ) == ThreadAction::Dismiss,
        thread_choices(false) == seq!["Reply"@, "Resolve"@, "Dismiss"@],
        thread_choices(true) == seq!["Reply"@, "Unresolve"@, "Dismiss"@],
{
    reveal_strlit("Reply");
    reveal_strlit("Resolve");
    reveal_strlit("Unresolve");
    assert("Resolve"@.len() == 7 && "Unresolve"@.len() == 9 && "Reply"@.len() == 5);
}

/// Of a line number the low 32 bits count.
pub proof fn law_low_bits(high: u64, low: u32)
    requires
        high * 0x1_0000_0000 + low <= u64::MAX,
    ensures
        low_32_bits((high * 0x1_0000_0000 + low) as u64) == low,
{
    assert((high * 0x1_0000_0000 + low) % 0x1_0000_0000 == low) by (nonlinear_arith)
        requires
            low <= u32::MAX,
    ;
}

/// A request that went well is told as information and brings the state up to date; one that failed
/// is told as an error, with what went wrong, and changes nothing.
pub proof fn law_outcomes(o: Outcome, text: Seq<char>, e: ClientError)
    ensures
        is_success(o, text) <==> (o.message.kind == MessageType::Info && o.message.text@ == text
            && o.refresh),
        is_failure(o, text, e) <==> (o.message.kind == MessageType::Error && o.message.text@ == text
            + e.text() && !o.refresh),
{
}

/// The commands are announced each once.
pub proof fn law_announced_once()
    ensures
        announced().no_duplicates(),
        announced().len() == 7,
{
}

/// There is something to post if and only if a line that does not start with `#` holds a character
/// other than white space.
pub proof fn law_has_text(contents: Seq<char>)
    ensures
        has_text(contents) <==> exists|i: int, k: int|
            0 <= i < lines(contents).len() && 0 <= k < lines(contents)[i].len()
                && lines(contents)[i][0] != '#' && !is_space(#[trigger] lines(contents)[i][k]),
{
    reveal_strlit("\n");
    let ls = lines(contents);
    let kept = ls.filter(|l: Seq<char>| !(l.len() > 0 && l[0] == '#'));
    law_written(contents);
    let text = written(contents);
    law_trim(text);
    lemma_join_text(kept, "\n"@);
    let at = choose|at: int| #[trigger] is_core(text, trim(text), at);
    if has_text(contents) {
        assert(!is_space(text[at]));
        let (m, k) = choose|m: int, k: int|
            0 <= m < kept.len() && 0 <= k < kept[m].len() && !is_space(#[trigger] kept[m][k]);
        lemma_kept_line(ls, m);
        let i = choose|i: int| 0 <= i < ls.len() && #[trigger] ls[i] == kept[m];
        assert(ls[i][k] == kept[m][k]);
        assert(ls[i][0] != '#');
    }
    if exists|i: int, k: int|
        0 <= i < ls.len() && 0 <= k < ls[i].len() && ls[i][0] != '#' && !is_space(
            #[trigger] ls[i][k],
        ) {
        let (i, k) = choose|i: int, k: int|
            0 <= i < ls.len() && 0 <= k < ls[i].len() && ls[i][0] != '#' && !is_space(
                #[trigger] ls[i][k],
            );
        lemma_line_kept(ls, i);
        let m = choose|m: int| 0 <= m < kept.len() && #[trigger] kept[m] == ls[i];
        assert(!is_space(kept[m][k]));
        let n = choose|n: int| 0 <= n < text.len() && !is_space(#[trigger] text[n]);
        assert(trim(text).len() > 0) by {
            if trim(text).len() == 0 {
                assert(is_space(text[n]));
            }
        }
    }
}

/// A joined text holds a character other than white space if and only if a part does.
proof fn lemma_join_text(parts: Seq<Seq<char>>, sep: Seq<char>)
    requires
        forall|k: int| 0 <= k < sep.len() ==> is_space(#[trigger] sep[k]),
    ensures
        (exists|n: int| 0 <= n < join(parts, sep).len() && !is_space(#[trigger] join(parts, sep)[n]))
            <==> (exists|m: int, k: int|
            0 <= m < parts.len() && 0 <= k < parts[m].len() && !is_space(#[trigger] parts[m][k])),
    decreases parts.len(),
{
    let all = join(parts, sep);
    if parts.len() == 1 {
        assert(all == parts[0]);
        if exists|n: int| 0 <= n < all.len() && !is_space(#[trigger] all[n]) {
            let n = choose|n: int| 0 <= n < all.len() && !is_space(#[trigger] all[n]);
            assert(!is_space(parts[0][n]));
        }
        if exists|m: int, k: int|
            0 <= m < parts.len() && 0 <= k < parts[m].len() && !is_space(#[trigger] parts[m][k]) {
            let (m, k) = choose|m: int, k: int|
                0 <= m < parts.len() && 0 <= k < parts[m].len() && !is_space(
                    #[trigger] parts[m][k],
                );
            assert(!is_space(all[k]));
        }
    } else if parts.len() > 1 {
        let fewer = parts.drop_last();
        lemma_join_text(fewer, sep);
        let before = join(fewer, sep);
        let n1 = before.len() as int;
        let n2 = n1 + sep.len();
        if exists|n: int| 0 <= n < all.len() && !is_space(#[trigger] all[n]) {
            let n = choose|n: int| 0 <= n < all.len() && !is_space(#[trigger] all[n]);
            if n < n1 {
                assert(!is_space(before[n]));
                let (m, k) = choose|m: int, k: int|
                    0 <= m < fewer.len() && 0 <= k < fewer[m].len() && !is_space(
                        #[trigger] fewer[m][k],
                    );
                assert(!is_space(parts[m][k]));
            } else if n < n2 {
                assert(all[n] == sep[n - n1]);
            } else {
                assert(all[n] == parts[parts.len() - 1][n - n2]);
            }
        }
        if exists|m: int, k: int|
            0 <= m < parts.len() && 0 <= k < parts[m].len() && !is_space(#[trigger] parts[m][k]) {
            let (m, k) = choose|m: int, k: int|
                0 <= m < parts.len() && 0 <= k < parts[m].len() && !is_space(
                    #[trigger] parts[m][k],
                );
            if m < fewer.len() {
                assert(!is_space(fewer[m][k]));
                let n = choose|n: int| 0 <= n < before.len() && !is_space(#[trigger] before[n]);
                assert(all[n] == before[n]);
            } else {
                assert(all[n2 + k] == parts[m][k]);
            }
        }
    }
}

proof fn lemma_kept_line(ls: Seq<Seq<char>>, m: int)
    requires
        0 <= m < ls.filter(|l: Seq<char>| !(l.len() > 0 && l[0] == '#')).len(),
    ensures
        ({
            let line = ls.filter(|l: Seq<char>| !(l.len() > 0 && l[0] == '#'))[m];
            &&& exists|i: int| 0 <= i < ls.len() && #[trigger] ls[i] == line
            &&& !(line.len() > 0 && line[0] == '#')
        }),
    decreases ls.len(),
{
    reveal(Seq::filter);
    let p = |l: Seq<char>| !(l.len() > 0 && l[0] == '#');
    let fewer = ls.drop_last();
    if m < fewer.filter(p).len() {
        lemma_kept_line(fewer, m);
        let i = choose|i: int| 0 <= i < fewer.len() && #[trigger] fewer[i] == fewer.filter(p)[m];
        assert(ls[i] == fewer[i]);
    } else {
        assert(ls[ls.len() - 1] == ls.last());
    }
}

proof fn lemma_line_kept(ls: Seq<Seq<char>>, i: int)
    requires
        0 <= i < ls.len(),
        !(ls[i].len() > 0 && ls[i][0] == '#'),
    ensures
        ({
            let kept = ls.filter(|l: Seq<char>| !(l.len() > 0 && l[0] == '#'));
            exists|m: int| 0 <= m < kept.len() && #[trigger] kept[m] == ls[i]
        }),
    decreases ls.len(),
{
    reveal(Seq::filter);
    let p = |l: Seq<char>| !(l.len() > 0 && l[0] == '#');
    let fewer = ls.drop_last();
    let kept = ls.filter(p);
    if i < fewer.len() {
        lemma_line_kept(fewer, i);
        let before = fewer.filter(p);
        let m = choose|m: int| 0 <= m < before.len() && #[trigger] before[m] == fewer[i];
        assert(kept[m] == ls[i]);
    } else {
        assert(kept[kept.len() - 1] == ls[i]);
    }
}

/// A comment is asked for on the line and the file that are named.
pub proof fn law_comment_asked_for(file: Seq<char>, line: u32)
    ensures
        comment_asked_for(Some(file), Some(line as u64)) == (PendingModel::AddComment {
            file,
            line,
        }),
        comment_asked_for(None, None) == (PendingModel::AddComment { file: Seq::empty(), line: 0 }),
{
}

/// What the editor opened stays pending, and what it did not open is not pending any more.
pub proof fn law_pending(pending: Option<(String, PendingAction)>)
    ensures
        still_pending(pending, true) == pending,
        still_pending(pending, false) is None,
{
}

} // verus!
