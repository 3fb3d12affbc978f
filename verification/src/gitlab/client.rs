//! Requests to GitLab's REST API, and what its responses say. Sending them is left to the caller.
use vstd::prelude::*;
use vstd::string::StringExecFns;

use crate::gitlab::types::{
    text_model,
    CreateDiffNoteBody,
    CreateNoteBody,
    Discussion,
    MergeRequest,
    MrDiff,
    Note,
    NotePosition,
    NotePositionModel,
    ResolveDiscussionBody,
};
use crate::number::{decimal, decimal_of};
use crate::text::{
    chars_of,
    law_replace,
    replace,
    replaced,
    string_of,
    trim_end_char,
    without_trailing_char,
};

verus! {

// ── Requests ────────────────────────────────────────────────────────────────────────────────────

/// The verb of a request.
#[derive(Debug, Clone, Copy, PartialEq, Eq, Structural)]
pub enum Method {
    Get,
    Post,
    Put,
}

/// The JSON object that a request carries.
#[derive(Debug)]
pub enum Body<'a> {
    Empty,
    Note(CreateNoteBody<'a>),
    DiffNote(CreateDiffNoteBody<'a>),
    Resolve(ResolveDiscussionBody),
}

/// Model of [`Body`].
pub enum BodyModel {
    Empty,
    Note(Seq<char>),
    DiffNote(Seq<char>, NotePositionModel),
    Resolve(bool),
}

impl<'a> View for Body<'a> {
    type V = BodyModel;

    open spec fn view(&self) -> BodyModel {
        match self {
            Body::Empty => BodyModel::Empty,
            Body::Note(b) => BodyModel::Note(b.body@),
            Body::DiffNote(b) => BodyModel::DiffNote(b.body@, b.position@),
            Body::Resolve(b) => BodyModel::Resolve(b.resolved),
        }
    }
}

/// What a request is for.
#[derive(Debug, Clone, Copy, PartialEq, Eq, Structural)]
pub enum Call {
    FindMr,
    GetMr,
    CreateNote,
    CreateDiffNote,
    ReplyToDiscussion,
    ResolveDiscussion,
    ApproveMr,
    /// One page of a list.
    Paginate { page: u32 },
}

/// A request. The token goes with it as its `PRIVATE-TOKEN` header.
#[derive(Debug)]
pub struct Request<'a> {
    pub call: Call,
    pub method: Method,
    pub url: String,
    pub token: String,
    pub query: Vec<(String, String)>,
    pub body: Body<'a>,
}

/// Model of [`Request`].
pub struct RequestModel {
    pub call: Call,
    pub method: Method,
    pub url: Seq<char>,
    pub token: Seq<char>,
    pub query: Seq<(Seq<char>, Seq<char>)>,
    pub body: BodyModel,
}

/// The names and values of a query.
pub open spec fn query_model(q: Seq<(String, String)>) -> Seq<(Seq<char>, Seq<char>)> {
    q.map_values(|e: (String, String)| (e.0@, e.1@))
}

impl<'a> View for Request<'a> {
    type V = RequestModel;

    open spec fn view(&self) -> RequestModel {
        RequestModel {
            call: self.call,
            method: self.method,
            url: self.url@,
            token: self.token@,
            query: query_model(self.query@),
            body: self.body@,
        }
    }
}

// ── What can go wrong ───────────────────────────────────────────────────────────────────────────

/// How far a request came that failed.
#[derive(Debug, Clone, Copy, PartialEq, Eq, Structural)]
pub enum Stage {
    /// It was not answered.
    Send,
    /// The answer's status is no success.
    Status,
    /// The answer's body could not be read.
    Decode,
}

/// Why a call gave no answer.
#[derive(Debug)]
pub enum ClientError {
    /// A request to that address failed.
    Failed { call: Call, url: String, stage: Stage },
    /// The discussion that was created holds no note.
    EmptyNotes,
}

/// The name of the call.
pub open spec fn call_name(call: Call) -> Seq<char> {
    match call {
        Call::FindMr => "find_mr"@,
        Call::GetMr => "get_mr"@,
        Call::CreateNote => "create_note"@,
        Call::CreateDiffNote => "create_diff_note"@,
        Call::ReplyToDiscussion => "reply_to_discussion"@,
        Call::ResolveDiscussion => "resolve_discussion"@,
        Call::ApproveMr => "approve_mr"@,
        Call::Paginate { page } => "paginate"@,
    }
}

/// What is said of a request to that address that failed.
pub open spec fn failure_text(call: Call, url: Seq<char>, stage: Stage) -> Seq<char> {
    match (call, stage) {
        (Call::Paginate { page }, Stage::Send) => "paginate GET "@ + url + " page "@ + decimal(
            page as nat,
        ) + " failed"@,
        (Call::Paginate { page }, Stage::Status) => "paginate GET "@ + url + " page "@ + decimal(
            page as nat,
        ) + " non-2xx"@,
        (Call::Paginate { page }, Stage::Decode) => "paginate deserialise page "@ + decimal(
            page as nat,
        ) + " failed"@,
        (_, Stage::Send) => call_name(call) + " request failed"@,
        (_, Stage::Status) => call_name(call) + " returned non-2xx"@,
        (_, Stage::Decode) => call_name(call) + " deserialise failed"@,
    }
}

impl<'a> Request<'a> {
    /// Says that the request failed at that stage.
    pub fn failure(&self, stage: Stage) -> (e: ClientError)
        ensures
            e matches ClientError::Failed { call, url, stage: at } && call == self@.call && url@
                == self@.url && at == stage,
            e.text() == failure_text(self@.call, self@.url, stage),
    {
        ClientError::Failed { call: self.call, url: self.url.clone(), stage }
    }
}

impl ClientError {
    /// What the error says.
    pub open spec fn text(self) -> Seq<char> {
        match self {
            ClientError::Failed { call, url, stage } => failure_text(call, url@, stage),
            ClientError::EmptyNotes => "create_diff_note: empty notes in response"@,
        }
    }

    /// A human-readable explanation.
    pub fn message(&self) -> (r: String)
        ensures
            r@ == self.text(),
    {
        match self {
            ClientError::Failed { call: Call::Paginate { page }, url, stage } => {
                let number = decimal_of(*page as u64);
                match stage {
                    Stage::Send => {
                        let mut m = "paginate GET ".to_owned();
                        m.append(url.as_str());
                        m.append(" page ");
                        m.append(number.as_str());
                        m.append(" failed");
                        m
                    },
                    Stage::Status => {
                        let mut m = "paginate GET ".to_owned();
                        m.append(url.as_str());
                        m.append(" page ");
                        m.append(number.as_str());
                        m.append(" non-2xx");
                        m
                    },
                    Stage::Decode => {
                        let mut m = "paginate deserialise page ".to_owned();
                        m.append(number.as_str());
                        m.append(" failed");
                        m
                    },
                }
            },
            ClientError::Failed { call, url: _, stage } => {
                let mut m = (match call {
                    Call::FindMr => "find_mr",
                    Call::GetMr => "get_mr",
                    Call::CreateNote => "create_note",
                    Call::CreateDiffNote => "create_diff_note",
                    Call::ReplyToDiscussion => "reply_to_discussion",
                    Call::ResolveDiscussion => "resolve_discussion",
                    Call::ApproveMr => "approve_mr",
                    Call::Paginate { .. } => "paginate",
                }).to_owned();
                m.append(
                    match stage {
                        Stage::Send => " request failed",
                        Stage::Status => " returned non-2xx",
                        Stage::Decode => " deserialise failed",
                    },
                );
                m
            },
            ClientError::EmptyNotes => "create_diff_note: empty notes in response".to_owned(),
        }
    }
}

// ── Addresses ───────────────────────────────────────────────────────────────────────────────────

/// The address of the API on the host.
pub open spec fn api_url(host: Seq<char>) -> Seq<char> {
    trim_end_char(host, '/') + "/api/v4"@
}

/// A project's path as one segment of a URL.
pub open spec fn encoded(project_path: Seq<char>) -> Seq<char> {
    replace(project_path, '/', "%2F"@)
}

/// The address of a project.
pub open spec fn project_address(base: Seq<char>, project_path: Seq<char>) -> Seq<char> {
    base + "/projects/"@ + encoded(project_path)
}

/// The address of a merge request.
pub open spec fn mr_address(base: Seq<char>, project_path: Seq<char>, iid: u64) -> Seq<char> {
    project_address(base, project_path) + "/merge_requests/"@ + decimal(iid as nat)
}

/// The address of a discussion of a merge request.
pub open spec fn discussion_address(
    base: Seq<char>,
    project_path: Seq<char>,
    iid: u64,
    discussion_id: Seq<char>,
) -> Seq<char> {
    mr_address(base, project_path, iid) + "/discussions/"@ + discussion_id
}

/// The address of the diffs of a merge request.
pub open spec fn diffs_address(base: Seq<char>, project_path: Seq<char>, iid: u64) -> Seq<char> {
    mr_address(base, project_path, iid) + "/diffs"@
}

/// The address of the discussions of a merge request.
pub open spec fn discussions_address(base: Seq<char>, project_path: Seq<char>, iid: u64) -> Seq<
    char,
> {
    mr_address(base, project_path, iid) + "/discussions"@
}

/// The request for the open merge request of a branch.
pub open spec fn find_request(
    base: Seq<char>,
    token: Seq<char>,
    project_path: Seq<char>,
    branch: Seq<char>,
) -> RequestModel {
    RequestModel {
        call: Call::FindMr,
        method: Method::Get,
        url: project_address(base, project_path) + "/merge_requests"@,
        token,
        query: seq![("source_branch"@, branch), ("state"@, "opened"@), ("per_page"@, "1"@)],
        body: BodyModel::Empty,
    }
}

/// The request for the merge request of a number.
pub open spec fn get_request(
    base: Seq<char>,
    token: Seq<char>,
    project_path: Seq<char>,
    iid: u64,
) -> RequestModel {
    RequestModel {
        call: Call::GetMr,
        method: Method::Get,
        url: mr_address(base, project_path, iid),
        token,
        query: Seq::empty(),
        body: BodyModel::Empty,
    }
}

/// The request that resolves a discussion, or opens it again.
pub open spec fn resolve_request(
    base: Seq<char>,
    token: Seq<char>,
    project_path: Seq<char>,
    iid: u64,
    discussion_id: Seq<char>,
    resolved: bool,
) -> RequestModel {
    RequestModel {
        call: Call::ResolveDiscussion,
        method: Method::Put,
        url: discussion_address(base, project_path, iid, discussion_id),
        token,
        query: Seq::empty(),
        body: BodyModel::Resolve(resolved),
    }
}

/// The request that approves a merge request.
pub open spec fn approve_request(
    base: Seq<char>,
    token: Seq<char>,
    project_path: Seq<char>,
    iid: u64,
) -> RequestModel {
    RequestModel {
        call: Call::ApproveMr,
        method: Method::Post,
        url: mr_address(base, project_path, iid) + "/approve"@,
        token,
        query: Seq::empty(),
        body: BodyModel::Empty,
    }
}

/// Makes requests to the API of one GitLab host.
#[derive(Debug)]
pub struct GitLabClient {
    base_url: String,
    token: String,
}

impl GitLabClient {
    /// The address of the API.
    pub closed spec fn base(&self) -> Seq<char> {
        self.base_url@
    }

    /// The token that goes with every request.
    pub closed spec fn secret(&self) -> Seq<char> {
        self.token@
    }

    pub fn new(host: &str, token: &str) -> (r: Self)
        ensures
            r.base() == api_url(host@),
            r.secret() == token@,
    {
        let host = chars_of(host);
        let mut base_url = string_of(without_trailing_char(host.as_slice(), '/'));
        base_url.append("/api/v4");
        GitLabClient { base_url, token: token.to_owned() }
    }

    /// The project's path as one segment of a URL.
    pub fn encode_path(&self, project_path: &str) -> (r: String)
        ensures
            r@ == encoded(project_path@),
    {
        let path = chars_of(project_path);
        replaced(path.as_slice(), '/', "%2F")
    }

    /// The address of the project.
    pub fn project_url(&self, project_path: &str) -> (r: String)
        ensures
            r@ == project_address(self.base(), project_path@),
    {
        let mut url = self.base_url.clone();
        url.append("/projects/");
        url.append(self.encode_path(project_path).as_str());
        url
    }

    /// The address of the merge request.
    fn mr_url(&self, project_path: &str, iid: u64) -> (r: String)
        ensures
            r@ == mr_address(self.base(), project_path@, iid),
    {
        let mut url = self.project_url(project_path);
        url.append("/merge_requests/");
        url.append(decimal_of(iid).as_str());
        url
    }

    /// The address of the discussion.
    fn discussion_url(&self, project_path: &str, iid: u64, discussion_id: &str) -> (r: String)
        ensures
            r@ == discussion_address(self.base(), project_path@, iid, discussion_id@),
    {
        let mut url = self.mr_url(project_path, iid);
        url.append("/discussions/");
        url.append(discussion_id);
        url
    }

    /// A request without a query.
    fn request<'a>(&self, call: Call, method: Method, url: String, body: Body<'a>) -> (r: Request<
        'a,
    >)
        ensures
            r@ == (RequestModel {
                call,
                method,
                url: url@,
                token: self.secret(),
                query: Seq::empty(),
                body: body@,
            }),
    {
        let query: Vec<(String, String)> = Vec::new();
        assert(query_model(query@) =~= Seq::empty());
        Request { call, method, url, token: self.token.clone(), query, body }
    }

    // ── MR lookups ──────────────────────────────────────────────────────────────────────────────

    /// Asks for the open MR for `branch` in `project_path`.
    pub fn find_mr(&self, project_path: &str, branch: &str) -> (r: Request<'static>)
        ensures
            r@ == find_request(self.base(), self.secret(), project_path@, branch@),
    {
        let mut url = self.project_url(project_path);
        url.append("/merge_requests");
        let mut query: Vec<(String, String)> = Vec::new();
        query.push(("source_branch".to_owned(), branch.to_owned()));
        query.push(("state".to_owned(), "opened".to_owned()));
        query.push(("per_page".to_owned(), "1".to_owned()));
        assert(query_model(query@) =~= seq![
            ("source_branch"@, branch@),
            ("state"@, "opened"@),
            ("per_page"@, "1"@),
        ]);
        Request {
            call: Call::FindMr,
            method: Method::Get,
            url,
            token: self.token.clone(),
            query,
            body: Body::Empty,
        }
    }

    /// Asks for the MR number `iid`.
    pub fn get_mr(&self, project_path: &str, iid: u64) -> (r: Request<'static>)
        ensures
            r@ == get_request(self.base(), self.secret(), project_path@, iid),
    {
        self.request(Call::GetMr, Method::Get, self.mr_url(project_path, iid), Body::Empty)
    }

    // ── Lists ───────────────────────────────────────────────────────────────────────────────────

    /// Asks for the diffs of the MR, page by page.
    pub fn list_diffs(&self, project_path: &str, iid: u64) -> (r: Pager<MrDiff>)
        ensures
            r@ == first_page::<MrDiff>(
                diffs_address(self.base(), project_path@, iid),
                self.secret(),
            ),
    {
        let mut url = self.mr_url(project_path, iid);
        url.append("/diffs");
        self.paginate(url)
    }

    /// Asks for the discussions of the MR, page by page.
    pub fn list_discussions(&self, project_path: &str, iid: u64) -> (r: Pager<Discussion>)
        ensures
            r@ == first_page::<Discussion>(
                discussions_address(self.base(), project_path@, iid),
                self.secret(),
            ),
    {
        let mut url = self.mr_url(project_path, iid);
        url.append("/discussions");
        self.paginate(url)
    }

    // ── Write operations ────────────────────────────────────────────────────────────────────────

    /// Posts a note on the MR as a whole.
    pub fn create_note<'a>(&self, project_path: &str, iid: u64, body: &'a str) -> (r: Request<'a>)
        ensures
            r@ == (RequestModel {
                call: Call::CreateNote,
                method: Method::Post,
                url: mr_address(self.base(), project_path@, iid) + "/notes"@,
                token: self.secret(),
                query: Seq::empty(),
                body: BodyModel::Note(body@),
            }),
    {
        let mut url = self.mr_url(project_path, iid);
        url.append("/notes");
        self.request(Call::CreateNote, Method::Post, url, Body::Note(CreateNoteBody { body }))
    }

    /// Posts a note on a line of the diff. The answer is a discussion: see [`created_note`].
    pub fn create_diff_note<'a>(
        &self,
        project_path: &str,
        iid: u64,
        body: &'a str,
        position: &'a NotePosition,
    ) -> (r: Request<'a>)
        ensures
            r@ == (RequestModel {
                call: Call::CreateDiffNote,
                method: Method::Post,
                url: mr_address(self.base(), project_path@, iid) + "/discussions"@,
                token: self.secret(),
                query: Seq::empty(),
                body: BodyModel::DiffNote(body@, position@),
            }),
    {
        let mut url = self.mr_url(project_path, iid);
        url.append("/discussions");
        self.request(Call::CreateDiffNote, Method::Post, url, Body::DiffNote(CreateDiffNoteBody { body, position }))
    }

    /// Posts a note in a discussion.
    pub fn reply_to_discussion<'a>(
        &self,
        project_path: &str,
        iid: u64,
        discussion_id: &str,
        body: &'a str,
    ) -> (r: Request<'a>)
        ensures
            r@ == (RequestModel {
                call: Call::ReplyToDiscussion,
                method: Method::Post,
                url: discussion_address(self.base(), project_path@, iid, discussion_id@)
                    + "/notes"@,
                token: self.secret(),
                query: Seq::empty(),
                body: BodyModel::Note(body@),
            }),
    {
        let mut url = self.discussion_url(project_path, iid, discussion_id);
        url.append("/notes");
        self.request(Call::ReplyToDiscussion, Method::Post, url, Body::Note(CreateNoteBody { body }))
    }

    /// Resolves a discussion, or opens it again.
    pub fn resolve_discussion(
        &self,
        project_path: &str,
        iid: u64,
        discussion_id: &str,
        resolved: bool,
    ) -> (r: Request<'static>)
        ensures
            r@ == resolve_request(
                self.base(),
                self.secret(),
                project_path@,
                iid,
                discussion_id@,
                resolved,
            ),
    {
        let url = self.discussion_url(project_path, iid, discussion_id);
        self.request(Call::ResolveDiscussion, Method::Put, url, Body::Resolve(ResolveDiscussionBody { resolved }))
    }

    /// Approves the MR.
    pub fn approve_mr(&self, project_path: &str, iid: u64) -> (r: Request<'static>)
        ensures
            r@ == approve_request(self.base(), self.secret(), project_path@, iid),
    {
        let mut url = self.mr_url(project_path, iid);
        url.append("/approve");
        self.request(Call::ApproveMr, Method::Post, url, Body::Empty)
    }

    // ── Pagination helper ───────────────────────────────────────────────────────────────────────

    /// Asks for the list at `base_url`, from its first page on.
    fn paginate<T>(&self, base_url: String) -> (r: Pager<T>)
        ensures
            r@ == first_page::<T>(base_url@, self.secret()),
    {
        Pager { url: base_url, token: self.token.clone(), page: 1, items: Vec::new() }
    }
}

// ── Responses ───────────────────────────────────────────────────────────────────────────────────

/// The last of a list, where it is not empty.
pub open spec fn last_listed<T>(list: Seq<T>) -> Option<T> {
    if list.len() > 0 {
        Some(list.last())
    } else {
        None
    }
}

/// The first of a list, where it is not empty.
pub open spec fn first_of<T>(list: Seq<T>) -> Option<T> {
    if list.len() > 0 {
        Some(list[0])
    } else {
        None
    }
}

/// The MR that the answer to [`GitLabClient::find_mr`] names: the last one listed.
pub fn found_mr(mrs: Vec<MergeRequest>) -> (r: Option<MergeRequest>)
    ensures
        r == last_listed(mrs@),
{
    let mut mrs = mrs;
    mrs.pop()
}

/// The note that [`GitLabClient::create_diff_note`] created: the first one of the discussion.
pub fn created_note(discussion: Discussion) -> (r: Result<Note, ClientError>)
    ensures
        (match r {
            Ok(note) => first_of(discussion.notes@) == Some(note),
            Err(e) => first_of(discussion.notes@) is None && e == ClientError::EmptyNotes,
        }),
{
    let mut notes = discussion.notes;
    if notes.len() == 0 {
        return Err(ClientError::EmptyNotes);
    }
    Ok(notes.remove(0))
}

// ── Pages ───────────────────────────────────────────────────────────────────────────────────────

/// Collects a list that comes page by page.
#[derive(Debug)]
pub struct Pager<T> {
    url: String,
    token: String,
    page: u32,
    items: Vec<T>,
}

/// Model of [`Pager`]: where the list is, the page that is due, and what has come.
#[verifier::ext_equal]
pub struct PagerModel<T> {
    pub url: Seq<char>,
    pub token: Seq<char>,
    pub page: u32,
    pub items: Seq<T>,
}

impl<T> View for Pager<T> {
    type V = PagerModel<T>;

    closed spec fn view(&self) -> PagerModel<T> {
        PagerModel { url: self.url@, token: self.token@, page: self.page, items: self.items@ }
    }
}

/// What follows the answer to a request for a page.
#[derive(Debug)]
pub enum Progress<T> {
    /// Another page is due.
    More(Pager<T>),
    /// The whole list has come.
    Done(Vec<T>),
    /// A page did not come.
    Failed(ClientError),
}

/// Model of [`Progress`], with what the error says.
pub enum ProgressModel<T> {
    More(PagerModel<T>),
    Done(Seq<T>),
    Failed(Seq<char>),
}

impl<T> View for Progress<T> {
    type V = ProgressModel<T>;

    open spec fn view(&self) -> ProgressModel<T> {
        match self {
            Progress::More(p) => ProgressModel::More(p@),
            Progress::Done(v) => ProgressModel::Done(v@),
            Progress::Failed(e) => ProgressModel::Failed(e.text()),
        }
    }
}

/// The answer to a request for a page: its items and its `x-next-page` header where that is text,
/// or the stage at which the request failed.
pub type Answer<T> = Result<(Vec<T>, Option<String>), Stage>;

/// Model of [`Answer`].
pub type AnswerModel<T> = Result<(Seq<T>, Option<Seq<char>>), Stage>;

/// Model of an answer.
pub open spec fn answer_model<T>(a: Answer<T>) -> AnswerModel<T> {
    match a {
        Ok((items, next_page)) => Ok((items@, text_model(next_page))),
        Err(stage) => Err(stage),
    }
}

/// Nothing has come, and the first page is due.
pub open spec fn first_page<T>(url: Seq<char>, token: Seq<char>) -> PagerModel<T> {
    PagerModel { url, token, page: 1, items: Seq::empty() }
}

/// More pages follow: the `x-next-page` header is there and not empty.
pub open spec fn more_follow(next_page: Option<Seq<char>>) -> bool {
    next_page matches Some(s) && s.len() > 0
}

/// What follows the answer to the request for the page that is due. A page that fails ends the
/// list, and nothing that came before it is handed out.
pub open spec fn after_answer<T>(p: PagerModel<T>, answer: AnswerModel<T>) -> ProgressModel<T> {
    match answer {
        Ok((items, next_page)) => if more_follow(next_page) {
            ProgressModel::More(
                PagerModel { items: p.items + items, page: (p.page + 1) as u32, ..p },
            )
        } else {
            ProgressModel::Done(p.items + items)
        },
        Err(stage) => ProgressModel::Failed(
            failure_text(Call::Paginate { page: p.page }, p.url, stage),
        ),
    }
}

impl<T> Pager<T> {
    /// The number of the page that is due.
    pub fn page(&self) -> (r: u32)
        ensures
            r == self@.page,
    {
        self.page
    }

    /// Asks for the page that is due.
    pub fn request(&self) -> (r: Request<'static>)
        ensures
            r@ == (RequestModel {
                call: Call::Paginate { page: self@.page },
                method: Method::Get,
                url: self@.url,
                token: self@.token,
                query: seq![
                    ("per_page"@, "100"@),
                    ("page"@, decimal(self@.page as nat)),
                ],
                body: BodyModel::Empty,
            }),
    {
        let mut query: Vec<(String, String)> = Vec::new();
        query.push(("per_page".to_owned(), "100".to_owned()));
        query.push(("page".to_owned(), decimal_of(self.page as u64)));
        assert(query_model(query@) =~= seq![
            ("per_page"@, "100"@),
            ("page"@, decimal(self@.page as nat)),
        ]);
        Request {
            call: Call::Paginate { page: self.page },
            method: Method::Get,
            url: self.url.clone(),
            token: self.token.clone(),
            query,
            body: Body::Empty,
        }
    }

    /// Takes in the answer to the request for the page that is due.
    pub fn answered(self, answer: Answer<T>) -> (r: Progress<T>)
        requires
            (answer_model(answer) matches Ok((_, next_page)) && more_follow(next_page))
                ==> self@.page < u32::MAX,
        ensures
            r@ == after_answer(self@, answer_model(answer)),
    {
        match answer {
            Ok((items, next_page)) => {
                let more = match &next_page {
                    Some(s) => !s.as_str().is_empty(),
                    None => false,
                };
                let mut pager = self;
                let mut items = items;
                pager.items.append(&mut items);
                if more {
                    pager.page = pager.page + 1;
                    Progress::More(pager)
                } else {
                    Progress::Done(pager.items)
                }
            },
            Err(stage) => Progress::Failed(self.request().failure(stage)),
        }
    }
}

// ── Laws ────────────────────────────────────────────────────────────────────────────────────────

/// What follows these answers, of which none is asked for once the list is done or a page has
/// failed.
pub open spec fn after_answers<T>(
    p: PagerModel<T>,
    answers: Seq<AnswerModel<T>>,
) -> ProgressModel<T>
    decreases answers.len(),
{
    if answers.len() == 0 {
        ProgressModel::More(p)
    } else {
        match after_answers(p, answers.drop_last()) {
            ProgressModel::More(q) => after_answer(q, answers.last()),
            ended => ended,
        }
    }
}

/// The answers bring these pages, and each says that more follow.
pub open spec fn bring<T>(answers: Seq<AnswerModel<T>>, pages: Seq<Seq<T>>) -> bool {
    &&& answers.len() == pages.len()
    &&& forall|i: int|
        0 <= i < pages.len() ==> (#[trigger] answers[i] matches Ok((items, next_page)) && items
            == pages[i] && more_follow(next_page))
}

/// As long as more pages follow, they are asked for from number one on, each once, and all that
/// came is kept, one page after the other.
pub proof fn law_pages_follow<T>(
    url: Seq<char>,
    token: Seq<char>,
    answers: Seq<AnswerModel<T>>,
    pages: Seq<Seq<T>>,
)
    requires
        bring(answers, pages),
        pages.len() < u32::MAX,
    ensures
        after_answers(first_page::<T>(url, token), answers) == ProgressModel::More(
            PagerModel { url, token, page: (1 + pages.len()) as u32, items: pages.flatten() },
        ),
    decreases pages.len(),
{
    let p = first_page::<T>(url, token);
    if pages.len() > 0 {
        let before = answers.drop_last();
        assert forall|i: int| 0 <= i < pages.drop_last().len() implies (#[trigger] before[i] matches
            Ok((items, next_page)) && items == pages.drop_last()[i] && more_follow(next_page)) by {
            assert(before[i] == answers[i]);
        }
        law_pages_follow(url, token, before, pages.drop_last());
        assert(answers.last() == answers[pages.len() - 1]);
        assert(pages.drop_last().push(pages.last()) =~= pages);
        pages.drop_last().lemma_flatten_push(pages.last());
    } else {
        assert(pages.flatten() =~= Seq::<T>::empty());
    }
}

/// Nothing is asked for, or changed, once the list has ended.
proof fn lemma_ended<T>(p: PagerModel<T>, answers: Seq<AnswerModel<T>>, rest: Seq<AnswerModel<T>>)
    requires
        !(after_answers(p, answers) is More),
    ensures
        after_answers(p, answers + rest) == after_answers(p, answers),
    decreases rest.len(),
{
    if rest.len() > 0 {
        lemma_ended(p, answers, rest.drop_last());
        assert((answers + rest).drop_last() =~= answers + rest.drop_last());
    } else {
        assert(answers + rest =~= answers);
    }
}

/// However many pages a list has, it is done with the first page that says that none follows, and
/// what is handed out is all of the pages, one after the other; no later page is asked for.
pub proof fn law_pages<T>(
    url: Seq<char>,
    token: Seq<char>,
    answers: Seq<AnswerModel<T>>,
    pages: Seq<Seq<T>>,
    items: Seq<T>,
    next_page: Option<Seq<char>>,
    rest: Seq<AnswerModel<T>>,
)
    requires
        bring(answers, pages),
        pages.len() < u32::MAX,
        !more_follow(next_page),
    ensures
        after_answers(
            first_page::<T>(url, token),
            answers.push(Ok((items, next_page))) + rest,
        ) == ProgressModel::Done(pages.push(items).flatten()),
{
    let p = first_page::<T>(url, token);
    let all = answers.push(Ok((items, next_page)));
    law_pages_follow(url, token, answers, pages);
    assert(all.drop_last() =~= answers);
    pages.lemma_flatten_push(items);
    lemma_ended(p, all, rest);
}

/// A list of which a page fails is not handed out, not even in part: the first page that fails
/// gives its error, and no later page is asked for.
pub proof fn law_failed_page<T>(
    url: Seq<char>,
    token: Seq<char>,
    answers: Seq<AnswerModel<T>>,
    pages: Seq<Seq<T>>,
    stage: Stage,
    rest: Seq<AnswerModel<T>>,
)
    requires
        bring(answers, pages),
        pages.len() < u32::MAX,
    ensures
        after_answers(
            first_page::<T>(url, token),
            answers.push(Err(stage)) + rest,
        ) == ProgressModel::<T>::Failed(
            failure_text(Call::Paginate { page: (1 + pages.len()) as u32 }, url, stage),
        ),
{
    let p = first_page::<T>(url, token);
    let all = answers.push(Err(stage));
    law_pages_follow(url, token, answers, pages);
    assert(all.drop_last() =~= answers);
    lemma_ended(p, all, rest);
}

/// A project's path is one segment of every address: encoded it holds no slash.
pub proof fn law_path_is_one_segment(project_path: Seq<char>)
    ensures
        !encoded(project_path).contains('/'),
    decreases project_path.len(),
{
    reveal_strlit("%2F");
    if project_path.len() > 0 {
        law_path_is_one_segment(project_path.drop_last());
        let init = encoded(project_path.drop_last());
        let all = encoded(project_path);
        assert forall|i: int| 0 <= i < all.len() implies all[i] != '/' by {
            if i < init.len() {
                assert(all[i] == init[i]);
                assert(init.contains(init[i]));
            }
        }
    }
}

/// A path without a slash is not changed.
pub proof fn law_plain_path_kept(project_path: Seq<char>)
    requires
        !project_path.contains('/'),
    ensures
        encoded(project_path) == project_path,
    decreases project_path.len(),
{
    if project_path.len() > 0 {
        let init = project_path.drop_last();
        assert(project_path.contains(project_path.last()));
        assert(!init.contains('/')) by {
            if init.contains('/') {
                let k = init.index_of('/');
                assert(project_path[k] == '/');
            }
        }
        law_plain_path_kept(init);
        assert(init + seq![project_path.last()] =~= project_path);
    }
}

/// Slashes behind the host make no difference.
pub proof fn law_trailing_slash(host: Seq<char>)
    ensures
        api_url(host.push('/')) == api_url(host),
{
    assert(host.push('/').drop_last() =~= host);
}

/// The API is under `/api/v4` on the host, and what belongs to a project, a merge request or a
/// discussion is under its own name there.
pub proof fn law_addresses(
    host: Seq<char>,
    project_path: Seq<char>,
    iid: u64,
    discussion_id: Seq<char>,
)
    requires
        host.len() > 0 ==> host[host.len() - 1] != '/',
    ensures
        api_url(host) == host + "/api/v4"@,
        project_address(host, project_path) == host + "/projects/"@ + replace(
            project_path,
            '/',
            "%2F"@,
        ),
        mr_address(host, project_path, iid) == host + "/projects/"@ + replace(
            project_path,
            '/',
            "%2F"@,
        ) + "/merge_requests/"@ + decimal(iid as nat),
        discussion_address(host, project_path, iid, discussion_id) == host + "/projects/"@ + replace(
            project_path,
            '/',
            "%2F"@,
        ) + "/merge_requests/"@ + decimal(iid as nat) + "/discussions/"@ + discussion_id,
{
    assert(host.len() > 0 ==> host.last() != '/');
}

/// A path of two segments is encoded with the slash between them, and only it, escaped.
pub proof fn law_encoded_segments(a: Seq<char>, b: Seq<char>)
    ensures
        encoded(a + seq!['/'] + b) == encoded(a) + "%2F"@ + encoded(b),
{
    law_replace(a, '/', b, '/', "%2F"@);
}

/// A failed request is said by its name and how far it came; a page, also by its number and, where
/// GitLab could not be asked or refused, by its address.
pub proof fn law_failure_texts(page: u32, url: Seq<char>)
    ensures
        failure_text(Call::FindMr, url, Stage::Send) == "find_mr"@ + " request failed"@,
        failure_text(Call::GetMr, url, Stage::Send) == "get_mr"@ + " request failed"@,
        failure_text(Call::CreateNote, url, Stage::Send) == "create_note"@ + " request failed"@,
        failure_text(Call::CreateDiffNote, url, Stage::Status) == "create_diff_note"@
            + " returned non-2xx"@,
        failure_text(Call::ReplyToDiscussion, url, Stage::Decode) == "reply_to_discussion"@
            + " deserialise failed"@,
        failure_text(Call::ResolveDiscussion, url, Stage::Status) == "resolve_discussion"@
            + " returned non-2xx"@,
        failure_text(Call::ApproveMr, url, Stage::Status) == "approve_mr"@ + " returned non-2xx"@,
        failure_text(Call::Paginate { page }, url, Stage::Send) == "paginate GET "@ + url
            + " page "@ + decimal(page as nat) + " failed"@,
        failure_text(Call::Paginate { page }, url, Stage::Status) == "paginate GET "@ + url
            + " page "@ + decimal(page as nat) + " non-2xx"@,
        failure_text(Call::Paginate { page }, url, Stage::Decode) == "paginate deserialise page "@
            + decimal(page as nat) + " failed"@,
{
}

/// How far a request came is said alike whatever it was for: after its name, the same words.
pub proof fn law_stage_said_alike(a: Call, b: Call, url: Seq<char>, stage: Stage)
    requires
        !(a is Paginate),
        !(b is Paginate),
    ensures
        exists|words: Seq<char>| #[trigger]
            (call_name(a) + words) == failure_text(a, url, stage) && call_name(b) + words
                == failure_text(b, url, stage),
{
    let words = match stage {
        Stage::Send => " request failed"@,
        Stage::Status => " returned non-2xx"@,
        Stage::Decode => " deserialise failed"@,
    };
    assert(call_name(a) + words == failure_text(a, url, stage));
}

/// More pages follow exactly where the header names one.
pub proof fn law_more_follow(next_page: Seq<char>)
    ensures
        more_follow(Some(next_page)) <==> next_page.len() > 0,
        !more_follow(None),
{
}

/// Each request goes to its own address, by its own verb, with the token, and carries what it is
/// about and nothing else.
pub proof fn law_requests(
    base: Seq<char>,
    token: Seq<char>,
    project_path: Seq<char>,
    branch: Seq<char>,
    iid: u64,
    discussion_id: Seq<char>,
    resolved: bool,
)
    ensures
        ({
            let project = base + "/projects/"@ + replace(project_path, '/', "%2F"@);
            let mr = project + "/merge_requests/"@ + decimal(iid as nat);
            let find = find_request(base, token, project_path, branch);
            let get = get_request(base, token, project_path, iid);
            let resolve = resolve_request(base, token, project_path, iid, discussion_id, resolved);
            let approve = approve_request(base, token, project_path, iid);
            &&& find.url == project + "/merge_requests"@
            &&& find.query == seq![
                ("source_branch"@, branch),
                ("state"@, "opened"@),
                ("per_page"@, "1"@),
            ]
            &&& get.url == mr
            &&& resolve.url == mr + "/discussions/"@ + discussion_id
            &&& resolve.body == BodyModel::Resolve(resolved)
            &&& approve.url == mr + "/approve"@
            &&& find.method == Method::Get && get.method == Method::Get
            &&& resolve.method == Method::Put && approve.method == Method::Post
            &&& find.body == BodyModel::Empty && get.body == BodyModel::Empty && approve.body
                == BodyModel::Empty
            &&& get.query.len() == 0 && resolve.query.len() == 0 && approve.query.len() == 0
            &&& find.token == token && get.token == token && resolve.token == token && approve.token
                == token
            &&& find.call == Call::FindMr && get.call == Call::GetMr
            &&& resolve.call == Call::ResolveDiscussion && approve.call == Call::ApproveMr
            &&& diffs_address(base, project_path, iid) == mr + "/diffs"@
            &&& discussions_address(base, project_path, iid) == mr + "/discussions"@
        }),
{
}

/// The last and the first of a list, however long it is.
pub proof fn law_ends_of_list<T>(list: Seq<T>, x: T)
    ensures
        last_listed(list.push(x)) == Some(x),
        first_of(seq![x] + list) == Some(x),
        last_listed(Seq::<T>::empty()) is None,
        first_of(Seq::<T>::empty()) is None,
{
}

} // verus!
