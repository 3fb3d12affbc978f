//! The values that GitLab's API exchanges, and the mathematical model of each.
use vstd::prelude::*;

verus! {

// ── Users ───────────────────────────────────────────────────────────────────────────────────────

#[derive(Debug)]
pub struct User {
    pub id: u64,
    pub username: String,
    pub name: String,
}

/// Model of [`User`].
pub struct UserModel {
    pub id: u64,
    pub username: Seq<char>,
    pub name: Seq<char>,
}

impl View for User {
    type V = UserModel;

    open spec fn view(&self) -> UserModel {
        UserModel { id: self.id, username: self.username@, name: self.name@ }
    }
}

impl Clone for User {
    fn clone(&self) -> (r: Self)
        ensures
            r@ == self@,
    {
        User { id: self.id, username: self.username.clone(), name: self.name.clone() }
    }
}

// ── Merge requests ──────────────────────────────────────────────────────────────────────────────

/// The three commits that place a diff.
#[derive(Debug)]
pub struct DiffRefs {
    pub base_sha: String,
    pub head_sha: String,
    pub start_sha: String,
}

/// Model of [`DiffRefs`].
pub struct DiffRefsModel {
    pub base_sha: Seq<char>,
    pub head_sha: Seq<char>,
    pub start_sha: Seq<char>,
}

impl View for DiffRefs {
    type V = DiffRefsModel;

    open spec fn view(&self) -> DiffRefsModel {
        DiffRefsModel {
            base_sha: self.base_sha@,
            head_sha: self.head_sha@,
            start_sha: self.start_sha@,
        }
    }
}

impl Clone for DiffRefs {
    fn clone(&self) -> (r: Self)
        ensures
            r@ == self@,
    {
        DiffRefs {
            base_sha: self.base_sha.clone(),
            head_sha: self.head_sha.clone(),
            start_sha: self.start_sha.clone(),
        }
    }
}

/// Model of an optional [`DiffRefs`].
pub open spec fn refs_model(r: Option<DiffRefs>) -> Option<DiffRefsModel> {
    match r {
        Some(d) => Some(d@),
        None => None,
    }
}

/// A copy of the commits, where there are any.
pub fn copy_refs(r: &Option<DiffRefs>) -> (c: Option<DiffRefs>)
    ensures
        refs_model(c) == refs_model(*r),
{
    match r {
        Some(d) => Some(d.clone()),
        None => None,
    }
}

#[derive(Debug)]
pub struct MergeRequest {
    pub iid: u64,
    pub title: String,
    pub state: String,
    pub source_branch: String,
    pub target_branch: String,
    pub sha: String,
    pub diff_refs: Option<DiffRefs>,
    pub author: User,
}

/// Model of [`MergeRequest`].
pub struct MergeRequestModel {
    pub iid: u64,
    pub title: Seq<char>,
    pub state: Seq<char>,
    pub source_branch: Seq<char>,
    pub target_branch: Seq<char>,
    pub sha: Seq<char>,
    pub diff_refs: Option<DiffRefsModel>,
    pub author: UserModel,
}

impl View for MergeRequest {
    type V = MergeRequestModel;

    open spec fn view(&self) -> MergeRequestModel {
        MergeRequestModel {
            iid: self.iid,
            title: self.title@,
            state: self.state@,
            source_branch: self.source_branch@,
            target_branch: self.target_branch@,
            sha: self.sha@,
            diff_refs: refs_model(self.diff_refs),
            author: self.author@,
        }
    }
}

impl Clone for MergeRequest {
    fn clone(&self) -> (r: Self)
        ensures
            r@ == self@,
    {
        MergeRequest {
            iid: self.iid,
            title: self.title.clone(),
            state: self.state.clone(),
            source_branch: self.source_branch.clone(),
            target_branch: self.target_branch.clone(),
            sha: self.sha.clone(),
            diff_refs: copy_refs(&self.diff_refs),
            author: self.author.clone(),
        }
    }
}

// ── Diffs ───────────────────────────────────────────────────────────────────────────────────────

/// What a merge request changes in one file.
#[derive(Debug)]
pub struct MrDiff {
    pub old_path: String,
    pub new_path: String,
    pub diff: String,
    pub new_file: bool,
    pub deleted_file: bool,
    pub renamed_file: bool,
}

/// Model of [`MrDiff`].
pub struct MrDiffModel {
    pub old_path: Seq<char>,
    pub new_path: Seq<char>,
    pub diff: Seq<char>,
    pub new_file: bool,
    pub deleted_file: bool,
    pub renamed_file: bool,
}

impl View for MrDiff {
    type V = MrDiffModel;

    open spec fn view(&self) -> MrDiffModel {
        MrDiffModel {
            old_path: self.old_path@,
            new_path: self.new_path@,
            diff: self.diff@,
            new_file: self.new_file,
            deleted_file: self.deleted_file,
            renamed_file: self.renamed_file,
        }
    }
}

impl Clone for MrDiff {
    fn clone(&self) -> (r: Self)
        ensures
            r@ == self@,
    {
        MrDiff {
            old_path: self.old_path.clone(),
            new_path: self.new_path.clone(),
            diff: self.diff.clone(),
            new_file: self.new_file,
            deleted_file: self.deleted_file,
            renamed_file: self.renamed_file,
        }
    }
}

/// Models of a list of diffs.
pub open spec fn diffs_model(v: Seq<MrDiff>) -> Seq<MrDiffModel> {
    v.map_values(|d: MrDiff| d@)
}

// ── Discussions and notes ───────────────────────────────────────────────────────────────────────

/// Where in a diff a note stands. Lines count from one.
#[derive(Debug)]
pub struct NotePosition {
    pub new_path: String,
    pub new_line: Option<u32>,
    pub old_path: Option<String>,
    pub old_line: Option<u32>,
    pub position_type: String,
    pub base_sha: String,
    pub head_sha: String,
    pub start_sha: String,
}

/// Model of [`NotePosition`].
pub struct NotePositionModel {
    pub new_path: Seq<char>,
    pub new_line: Option<u32>,
    pub old_path: Option<Seq<char>>,
    pub old_line: Option<u32>,
    pub position_type: Seq<char>,
    pub base_sha: Seq<char>,
    pub head_sha: Seq<char>,
    pub start_sha: Seq<char>,
}

/// The text of an optional string.
pub open spec fn text_model(s: Option<String>) -> Option<Seq<char>> {
    match s {
        Some(t) => Some(t@),
        None => None,
    }
}

/// A copy of the string, where there is one.
pub fn copy_text(s: &Option<String>) -> (c: Option<String>)
    ensures
        text_model(c) == text_model(*s),
{
    match s {
        Some(t) => Some(t.clone()),
        None => None,
    }
}

impl View for NotePosition {
    type V = NotePositionModel;

    open spec fn view(&self) -> NotePositionModel {
        NotePositionModel {
            new_path: self.new_path@,
            new_line: self.new_line,
            old_path: text_model(self.old_path),
            old_line: self.old_line,
            position_type: self.position_type@,
            base_sha: self.base_sha@,
            head_sha: self.head_sha@,
            start_sha: self.start_sha@,
        }
    }
}

impl Clone for NotePosition {
    fn clone(&self) -> (r: Self)
        ensures
            r@ == self@,
    {
        NotePosition {
            new_path: self.new_path.clone(),
            new_line: self.new_line,
            old_path: copy_text(&self.old_path),
            old_line: self.old_line,
            position_type: self.position_type.clone(),
            base_sha: self.base_sha.clone(),
            head_sha: self.head_sha.clone(),
            start_sha: self.start_sha.clone(),
        }
    }
}

#[derive(Debug)]
pub struct Note {
    pub id: u64,
    /// Empty on some notes that the system wrote.
    pub body: String,
    pub author: User,
    pub created_at: String,
    pub position: Option<NotePosition>,
    pub resolvable: bool,
    pub resolved: bool,
}

/// Model of [`Note`].
pub struct NoteModel {
    pub id: u64,
    pub body: Seq<char>,
    pub author: UserModel,
    pub created_at: Seq<char>,
    pub position: Option<NotePositionModel>,
    pub resolvable: bool,
    pub resolved: bool,
}

impl View for Note {
    type V = NoteModel;

    open spec fn view(&self) -> NoteModel {
        NoteModel {
            id: self.id,
            body: self.body@,
            author: self.author@,
            created_at: self.created_at@,
            position: match self.position {
                Some(p) => Some(p@),
                None => None,
            },
            resolvable: self.resolvable,
            resolved: self.resolved,
        }
    }
}

impl Clone for Note {
    fn clone(&self) -> (r: Self)
        ensures
            r@ == self@,
    {
        Note {
            id: self.id,
            body: self.body.clone(),
            author: self.author.clone(),
            created_at: self.created_at.clone(),
            position: match &self.position {
                Some(p) => Some(p.clone()),
                None => None,
            },
            resolvable: self.resolvable,
            resolved: self.resolved,
        }
    }
}

/// A thread of notes.
#[derive(Debug)]
pub struct Discussion {
    pub id: String,
    pub resolved: bool,
    pub notes: Vec<Note>,
}

/// Model of [`Discussion`].
pub struct DiscussionModel {
    pub id: Seq<char>,
    pub resolved: bool,
    pub notes: Seq<NoteModel>,
}

impl View for Discussion {
    type V = DiscussionModel;

    open spec fn view(&self) -> DiscussionModel {
        DiscussionModel {
            id: self.id@,
            resolved: self.resolved,
            notes: self.notes@.map_values(|n: Note| n@),
        }
    }
}

impl Clone for Discussion {
    fn clone(&self) -> (r: Self)
        ensures
            r@ == self@,
    {
        let mut notes: Vec<Note> = Vec::new();
        let mut i: usize = 0;
        while i < self.notes.len()
            invariant
                i <= self.notes.len(),
                notes.len() == i,
                forall|j: int| 0 <= j < i ==> (#[trigger] notes@[j])@ == self.notes@[j]@,
            decreases self.notes.len() - i,
        {
            notes.push(self.notes[i].clone());
            i += 1;
        }
        let r = Discussion { id: self.id.clone(), resolved: self.resolved, notes };
        assert(r@.notes =~= self@.notes);
        r
    }
}

/// Models of a list of discussions.
pub open spec fn discussions_model(v: Seq<Discussion>) -> Seq<DiscussionModel> {
    v.map_values(|d: Discussion| d@)
}

impl DiscussionModel {
    /// At least one note can be resolved.
    pub open spec fn resolvable(self) -> bool {
        exists|i: int| 0 <= i < self.notes.len() && (#[trigger] self.notes[i]).resolvable
    }

    /// The first note's position, where there is a note and it has one.
    pub open spec fn position(self) -> Option<NotePositionModel> {
        if self.notes.len() > 0 {
            self.notes[0].position
        } else {
            None
        }
    }
}

impl Discussion {
    /// True if at least one note in this discussion is resolvable.
    pub fn resolvable(&self) -> (r: bool)
        ensures
            r == self@.resolvable(),
    {
        let mut i: usize = 0;
        while i < self.notes.len()
            invariant
                i <= self.notes.len(),
                forall|j: int| 0 <= j < i ==> !(#[trigger] self@.notes[j]).resolvable,
            decreases self.notes.len() - i,
        {
            if self.notes[i].resolvable {
                assert(self@.notes[i as int].resolvable);
                return true;
            }
            i += 1;
        }
        false
    }

    /// The first note's position.
    pub fn position(&self) -> (r: Option<&NotePosition>)
        ensures
            (match r {
                Some(p) => self@.position() == Some(p@),
                None => self@.position() is None,
            }),
    {
        if self.notes.len() > 0 {
            match &self.notes[0].position {
                Some(p) => Some(p),
                None => None,
            }
        } else {
            None
        }
    }
}

// ── Request bodies ──────────────────────────────────────────────────────────────────────────────

/// Body of a request that posts a note.
#[derive(Debug)]
pub struct CreateNoteBody<'a> {
    pub body: &'a str,
}

/// Body of a request that posts a note on a line of a diff.
#[derive(Debug)]
pub struct CreateDiffNoteBody<'a> {
    pub body: &'a str,
    pub position: &'a NotePosition,
}

/// Body of a request that resolves a discussion or opens it again.
#[derive(Debug)]
pub struct ResolveDiscussionBody {
    pub resolved: bool,
}

/// What is shown of GitLab's values is all that they hold.
pub proof fn law_values_shown(
    user: User,
    refs: DiffRefs,
    diff: MrDiff,
    pos: NotePosition,
    note: Note,
    discussion: Discussion,
)
    ensures
        user@.id == user.id && user@.username == user.username@ && user@.name == user.name@,
        refs@.base_sha == refs.base_sha@ && refs@.head_sha == refs.head_sha@ && refs@.start_sha
            == refs.start_sha@,
        diff@.old_path == diff.old_path@ && diff@.new_path == diff.new_path@ && diff@.diff
            == diff.diff@,
        diff@.new_file == diff.new_file && diff@.deleted_file == diff.deleted_file
            && diff@.renamed_file == diff.renamed_file,
        pos@.new_path == pos.new_path@ && pos@.new_line == pos.new_line && pos@.old_line
            == pos.old_line && pos@.position_type == pos.position_type@,
        pos@.base_sha == pos.base_sha@ && pos@.head_sha == pos.head_sha@ && pos@.start_sha
            == pos.start_sha@,
        pos.old_path matches Some(p) ==> pos@.old_path == Some(p@),
        pos.old_path is None ==> pos@.old_path is None,
        note@.id == note.id && note@.body == note.body@ && note@.author == note.author@
            && note@.created_at == note.created_at@,
        note@.resolvable == note.resolvable && note@.resolved == note.resolved,
        note.position matches Some(p) ==> note@.position == Some(p@),
        note.position is None ==> note@.position is None,
        discussion@.id == discussion.id@ && discussion@.resolved == discussion.resolved,
        discussion@.notes.len() == discussion.notes@.len(),
        forall|i: int|
            0 <= i < discussion.notes.len() ==> #[trigger] discussion@.notes[i]
                == discussion.notes@[i]@,
{
}

/// A discussion stands where its first note does, and can be resolved if one of its notes can.
pub proof fn law_discussion_position(d: DiscussionModel)
    ensures
        d.notes.len() == 0 ==> d.position() is None && !d.resolvable(),
        d.notes.len() > 0 ==> d.position() == d.notes[0].position,
        d.resolvable() <==> d.notes.any(|n: NoteModel| n.resolvable),
{
    let f = |n: NoteModel| n.resolvable;
    if d.resolvable() {
        let i = choose|i: int| 0 <= i < d.notes.len() && (#[trigger] d.notes[i]).resolvable;
        assert(f(d.notes[i]));
    }
    if d.notes.any(f) {
        let i = choose|i: int| 0 <= i < d.notes.len() && f(#[trigger] d.notes[i]);
        assert(d.notes[i].resolvable);
    }
}

/// Lists and optional values are shown element by element, and a merge request with all that it holds.
pub proof fn law_lists_shown(
    diffs: Seq<MrDiff>,
    discussions: Seq<Discussion>,
    refs: DiffRefs,
    text: String,
    mr: MergeRequest,
)
    ensures
        diffs_model(diffs).len() == diffs.len(),
        forall|i: int| 0 <= i < diffs.len() ==> #[trigger] diffs_model(diffs)[i] == diffs[i]@,
        discussions_model(discussions).len() == discussions.len(),
        forall|i: int|
            0 <= i < discussions.len() ==> #[trigger] discussions_model(discussions)[i]
                == discussions[i]@,
        refs_model(Some(refs)) == Some(refs@),
        refs_model(None) is None,
        text_model(Some(text)) == Some(text@),
        text_model(None) is None,
        mr@.iid == mr.iid && mr@.title == mr.title@ && mr@.state == mr.state@ && mr@.sha == mr.sha@,
        mr@.source_branch == mr.source_branch@ && mr@.target_branch == mr.target_branch@,
        mr@.diff_refs == refs_model(mr.diff_refs) && mr@.author == mr.author@,
{
}

} // verus!
