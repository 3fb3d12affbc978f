//! The server's state, and what it derives from what GitLab sent.
use std::collections::BTreeMap;

use vstd::prelude::*;

use crate::config::Config;
use crate::file_map::FileMap;
use crate::gitlab::diff::{line_map, numbers_fit, parse_diff_line_map};
use crate::gitlab::types::{
    diffs_model,
    discussions_model,
    Discussion,
    DiscussionModel,
    MergeRequest,
    MrDiff,
    MrDiffModel,
};
use crate::ignore::{answers_on, is_answer, is_ignored};
use crate::text::{same_text, string_texts};

verus! {

/// What action should be taken when the user runs `gitlab-mr.submitInput`.
#[derive(Debug)]
pub enum PendingAction {
    /// Post a new top-level diff note on a specific file+line.
    AddComment { file: String, line: u32 },
    /// Reply to an existing discussion thread.
    Reply { discussion_id: String },
}

impl Clone for PendingAction {
    fn clone(&self) -> (r: Self)
        ensures
            r == *self,
    {
        match self {
            PendingAction::AddComment { file, line } => PendingAction::AddComment {
                file: file.clone(),
                line: *line,
            },
            PendingAction::Reply { discussion_id } => PendingAction::Reply {
                discussion_id: discussion_id.clone(),
            },
        }
    }
}

/// Model of [`PendingAction`].
pub enum PendingModel {
    AddComment { file: Seq<char>, line: u32 },
    Reply { discussion_id: Seq<char> },
}

impl View for PendingAction {
    type V = PendingModel;

    open spec fn view(&self) -> PendingModel {
        match self {
            PendingAction::AddComment { file, line } => PendingModel::AddComment {
                file: file@,
                line: *line,
            },
            PendingAction::Reply { discussion_id } => PendingModel::Reply {
                discussion_id: discussion_id@,
            },
        }
    }
}

#[derive(Debug)]
pub struct BackendState {
    pub config: Option<Config>,
    pub repo_root: String,
    pub project_path: String,
    pub mr: Option<MergeRequest>,
    pub diffs: Vec<MrDiff>,
    pub discussions: Vec<Discussion>,
    /// Map from repo-relative file path to the discussions touching that file.
    pub discussions_by_file: FileMap<Vec<Discussion>>,
    /// Diff line maps keyed by new_path (new_line_1indexed to old_line or None).
    pub line_maps: FileMap<BTreeMap<u32, Option<u32>>>,
    /// Track whether we've already notified the user about "no token found".
    pub notified_no_token: bool,
    /// Track whether we've already notified the user about "no MR found".
    pub notified_no_mr: bool,
    /// The local HEAD SHA for which we last emitted an out-of-sync warning.
    pub last_out_of_sync_sha: Option<String>,
    /// Temp-file paths for which we have already called window/showDocument.
    pub shown_diff_paths: Vec<String>,
    /// Pending input: path of the temp buffer the user is editing + what to do on submit.
    pub pending_input: Option<(String, PendingAction)>,
    /// Files the user has marked as "seen", keyed by repo-relative path.
    /// Value is the MR head SHA at the time of marking; if the MR head advances
    /// the entry is stale and the file is treated as unseen again.
    pub seen_files: FileMap<String>,
}

/// The two states say the same of everything.
pub open spec fn same_state(a: BackendState, b: BackendState) -> bool {
    &&& (match (a.config, b.config) {
        (Some(x), Some(y)) => x@ == y@,
        (None, None) => true,
        _ => false,
    })
    &&& a.repo_root == b.repo_root
    &&& a.project_path == b.project_path
    &&& (match (a.mr, b.mr) {
        (Some(x), Some(y)) => x@ == y@,
        (None, None) => true,
        _ => false,
    })
    &&& diffs_model(a.diffs@) == diffs_model(b.diffs@)
    &&& discussions_model(a.discussions@) == discussions_model(b.discussions@)
    &&& files_model(a.discussions_by_file) == files_model(b.discussions_by_file)
    &&& a.discussions_by_file.paths() == b.discussions_by_file.paths()
    &&& maps_model(a.line_maps) == maps_model(b.line_maps)
    &&& a.notified_no_token == b.notified_no_token
    &&& a.notified_no_mr == b.notified_no_mr
    &&& a.last_out_of_sync_sha == b.last_out_of_sync_sha
    &&& string_texts(a.shown_diff_paths@) == string_texts(b.shown_diff_paths@)
    &&& a.pending_input == b.pending_input
    &&& seen_model(a.seen_files) == seen_model(b.seen_files)
}

impl Clone for BackendState {
    fn clone(&self) -> (r: Self)
        ensures
            same_state(*self, r),
    {
        let r = BackendState {
            config: match &self.config {
                Some(c) => Some(c.clone()),
                None => None,
            },
            repo_root: self.repo_root.clone(),
            project_path: self.project_path.clone(),
            mr: match &self.mr {
                Some(m) => Some(m.clone()),
                None => None,
            },
            diffs: self.diffs.clone(),
            discussions: self.discussions.clone(),
            discussions_by_file: self.discussions_by_file.clone(),
            line_maps: self.line_maps.clone(),
            notified_no_token: self.notified_no_token,
            notified_no_mr: self.notified_no_mr,
            last_out_of_sync_sha: match &self.last_out_of_sync_sha {
                Some(sha) => Some(sha.clone()),
                None => None,
            },
            shown_diff_paths: self.shown_diff_paths.clone(),
            pending_input: match &self.pending_input {
                Some((path, action)) => Some((path.clone(), action.clone())),
                None => None,
            },
            seen_files: self.seen_files.clone(),
        };
        assert(diffs_model(r.diffs@) =~= diffs_model(self.diffs@));
        assert(discussions_model(r.discussions@) =~= discussions_model(self.discussions@));
        assert(string_texts(r.shown_diff_paths@) =~= string_texts(self.shown_diff_paths@));
        assert(seen_model(r.seen_files) =~= seen_model(self.seen_files));
        assert forall|path: Seq<char>| #[trigger]
            self.discussions_by_file@.contains_key(path) implies discussions_model(
            r.discussions_by_file@[path]@,
        ) == discussions_model(self.discussions_by_file@[path]@) by {
            let v = self.discussions_by_file@[path];
            let w = r.discussions_by_file@[path];
            assert(cloned(v, w));
            assert(discussions_model(w@) =~= discussions_model(v@));
        }
        assert(files_model(r.discussions_by_file) =~= files_model(self.discussions_by_file));
        assert(maps_model(r.line_maps) =~= maps_model(self.line_maps));
        r
    }
}

impl Default for BackendState {
    /// Nothing configured, nothing loaded, nothing shown.
    fn default() -> (s: Self)
        ensures
            s.config is None,
            s.repo_root@.len() == 0,
            s.project_path@.len() == 0,
            s.mr is None,
            s.diffs@.len() == 0,
            s.discussions@.len() == 0,
            s.discussions_by_file@ == Map::<Seq<char>, Vec<Discussion>>::empty(),
            s.discussions_by_file.paths().len() == 0,
            s.line_maps@ == Map::<Seq<char>, BTreeMap<u32, Option<u32>>>::empty(),
            !s.notified_no_token,
            !s.notified_no_mr,
            s.last_out_of_sync_sha is None,
            s.shown_diff_paths@.len() == 0,
            s.pending_input is None,
            s.seen_files@ == Map::<Seq<char>, String>::empty(),
    {
        BackendState {
            config: None,
            repo_root: String::new(),
            project_path: String::new(),
            mr: None,
            diffs: Vec::new(),
            discussions: Vec::new(),
            discussions_by_file: FileMap::new(),
            line_maps: FileMap::new(),
            notified_no_token: false,
            notified_no_mr: false,
            last_out_of_sync_sha: None,
            shown_diff_paths: Vec::new(),
            pending_input: None,
            seen_files: FileMap::new(),
        }
    }
}

/// Why review features (code actions, hover, inlay hints) are unavailable.
#[derive(Debug, Clone, Copy, PartialEq, Eq, Structural)]
pub enum NotReady {
    /// No GitLab auth: token is empty or config failed to load.
    NoAuth,
    /// No upstream: couldn't resolve a `group/repo` project path from the remote.
    NoUpstream,
    /// Configured correctly, but there's no open MR for the current branch.
    NoMr,
}

impl NotReady {
    /// A human-readable explanation, suitable for logs and user notifications.
    pub fn message(self) -> (r: &'static str)
        ensures
            r@ == (match self {
                NotReady::NoAuth =>
                    "no GitLab token found — set GITLAB_TOKEN or run `glab auth login`"@,
                NotReady::NoUpstream =>
                    "no GitLab upstream — could not derive a project path from the git remote `origin`"@,
                NotReady::NoMr => "no open MR found for the current branch"@,
            }),
    {
        match self {
            NotReady::NoAuth =>
                "no GitLab token found — set GITLAB_TOKEN or run `glab auth login`",
            NotReady::NoUpstream =>
                "no GitLab upstream — could not derive a project path from the git remote `origin`",
            NotReady::NoMr => "no open MR found for the current branch",
        }
    }
}

// ── Derived data ────────────────────────────────────────────────────────────────────────────────

/// The discussion stands on the file `path`: its first note has a position, in that file.
pub open spec fn is_on_file(d: DiscussionModel, path: Seq<char>) -> bool {
    d.position() matches Some(pos) && pos.new_path == path
}

/// The discussions on `path`, in order.
pub open spec fn on_file(ds: Seq<DiscussionModel>, path: Seq<char>) -> Seq<DiscussionModel>
    decreases ds.len(),
{
    if ds.len() == 0 {
        Seq::empty()
    } else if is_on_file(ds.last(), path) {
        on_file(ds.drop_last(), path).push(ds.last())
    } else {
        on_file(ds.drop_last(), path)
    }
}

/// The files on which discussions stand, each once, in the order in which they first come.
pub open spec fn files_of(ds: Seq<DiscussionModel>) -> Seq<Seq<char>>
    decreases ds.len(),
{
    if ds.len() == 0 {
        Seq::empty()
    } else {
        let files = files_of(ds.drop_last());
        match ds.last().position() {
            Some(pos) => if files.contains(pos.new_path) {
                files
            } else {
                files.push(pos.new_path)
            },
            None => files,
        }
    }
}

/// From each file on which discussions stand to those discussions, in order.
pub open spec fn by_file(ds: Seq<DiscussionModel>) -> Map<Seq<char>, Seq<DiscussionModel>> {
    Map::new(|path: Seq<char>| files_of(ds).contains(path), |path: Seq<char>| on_file(ds, path))
}

/// Model of the discussions by file.
pub open spec fn files_model(m: FileMap<Vec<Discussion>>) -> Map<Seq<char>, Seq<DiscussionModel>> {
    m@.map_values(|v: Vec<Discussion>| discussions_model(v@))
}

/// The line map of each changed file. The last diff of a file counts.
pub open spec fn line_maps_of(diffs: Seq<MrDiffModel>) -> Map<Seq<char>, Map<u32, Option<u32>>>
    decreases diffs.len(),
{
    if diffs.len() == 0 {
        Map::empty()
    } else {
        line_maps_of(diffs.drop_last()).insert(diffs.last().new_path, line_map(diffs.last().diff))
    }
}

/// Model of the line maps by file.
pub open spec fn maps_model(m: FileMap<BTreeMap<u32, Option<u32>>>) -> Map<
    Seq<char>,
    Map<u32, Option<u32>>,
> {
    m@.map_values(|v: BTreeMap<u32, Option<u32>>| v@)
}

/// The discussions on `path`.
fn discussions_on(discussions: &Vec<Discussion>, path: &str) -> (r: Vec<Discussion>)
    ensures
        discussions_model(r@) == on_file(discussions_model(discussions@), path@),
{
    let ghost all = discussions_model(discussions@);
    let mut r: Vec<Discussion> = Vec::new();
    let mut i: usize = 0;
    assert(discussions_model(r@) =~= on_file(all.take(0), path@));
    while i < discussions.len()
        invariant
            i <= discussions.len(),
            all == discussions_model(discussions@),
            discussions_model(r@) == on_file(all.take(i as int), path@),
        decreases discussions.len() - i,
    {
        let d = &discussions[i];
        assert(all.take(i + 1).drop_last() =~= all.take(i as int));
        assert(all[i as int] == d@);
        match d.position() {
            Some(pos) => {
                if same_text(pos.new_path.as_str(), path) {
                    let ghost before = r@;
                    let copy = d.clone();
                    r.push(copy);
                    assert(discussions_model(r@) =~= discussions_model(before).push(copy@));
                }
            },
            None => {},
        }
        i += 1;
    }
    assert(all.take(all.len() as int) =~= all);
    r
}

proof fn lemma_files_of(ds: Seq<DiscussionModel>, path: Seq<char>)
    ensures
        files_of(ds).contains(path) <==> on_file(ds, path).len() > 0,
    decreases ds.len(),
{
    if ds.len() > 0 {
        let rest = ds.drop_last();
        lemma_files_of(rest, path);
        let files = files_of(rest);
        if let Some(pos) = ds.last().position() {
            if !files.contains(pos.new_path) {
                let now = files.push(pos.new_path);
                assert(now[now.len() - 1] == pos.new_path);
                if files.contains(path) {
                    let k = files.index_of(path);
                    assert(now[k] == path);
                }
                if now.contains(path) && path != pos.new_path {
                    let k = now.index_of(path);
                    assert(files[k] == path);
                }
            }
        }
    }
}

/// Groups the discussions by the file on which they stand.
fn group_by_file(discussions: &Vec<Discussion>) -> (m: FileMap<Vec<Discussion>>)
    ensures
        files_model(m) == by_file(discussions_model(discussions@)),
        m.paths() == files_of(discussions_model(discussions@)),
{
    let ghost all = discussions_model(discussions@);
    let mut m: FileMap<Vec<Discussion>> = FileMap::new();
    let mut i: usize = 0;
    assert(m.paths() =~= files_of(all.take(0)));
    while i < discussions.len()
        invariant
            i <= discussions.len(),
            all == discussions_model(discussions@),
            m.paths() == files_of(all.take(i as int)),
            forall|path: Seq<char>| #[trigger]
                m@.contains_key(path) <==> files_of(all.take(i as int)).contains(path),
            forall|path: Seq<char>| #[trigger]
                m@.contains_key(path) ==> discussions_model(m@[path]@) == on_file(all, path),
        decreases discussions.len() - i,
    {
        let d = &discussions[i];
        assert(all.take(i + 1).drop_last() =~= all.take(i as int));
        assert(all[i as int] == d@);
        match d.position() {
            Some(pos) => {
                if !m.contains_key(pos.new_path.as_str()) {
                    let path = pos.new_path.clone();
                    let threads = discussions_on(discussions, path.as_str());
                    m.insert(path, threads);
                }
            },
            None => {},
        }
        i += 1;
    }
    assert(all.take(all.len() as int) =~= all);
    assert(files_model(m) =~= by_file(all));
    m
}

/// The line map of each diff, by file.
fn map_by_file(diffs: &Vec<MrDiff>) -> (m: FileMap<BTreeMap<u32, Option<u32>>>)
    requires
        forall|i: int| 0 <= i < diffs.len() ==> numbers_fit((#[trigger] diffs@[i]).diff@),
    ensures
        maps_model(m) == line_maps_of(diffs_model(diffs@)),
{
    let ghost all = diffs_model(diffs@);
    let mut m: FileMap<BTreeMap<u32, Option<u32>>> = FileMap::new();
    let mut i: usize = 0;
    assert(maps_model(m) =~= line_maps_of(all.take(0)));
    while i < diffs.len()
        invariant
            i <= diffs.len(),
            all == diffs_model(diffs@),
            forall|j: int| 0 <= j < diffs.len() ==> numbers_fit((#[trigger] diffs@[j]).diff@),
            maps_model(m) == line_maps_of(all.take(i as int)),
        decreases diffs.len() - i,
    {
        let ghost done = m;
        let d = &diffs[i];
        assert(all.take(i + 1).drop_last() =~= all.take(i as int));
        assert(all[i as int] == d@);
        let map = parse_diff_line_map(d.diff.as_str());
        m.insert(d.new_path.clone(), map);
        assert(maps_model(m) =~= maps_model(done).insert(d.new_path@, map@));
        i += 1;
    }
    assert(all.take(all.len() as int) =~= all);
    m
}

// ── Seen files ──────────────────────────────────────────────────────────────────────────────────

/// Model of the seen files.
pub open spec fn seen_model(m: FileMap<String>) -> Map<Seq<char>, Seq<char>> {
    m@.map_values(|v: String| v@)
}

/// The file counts as seen while the merge request's head is `head_sha`: it was marked at that
/// head.
pub open spec fn is_seen(
    seen: Map<Seq<char>, Seq<char>>,
    path: Seq<char>,
    head_sha: Seq<char>,
) -> bool {
    seen.contains_key(path) && seen[path] == head_sha
}

/// One of the first `k` diffs is of the file `path` and to be ignored.
pub open spec fn is_marked(
    diffs: Seq<MrDiffModel>,
    ignored: Seq<bool>,
    k: int,
    path: Seq<char>,
) -> bool {
    exists|i: int| 0 <= i < k && (#[trigger] diffs[i]).new_path == path && ignored[i]
}

/// The seen files after the ignored ones of the first `k` diffs have been marked at `head_sha`.
pub open spec fn seen_after(
    seen: Map<Seq<char>, Seq<char>>,
    diffs: Seq<MrDiffModel>,
    ignored: Seq<bool>,
    k: int,
    head_sha: Seq<char>,
) -> Map<Seq<char>, Seq<char>> {
    Map::new(
        |path: Seq<char>| seen.contains_key(path) || is_marked(diffs, ignored, k, path),
        |path: Seq<char>|
            if is_marked(diffs, ignored, k, path) {
                head_sha
            } else {
                seen[path]
            },
    )
}

impl BackendState {
    /// The first thing that review features lack.
    pub open spec fn blocker(&self) -> Option<NotReady> {
        if self.config is None || self.config->0.gitlab_token@.len() == 0 {
            Some(NotReady::NoAuth)
        } else if self.project_path@.len() == 0 {
            Some(NotReady::NoUpstream)
        } else if self.mr is None {
            Some(NotReady::NoMr)
        } else {
            None
        }
    }

    /// Returns `None` when review features have everything they need (auth,
    /// upstream, and an MR loaded), or `Some(reason)` describing the first
    /// missing prerequisite. Used to suppress code actions, hover, and inlay
    /// hints so the workspace isn't cluttered with actions that can't succeed
    /// (no config) or have nothing to target (no open MR).
    pub fn review_blocker(&self) -> (r: Option<NotReady>)
        ensures
            r == self.blocker(),
    {
        let no_auth = match &self.config {
            Some(c) => c.gitlab_token.as_str().is_empty(),
            None => true,
        };
        if no_auth {
            Some(NotReady::NoAuth)
        } else if self.project_path.as_str().is_empty() {
            Some(NotReady::NoUpstream)
        } else if self.mr.is_none() {
            Some(NotReady::NoMr)
        } else {
            None
        }
    }

    /// The configured ignore patterns.
    pub open spec fn patterns(&self) -> Seq<Seq<char>> {
        match self.config {
            Some(c) => string_texts(c.ignore_patterns@),
            None => Seq::empty(),
        }
    }

    /// Marks as seen at `head_sha` the files whose diff `ignored` picks out, one answer for each
    /// diff.
    pub fn mark_seen(&mut self, head_sha: &str, ignored: &Vec<bool>)
        requires
            ignored.len() == old(self).diffs.len(),
        ensures
            *final(self) == (BackendState { seen_files: final(self).seen_files, ..*old(self) }),
            seen_model(final(self).seen_files) == seen_after(
                seen_model(old(self).seen_files),
                diffs_model(old(self).diffs@),
                ignored@,
                ignored.len() as int,
                head_sha@,
            ),
    {
        let ghost was = *self;
        let ghost all = diffs_model(self.diffs@);
        let ghost seen = seen_model(self.seen_files);
        let mut i: usize = 0;
        assert(seen_model(self.seen_files) =~= seen_after(seen, all, ignored@, 0, head_sha@));
        while i < ignored.len()
            invariant
                i <= ignored.len(),
                ignored.len() == self.diffs.len(),
                all == diffs_model(self.diffs@),
                *self == (BackendState { seen_files: self.seen_files, ..was }),
                seen_model(self.seen_files) == seen_after(
                    seen,
                    all,
                    ignored@,
                    i as int,
                    head_sha@,
                ),
            decreases ignored.len() - i,
        {
            let ghost before = seen_model(self.seen_files);
            assert(all[i as int] == self.diffs@[i as int]@);
            assert forall|path: Seq<char>| #[trigger]
                is_marked(all, ignored@, i + 1, path) == (is_marked(all, ignored@, i as int, path)
                    || (all[i as int].new_path == path && ignored@[i as int])) by {
                if is_marked(all, ignored@, i as int, path) {
                    let k = choose|k: int|
                        0 <= k < i && (#[trigger] all[k]).new_path == path && ignored@[k];
                    assert(all[k].new_path == path);
                }
            }
            if ignored[i] {
                let path = self.diffs[i].new_path.clone();
                let sha = head_sha.to_owned();
                self.seen_files.insert(path, sha);
                assert(seen_model(self.seen_files) =~= before.insert(path@, head_sha@));
            }
            assert(seen_model(self.seen_files) =~= seen_after(
                seen,
                all,
                ignored@,
                i + 1,
                head_sha@,
            ));
            i += 1;
        }
    }

    /// Auto-mark any diff files whose path matches a configured ignore pattern
    /// as seen at the given `head_sha`. Existing seen entries for ignored files
    /// are refreshed to the new SHA so they stay suppressed after a rebase/push.
    pub fn apply_ignore_patterns(&mut self, head_sha: &str)
        ensures
            *final(self) == (BackendState { seen_files: final(self).seen_files, ..*old(self) }),
            exists|ignored: Seq<bool>|
                {
                    &&& ignored.len() == old(self).diffs.len()
                    &&& forall|i: int|
                        0 <= i < ignored.len() ==> is_answer(
                            old(self).patterns(),
                            old(self).diffs@[i].new_path@,
                            #[trigger] ignored[i],
                        )
                    &&& seen_model(final(self).seen_files) == #[trigger] seen_after(
                        seen_model(old(self).seen_files),
                        diffs_model(old(self).diffs@),
                        ignored,
                        ignored.len() as int,
                        head_sha@,
                    )
                },
    {
        let mut ignored: Vec<bool> = Vec::new();
        let mut i: usize = 0;
        while i < self.diffs.len()
            invariant
                i <= self.diffs.len(),
                ignored.len() == i,
                forall|j: int|
                    0 <= j < i ==> is_answer(
                        self.patterns(),
                        self.diffs@[j].new_path@,
                        #[trigger] ignored@[j],
                    ),
            decreases self.diffs.len() - i,
        {
            let answer = match &self.config {
                Some(c) => is_ignored(&c.ignore_patterns, self.diffs[i].new_path.as_str()),
                None => {
                    assert(answers_on(
                        Seq::empty(),
                        self.patterns(),
                        self.diffs@[i as int].new_path@,
                        false,
                    ));
                    false
                },
            };
            ignored.push(answer);
            i += 1;
        }
        self.mark_seen(head_sha, &ignored);
    }

    /// Every line number that a loaded diff comes to fits in 32 bits.
    pub open spec fn diffs_fit(&self) -> bool {
        forall|i: int| 0 <= i < self.diffs.len() ==> numbers_fit((#[trigger] self.diffs@[i]).diff@)
    }

    /// The derived data is that of the discussions and the diffs.
    pub open spec fn is_derived(&self) -> bool {
        &&& files_model(self.discussions_by_file) == by_file(discussions_model(self.discussions@))
        &&& self.discussions_by_file.paths() == files_of(discussions_model(self.discussions@))
        &&& maps_model(self.line_maps) == line_maps_of(diffs_model(self.diffs@))
    }

    /// Groups the discussions by file and maps the lines of each diff anew.
    pub fn rebuild_derived(&mut self)
        requires
            old(self).diffs_fit(),
        ensures
            final(self).is_derived(),
            *final(self) == (BackendState {
                discussions_by_file: final(self).discussions_by_file,
                line_maps: final(self).line_maps,
                ..*old(self)
            }),
    {
        self.discussions_by_file = group_by_file(&self.discussions);
        self.line_maps = map_by_file(&self.diffs);
    }
}

// ── Laws ────────────────────────────────────────────────────────────────────────────────────────

/// Review features are available if and only if there are a token, a project path and a merge
/// request.
pub proof fn law_ready(s: BackendState)
    ensures
        s.blocker() is None <==> (s.config matches Some(c) && c.gitlab_token@.len() > 0)
            && s.project_path@.len() > 0 && s.mr is Some,
{
}

/// What comes first is reported first: without a token nothing else is named, and without a
/// project path no merge request is.
pub proof fn law_blocker_priority(s: BackendState)
    ensures
        (s.config is None || s.config->0.gitlab_token@.len() == 0) ==> s.blocker() == Some(
            NotReady::NoAuth,
        ),
        s.blocker() == Some(NotReady::NoMr) ==> s.project_path@.len() > 0,
{
}

/// Each discussion on a file is in that file's group.
pub proof fn law_discussion_grouped(ds: Seq<DiscussionModel>, i: int, path: Seq<char>)
    requires
        0 <= i < ds.len(),
        is_on_file(ds[i], path),
    ensures
        by_file(ds).contains_key(path),
        by_file(ds)[path].contains(ds[i]),
    decreases ds.len(),
{
    lemma_files_of(ds, path);
    let group = on_file(ds, path);
    if i == ds.len() - 1 {
        assert(group[group.len() - 1] == ds[i]);
    } else {
        law_discussion_grouped(ds.drop_last(), i, path);
        let rest = on_file(ds.drop_last(), path);
        let k = rest.index_of(ds[i]);
        assert(group[k] == ds[i]);
    }
}

/// A file's group holds discussions on that file and no others, as often as they come and in the
/// order in which they come.
pub proof fn law_group_is_of_file(ds: Seq<DiscussionModel>, path: Seq<char>)
    ensures
        on_file(ds, path) == ds.filter(|d: DiscussionModel| is_on_file(d, path)),
    decreases ds.len(),
{
    reveal(Seq::filter);
    if ds.len() > 0 {
        law_group_is_of_file(ds.drop_last(), path);
    }
}

/// A file has one group.
pub proof fn law_one_group_a_file(ds: Seq<DiscussionModel>)
    ensures
        files_of(ds).no_duplicates(),
    decreases ds.len(),
{
    if ds.len() > 0 {
        law_one_group_a_file(ds.drop_last());
    }
}

/// There is no group for a file on which no discussion stands.
pub proof fn law_no_empty_group(ds: Seq<DiscussionModel>, path: Seq<char>)
    ensures
        by_file(ds).contains_key(path) <==> on_file(ds, path).len() > 0,
{
    lemma_files_of(ds, path);
}

/// Marking keeps a file suppressed after a push: an ignored file is seen at the new head, however
/// it was marked before.
pub proof fn law_ignored_seen_at_head(
    seen: Map<Seq<char>, Seq<char>>,
    diffs: Seq<MrDiffModel>,
    ignored: Seq<bool>,
    head_sha: Seq<char>,
    i: int,
)
    requires
        0 <= i < diffs.len(),
        ignored.len() == diffs.len(),
        ignored[i],
    ensures
        is_seen(
            seen_after(seen, diffs, ignored, diffs.len() as int, head_sha),
            diffs[i].new_path,
            head_sha,
        ),
{
    assert(is_marked(diffs, ignored, diffs.len() as int, diffs[i].new_path));
}

/// Marking leaves the files alone that are not ignored.
pub proof fn law_others_keep_mark(
    seen: Map<Seq<char>, Seq<char>>,
    diffs: Seq<MrDiffModel>,
    ignored: Seq<bool>,
    head_sha: Seq<char>,
    path: Seq<char>,
)
    requires
        !is_marked(diffs, ignored, diffs.len() as int, path),
    ensures
        seen_after(seen, diffs, ignored, diffs.len() as int, head_sha).contains_key(path)
            <==> seen.contains_key(path),
        seen.contains_key(path) ==> seen_after(
            seen,
            diffs,
            ignored,
            diffs.len() as int,
            head_sha,
        )[path] == seen[path],
{
}

/// A mark is stale once the head has advanced: the file counts as unseen again.
pub proof fn law_stale_mark(
    seen: Map<Seq<char>, Seq<char>>,
    path: Seq<char>,
    marked_at: Seq<char>,
    head_sha: Seq<char>,
)
    requires
        is_seen(seen, path, marked_at),
        head_sha != marked_at,
    ensures
        !is_seen(seen, path, head_sha),
{
}

/// A discussion stands on the file that its first note's position names.
pub proof fn law_file_of_first_note(d: DiscussionModel, path: Seq<char>)
    ensures
        d.notes.len() == 0 ==> !is_on_file(d, path),
        d.notes.len() > 0 ==> (is_on_file(d, path) <==> (d.notes[0].position matches Some(pos)
            && pos.new_path == path)),
{
}

/// A file has a group if and only if a discussion stands on it, and the group is the discussions
/// that do, in order.
pub proof fn law_groups(ds: Seq<DiscussionModel>, path: Seq<char>)
    ensures
        by_file(ds).contains_key(path) <==> ds.any(|d: DiscussionModel| is_on_file(d, path)),
        by_file(ds).contains_key(path) ==> by_file(ds)[path] == ds.filter(
            |d: DiscussionModel| is_on_file(d, path),
        ),
        files_of(ds).contains(path) <==> by_file(ds).contains_key(path),
{
    let p = |d: DiscussionModel| is_on_file(d, path);
    law_group_is_of_file(ds, path);
    law_no_empty_group(ds, path);
    if ds.any(p) {
        let i = choose|i: int| 0 <= i < ds.len() && p(#[trigger] ds[i]);
        law_discussion_grouped(ds, i, path);
    }
    if ds.filter(p).len() > 0 {
        lemma_filtered(ds, path);
    }
}

proof fn lemma_filtered(ds: Seq<DiscussionModel>, path: Seq<char>)
    requires
        ds.filter(|d: DiscussionModel| is_on_file(d, path)).len() > 0,
    ensures
        ds.any(|d: DiscussionModel| is_on_file(d, path)),
    decreases ds.len(),
{
    reveal(Seq::filter);
    let p = |d: DiscussionModel| is_on_file(d, path);
    if p(ds.last()) {
        assert(p(ds[ds.len() - 1]));
    } else {
        lemma_filtered(ds.drop_last(), path);
        let i = choose|i: int| 0 <= i < ds.drop_last().len() && p(#[trigger] ds.drop_last()[i]);
        assert(p(ds[i]));
    }
}

/// A changed file has the line map of its diff, of its last one where there are several, and no
/// other file has one.
pub proof fn law_line_maps(diffs: Seq<MrDiffModel>, path: Seq<char>)
    ensures
        (forall|i: int| 0 <= i < diffs.len() ==> (#[trigger] diffs[i]).new_path != path)
            ==> !line_maps_of(diffs).contains_key(path),
        forall|i: int|
            0 <= i < diffs.len() && (#[trigger] diffs[i]).new_path == path && (forall|j: int|
                i < j < diffs.len() ==> (#[trigger] diffs[j]).new_path != path)
                ==> line_maps_of(diffs).contains_key(path) && line_maps_of(diffs)[path] == line_map(
                diffs[i].diff,
            ),
    decreases diffs.len(),
{
    if diffs.len() > 0 {
        let fewer = diffs.drop_last();
        law_line_maps(fewer, path);
        assert(diffs[diffs.len() - 1] == diffs.last());
        assert(forall|j: int| 0 <= j < fewer.len() ==> #[trigger] fewer[j] == diffs[j]);
        assert forall|i: int|
            0 <= i < diffs.len() && (#[trigger] diffs[i]).new_path == path && (forall|j: int|
                i < j < diffs.len() ==> (#[trigger] diffs[j]).new_path != path) implies line_maps_of(
            diffs,
        ).contains_key(path) && line_maps_of(diffs)[path] == line_map(diffs[i].diff) by {
            if i < fewer.len() {
                assert(fewer[i].new_path == path);
                assert(diffs[diffs.len() - 1].new_path != path);
            }
        }
    }
}

/// Marking sets the files that are picked out to the head, whichever diff of them is picked out,
/// and leaves every other mark as it is.
pub proof fn law_marks(
    seen: Map<Seq<char>, Seq<char>>,
    diffs: Seq<MrDiffModel>,
    ignored: Seq<bool>,
    head_sha: Seq<char>,
    path: Seq<char>,
)
    requires
        ignored.len() == diffs.len(),
    ensures
        ({
            let now = seen_after(seen, diffs, ignored, diffs.len() as int, head_sha);
            let picked = exists|i: int|
                0 <= i < diffs.len() && ignored[i] && (#[trigger] diffs[i]).new_path == path;
            &&& picked ==> now.contains_key(path) && now[path] == head_sha
            &&& !picked ==> (now.contains_key(path) <==> seen.contains_key(path))
            &&& !picked && seen.contains_key(path) ==> now[path] == seen[path]
            &&& is_seen(now, path, head_sha) <==> picked || (seen.contains_key(path) && seen[path]
                == head_sha)
        }),
{
    if exists|i: int|
        0 <= i < diffs.len() && ignored[i] && (#[trigger] diffs[i]).new_path == path {
        let i = choose|i: int|
            0 <= i < diffs.len() && ignored[i] && (#[trigger] diffs[i]).new_path == path;
        assert(is_marked(diffs, ignored, diffs.len() as int, path));
    }
}

/// What is reported missing is the first of the token, the project path and the merge request that
/// is.
pub proof fn law_first_missing(s: BackendState)
    ensures
        ({
            let auth = s.config matches Some(c) && c.gitlab_token@.len() > 0;
            let upstream = s.project_path@.len() > 0;
            &&& !auth <==> s.blocker() == Some(NotReady::NoAuth)
            &&& auth && !upstream <==> s.blocker() == Some(NotReady::NoUpstream)
            &&& auth && upstream && s.mr is None <==> s.blocker() == Some(NotReady::NoMr)
        }),
{
}

/// The patterns are those of the configuration, and none without one.
pub proof fn law_patterns(s: BackendState)
    ensures
        s.config matches Some(c) ==> s.patterns() == c.ignore_patterns@.map_values(|p: String| p@),
        s.config is None ==> s.patterns() == Seq::<Seq<char>>::empty(),
{
}

/// Derived data is that of all loaded discussions and diffs.
pub proof fn law_derived(s: BackendState, path: Seq<char>)
    requires
        s.is_derived(),
    ensures
        ({
            let ds = discussions_model(s.discussions@);
            &&& s.discussions_by_file@.contains_key(path) <==> ds.any(
                |d: DiscussionModel| is_on_file(d, path),
            )
            &&& s.discussions_by_file@.contains_key(path) ==> discussions_model(
                s.discussions_by_file@[path]@,
            ) == ds.filter(|d: DiscussionModel| is_on_file(d, path))
            &&& s.discussions_by_file.paths().contains(path)
                <==> s.discussions_by_file@.contains_key(path)
            &&& s.line_maps@.contains_key(path) <==> line_maps_of(
                diffs_model(s.diffs@),
            ).contains_key(path)
            &&& s.line_maps@.contains_key(path) ==> s.line_maps@[path]@ == line_maps_of(
                diffs_model(s.diffs@),
            )[path]
        }),
{
    let ds = discussions_model(s.discussions@);
    law_groups(ds, path);
    assert(files_model(s.discussions_by_file).contains_key(path)
        == s.discussions_by_file@.contains_key(path));
    assert(maps_model(s.line_maps).contains_key(path) == s.line_maps@.contains_key(path));
    if s.discussions_by_file@.contains_key(path) {
        assert(files_model(s.discussions_by_file)[path] == discussions_model(
            s.discussions_by_file@[path]@,
        ));
    }
    if s.line_maps@.contains_key(path) {
        assert(maps_model(s.line_maps)[path] == s.line_maps@[path]@);
    }
}

} // verus!
