//! What an editor shows of a review: diagnostics, symbols, threads and hints.
use vstd::prelude::*;
use vstd::string::StringExecFns;

use crate::backend::is_on_file;
use crate::bytes::{
    byte_len,
    byte_prefix,
    law_cut_after_bytes,
    leading_bytes,
    lemma_cut_unique,
    longer_than,
};
use crate::gitlab::types::{
    diffs_model,
    discussions_model,
    text_model,
    DiffRefs,
    DiffRefsModel,
    Discussion,
    DiscussionModel,
    MrDiff,
    MrDiffModel,
    Note,
    NoteModel,
};
use crate::number::{decimal, decimal_of};
use crate::paths::{is_uri_in, uri_in};
use crate::text::{
    chars_of,
    contains,
    contains_text,
    first_line,
    first_line_of,
    is_core,
    law_contains,
    law_replace,
    law_trim,
    lines,
    lines_of,
    replace,
    replaced,
    same_text,
    string_of,
    string_texts,
    texts,
    trim,
    trimmed,
};

verus! {

// ── What is shown ───────────────────────────────────────────────────────────────────────────────

/// A place in a document. Lines and characters count from zero.
#[derive(Debug, Clone, Copy, PartialEq, Eq, Structural)]
pub struct Position {
    pub line: u32,
    pub character: u32,
}

/// A stretch of a document.
#[derive(Debug, Clone, Copy, PartialEq, Eq, Structural)]
pub struct Range {
    pub start: Position,
    pub end: Position,
}

/// How much a diagnostic asks for attention.
#[derive(Debug, Clone, Copy, PartialEq, Eq, Structural)]
pub enum Severity {
    Information,
    Hint,
}

/// A message on a stretch of a file.
#[derive(Debug)]
pub struct Diagnostic {
    pub range: Range,
    pub severity: Severity,
    pub source: String,
    pub message: String,
}

/// Model of [`Diagnostic`].
pub struct DiagnosticModel {
    pub range: Range,
    pub severity: Severity,
    pub source: Seq<char>,
    pub message: Seq<char>,
}

impl View for Diagnostic {
    type V = DiagnosticModel;

    open spec fn view(&self) -> DiagnosticModel {
        DiagnosticModel {
            range: self.range,
            severity: self.severity,
            source: self.source@,
            message: self.message@,
        }
    }
}

impl Clone for Diagnostic {
    fn clone(&self) -> (r: Self)
        ensures
            r@ == self@,
    {
        Diagnostic {
            range: self.range,
            severity: self.severity,
            source: self.source.clone(),
            message: self.message.clone(),
        }
    }
}

/// Models of a list of diagnostics.
pub open spec fn diagnostics_model(v: Seq<Diagnostic>) -> Seq<DiagnosticModel> {
    v.map_values(|d: Diagnostic| d@)
}

/// Something cannot be shown: a line is number zero, or where a text is to be cut a character lies
/// across the cut.
#[derive(Debug, Clone, Copy, PartialEq, Eq, Structural)]
pub struct CannotShow;

// ── Resolved and outdated ───────────────────────────────────────────────────────────────────────

/// The discussion is marked as resolved, or one of its notes that can be resolved is.
pub open spec fn is_resolved(d: DiscussionModel) -> bool {
    d.resolved || exists|i: int|
        0 <= i < d.notes.len() && (#[trigger] d.notes[i]).resolvable && d.notes[i].resolved
}

/// The note was made on another version of the diff than the one that `refs` name: not all three
/// commits of its position are those of `refs`.
pub open spec fn is_outdated(note: NoteModel, refs: Option<DiffRefsModel>) -> bool {
    match (refs, note.position) {
        (Some(r), Some(pos)) => pos.base_sha != r.base_sha || pos.head_sha != r.head_sha
            || pos.start_sha != r.start_sha,
        _ => false,
    }
}

/// Model of optional commits that are borrowed.
pub open spec fn current_model(refs: Option<&DiffRefs>) -> Option<DiffRefsModel> {
    match refs {
        Some(r) => Some(r@),
        None => None,
    }
}

/// A discussion is resolved if the discussion-level flag is set OR if any
/// resolvable note within it is marked resolved. The GitLab API sometimes
/// omits the discussion-level `resolved` field (which is then taken as false),
/// so we check both places.
pub fn discussion_is_resolved(d: &Discussion) -> (r: bool)
    ensures
        r == is_resolved(d@),
{
    if d.resolved {
        return true;
    }
    let mut i: usize = 0;
    while i < d.notes.len()
        invariant
            i <= d.notes.len(),
            !d.resolved,
            forall|j: int|
                0 <= j < i ==> !((#[trigger] d@.notes[j]).resolvable && d@.notes[j].resolved),
        decreases d.notes.len() - i,
    {
        if d.notes[i].resolvable && d.notes[i].resolved {
            assert(d@.notes[i as int].resolvable);
            return true;
        }
        i += 1;
    }
    false
}

/// A note is outdated if its position SHAs don't match the MR's current
/// diff_refs. When `current_refs` is None (MR not yet loaded) we assume
/// up-to-date so we don't suppress everything on startup.
pub fn note_is_outdated(note: &Note, current_refs: Option<&DiffRefs>) -> (r: bool)
    ensures
        r == is_outdated(note@, current_model(current_refs)),
{
    match current_refs {
        Some(refs) => match &note.position {
            Some(pos) => !same_text(pos.base_sha.as_str(), refs.base_sha.as_str()) || !same_text(
                pos.head_sha.as_str(),
                refs.head_sha.as_str(),
            ) || !same_text(pos.start_sha.as_str(), refs.start_sha.as_str()),
            None => false,
        },
        None => false,
    }
}

// ── Diagnostics ─────────────────────────────────────────────────────────────────────────────────

/// The line, counted from one, on which the discussion stands in the file.
pub open spec fn line_in(d: DiscussionModel, file: Seq<char>) -> Option<u32> {
    if is_on_file(d, file) {
        d.position()->0.new_line
    } else {
        None
    }
}

/// The first line of a note, without the white space around it.
pub open spec fn opening(body: Seq<char>) -> Seq<char> {
    trim(first_line(body))
}

/// The first line of a note, without the white space around it, cut after 60 bytes.
pub open spec fn preview(body: Seq<char>) -> Seq<char> {
    if byte_len(opening(body)) > 60 {
        byte_prefix(opening(body), 60)->0 + "..."@
    } else {
        opening(body)
    }
}

/// Who wrote the discussion's first note and how it begins, after a mark where the discussion is
/// outdated or else resolved.
pub open spec fn diagnostic_text(d: DiscussionModel, refs: Option<DiffRefsModel>) -> Seq<char> {
    let first = d.notes[0];
    (if is_outdated(first, refs) {
        "[outdated] "@
    } else if is_resolved(d) {
        "[resolved] "@
    } else {
        ""@
    }) + "@"@ + first.author.username + " - "@ + preview(first.body)
}

/// The whole of a line, counted from one.
pub open spec fn whole_line(line: u32) -> Range {
    Range {
        start: Position { line: (line - 1) as u32, character: 0 },
        end: Position { line: (line - 1) as u32, character: u32::MAX },
    }
}

/// The diagnostic for a discussion on the line `line`.
pub open spec fn diagnostic_of(
    d: DiscussionModel,
    line: u32,
    refs: Option<DiffRefsModel>,
) -> DiagnosticModel {
    DiagnosticModel {
        range: whole_line(line),
        severity: if is_outdated(d.notes[0], refs) || is_resolved(d) {
            Severity::Hint
        } else {
            Severity::Information
        },
        source: "gitlab-mr"@,
        message: diagnostic_text(d, refs),
    }
}

/// The diagnostics for the discussions on a line of the file, in order.
pub open spec fn diagnostics_of(
    ds: Seq<DiscussionModel>,
    file: Seq<char>,
    refs: Option<DiffRefsModel>,
) -> Seq<DiagnosticModel>
    decreases ds.len(),
{
    if ds.len() == 0 {
        Seq::empty()
    } else {
        let shown = diagnostics_of(ds.drop_last(), file, refs);
        match line_in(ds.last(), file) {
            Some(line) => shown.push(diagnostic_of(ds.last(), line, refs)),
            None => shown,
        }
    }
}

/// The discussion can be shown where it stands: lines count from one, and where the preview is
/// cut no character lies across the cut.
pub open spec fn can_show(d: DiscussionModel) -> bool {
    (d.position() is Some && d.position()->0.new_line is Some) ==> {
        &&& d.position()->0.new_line->0 != 0
        &&& byte_len(opening(d.notes[0].body)) > 60 ==> byte_prefix(opening(d.notes[0].body), 60)
            is Some
    }
}

/// Every one of the discussions can be shown.
pub open spec fn all_can_show(ds: Seq<DiscussionModel>) -> bool {
    forall|i: int| 0 <= i < ds.len() ==> can_show(#[trigger] ds[i])
}

/// Whether the discussion can be shown where it stands.
fn is_showable(d: &Discussion) -> (r: bool)
    ensures
        r == can_show(d@),
{
    match d.position() {
        Some(pos) => match pos.new_line {
            Some(line) => {
                let body = chars_of(d.notes[0].body.as_str());
                assert(d@.notes[0] == d.notes@[0]@);
                let l = trimmed(first_line_of(body.as_slice()));
                line != 0 && (!longer_than(l, 60) || leading_bytes(l, 60).is_some())
            },
            None => true,
        },
        None => true,
    }
}

/// Whether every one of the discussions can be shown.
pub fn are_showable(discussions: &[Discussion]) -> (r: bool)
    ensures
        r == all_can_show(discussions_model(discussions@)),
{
    let ghost all = discussions_model(discussions@);
    let mut i: usize = 0;
    while i < discussions.len()
        invariant
            i <= discussions.len(),
            all == discussions_model(discussions@),
            forall|j: int| 0 <= j < i ==> can_show(#[trigger] all[j]),
        decreases discussions.len() - i,
    {
        let fits = is_showable(&discussions[i]);
        assert(all[i as int] == discussions@[i as int]@);
        if !fits {
            return false;
        }
        i += 1;
    }
    true
}

/// The first line of a note, without the white space around it, cut after 60 bytes.
fn preview_of(body: &str) -> (r: String)
    requires
        byte_len(opening(body@)) > 60 ==> byte_prefix(opening(body@), 60) is Some,
    ensures
        r@ == preview(body@),
{
    let body = chars_of(body);
    let l = trimmed(first_line_of(body.as_slice()));
    if longer_than(l, 60) {
        match leading_bytes(l, 60) {
            Some(t) => {
                let mut r = string_of(t);
                r.append("...");
                r
            },
            None => String::new(),
        }
    } else {
        string_of(l)
    }
}

/// The diagnostic for a discussion on the line `line`.
fn diagnostic_for(d: &Discussion, line: u32, current_refs: Option<&DiffRefs>) -> (r: Diagnostic)
    requires
        line != 0,
        d.notes.len() > 0,
        byte_len(opening(d@.notes[0].body)) > 60 ==> byte_prefix(opening(d@.notes[0].body), 60)
            is Some,
    ensures
        r@ == diagnostic_of(d@, line, current_model(current_refs)),
{
    let first = &d.notes[0];
    assert(d@.notes[0] == first@);
    let line_0: u32 = line - 1;
    let range = Range {
        start: Position { line: line_0, character: 0 },
        end: Position { line: line_0, character: u32::MAX },
    };
    let outdated = note_is_outdated(first, current_refs);
    let resolved = discussion_is_resolved(d);
    let severity = if outdated || resolved {
        Severity::Hint
    } else {
        Severity::Information
    };
    let mut message = (if outdated {
        "[outdated] "
    } else if resolved {
        "[resolved] "
    } else {
        ""
    }).to_owned();
    message.append("@");
    message.append(first.author.username.as_str());
    message.append(" - ");
    message.append(preview_of(first.body.as_str()).as_str());
    Diagnostic { range, severity, source: "gitlab-mr".to_owned(), message }
}

/// Convert discussions for `file_repo_path` into LSP diagnostics.
/// `current_refs` is the MR's current diff_refs — used to flag outdated notes.
pub fn discussions_to_diagnostics(
    discussions: &[Discussion],
    file_repo_path: &str,
    current_refs: Option<&DiffRefs>,
) -> (r: Vec<Diagnostic>)
    requires
        forall|i: int|
            0 <= i < discussions.len() && is_on_file(
                (#[trigger] discussions@[i])@,
                file_repo_path@,
            ) ==> can_show(discussions@[i]@),
    ensures
        diagnostics_model(r@) == diagnostics_of(
            discussions_model(discussions@),
            file_repo_path@,
            current_model(current_refs),
        ),
{
    let ghost all = discussions_model(discussions@);
    let ghost refs = current_model(current_refs);
    let mut r: Vec<Diagnostic> = Vec::new();
    let mut i: usize = 0;
    assert(diagnostics_model(r@) =~= diagnostics_of(all.take(0), file_repo_path@, refs));
    while i < discussions.len()
        invariant
            i <= discussions.len(),
            all == discussions_model(discussions@),
            refs == current_model(current_refs),
            forall|j: int|
                0 <= j < discussions.len() && is_on_file(
                    (#[trigger] discussions@[j])@,
                    file_repo_path@,
                ) ==> can_show(discussions@[j]@),
            diagnostics_model(r@) == diagnostics_of(all.take(i as int), file_repo_path@, refs),
        decreases discussions.len() - i,
    {
        let d = &discussions[i];
        assert(all.take(i + 1).drop_last() =~= all.take(i as int));
        assert(all[i as int] == d@);
        match d.position() {
            Some(pos) => {
                if same_text(pos.new_path.as_str(), file_repo_path) {
                    match pos.new_line {
                        Some(line) => {
                            let ghost before = r@;
                            let shown = diagnostic_for(d, line, current_refs);
                            r.push(shown);
                            assert(diagnostics_model(r@) =~= diagnostics_model(before).push(
                                shown@,
                            ));
                        },
                        None => {},
                    }
                }
            },
            None => {},
        }
        i += 1;
    }
    assert(all.take(all.len() as int) =~= all);
    r
}

/// The diagnostic that marks a file as changed.
pub open spec fn changed_hint(mr_label: Seq<char>) -> DiagnosticModel {
    DiagnosticModel {
        range: Range {
            start: Position { line: 0, character: 0 },
            end: Position { line: 0, character: 0 },
        },
        severity: Severity::Hint,
        source: "gitlab-mr"@,
        message: "Changed in "@ + mr_label,
    }
}

/// Produce a single HINT diagnostic at line 0 for each file touched by the MR.
/// This makes all changed files immediately visible in Helix's diagnostics
/// picker (`<space>d`) as soon as the MR data is loaded.
pub fn diffs_to_changed_file_diagnostics(mr_label: &str) -> (r: Diagnostic)
    ensures
        r@ == changed_hint(mr_label@),
{
    let mut message = "Changed in ".to_owned();
    message.append(mr_label);
    Diagnostic {
        range: Range {
            start: Position { line: 0, character: 0 },
            end: Position { line: 0, character: 0 },
        },
        severity: Severity::Hint,
        source: "gitlab-mr".to_owned(),
        message,
    }
}

// ── Workspace symbols (changed-file picker) ─────────────────────────────────────────────────────

/// What a symbol stands for, of the kinds that hold code as a whole.
#[derive(Debug, Clone, Copy, PartialEq, Eq, Structural)]
pub enum SymbolKind {
    File,
    Module,
    Namespace,
    Package,
}

/// A file that a picker offers.
#[derive(Debug)]
pub struct SymbolInformation {
    pub name: String,
    pub kind: SymbolKind,
    pub uri: String,
    pub range: Range,
    pub container_name: String,
}

/// Model of [`SymbolInformation`].
pub struct SymbolModel {
    pub name: Seq<char>,
    pub kind: SymbolKind,
    pub uri: Seq<char>,
    pub range: Range,
    pub container_name: Seq<char>,
}

impl View for SymbolInformation {
    type V = SymbolModel;

    open spec fn view(&self) -> SymbolModel {
        SymbolModel {
            name: self.name@,
            kind: self.kind,
            uri: self.uri@,
            range: self.range,
            container_name: self.container_name@,
        }
    }
}

/// Models of a list of symbols.
pub open spec fn symbols_model(v: Seq<SymbolInformation>) -> Seq<SymbolModel> {
    v.map_values(|s: SymbolInformation| s@)
}

/// The texts of optional strings.
pub open spec fn option_texts(v: Seq<Option<String>>) -> Seq<Option<Seq<char>>> {
    v.map_values(|s: Option<String>| text_model(s))
}

/// `s` in lower case.
pub uninterp spec fn lowercase_of(s: Seq<char>) -> Seq<char>;

/// Every character of `s` is ASCII.
pub open spec fn is_ascii(s: Seq<char>) -> bool {
    forall|i: int| 0 <= i < s.len() ==> (#[trigger] s[i]) as u32 <= 0x7f
}

/// `c` with an ASCII letter in lower case.
pub open spec fn ascii_lower(c: char) -> char {
    if 'A' <= c <= 'Z' {
        (c as u32 + 32) as char
    } else {
        c
    }
}

/// Where `s` is ASCII, it is in lower case with each of the letters `A` to `Z` in lower case.
pub open spec fn lowers_ascii(s: Seq<char>) -> bool {
    is_ascii(s) ==> lowercase_of(s) == s.map_values(|c: char| ascii_lower(c))
}

/// `str::to_lowercase`.
///
/// It gives the text in lower case by the rules of Unicode, which look at nothing but the text:
/// the result is called [`lowercase_of`]. Of ASCII text it is the text with each of the letters
/// `A` to `Z` in lower case.
#[verifier::external_body]
fn lowercase(s: &str) -> (r: String)
    ensures
        r@ == lowercase_of(s@),
        is_ascii(s@) ==> r@ == s@.map_values(|c: char| ascii_lower(c)),
{
    s.to_lowercase()
}

/// The path answers the query, both in lower case. Every path answers the empty query.
pub open spec fn answers(path_lc: Seq<char>, query_lc: Seq<char>) -> bool {
    query_lc.len() == 0 || contains(path_lc, query_lc)
}

/// The symbols for the changed files whose path answers the query and that have a URI, in order.
/// For each diff its path in lower case and its URI are given.
pub open spec fn symbols_of(
    diffs: Seq<MrDiffModel>,
    paths_lc: Seq<Seq<char>>,
    uris: Seq<Option<Seq<char>>>,
    mr_label: Seq<char>,
    query_lc: Seq<char>,
) -> Seq<SymbolModel>
    decreases diffs.len(),
{
    if diffs.len() == 0 {
        Seq::empty()
    } else {
        let k = diffs.len() - 1;
        let listed = symbols_of(diffs.drop_last(), paths_lc, uris, mr_label, query_lc);
        if answers(paths_lc[k], query_lc) && uris[k] is Some {
            listed.push(
                SymbolModel {
                    name: diffs[k].new_path,
                    kind: SymbolKind::File,
                    uri: uris[k]->0,
                    range: Range {
                        start: Position { line: 0, character: 0 },
                        end: Position { line: 0, character: 0 },
                    },
                    container_name: mr_label,
                },
            )
        } else {
            listed
        }
    }
}

/// The symbols for the changed files whose path answers the query and that have a URI. For each
/// diff its path in lower case and its URI are given, and so is the query in lower case.
pub fn listed_symbols(
    diffs: &[MrDiff],
    paths_lc: &[String],
    uris: &[Option<String>],
    mr_label: &str,
    query_lc: &str,
) -> (r: Vec<SymbolInformation>)
    requires
        paths_lc.len() == diffs.len(),
        uris.len() == diffs.len(),
    ensures
        symbols_model(r@) == symbols_of(
            diffs_model(diffs@),
            string_texts(paths_lc@),
            option_texts(uris@),
            mr_label@,
            query_lc@,
        ),
{
    let ghost all = diffs_model(diffs@);
    let ghost lc = string_texts(paths_lc@);
    let ghost found = option_texts(uris@);
    let mut r: Vec<SymbolInformation> = Vec::new();
    let mut i: usize = 0;
    assert(symbols_model(r@) =~= symbols_of(all.take(0), lc, found, mr_label@, query_lc@));
    while i < diffs.len()
        invariant
            i <= diffs.len(),
            paths_lc.len() == diffs.len(),
            uris.len() == diffs.len(),
            all == diffs_model(diffs@),
            lc == string_texts(paths_lc@),
            found == option_texts(uris@),
            symbols_model(r@) == symbols_of(all.take(i as int), lc, found, mr_label@, query_lc@),
        decreases diffs.len() - i,
    {
        assert(all.take(i + 1).drop_last() =~= all.take(i as int));
        assert(all[i as int] == diffs@[i as int]@);
        assert(lc[i as int] == paths_lc@[i as int]@);
        assert(found[i as int] == text_model(uris@[i as int]));
        let wanted = query_lc.is_empty() || contains_text(paths_lc[i].as_str(), query_lc);
        match &uris[i] {
            Some(uri) => {
                if wanted {
                    let ghost before = r@;
                    let symbol = SymbolInformation {
                        name: diffs[i].new_path.clone(),
                        kind: SymbolKind::File,
                        uri: uri.clone(),
                        range: Range {
                            start: Position { line: 0, character: 0 },
                            end: Position { line: 0, character: 0 },
                        },
                        container_name: mr_label.to_owned(),
                    };
                    r.push(symbol);
                    assert(symbols_model(r@) =~= symbols_model(before).push(symbol@));
                }
            },
            None => {},
        }
        i += 1;
    }
    assert(all.take(all.len() as int) =~= all);
    r
}

/// The paths of the changed files, in lower case.
pub open spec fn lower_paths(diffs: Seq<MrDiffModel>) -> Seq<Seq<char>> {
    diffs.map_values(|d: MrDiffModel| lowercase_of(d.new_path))
}

/// `uris` are what is known to be the URIs of the changed files, of a repository at `root`.
pub open spec fn are_uris_of(
    diffs: Seq<MrDiffModel>,
    root: Seq<char>,
    uris: Seq<Option<Seq<char>>>,
) -> bool {
    &&& uris.len() == diffs.len()
    &&& forall|i: int|
        0 <= i < diffs.len() ==> is_uri_in(
            root,
            diffs[i].new_path,
            #[trigger] uris[i],
        )
}

/// The changed files whose path holds the query, whatever the case of either.
pub fn diffs_to_symbols(
    diffs: &[MrDiff],
    repo_root: &str,
    mr_label: &str,
    query: &str,
) -> (r: Vec<SymbolInformation>)
    ensures
        exists|uris: Seq<Option<Seq<char>>>| #[trigger]
            are_uris_of(diffs_model(diffs@), repo_root@, uris) && symbols_model(r@)
                == symbols_of(
                diffs_model(diffs@),
                lower_paths(diffs_model(diffs@)),
                uris,
                mr_label@,
                lowercase_of(query@),
            ),
        lowers_ascii(query@),
        forall|i: int| 0 <= i < diffs.len() ==> lowers_ascii((#[trigger] diffs@[i]).new_path@),
{
    let ghost all = diffs_model(diffs@);
    let query_lc = lowercase(query);
    let mut paths_lc: Vec<String> = Vec::new();
    let mut uris: Vec<Option<String>> = Vec::new();
    let mut i: usize = 0;
    while i < diffs.len()
        invariant
            i <= diffs.len(),
            all == diffs_model(diffs@),
            paths_lc.len() == i,
            uris.len() == i,
            forall|j: int|
                0 <= j < i ==> (#[trigger] paths_lc@[j])@ == lowercase_of(all[j].new_path),
            forall|j: int| 0 <= j < i ==> lowers_ascii((#[trigger] diffs@[j]).new_path@),
            lowers_ascii(query@),
            forall|j: int|
                0 <= j < i ==> is_uri_in(
                    repo_root@,
                    all[j].new_path,
                    text_model(#[trigger] uris@[j]),
                ),
        decreases diffs.len() - i,
    {
        let d = &diffs[i];
        assert(all[i as int] == d@);
        paths_lc.push(lowercase(d.new_path.as_str()));
        uris.push(uri_in(repo_root, d.new_path.as_str()));
        i += 1;
    }
    assert(string_texts(paths_lc@) =~= lower_paths(all));
    assert(are_uris_of(all, repo_root@, option_texts(uris@)));
    listed_symbols(diffs, paths_lc.as_slice(), uris.as_slice(), mr_label, query_lc.as_str())
}

// ── Hover (full thread rendering) ───────────────────────────────────────────────────────────────

/// When the note was made: the first 16 bytes of its time stamp where they can be cut off, with a
/// space in the place of the `T`.
pub open spec fn shown_time(created_at: Seq<char>) -> Seq<char> {
    replace(
        (match byte_prefix(created_at, 16) {
            Some(s) => s,
            None => created_at,
        }),
        'T',
        " "@,
    )
}

/// The lines, each quoted behind the indent.
pub open spec fn quoted(ls: Seq<Seq<char>>, indent: Seq<char>) -> Seq<char>
    decreases ls.len(),
{
    if ls.len() == 0 {
        Seq::empty()
    } else {
        quoted(ls.drop_last(), indent) + (indent + "> "@ + ls.last() + "\n"@)
    }
}

/// A note in Markdown: who wrote it and when, what it says, and an empty line.
pub open spec fn note_text(note: NoteModel, indent: Seq<char>) -> Seq<char> {
    indent + "**@"@ + note.author.username + "** · "@ + shown_time(note.created_at) + "\n"@
        + quoted(lines(note.body), indent) + "\n"@
}

/// The notes in Markdown, all but the first one indented.
pub open spec fn notes_text(notes: Seq<NoteModel>) -> Seq<char>
    decreases notes.len(),
{
    if notes.len() == 0 {
        Seq::empty()
    } else {
        notes_text(notes.drop_last()) + note_text(
            notes.last(),
            if notes.len() == 1 {
                ""@
            } else {
                "  "@
            },
        )
    }
}

/// The thread in Markdown, with a mark before it where it is outdated and one behind it where it
/// is resolved.
pub open spec fn thread_text(d: DiscussionModel, refs: Option<DiffRefsModel>) -> Seq<char> {
    (if d.notes.len() > 0 && is_outdated(d.notes[0], refs) {
        "**[outdated — made on a previous version of this diff]**\n\n"@
    } else {
        Seq::empty()
    }) + notes_text(d.notes) + (if is_resolved(d) {
        "✓ *Resolved*\n"@
    } else {
        Seq::empty()
    })
}

/// The lines, each quoted behind the indent.
fn quote(ls: &Vec<Vec<char>>, indent: &str) -> (r: String)
    ensures
        r@ == quoted(texts(ls@), indent@),
{
    let ghost all = texts(ls@);
    let mut r = String::new();
    let mut i: usize = 0;
    assert(r@ =~= quoted(all.take(0), indent@));
    while i < ls.len()
        invariant
            i <= ls.len(),
            all == texts(ls@),
            r@ == quoted(all.take(i as int), indent@),
        decreases ls.len() - i,
    {
        assert(all.take(i + 1).drop_last() =~= all.take(i as int));
        assert(all[i as int] == ls@[i as int]@);
        let mut line = indent.to_owned();
        line.append("> ");
        line.append(string_of(ls[i].as_slice()).as_str());
        line.append("\n");
        r.append(line.as_str());
        i += 1;
    }
    assert(all.take(all.len() as int) =~= all);
    r
}

/// When the note was made.
fn time_of(created_at: &str) -> (r: String)
    ensures
        r@ == shown_time(created_at@),
{
    let chars = chars_of(created_at);
    match leading_bytes(chars.as_slice(), 16) {
        Some(t) => replaced(t, 'T', " "),
        None => replaced(chars.as_slice(), 'T', " "),
    }
}

/// A note in Markdown.
fn render_note(note: &Note, indent: &str) -> (r: String)
    ensures
        r@ == note_text(note@, indent@),
{
    let body = chars_of(note.body.as_str());
    let mut r = indent.to_owned();
    r.append("**@");
    r.append(note.author.username.as_str());
    r.append("** · ");
    r.append(time_of(note.created_at.as_str()).as_str());
    r.append("\n");
    r.append(quote(&lines_of(body.as_slice()), indent).as_str());
    r.append("\n");
    r
}

/// Render a discussion thread as Markdown for display in a hover popup.
/// `current_refs` is used to detect whether the thread is outdated.
pub fn render_thread(discussion: &Discussion, current_refs: Option<&DiffRefs>) -> (md: String)
    ensures
        md@ == thread_text(discussion@, current_model(current_refs)),
{
    let ghost notes = discussion@.notes;
    let ghost refs = current_model(current_refs);
    let mut md = String::new();
    if discussion.notes.len() > 0 {
        assert(notes[0] == discussion.notes@[0]@);
        if note_is_outdated(&discussion.notes[0], current_refs) {
            md = "**[outdated — made on a previous version of this diff]**\n\n".to_owned();
        }
    }
    let ghost mark = md@;
    assert(mark.len() == 0 ==> mark =~= Seq::<char>::empty());
    let mut i: usize = 0;
    assert(md@ =~= mark + notes_text(notes.take(0)));
    while i < discussion.notes.len()
        invariant
            i <= discussion.notes.len(),
            notes == discussion@.notes,
            md@ == mark + notes_text(notes.take(i as int)),
        decreases discussion.notes.len() - i,
    {
        assert(notes.take(i + 1).drop_last() =~= notes.take(i as int));
        assert(notes[i as int] == discussion.notes@[i as int]@);
        let ghost done = notes_text(notes.take(i as int));
        let indent = if i == 0 {
            ""
        } else {
            "  "
        };
        let text = render_note(&discussion.notes[i], indent);
        md.append(text.as_str());
        assert(mark + done + text@ =~= mark + (done + text@));
        i += 1;
    }
    assert(notes.take(notes.len() as int) =~= notes);
    if discussion_is_resolved(discussion) {
        md.append("✓ *Resolved*\n");
    }
    assert(md@ =~= thread_text(discussion@, refs));
    md
}

// ── Inlay hints (comment counts per line) ───────────────────────────────────────────────────────

/// What a hint is shown as.
#[derive(Debug, Clone, Copy, PartialEq, Eq, Structural)]
pub enum InlayHintKind {
    Type,
    Parameter,
}

/// A note of the editor's beside a line.
#[derive(Debug)]
pub struct InlayHint {
    pub position: Position,
    pub label: String,
    pub kind: InlayHintKind,
    pub padding_right: bool,
}

/// Model of [`InlayHint`].
pub struct HintModel {
    pub position: Position,
    pub label: Seq<char>,
    pub kind: InlayHintKind,
    pub padding_right: bool,
}

impl View for InlayHint {
    type V = HintModel;

    open spec fn view(&self) -> HintModel {
        HintModel {
            position: self.position,
            label: self.label@,
            kind: self.kind,
            padding_right: self.padding_right,
        }
    }
}

/// Models of a list of hints.
pub open spec fn hints_model(v: Seq<InlayHint>) -> Seq<HintModel> {
    v.map_values(|h: InlayHint| h@)
}

/// Number of the discussions on a line of the file that are outdated as `outdated` says, and
/// resolved as `resolved` says.
pub open spec fn count(
    ds: Seq<DiscussionModel>,
    file: Seq<char>,
    refs: Option<DiffRefsModel>,
    line: u32,
    outdated: bool,
    resolved: bool,
) -> nat
    decreases ds.len(),
{
    if ds.len() == 0 {
        0
    } else {
        let d = ds.last();
        count(ds.drop_last(), file, refs, line, outdated, resolved) + (if line_in(d, file) == Some(
            line,
        ) && is_outdated(d.notes[0], refs) == outdated && is_resolved(d) == resolved {
            1nat
        } else {
            0
        })
    }
}

/// The lines of the file on which discussions stand, each once, in the order in which they first
/// come. They count from one.
pub open spec fn lines_with_comments(ds: Seq<DiscussionModel>, file: Seq<char>) -> Seq<u32>
    decreases ds.len(),
{
    if ds.len() == 0 {
        Seq::empty()
    } else {
        let found = lines_with_comments(ds.drop_last(), file);
        match line_in(ds.last(), file) {
            Some(line) => if found.contains(line) {
                found
            } else {
                found.push(line)
            },
            None => found,
        }
    }
}

/// How many of the live comments are open: `open` of `total`, or all resolved.
pub open spec fn live_part(open: nat, total: nat) -> Seq<char> {
    if open == 0 {
        "✓ "@ + decimal(total) + " comment"@ + (if total == 1 {
            ""@
        } else {
            "s"@
        })
    } else {
        decimal(open) + "/"@ + decimal(total) + " unresolved"@
    }
}

/// The label of a line: what of its comments is live, and what is outdated.
pub open spec fn hint_label(live_open: nat, live_total: nat, old_total: nat) -> Seq<char> {
    if live_total > 0 && old_total > 0 {
        live_part(live_open, live_total) + ", "@ + decimal(old_total) + " outdated"@
    } else if live_total > 0 {
        live_part(live_open, live_total)
    } else if old_total > 0 {
        decimal(old_total) + " outdated"@
    } else {
        Seq::empty()
    }
}

/// The hint beside the line `line` of the file.
pub open spec fn hint_of(
    ds: Seq<DiscussionModel>,
    file: Seq<char>,
    refs: Option<DiffRefsModel>,
    line: u32,
) -> HintModel {
    let live_open = count(ds, file, refs, line, false, false);
    let live_resolved = count(ds, file, refs, line, false, true);
    let old_open = count(ds, file, refs, line, true, false);
    let old_resolved = count(ds, file, refs, line, true, true);
    HintModel {
        position: Position { line: (line - 1) as u32, character: 0 },
        label: hint_label(live_open, live_open + live_resolved, old_open + old_resolved),
        kind: InlayHintKind::Type,
        padding_right: true,
    }
}

/// The hints beside the lines of the file on which discussions stand.
pub open spec fn hints_of(
    ds: Seq<DiscussionModel>,
    file: Seq<char>,
    refs: Option<DiffRefsModel>,
) -> Seq<HintModel> {
    lines_with_comments(ds, file).map_values(|line: u32| hint_of(ds, file, refs, line))
}

/// Where a discussion stands on a line of the file, that line is not number zero.
pub open spec fn lines_count_from_one(ds: Seq<DiscussionModel>, file: Seq<char>) -> bool {
    forall|i: int| 0 <= i < ds.len() ==> line_in(#[trigger] ds[i], file) != Some(0u32)
}

/// The line on which the discussion stands in the file.
fn line_of(d: &Discussion, file: &str) -> (r: Option<u32>)
    ensures
        r == line_in(d@, file@),
{
    match d.position() {
        Some(pos) => if same_text(pos.new_path.as_str(), file) {
            pos.new_line
        } else {
            None
        },
        None => None,
    }
}

proof fn lemma_count_bound(
    ds: Seq<DiscussionModel>,
    file: Seq<char>,
    refs: Option<DiffRefsModel>,
    line: u32,
)
    ensures
        count(ds, file, refs, line, false, false) + count(ds, file, refs, line, false, true)
            + count(ds, file, refs, line, true, false) + count(ds, file, refs, line, true, true)
            <= ds.len(),
    decreases ds.len(),
{
    if ds.len() > 0 {
        lemma_count_bound(ds.drop_last(), file, refs, line);
    }
}

/// Number of the discussions on a line of the file that are outdated and resolved as said.
fn counted(
    discussions: &[Discussion],
    file: &str,
    current_refs: Option<&DiffRefs>,
    line: u32,
    outdated: bool,
    resolved: bool,
) -> (n: usize)
    ensures
        n == count(
            discussions_model(discussions@),
            file@,
            current_model(current_refs),
            line,
            outdated,
            resolved,
        ),
        n <= discussions.len(),
{
    let ghost all = discussions_model(discussions@);
    let ghost refs = current_model(current_refs);
    let mut n: usize = 0;
    let mut i: usize = 0;
    while i < discussions.len()
        invariant
            i <= discussions.len(),
            n <= i,
            all == discussions_model(discussions@),
            refs == current_model(current_refs),
            n == count(all.take(i as int), file@, refs, line, outdated, resolved),
        decreases discussions.len() - i,
    {
        let d = &discussions[i];
        assert(all.take(i + 1).drop_last() =~= all.take(i as int));
        assert(all[i as int] == d@);
        if line_of(d, file) == Some(line) {
            assert(d@.notes[0] == d.notes@[0]@);
            if note_is_outdated(&d.notes[0], current_refs) == outdated && discussion_is_resolved(d)
                == resolved {
                n += 1;
            }
        }
        i += 1;
    }
    assert(all.take(all.len() as int) =~= all);
    n
}

/// How many of the live comments are open.
fn live_label(open: usize, total: usize) -> (r: String)
    ensures
        r@ == live_part(open as nat, total as nat),
{
    if open == 0 {
        let mut r = "✓ ".to_owned();
        r.append(decimal_of(total as u64).as_str());
        r.append(" comment");
        r.append(
            if total == 1 {
                ""
            } else {
                "s"
            },
        );
        r
    } else {
        let mut r = decimal_of(open as u64);
        r.append("/");
        r.append(decimal_of(total as u64).as_str());
        r.append(" unresolved");
        r
    }
}

/// The label of a line.
fn label_of(live_open: usize, live_total: usize, old_total: usize) -> (r: String)
    ensures
        r@ == hint_label(live_open as nat, live_total as nat, old_total as nat),
{
    let mut r = if live_total > 0 {
        live_label(live_open, live_total)
    } else {
        String::new()
    };
    if old_total > 0 {
        let ghost live = r@;
        if live_total > 0 {
            r.append(", ");
        }
        r.append(decimal_of(old_total as u64).as_str());
        r.append(" outdated");
        assert(live_total == 0 ==> live + decimal(old_total as nat) + " outdated"@ =~= decimal(
            old_total as nat,
        ) + " outdated"@);
    }
    assert(live_total == 0 && old_total == 0 ==> r@ =~= Seq::<char>::empty());
    r
}

/// The hint beside the line `line` of the file.
fn hint_for(
    discussions: &[Discussion],
    file: &str,
    current_refs: Option<&DiffRefs>,
    line: u32,
) -> (r: InlayHint)
    requires
        line != 0,
    ensures
        r@ == hint_of(discussions_model(discussions@), file@, current_model(current_refs), line),
{
    let live_open = counted(discussions, file, current_refs, line, false, false);
    let live_resolved = counted(discussions, file, current_refs, line, false, true);
    let old_open = counted(discussions, file, current_refs, line, true, false);
    let old_resolved = counted(discussions, file, current_refs, line, true, true);
    proof {
        lemma_count_bound(
            discussions_model(discussions@),
            file@,
            current_model(current_refs),
            line,
        );
    }
    let label = label_of(live_open, live_open + live_resolved, old_open + old_resolved);
    InlayHint {
        position: Position { line: line - 1, character: 0 },
        label,
        kind: InlayHintKind::Type,
        padding_right: true,
    }
}

/// Whether `lines` holds `line`.
fn holds_line(lines: &Vec<u32>, line: u32) -> (r: bool)
    ensures
        r == lines@.contains(line),
{
    let mut i: usize = 0;
    while i < lines.len()
        invariant
            i <= lines.len(),
            forall|j: int| 0 <= j < i ==> lines@[j] != line,
        decreases lines.len() - i,
    {
        if lines[i] == line {
            assert(lines@.contains(lines@[i as int]));
            return true;
        }
        i += 1;
    }
    false
}

/// The lines of the file on which discussions stand.
fn commented_lines(discussions: &[Discussion], file: &str) -> (r: Vec<u32>)
    requires
        lines_count_from_one(discussions_model(discussions@), file@),
    ensures
        r@ == lines_with_comments(discussions_model(discussions@), file@),
        forall|j: int| 0 <= j < r.len() ==> r@[j] != 0,
{
    let ghost all = discussions_model(discussions@);
    let mut r: Vec<u32> = Vec::new();
    let mut i: usize = 0;
    while i < discussions.len()
        invariant
            i <= discussions.len(),
            all == discussions_model(discussions@),
            lines_count_from_one(all, file@),
            r@ == lines_with_comments(all.take(i as int), file@),
            forall|j: int| 0 <= j < r.len() ==> r@[j] != 0,
        decreases discussions.len() - i,
    {
        assert(all.take(i + 1).drop_last() =~= all.take(i as int));
        assert(all[i as int] == discussions@[i as int]@);
        match line_of(&discussions[i], file) {
            Some(line) => {
                if !holds_line(&r, line) {
                    r.push(line);
                }
            },
            None => {},
        }
        i += 1;
    }
    assert(all.take(all.len() as int) =~= all);
    r
}

/// Counts the comments on each line of `file_repo_path`.
/// `current_refs` is used to separate live vs outdated comment counts.
pub fn discussions_to_inlay_hints(
    discussions: &[Discussion],
    file_repo_path: &str,
    current_refs: Option<&DiffRefs>,
) -> (r: Vec<InlayHint>)
    requires
        lines_count_from_one(discussions_model(discussions@), file_repo_path@),
    ensures
        hints_model(r@) == hints_of(
            discussions_model(discussions@),
            file_repo_path@,
            current_model(current_refs),
        ),
{
    let ghost all = discussions_model(discussions@);
    let ghost refs = current_model(current_refs);
    let found = commented_lines(discussions, file_repo_path);
    let mut r: Vec<InlayHint> = Vec::new();
    let mut i: usize = 0;
    while i < found.len()
        invariant
            i <= found.len(),
            r.len() == i,
            all == discussions_model(discussions@),
            refs == current_model(current_refs),
            forall|j: int| 0 <= j < found.len() ==> found@[j] != 0,
            forall|j: int|
                0 <= j < i ==> (#[trigger] r@[j])@ == hint_of(
                    all,
                    file_repo_path@,
                    refs,
                    found@[j],
                ),
        decreases found.len() - i,
    {
        r.push(hint_for(discussions, file_repo_path, current_refs, found[i]));
        i += 1;
    }
    assert(hints_model(r@) =~= hints_of(all, file_repo_path@, refs));
    r
}

// ── Laws ────────────────────────────────────────────────────────────────────────────────────────

/// That a comment is outdated comes before that it is resolved: the message of an outdated one
/// says only that.
pub proof fn law_outdated_supersedes_resolved(d: DiscussionModel, refs: Option<DiffRefsModel>)
    requires
        d.notes.len() > 0,
        is_outdated(d.notes[0], refs),
    ensures
        diagnostic_text(d, refs) == "[outdated] "@ + "@"@ + d.notes[0].author.username + " - "@
            + preview(d.notes[0].body),
{
}

/// As long as the MR's commits are not known, nothing is outdated.
pub proof fn law_nothing_outdated_before_load(note: NoteModel)
    ensures
        !is_outdated(note, None),
{
}

/// A diagnostic informs, and does not merely hint, exactly where the comment is live and open.
pub proof fn law_severity(d: DiscussionModel, line: u32, refs: Option<DiffRefsModel>)
    ensures
        diagnostic_of(d, line, refs).severity == Severity::Information <==> !is_outdated(
            d.notes[0],
            refs,
        ) && !is_resolved(d),
{
}

/// Every discussion on a line of the file is shown.
pub proof fn law_every_comment_shown(
    ds: Seq<DiscussionModel>,
    file: Seq<char>,
    refs: Option<DiffRefsModel>,
    i: int,
)
    requires
        0 <= i < ds.len(),
        line_in(ds[i], file) is Some,
    ensures
        diagnostics_of(ds, file, refs).contains(
            diagnostic_of(ds[i], line_in(ds[i], file)->0, refs),
        ),
    decreases ds.len(),
{
    let shown = diagnostics_of(ds, file, refs);
    let one = diagnostic_of(ds[i], line_in(ds[i], file)->0, refs);
    if i == ds.len() - 1 {
        assert(shown[shown.len() - 1] == one);
    } else {
        law_every_comment_shown(ds.drop_last(), file, refs, i);
        let before = diagnostics_of(ds.drop_last(), file, refs);
        let k = before.index_of(one);
        assert(shown[k] == one);
    }
}

/// A line has one hint, and it has one if and only if a discussion stands on it.
pub proof fn law_one_hint_a_line(ds: Seq<DiscussionModel>, file: Seq<char>, line: u32)
    ensures
        lines_with_comments(ds, file).no_duplicates(),
        lines_with_comments(ds, file).contains(line) <==> exists|i: int|
            0 <= i < ds.len() && line_in(#[trigger] ds[i], file) == Some(line),
    decreases ds.len(),
{
    if ds.len() > 0 {
        let rest = ds.drop_last();
        law_one_hint_a_line(rest, file, line);
        let found = lines_with_comments(rest, file);
        let now = lines_with_comments(ds, file);
        if exists|i: int| 0 <= i < ds.len() && line_in(#[trigger] ds[i], file) == Some(line) {
            let i = choose|i: int|
                0 <= i < ds.len() && line_in(#[trigger] ds[i], file) == Some(line);
            if i < rest.len() {
                assert(rest[i] == ds[i]);
                let k = found.index_of(line);
                assert(now[k] == line);
            } else if !found.contains(line) {
                assert(now[now.len() - 1] == line);
            }
        }
        if now.contains(line) {
            let k = now.index_of(line);
            if k < found.len() {
                assert(found[k] == line);
                let i = choose|i: int|
                    0 <= i < rest.len() && line_in(#[trigger] rest[i], file) == Some(line);
                assert(ds[i] == rest[i]);
            } else {
                assert(ds[ds.len() - 1] == ds.last());
            }
        }
    }
}

/// The numbers of a hint add up: each discussion on the line is counted once, as live or as
/// outdated, and as open or as resolved.
pub proof fn law_counts_add_up(
    ds: Seq<DiscussionModel>,
    file: Seq<char>,
    refs: Option<DiffRefsModel>,
    line: u32,
)
    ensures
        count(ds, file, refs, line, false, false) + count(ds, file, refs, line, false, true)
            + count(ds, file, refs, line, true, false) + count(ds, file, refs, line, true, true)
            == ds.filter(|d: DiscussionModel| line_in(d, file) == Some(line)).len(),
    decreases ds.len(),
{
    reveal(Seq::filter);
    if ds.len() > 0 {
        law_counts_add_up(ds.drop_last(), file, refs, line);
    }
}

/// The empty query lists every changed file that has a URI.
pub proof fn law_empty_query_lists_all(
    diffs: Seq<MrDiffModel>,
    paths_lc: Seq<Seq<char>>,
    uris: Seq<Option<Seq<char>>>,
    mr_label: Seq<char>,
    i: int,
)
    requires
        0 <= i < diffs.len(),
        uris.len() == diffs.len(),
        uris[i] is Some,
    ensures
        symbols_of(diffs, paths_lc, uris, mr_label, Seq::empty()).contains(
            SymbolModel {
                name: diffs[i].new_path,
                kind: SymbolKind::File,
                uri: uris[i]->0,
                range: Range {
                    start: Position { line: 0, character: 0 },
                    end: Position { line: 0, character: 0 },
                },
                container_name: mr_label,
            },
        ),
{
    law_answering_file_listed(diffs, paths_lc, uris, mr_label, Seq::empty(), i);
}

/// A query lists every changed file that has a URI and whose path answers it.
pub proof fn law_answering_file_listed(
    diffs: Seq<MrDiffModel>,
    paths_lc: Seq<Seq<char>>,
    uris: Seq<Option<Seq<char>>>,
    mr_label: Seq<char>,
    query_lc: Seq<char>,
    i: int,
)
    requires
        0 <= i < diffs.len(),
        uris.len() >= diffs.len(),
        uris[i] is Some,
        answers(paths_lc[i], query_lc),
    ensures
        symbols_of(diffs, paths_lc, uris, mr_label, query_lc).contains(
            SymbolModel {
                name: diffs[i].new_path,
                kind: SymbolKind::File,
                uri: uris[i]->0,
                range: Range {
                    start: Position { line: 0, character: 0 },
                    end: Position { line: 0, character: 0 },
                },
                container_name: mr_label,
            },
        ),
    decreases diffs.len(),
{
    let listed = symbols_of(diffs, paths_lc, uris, mr_label, query_lc);
    let one = SymbolModel {
        name: diffs[i].new_path,
        kind: SymbolKind::File,
        uri: uris[i]->0,
        range: Range {
            start: Position { line: 0, character: 0 },
            end: Position { line: 0, character: 0 },
        },
        container_name: mr_label,
    };
    if i == diffs.len() - 1 {
        assert(listed[listed.len() - 1] == one);
    } else {
        law_answering_file_listed(diffs.drop_last(), paths_lc, uris, mr_label, query_lc, i);
        let before = symbols_of(diffs.drop_last(), paths_lc, uris, mr_label, query_lc);
        let k = before.index_of(one);
        assert(listed[k] == one);
    }
}

/// A discussion is resolved if and only if its flag is set, or one of its notes both can be resolved
/// and is.
pub proof fn law_resolved(d: DiscussionModel)
    ensures
        is_resolved(d) <==> (d.resolved || d.notes.any(
            |n: NoteModel| n.resolvable && n.resolved,
        )),
{
    let f = |n: NoteModel| n.resolvable && n.resolved;
    if exists|i: int|
        0 <= i < d.notes.len() && (#[trigger] d.notes[i]).resolvable && d.notes[i].resolved {
        let i = choose|i: int|
            0 <= i < d.notes.len() && (#[trigger] d.notes[i]).resolvable && d.notes[i].resolved;
        assert(f(d.notes[i]));
    }
    if d.notes.any(f) {
        let i = choose|i: int| 0 <= i < d.notes.len() && f(#[trigger] d.notes[i]);
        assert(d.notes[i].resolvable);
    }
}

/// A note is up to date if and only if it has no position, or the MR is not loaded, or all three
/// commits of its position are those of the MR.
pub proof fn law_up_to_date(note: NoteModel, refs: DiffRefsModel)
    ensures
        !is_outdated(note, None),
        note.position is None ==> !is_outdated(note, Some(refs)),
        note.position matches Some(pos) ==> (!is_outdated(note, Some(refs)) <==> (pos.base_sha
            == refs.base_sha && pos.head_sha == refs.head_sha && pos.start_sha == refs.start_sha)),
{
}

/// A discussion stands on the line of a file that its first note's position names, and on none where
/// it has no note, or the first one no position, or one in another file or on no line.
pub proof fn law_line_of_first_note(d: DiscussionModel, file: Seq<char>)
    ensures
        d.notes.len() == 0 ==> line_in(d, file) is None,
        d.notes.len() > 0 ==> line_in(d, file) == (match d.notes[0].position {
            Some(pos) => if pos.new_path == file {
                pos.new_line
            } else {
                None
            },
            None => None,
        }),
{
}

/// The mark before a message: that the thread is outdated, else that it is resolved, else nothing.
pub open spec fn mark_of(outdated: bool, resolved: bool) -> Seq<char> {
    if outdated {
        "[outdated] "@
    } else if resolved {
        "[resolved] "@
    } else {
        ""@
    }
}

/// A diagnostic says who wrote the first note and how it begins, whatever the thread's state and
/// however many replies it has; it marks the whole of the line, which the editor counts from zero;
/// and it informs where the thread is live and open, and hints elsewhere.
pub proof fn law_diagnostic(d: DiscussionModel, line: u32, refs: Option<DiffRefsModel>)
    requires
        d.notes.len() > 0,
        line > 0,
    ensures
        ({
            let shown = diagnostic_of(d, line, refs);
            let first = d.notes[0];
            let outdated = is_outdated(first, refs);
            let resolved = is_resolved(d);
            &&& shown.message == mark_of(outdated, resolved) + "@"@ + first.author.username
                + " - "@ + preview(first.body)
            &&& shown.range.start.line + 1 == line
            &&& shown.range.end.line + 1 == line
            &&& shown.range.start.character == 0
            &&& shown.range.end.character == u32::MAX
            &&& shown.severity == Severity::Information <==> !outdated && !resolved
            &&& shown.severity == Severity::Hint <==> outdated || resolved
            &&& shown.source == "gitlab-mr"@
        }),
{
}

/// But for its mark, what a diagnostic says depends on no note but the first.
pub proof fn law_replies_do_not_speak(
    a: DiscussionModel,
    b: DiscussionModel,
    line: u32,
    refs: Option<DiffRefsModel>,
)
    requires
        a.notes.len() > 0,
        b.notes.len() > 0,
        a.notes[0] == b.notes[0],
        is_resolved(a) == is_resolved(b),
    ensures
        diagnostic_of(a, line, refs) == diagnostic_of(b, line, refs),
{
}

/// A preview is the first line of a note without the white space around it: all of it where it takes
/// at most 60 bytes, else its first 60 bytes and three dots.
pub proof fn law_preview(body: Seq<char>)
    requires
        byte_len(trim(first_line(body))) > 60 ==> byte_prefix(trim(first_line(body)), 60) is Some,
    ensures
        exists|i: int| #[trigger] is_core(first_line(body), trim(first_line(body)), i),
        byte_len(trim(first_line(body))) <= 60 ==> preview(body) == trim(first_line(body)),
        byte_len(trim(first_line(body))) > 60 ==> exists|a: Seq<char>, b: Seq<char>|
            trim(first_line(body)) == #[trigger] (a + b) && byte_len(a) == 60 && preview(body) == a
                + "..."@,
{
    law_trim(first_line(body));
    law_cut_after_bytes(trim(first_line(body)), 60);
}

/// The diagnostics of a file are those of the discussions that stand on a line of it, each once, in
/// the order in which the discussions come.
pub proof fn law_diagnostics_in_order(
    ds: Seq<DiscussionModel>,
    file: Seq<char>,
    refs: Option<DiffRefsModel>,
)
    ensures
        diagnostics_of(ds, file, refs) == ds.filter(
            |d: DiscussionModel| line_in(d, file) is Some,
        ).map_values(|d: DiscussionModel| diagnostic_of(d, line_in(d, file)->0, refs)),
    decreases ds.len(),
{
    reveal(Seq::filter);
    let p = |d: DiscussionModel| line_in(d, file) is Some;
    let f = |d: DiscussionModel| diagnostic_of(d, line_in(d, file)->0, refs);
    if ds.len() > 0 {
        law_diagnostics_in_order(ds.drop_last(), file, refs);
        let kept = ds.drop_last().filter(p);
        if p(ds.last()) {
            assert(kept.push(ds.last()).map_values(f) =~= kept.map_values(f).push(f(ds.last())));
        }
    } else {
        assert(ds.filter(p).map_values(f) =~= Seq::<DiagnosticModel>::empty());
    }
}

/// A changed file is marked at its very start, with a hint that names the MR.
pub proof fn law_changed_hint(label: Seq<char>)
    ensures
        changed_hint(label).message == "Changed in "@ + label,
        changed_hint(label).severity == Severity::Hint,
        changed_hint(label).source == "gitlab-mr"@,
        changed_hint(label).range.start == (Position { line: 0, character: 0 }),
        changed_hint(label).range.end == (Position { line: 0, character: 0 }),
{
}

/// `at` are the places, in order, of the diffs whose path holds the query and that have a URI.
pub open spec fn are_answers(
    at: Seq<int>,
    n: int,
    paths_lc: Seq<Seq<char>>,
    uris: Seq<Option<Seq<char>>>,
    query_lc: Seq<char>,
) -> bool {
    &&& forall|k: int, l: int| 0 <= k < l < at.len() ==> at[k] < at[l]
    &&& forall|i: int|
        at.contains(i) <==> (0 <= i < n && (#[trigger] uris[i]) is Some && (query_lc.len() == 0
            || exists|a: Seq<char>, b: Seq<char>| paths_lc[i] == #[trigger] (a + query_lc + b)))
}

/// A query lists the changed files whose path holds it and that have a URI, each once, in the order
/// of the diffs, and no others: each by its path, as a file, at its start, under the MR's label.
pub proof fn law_symbols_in_order(
    diffs: Seq<MrDiffModel>,
    paths_lc: Seq<Seq<char>>,
    uris: Seq<Option<Seq<char>>>,
    mr_label: Seq<char>,
    query_lc: Seq<char>,
) -> (at: Seq<int>)
    requires
        paths_lc.len() >= diffs.len(),
        uris.len() >= diffs.len(),
    ensures
        are_answers(at, diffs.len() as int, paths_lc, uris, query_lc),
        ({
            let listed = symbols_of(diffs, paths_lc, uris, mr_label, query_lc);
            &&& listed.len() == at.len()
            &&& forall|k: int|
                0 <= k < at.len() ==> {
                    let s = #[trigger] listed[k];
                    &&& s.name == diffs[at[k]].new_path
                    &&& uris[at[k]] == Some(s.uri)
                    &&& s.kind == SymbolKind::File
                    &&& s.range.start == (Position { line: 0, character: 0 })
                    &&& s.range.end == (Position { line: 0, character: 0 })
                    &&& s.container_name == mr_label
                }
        }),
    decreases diffs.len(),
{
    if diffs.len() == 0 {
        let at = Seq::<int>::empty();
        assert(are_answers(at, 0, paths_lc, uris, query_lc));
        at
    } else {
        let n = diffs.len() - 1;
        let before = law_symbols_in_order(diffs.drop_last(), paths_lc, uris, mr_label, query_lc);
        law_contains(paths_lc[n], query_lc);
        assert forall|k: int| 0 <= k < before.len() implies 0 <= #[trigger] before[k] < n by {
            assert(before.contains(before[k]));
            let uri = uris[before[k]];
        }
        let listed = symbols_of(diffs, paths_lc, uris, mr_label, query_lc);
        let fewer = symbols_of(diffs.drop_last(), paths_lc, uris, mr_label, query_lc);
        if answers(paths_lc[n], query_lc) && uris[n] is Some {
            let at = before.push(n);
            assert forall|i: int|
                at.contains(i) <==> (0 <= i < diffs.len() && (#[trigger] uris[i]) is Some && (
                query_lc.len() == 0 || exists|a: Seq<char>, b: Seq<char>|
                    paths_lc[i] == #[trigger] (a + query_lc + b))) by {
                if at.contains(i) {
                    let k = at.index_of(i);
                    if k < before.len() {
                        assert(before[k] == i);
                        assert(before.contains(i));
                    }
                }
                if before.contains(i) {
                    let k = before.index_of(i);
                    assert(at[k] == i);
                }
                if i == n {
                    assert(at[before.len() as int] == n);
                }
            }
            assert forall|k: int| 0 <= k < at.len() implies {
                let s = #[trigger] listed[k];
                &&& s.name == diffs[at[k]].new_path
                &&& uris[at[k]] == Some(s.uri)
                &&& s.kind == SymbolKind::File
                &&& s.range.start == (Position { line: 0, character: 0 })
                &&& s.range.end == (Position { line: 0, character: 0 })
                &&& s.container_name == mr_label
            } by {
                if k < before.len() {
                    assert(listed[k] == fewer[k]);
                    assert(at[k] == before[k]);
                }
            }
            at
        } else {
            assert forall|i: int|
                before.contains(i) <==> (0 <= i < diffs.len() && (#[trigger] uris[i]) is Some && (
                query_lc.len() == 0 || exists|a: Seq<char>, b: Seq<char>|
                    paths_lc[i] == #[trigger] (a + query_lc + b))) by {
                if before.contains(i) {
                    let k = before.index_of(i);
                    assert(0 <= before[k] < n);
                }
            }
            assert(are_answers(before, diffs.len() as int, paths_lc, uris, query_lc));
            before
        }
    }
}

/// The lower case of ASCII text is the text with each capital letter made small.
pub proof fn law_ascii_lower(c: char)
    ensures
        ascii_lower('A') == 'a',
        ascii_lower('Z') == 'z',
        'A' <= c <= 'Z' ==> ascii_lower(c) as int - 'a' as int == c as int - 'A' as int,
        !('A' <= c <= 'Z') ==> ascii_lower(c) == c,
        is_ascii(seq![c]) <==> c <= '\u{7f}',
{
    let one = seq![c];
    assert(one[0] == c);
    if is_ascii(one) {
        assert(one[0] as u32 <= 0x7f);
    }
}

/// A time stamp is shown up to its minutes, with a space between the day and the time.
pub proof fn law_shown_time(day: Seq<char>, time: Seq<char>, rest: Seq<char>)
    requires
        byte_len(day + seq!['T'] + time) == 16,
        forall|i: int| 0 <= i < day.len() ==> day[i] != 'T',
        forall|i: int| 0 <= i < time.len() ==> time[i] != 'T',
    ensures
        shown_time(day + seq!['T'] + time + rest) == day + seq![' '] + time,
{
    reveal_strlit(" ");
    let cut = day + seq!['T'] + time;
    let all = cut + rest;
    assert(all.take(cut.len() as int) =~= cut);
    lemma_cut_unique(all, 16, cut.len() as int);
    law_replace(day, 'T', time, 'T', " "@);
    lemma_replace_none(day, 'T', " "@);
    lemma_replace_none(time, 'T', " "@);
    assert(" "@ =~= seq![' ']);
}

/// A time stamp that cannot be cut after 16 bytes is shown whole, with a space for each `T`.
pub proof fn law_short_time(created_at: Seq<char>)
    requires
        byte_prefix(created_at, 16) is None,
    ensures
        shown_time(created_at) == replace(created_at, 'T', " "@),
        (forall|i: int| 0 <= i < created_at.len() ==> created_at[i] != 'T') ==> shown_time(
            created_at,
        ) == created_at,
{
    if forall|i: int| 0 <= i < created_at.len() ==> created_at[i] != 'T' {
        lemma_replace_none(created_at, 'T', " "@);
    }
}

proof fn lemma_replace_none(s: Seq<char>, c: char, with: Seq<char>)
    requires
        forall|i: int| 0 <= i < s.len() ==> s[i] != c,
    ensures
        replace(s, c, with) == s,
    decreases s.len(),
{
    if s.len() > 0 {
        lemma_replace_none(s.drop_last(), c, with);
        assert(s.drop_last() + seq![s.last()] =~= s);
    }
}

/// A note in Markdown is its author and its time on a line, each line of its body quoted, in order,
/// and an empty line.
pub proof fn law_note_rendered(note: NoteModel, indent: Seq<char>)
    ensures
        note_text(note, indent) == indent + "**@"@ + note.author.username + "** · "@ + shown_time(
            note.created_at,
        ) + "\n"@ + lines(note.body).map_values(
            |line: Seq<char>| indent + "> "@ + line + "\n"@,
        ).flatten() + "\n"@,
{
    lemma_quoted(lines(note.body), indent);
}

proof fn lemma_quoted(ls: Seq<Seq<char>>, indent: Seq<char>)
    ensures
        quoted(ls, indent) == ls.map_values(
            |line: Seq<char>| indent + "> "@ + line + "\n"@,
        ).flatten(),
    decreases ls.len(),
{
    let f = |line: Seq<char>| indent + "> "@ + line + "\n"@;
    if ls.len() > 0 {
        lemma_quoted(ls.drop_last(), indent);
        let before = ls.drop_last().map_values(f);
        assert(ls.map_values(f) =~= before.push(f(ls.last())));
        before.lemma_flatten_push(f(ls.last()));
    } else {
        assert(ls.map_values(f).flatten() =~= Seq::<char>::empty());
    }
}

/// Every note of a thread is rendered, however many there are, in order, and nothing stands between
/// them: the first one at the margin, each reply behind two spaces.
pub proof fn law_every_note_rendered(notes: Seq<NoteModel>)
    ensures
        notes_text(notes) == Seq::new(
            notes.len(),
            |i: int|
                note_text(
                    notes[i],
                    if i == 0 {
                        ""@
                    } else {
                        "  "@
                    },
                ),
        ).flatten(),
    decreases notes.len(),
{
    let parts = Seq::new(
        notes.len(),
        |i: int|
            note_text(
                notes[i],
                if i == 0 {
                    ""@
                } else {
                    "  "@
                },
            ),
    );
    if notes.len() > 0 {
        let fewer = notes.drop_last();
        law_every_note_rendered(fewer);
        let before = Seq::new(
            fewer.len(),
            |i: int|
                note_text(
                    fewer[i],
                    if i == 0 {
                        ""@
                    } else {
                        "  "@
                    },
                ),
        );
        let last = parts[notes.len() - 1];
        assert(parts =~= before.push(last));
        before.lemma_flatten_push(last);
    } else {
        assert(parts.flatten() =~= Seq::<char>::empty());
    }
}

/// A rendered thread is its notes, with the mark that it is outdated before them, where its first
/// note is, and the mark that it is resolved behind them, where it is.
pub proof fn law_thread_rendered(d: DiscussionModel, refs: Option<DiffRefsModel>)
    ensures
        ({
            let old = "**[outdated — made on a previous version of this diff]**\n\n"@;
            let done = "✓ *Resolved*\n"@;
            let outdated = d.notes.len() > 0 && is_outdated(d.notes[0], refs);
            let text = thread_text(d, refs);
            &&& outdated && is_resolved(d) ==> text == old + notes_text(d.notes) + done
            &&& outdated && !is_resolved(d) ==> text == old + notes_text(d.notes)
            &&& !outdated && is_resolved(d) ==> text == notes_text(d.notes) + done
            &&& !outdated && !is_resolved(d) ==> text == notes_text(d.notes)
        }),
{
    let none = Seq::<char>::empty();
    let notes = notes_text(d.notes);
    let old = "**[outdated — made on a previous version of this diff]**\n\n"@;
    assert(none + notes =~= notes);
    assert(notes + none =~= notes);
    assert(old + notes + none =~= old + notes);
}

/// Each of the four numbers of a line is the number of the discussions on it that are, or are not,
/// outdated and resolved.
pub proof fn law_counts(
    ds: Seq<DiscussionModel>,
    file: Seq<char>,
    refs: Option<DiffRefsModel>,
    line: u32,
    outdated: bool,
    resolved: bool,
)
    ensures
        count(ds, file, refs, line, outdated, resolved) == ds.filter(
            |d: DiscussionModel|
                line_in(d, file) == Some(line) && is_outdated(d.notes[0], refs) == outdated
                    && is_resolved(d) == resolved,
        ).len(),
    decreases ds.len(),
{
    reveal(Seq::filter);
    if ds.len() > 0 {
        law_counts(ds.drop_last(), file, refs, line, outdated, resolved);
    }
}

/// A hint stands at the start of its line, which the editor counts from zero, and says how many of
/// the live threads on it are open, or that all are resolved, and how many threads are outdated.
pub proof fn law_hint(
    ds: Seq<DiscussionModel>,
    file: Seq<char>,
    refs: Option<DiffRefsModel>,
    line: u32,
)
    requires
        line > 0,
    ensures
        ({
            let hint = hint_of(ds, file, refs, line);
            let on_line = ds.filter(|d: DiscussionModel| line_in(d, file) == Some(line));
            let open = ds.filter(
                |d: DiscussionModel|
                    line_in(d, file) == Some(line) && is_outdated(d.notes[0], refs) == false
                        && is_resolved(d) == false,
            ).len();
            let done = ds.filter(
                |d: DiscussionModel|
                    line_in(d, file) == Some(line) && is_outdated(d.notes[0], refs) == false
                        && is_resolved(d) == true,
            ).len();
            let live = open + done;
            let old = on_line.len() - live;
            let tail = if live > 0 {
                ", "@ + decimal(old as nat) + " outdated"@
            } else {
                decimal(old as nat) + " outdated"@
            };
            let head = if live == 0 {
                Seq::empty()
            } else if open > 0 {
                decimal(open) + "/"@ + decimal(live) + " unresolved"@
            } else if live == 1 {
                "✓ "@ + decimal(1) + " comment"@
            } else {
                "✓ "@ + decimal(live) + " comments"@
            };
            &&& hint.position.line + 1 == line
            &&& hint.position.character == 0
            &&& hint.kind == InlayHintKind::Type
            &&& hint.padding_right
            &&& old >= 0
            &&& hint.label == (if old > 0 {
                head + tail
            } else {
                head
            })
        }),
{
    reveal_strlit("");
    reveal_strlit("s");
    reveal_strlit(" comment");
    reveal_strlit(" comments");
    law_counts_add_up(ds, file, refs, line);
    law_counts(ds, file, refs, line, false, false);
    law_counts(ds, file, refs, line, false, true);
    let open = count(ds, file, refs, line, false, false);
    let live = open + count(ds, file, refs, line, false, true);
    let old = count(ds, file, refs, line, true, false) + count(ds, file, refs, line, true, true);
    let none = Seq::<char>::empty();
    let part = live_part(open, live);
    assert("✓ "@ + decimal(live) + " comment"@ + ""@ =~= "✓ "@ + decimal(live) + " comment"@);
    assert("✓ "@ + decimal(live) + " comment"@ + "s"@ =~= "✓ "@ + decimal(live) + " comments"@);
    assert(part + (", "@ + decimal(old) + " outdated"@) =~= part + ", "@ + decimal(old)
        + " outdated"@);
    assert(none + (decimal(old) + " outdated"@) =~= decimal(old) + " outdated"@);
}

/// The hints of a file are one for each line on which discussions stand.
pub proof fn law_hints_of_lines(
    ds: Seq<DiscussionModel>,
    file: Seq<char>,
    refs: Option<DiffRefsModel>,
    k: int,
)
    requires
        0 <= k < lines_with_comments(ds, file).len(),
    ensures
        hints_of(ds, file, refs).len() == lines_with_comments(ds, file).len(),
        hints_of(ds, file, refs)[k] == hint_of(ds, file, refs, lines_with_comments(ds, file)[k]),
{
}

/// A discussion cannot be shown if and only if it stands on line number zero, or its preview would
/// have to be cut inside a character.
pub proof fn law_cannot_show(d: DiscussionModel)
    requires
        d.notes.len() > 0,
    ensures
        !can_show(d) <==> (d.notes[0].position matches Some(pos) && pos.new_line is Some && (
        pos.new_line == Some(0u32) || (byte_len(trim(first_line(d.notes[0].body))) > 60
            && byte_prefix(trim(first_line(d.notes[0].body)), 60) is None))),
{
}

/// The search looks at each changed file's own path, in lower case, and at the URI that it has in the
/// repository.
pub proof fn law_searched(
    diffs: Seq<MrDiffModel>,
    root: Seq<char>,
    uris: Seq<Option<Seq<char>>>,
    i: int,
)
    requires
        0 <= i < diffs.len(),
    ensures
        lower_paths(diffs).len() == diffs.len(),
        lower_paths(diffs)[i] == lowercase_of(diffs[i].new_path),
        are_uris_of(diffs, root, uris) ==> uris.len() == diffs.len() && is_uri_in(
            root,
            diffs[i].new_path,
            uris[i],
        ),
{
}

/// Lists are shown element by element, with nothing left out.
pub proof fn law_lists_shown(
    diagnostics: Seq<Diagnostic>,
    symbols: Seq<SymbolInformation>,
    hints: Seq<InlayHint>,
    refs: &DiffRefs,
)
    ensures
        diagnostics_model(diagnostics).len() == diagnostics.len(),
        forall|i: int|
            0 <= i < diagnostics.len() ==> {
                let m = #[trigger] diagnostics_model(diagnostics)[i];
                let d = diagnostics[i];
                m.range == d.range && m.severity == d.severity && m.source == d.source@ && m.message
                    == d.message@
            },
        symbols_model(symbols).len() == symbols.len(),
        forall|i: int|
            0 <= i < symbols.len() ==> {
                let m = #[trigger] symbols_model(symbols)[i];
                let s = symbols[i];
                m.name == s.name@ && m.kind == s.kind && m.uri == s.uri@ && m.range == s.range
                    && m.container_name == s.container_name@
            },
        hints_model(hints).len() == hints.len(),
        forall|i: int|
            0 <= i < hints.len() ==> {
                let m = #[trigger] hints_model(hints)[i];
                let h = hints[i];
                m.position == h.position && m.label == h.label@ && m.kind == h.kind
                    && m.padding_right == h.padding_right
            },
        current_model(Some(refs)) == Some(refs@),
        current_model(None) is None,
{
}

/// The hints of a file can be given if and only if no discussion on it stands on line number zero.
pub proof fn law_hintable(ds: Seq<DiscussionModel>, file: Seq<char>)
    ensures
        !lines_count_from_one(ds, file) <==> exists|i: int|
            0 <= i < ds.len() && line_in(#[trigger] ds[i], file) == Some(0u32),
        all_can_show(ds) <==> ds.all(|d: DiscussionModel| can_show(d)),
{
    let f = |d: DiscussionModel| can_show(d);
    if all_can_show(ds) {
        assert forall|i: int| 0 <= i < ds.len() implies f(#[trigger] ds[i]) by {
        }
    }
    if ds.all(f) {
        assert forall|i: int| 0 <= i < ds.len() implies can_show(#[trigger] ds[i]) by {
            assert(f(ds[i]));
        }
    }
}

} // verus!
