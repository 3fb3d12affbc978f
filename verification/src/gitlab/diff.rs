//! Unified diffs: which line of the old file each line of the new file was, and where a note on
//! a line goes.
use std::collections::BTreeMap;

use vstd::prelude::*;

use crate::gitlab::types::{DiffRefs, DiffRefsModel, NotePosition, NotePositionModel};
use crate::number::{decimal, law_written_is_read, parse_u32, u32_of};
use crate::text::{
    after,
    before,
    chars_of,
    has_prefix,
    law_cut_at_first,
    law_cut_of_two,
    law_lines_of_lines,
    lines,
    lines_of,
    starts_with,
    tail,
    text_after,
    text_before,
    texts,
    with_line_feeds,
};

verus! {

// ── Hunk headers ────────────────────────────────────────────────────────────────────────────────

/// The number that a range such as `-10,6` starts with, after the sign `sign`.
pub open spec fn range_start(range: Seq<char>, sign: char) -> Option<u32> {
    if range.len() > 0 && range[0] == sign {
        parse_u32(before(range.drop_first(), ','))
    } else {
        None
    }
}

/// The old and the new line at which the hunk starts that `line` announces: `line` is `@@ `, a
/// range signed `-`, a space, a range signed `+`, and, after another space, anything.
pub open spec fn hunk_start(line: Seq<char>) -> Option<(u32, u32)> {
    if starts_with(line, "@@ "@) {
        let ranges = line.skip("@@ "@.len() as int);
        match after(ranges, ' ') {
            Some(rest) => match (range_start(before(ranges, ' '), '-'), range_start(
                before(rest, ' '),
                '+',
            )) {
                (Some(old), Some(new)) => Some((old, new)),
                _ => None,
            },
            None => None,
        }
    } else {
        None
    }
}

/// The number of lines of a range such as `-10,6`: what follows the comma, and one without a comma.
pub open spec fn range_count(range: Seq<char>) -> u32 {
    match after(range, ',') {
        Some(count) => match parse_u32(count) {
            Some(n) => n,
            None => 0,
        },
        None => 1,
    }
}

/// The numbers of old and of new lines of the hunk that `line` announces.
pub open spec fn hunk_counts(line: Seq<char>) -> (u32, u32) {
    let ranges = line.skip("@@ "@.len() as int);
    match after(ranges, ' ') {
        Some(rest) => (range_count(before(ranges, ' ')), range_count(before(rest, ' '))),
        None => (0, 0),
    }
}

/// The number of lines of a range.
fn count_of_range(range: &[char]) -> (r: u32)
    ensures
        r == range_count(range@),
{
    match text_after(range, ',') {
        Some(count) => match u32_of(count) {
            Some(n) => n,
            None => 0,
        },
        None => 1,
    }
}

/// The number that a range starts with, after its sign.
fn start_of_range(range: &[char], sign: char) -> (r: Option<u32>)
    ensures
        r == range_start(range@, sign),
{
    if range.len() > 0 && range[0] == sign {
        let number = text_before(tail(range, 1), ',');
        assert(range@.skip(1) =~= range@.drop_first());
        u32_of(number)
    } else {
        None
    }
}

/// Parse `@@ -old_start[,old_count] +new_start[,new_count] @@` hunk header.
/// Returns `(old_start, new_start)` on success.
pub fn parse_hunk_header(line: &str) -> (r: Option<(u32, u32)>)
    ensures
        r == hunk_start(line@),
{
    let line = chars_of(line);
    match read_hunk(line.as_slice()) {
        Some(h) => Some((h.old, h.new)),
        None => None,
    }
}

/// What a hunk header announces: the lines at which the hunk starts, and how many it has.
struct Hunk {
    old: u32,
    new: u32,
    old_count: u32,
    new_count: u32,
}

/// What the hunk header `line` announces.
fn read_hunk(line: &[char]) -> (r: Option<Hunk>)
    ensures
        (match r {
            Some(h) => hunk_start(line@) == Some((h.old, h.new)) && hunk_counts(line@) == (
                h.old_count,
                h.new_count,
            ),
            None => hunk_start(line@) is None,
        }),
{
    if !has_prefix(line, "@@ ") {
        return None;
    }
    let n: usize = chars_of("@@ ").len();
    let ranges = tail(line, n);
    let old = start_of_range(text_before(ranges, ' '), '-');
    match text_after(ranges, ' ') {
        Some(rest) => {
            let new = start_of_range(text_before(rest, ' '), '+');
            let old_count = count_of_range(text_before(ranges, ' '));
            let new_count = count_of_range(text_before(rest, ' '));
            match (old, new) {
                (Some(o), Some(n)) => Some(Hunk { old: o, new: n, old_count, new_count }),
                _ => None,
            }
        },
        None => None,
    }
}

// ── The walk over a diff ────────────────────────────────────────────────────────────────────────

/// Where a walk over the lines of a diff stands: the old and the new number of the next line,
/// whether it is inside a hunk, and how many old and new lines of that hunk are still due. None are
/// due where not as many stand under the hunk's header as it announces.
pub struct Cursor {
    pub old: nat,
    pub new: nat,
    pub in_hunk: bool,
    pub old_due: nat,
    pub new_due: nat,
}

/// The line belongs to the header of a file.
pub open spec fn is_file_header(line: Seq<char>) -> bool {
    ||| starts_with(line, "--- "@)
    ||| starts_with(line, "+++ "@)
    ||| starts_with(line, "diff "@)
    ||| starts_with(line, "index "@)
}

/// The line looks like a file's header and is none: while old lines of a hunk are due, one that
/// starts with `--- ` is a removed line, and while new ones are, one that starts with `+++ ` is an
/// added line.
pub open spec fn is_due(c: Cursor, line: Seq<char>) -> bool {
    c.in_hunk && ((starts_with(line, "--- "@) && c.old_due > 0) || (starts_with(line, "+++ "@)
        && c.new_due > 0))
}

/// The line belongs to the header of a file, as `c` has it.
pub open spec fn ends_hunk(c: Cursor, line: Seq<char>) -> bool {
    is_file_header(line) && !is_due(c, line)
}

/// The line is one of a hunk's, as `c` has it.
pub open spec fn in_body(c: Cursor, line: Seq<char>) -> bool {
    c.in_hunk && !starts_with(line, "@@"@) && !ends_hunk(c, line) && line.len() > 0
}

/// One less, or none.
pub open spec fn less_one(n: nat) -> nat {
    if n > 0 {
        (n - 1) as nat
    } else {
        0
    }
}

/// The line is a context line or a removed one.
pub open spec fn is_old_line(line: Seq<char>) -> bool {
    line.len() > 0 && (line[0] == ' ' || line[0] == '-')
}

/// The line is a context line or an added one.
pub open spec fn is_new_line(line: Seq<char>) -> bool {
    line.len() > 0 && (line[0] == ' ' || line[0] == '+')
}

/// The line is a marker such as `\ No newline at end of file`.
pub open spec fn is_marker(line: Seq<char>) -> bool {
    line.len() > 0 && line[0] == '\\'
}

/// `ls` begins with as many old and new lines as are due, with nothing among them but markers.
pub open spec fn is_filled(ls: Seq<Seq<char>>, old_due: nat, new_due: nat) -> bool
    decreases ls.len(),
{
    if old_due == 0 && new_due == 0 {
        true
    } else if ls.len() == 0 {
        false
    } else if is_marker(ls[0]) {
        is_filled(ls.drop_first(), old_due, new_due)
    } else {
        &&& is_old_line(ls[0]) || is_new_line(ls[0])
        &&& is_old_line(ls[0]) ==> old_due > 0
        &&& is_new_line(ls[0]) ==> new_due > 0
        &&& is_filled(
            ls.drop_first(),
            if is_old_line(ls[0]) {
                less_one(old_due)
            } else {
                old_due
            },
            if is_new_line(ls[0]) {
                less_one(new_due)
            } else {
                new_due
            },
        )
    }
}

/// The numbers of old and of new lines that are due under the hunk header `line`, where `rest`
/// follows it.
pub open spec fn announced(line: Seq<char>, rest: Seq<Seq<char>>) -> (nat, nat) {
    let (old, new) = hunk_counts(line);
    if is_filled(rest, old as nat, new as nat) {
        (old as nat, new as nat)
    } else {
        (0, 0)
    }
}

/// Where the walk stands after `line`, which `rest` follows.
pub open spec fn step(c: Cursor, line: Seq<char>, rest: Seq<Seq<char>>) -> Cursor {
    if starts_with(line, "@@"@) {
        match hunk_start(line) {
            Some((old, new)) => Cursor {
                old: old as nat,
                new: new as nat,
                in_hunk: true,
                old_due: announced(line, rest).0,
                new_due: announced(line, rest).1,
            },
            None => c,
        }
    } else if ends_hunk(c, line) {
        Cursor { in_hunk: false, ..c }
    } else if in_body(c, line) {
        Cursor {
            old: if is_old_line(line) {
                c.old + 1
            } else {
                c.old
            },
            new: if is_new_line(line) {
                c.new + 1
            } else {
                c.new
            },
            in_hunk: true,
            old_due: if is_old_line(line) {
                less_one(c.old_due)
            } else {
                c.old_due
            },
            new_due: if is_new_line(line) {
                less_one(c.new_due)
            } else {
                c.new_due
            },
        }
    } else {
        c
    }
}

/// What `line` adds to the map: its new number, with its old number if it is context and none if
/// it was added.
pub open spec fn entry(c: Cursor, line: Seq<char>) -> Option<(u32, Option<u32>)> {
    if in_body(c, line) && line[0] == ' ' {
        Some((c.new as u32, Some(c.old as u32)))
    } else if in_body(c, line) && line[0] == '+' {
        Some((c.new as u32, None))
    } else {
        None
    }
}

/// Where the walk over `ls` stands after the first `k` lines.
pub open spec fn cursor_at(ls: Seq<Seq<char>>, k: int) -> Cursor
    decreases k,
{
    if k <= 0 {
        Cursor { old: 0, new: 0, in_hunk: false, old_due: 0, new_due: 0 }
    } else {
        step(cursor_at(ls, k - 1), ls[k - 1], ls.skip(k))
    }
}

/// The map that the first `k` lines of `ls` make.
pub open spec fn map_at(ls: Seq<Seq<char>>, k: int) -> Map<u32, Option<u32>>
    decreases k,
{
    if k <= 0 {
        Map::empty()
    } else {
        match entry(cursor_at(ls, k - 1), ls[k - 1]) {
            Some((new, old)) => map_at(ls, k - 1).insert(new, old),
            None => map_at(ls, k - 1),
        }
    }
}

/// Every line number that the walk over `ls` comes to fits in 32 bits.
pub open spec fn fits(ls: Seq<Seq<char>>) -> bool {
    forall|k: int|
        0 <= k <= ls.len() ==> (#[trigger] cursor_at(ls, k)).old <= u32::MAX && cursor_at(
            ls,
            k,
        ).new <= u32::MAX
}

/// Every line number that the diff `text` comes to fits in 32 bits.
pub open spec fn numbers_fit(text: Seq<char>) -> bool {
    fits(lines(text))
}

/// From each line of the new file that the diff `text` shows to its line in the old file, or to
/// none if it was added. Both count from one.
pub open spec fn line_map(text: Seq<char>) -> Map<u32, Option<u32>> {
    map_at(lines(text), lines(text).len() as int)
}

/// Whether the line belongs to the header of a file.
fn is_header_line(line: &[char]) -> (r: bool)
    ensures
        r == is_file_header(line@),
{
    has_prefix(line, "--- ") || has_prefix(line, "+++ ") || has_prefix(line, "diff ")
        || has_prefix(line, "index ")
}

/// Whether the lines behind the first `from` of `all` begin with as many old and new lines as are
/// due.
fn fill(all: &Vec<Vec<char>>, from: usize, old_count: u32, new_count: u32) -> (r: bool)
    requires
        from <= all.len(),
    ensures
        r == is_filled(texts(all@).skip(from as int), old_count as nat, new_count as nat),
{
    let ghost ls = texts(all@);
    let mut old_due: u32 = old_count;
    let mut new_due: u32 = new_count;
    let mut i: usize = from;
    while old_due > 0 || new_due > 0
        invariant
            i <= all.len(),
            ls == texts(all@),
            from <= i,
            is_filled(ls.skip(from as int), old_count as nat, new_count as nat) == is_filled(
                ls.skip(i as int),
                old_due as nat,
                new_due as nat,
            ),
        decreases all.len() - i,
    {
        if i == all.len() {
            return false;
        }
        let line: &[char] = all[i].as_slice();
        assert(line@ == ls[i as int]);
        assert(ls.skip(i as int)[0] == line@);
        assert(ls.skip(i as int).drop_first() =~= ls.skip(i + 1));
        if line.len() == 0 {
            return false;
        }
        let mark: char = line[0];
        if mark != '\\' {
            let is_old: bool = mark == ' ' || mark == '-';
            let is_new: bool = mark == ' ' || mark == '+';
            if (!is_old && !is_new) || (is_old && old_due == 0) || (is_new && new_due == 0) {
                return false;
            }
            if is_old {
                old_due -= 1;
            }
            if is_new {
                new_due -= 1;
            }
        }
        i += 1;
    }
    true
}

/// Enters a new line's old number.
fn record(map: &mut BTreeMap<u32, Option<u32>>, line: u32, origin: Option<u32>)
    ensures
        final(map)@ == old(map)@.insert(line, origin),
{
    broadcast use vstd::laws_cmp::group_laws_cmp;

    map.insert(line, origin);
}

/// The line map of a diff, or none if a line number does not fit in 32 bits.
fn scan(diff_text: &str) -> (r: Option<BTreeMap<u32, Option<u32>>>)
    ensures
        (match r {
            Some(map) => numbers_fit(diff_text@) && map@ == line_map(diff_text@),
            None => !numbers_fit(diff_text@),
        }),
{
    let text = chars_of(diff_text);
    let all = lines_of(text.as_slice());
    let ghost ls = lines(diff_text@);
    let mut map: BTreeMap<u32, Option<u32>> = BTreeMap::new();
    let mut new_line: u32 = 0;
    let mut old_line: u32 = 0;
    let mut in_hunk: bool = false;
    let mut old_due: u32 = 0;
    let mut new_due: u32 = 0;
    let mut i: usize = 0;
    while i < all.len()
        invariant
            i <= all.len(),
            texts(all@) == ls,
            ls == lines(diff_text@),
            map@ == map_at(ls, i as int),
            cursor_at(ls, i as int) == (Cursor {
                old: old_line as nat,
                new: new_line as nat,
                in_hunk,
                old_due: old_due as nat,
                new_due: new_due as nat,
            }),
            forall|k: int|
                0 <= k <= i ==> (#[trigger] cursor_at(ls, k)).old <= u32::MAX && cursor_at(
                    ls,
                    k,
                ).new <= u32::MAX,
        decreases all.len() - i,
    {
        let line: &[char] = all[i].as_slice();
        assert(line@ == ls[i as int]);
        let ghost next = cursor_at(ls, i + 1);
        if has_prefix(line, "@@") {
            // Hunk header: @@ -old_start,old_count +new_start,new_count @@
            match read_hunk(line) {
                Some(h) => {
                    old_line = h.old;
                    new_line = h.new;
                    in_hunk = true;
                    if fill(&all, i + 1, h.old_count, h.new_count) {
                        old_due = h.old_count;
                        new_due = h.new_count;
                    } else {
                        old_due = 0;
                        new_due = 0;
                    }
                },
                None => {},
            }
        } else if is_header_line(line) && !(in_hunk && ((old_due > 0 && has_prefix(line, "--- "))
            || (new_due > 0 && has_prefix(line, "+++ ")))) {
            in_hunk = false;
        } else if in_hunk && line.len() > 0 {
            let mark: char = line[0];
            let context: bool = mark == ' ';
            // Past the last number, so that the one after this line does not fit
            if ((context || mark == '+') && new_line == u32::MAX) || ((context || mark == '-')
                && old_line == u32::MAX) {
                assert(next.old > u32::MAX || next.new > u32::MAX);
                return None;
            }
            if context {
                record(&mut map, new_line, Some(old_line));
                new_line += 1;
                old_line += 1;
            } else if mark == '+' {
                // Added line: exists only in the new file
                record(&mut map, new_line, None);
                new_line += 1;
            } else if mark == '-' {
                // Removed line: only in the old file
                old_line += 1;
            }
            if (context || mark == '-') && old_due > 0 {
                old_due -= 1;
            }
            if (context || mark == '+') && new_due > 0 {
                new_due -= 1;
            }
            // Lines starting with `\` (such as "\ No newline at end of file") are ignored
        }
        i += 1;
    }
    Some(map)
}

/// Whether every line number that the diff comes to fits in 32 bits.
pub fn line_numbers_fit(diff_text: &str) -> (r: bool)
    ensures
        r == numbers_fit(diff_text@),
{
    scan(diff_text).is_some()
}

/// Parse a unified diff string and return a map of
/// `new_file_line_number -> old_file_line_number` (None if the line was added).
/// Both line numbers are 1-indexed.
pub fn parse_diff_line_map(diff_text: &str) -> (map: BTreeMap<u32, Option<u32>>)
    requires
        numbers_fit(diff_text@),
    ensures
        map@ == line_map(diff_text@),
{
    scan(diff_text).unwrap()
}

// ── Positions ───────────────────────────────────────────────────────────────────────────────────

/// A note's position on line `line` of `path`, in the diff that `refs` places.
pub open spec fn position_on(line: u32, path: Seq<char>, refs: DiffRefsModel) -> NotePositionModel {
    NotePositionModel {
        new_path: path,
        new_line: Some(line),
        old_path: Some(path),
        old_line: None,
        position_type: "text"@,
        base_sha: refs.base_sha,
        head_sha: refs.head_sha,
        start_sha: refs.start_sha,
    }
}

/// A note's position on a line that is counted from one.
pub fn position_at(line: u32, new_path: &str, diff_refs: &DiffRefs) -> (p: NotePosition)
    ensures
        p@ == position_on(line, new_path@, diff_refs@),
{
    NotePosition {
        new_path: new_path.to_owned(),
        new_line: Some(line),
        old_path: Some(new_path.to_owned()),
        old_line: None,
        position_type: "text".to_owned(),
        base_sha: diff_refs.base_sha.clone(),
        head_sha: diff_refs.head_sha.clone(),
        start_sha: diff_refs.start_sha.clone(),
    }
}

/// Convert an LSP 0-indexed line number to a `NotePosition` ready to POST.
pub fn lsp_line_to_position(lsp_line: u32, new_path: &str, diff_refs: &DiffRefs) -> (p:
    NotePosition)
    requires
        lsp_line < u32::MAX,
    ensures
        p@ == position_on((lsp_line + 1) as u32, new_path@, diff_refs@),
{
    position_at(lsp_line + 1, new_path, diff_refs)
}

// ── Laws ────────────────────────────────────────────────────────────────────────────────────────

/// The line is context, added or removed, or a marker.
pub open spec fn is_body_line(line: Seq<char>) -> bool {
    is_old_line(line) || is_new_line(line) || is_marker(line)
}

/// New number of the line `i` of `body`, if `start` is that of the first: one more for each context
/// line and each added one before it.
pub open spec fn new_number(start: u32, body: Seq<Seq<char>>, i: int) -> nat
    decreases i,
{
    if i <= 0 {
        start as nat
    } else {
        new_number(start, body, i - 1) + (if is_new_line(body[i - 1]) {
            1nat
        } else {
            0
        })
    }
}

/// Old number of the line `i` of `body`, if `start` is that of the first: one more for each context
/// line and each removed one before it.
pub open spec fn old_number(start: u32, body: Seq<Seq<char>>, i: int) -> nat
    decreases i,
{
    if i <= 0 {
        start as nat
    } else {
        old_number(start, body, i - 1) + (if is_old_line(body[i - 1]) {
            1nat
        } else {
            0
        })
    }
}

/// A hunk of a diff: where its header stands among the lines, how many lines stand under it, and
/// the numbers from which they count.
pub struct HunkAt {
    pub at: int,
    pub len: nat,
    pub old_start: u32,
    pub new_start: u32,
}

impl HunkAt {
    /// The lines under the header.
    pub open spec fn body(self, ls: Seq<Seq<char>>) -> Seq<Seq<char>> {
        ls.subrange(self.at + 1, self.end())
    }

    /// Number of the lines of the diff up to the hunk's end.
    pub open spec fn end(self) -> int {
        self.at + 1 + self.len
    }

    /// The old number of the line `i` under the header.
    pub open spec fn old_at(self, ls: Seq<Seq<char>>, i: int) -> nat {
        old_number(self.old_start, self.body(ls), i)
    }

    /// The new number of the line `i` under the header.
    pub open spec fn new_at(self, ls: Seq<Seq<char>>, i: int) -> nat {
        new_number(self.new_start, self.body(ls), i)
    }

    /// The numbers of old and of new lines that are due under the header.
    pub open spec fn due(self, ls: Seq<Seq<char>>) -> (nat, nat) {
        announced(ls[self.at], ls.skip(self.at + 1))
    }

    /// The line `i` under the header is not taken for a file's header: it does not look like one,
    /// or of the old lines, or of the new ones if it was added, more are due than stand before it.
    pub open spec fn is_expected(self, ls: Seq<Seq<char>>, i: int) -> bool {
        is_file_header(self.body(ls)[i]) ==> if is_old_line(self.body(ls)[i]) {
            self.old_at(ls, i) - self.old_start < self.due(ls).0
        } else {
            self.new_at(ls, i) - self.new_start < self.due(ls).1
        }
    }

    /// The hunk is announced where it stands among the lines `ls`, and under its header stand lines
    /// of a hunk.
    pub open spec fn is_in(self, ls: Seq<Seq<char>>) -> bool {
        &&& 0 <= self.at
        &&& self.end() <= ls.len()
        &&& hunk_start(ls[self.at]) == Some((self.old_start, self.new_start))
        &&& forall|i: int| 0 <= i < self.len ==> #[trigger] is_body_line(self.body(ls)[i])
    }

    /// None of the hunk's lines is taken for a file's header.
    pub open spec fn is_read(self, ls: Seq<Seq<char>>) -> bool {
        forall|i: int| 0 <= i < self.len ==> #[trigger] self.is_expected(ls, i)
    }
}

/// A hunk that has as many lines as its header announces is read line by line, whatever its lines
/// look like: a removed line that begins with two dashes is no file's header.
pub proof fn law_counted_hunk(ls: Seq<Seq<char>>, h: HunkAt)
    requires
        h.is_in(ls),
        h.old_at(ls, h.len as int) == h.old_start + hunk_counts(ls[h.at]).0,
        h.new_at(ls, h.len as int) == h.new_start + hunk_counts(ls[h.at]).1,
    ensures
        h.is_read(ls),
{
    let body = h.body(ls);
    lemma_filled(ls, h, 0);
    assert(ls.skip(h.at + 1).skip(0) =~= ls.skip(h.at + 1));
    assert forall|i: int| 0 <= i < h.len implies #[trigger] h.is_expected(ls, i) by {
        assert(is_body_line(body[i]));
        lemma_new_number_monotone(h.new_start, body, i + 1, h.len as int);
        lemma_old_number_monotone(h.old_start, body, i + 1, h.len as int);
        if is_file_header(body[i]) {
            lemma_looks_like_header(body[i]);
        }
    }
}

/// A hunk none of whose lines looks like a file's header is read line by line, however many lines
/// its header announces.
pub proof fn law_plain_hunk(ls: Seq<Seq<char>>, h: HunkAt)
    requires
        h.is_in(ls),
        forall|i: int| 0 <= i < h.len ==> !is_file_header(#[trigger] h.body(ls)[i]),
    ensures
        h.is_read(ls),
{
}

/// Under a header that announces as many lines as the hunk has, the lines from `k` on are as many
/// as are due there.
proof fn lemma_filled(ls: Seq<Seq<char>>, h: HunkAt, k: int)
    requires
        h.is_in(ls),
        0 <= k <= h.len,
    ensures
        is_filled(
            ls.skip(h.at + 1).skip(k),
            (h.old_at(ls, h.len as int) - h.old_at(ls, k)) as nat,
            (h.new_at(ls, h.len as int) - h.new_at(ls, k)) as nat,
        ),
    decreases h.len - k,
{
    let body = h.body(ls);
    let rest = ls.skip(h.at + 1);
    lemma_new_number_monotone(h.new_start, body, k, h.len as int);
    lemma_old_number_monotone(h.old_start, body, k, h.len as int);
    if k < h.len {
        lemma_filled(ls, h, k + 1);
        lemma_new_number_monotone(h.new_start, body, k + 1, h.len as int);
        lemma_old_number_monotone(h.old_start, body, k + 1, h.len as int);
        assert(rest.skip(k)[0] == body[k]);
        assert(rest.skip(k).drop_first() =~= rest.skip(k + 1));
        assert(is_body_line(body[k]));
    }
}

/// A line of a hunk that looks like a file's header is removed or added.
proof fn lemma_looks_like_header(line: Seq<char>)
    requires
        is_body_line(line),
        is_file_header(line),
    ensures
        line[0] == '-' ==> starts_with(line, "--- "@),
        line[0] == '+' ==> starts_with(line, "+++ "@),
        line[0] == '-' || line[0] == '+',
{
    reveal_strlit("--- ");
    reveal_strlit("+++ ");
    reveal_strlit("diff ");
    reveal_strlit("index ");
    assert(starts_with(line, "--- "@) ==> line.take(4)[0] == '-');
    assert(starts_with(line, "+++ "@) ==> line.take(4)[0] == '+');
    assert(starts_with(line, "diff "@) ==> line.take(5)[0] == 'd');
    assert(starts_with(line, "index "@) ==> line.take(6)[0] == 'i');
}

/// A hunk is numbered from its own header, wherever it stands in a diff: a context line goes from
/// its new number to its old one, an added line to none.
pub proof fn law_hunk_line(ls: Seq<Seq<char>>, h: HunkAt, i: int)
    requires
        h.is_in(ls),
        h.is_read(ls),
        fits(ls),
        0 <= i < h.len,
    ensures
        ({
            let map = map_at(ls, h.end());
            let line = h.body(ls)[i];
            let new = h.new_at(ls, i) as u32;
            let old = h.old_at(ls, i) as u32;
            &&& line[0] == ' ' ==> map.contains_key(new) && map[new] == Some(old)
            &&& line[0] == '+' ==> map.contains_key(new) && map[new] == None::<u32>
        }),
{
    lemma_hunk_entry(ls, h, i, h.len as int);
}

/// A hunk enters the lines from its header's new start on, without a gap, as many as it has
/// context and added ones, and leaves all others as they were.
pub proof fn law_hunk_lines(ls: Seq<Seq<char>>, h: HunkAt, line: u32)
    requires
        h.is_in(ls),
        h.is_read(ls),
        fits(ls),
    ensures
        ({
            let before = map_at(ls, h.at);
            let map = map_at(ls, h.end());
            if h.new_start <= line < h.new_at(ls, h.len as int) {
                map.contains_key(line)
            } else {
                map.contains_key(line) == before.contains_key(line) && map[line] == before[line]
            }
        }),
{
    lemma_hunk_keys(ls, h, line, h.len as int);
}

proof fn lemma_new_number_monotone(start: u32, body: Seq<Seq<char>>, i: int, j: int)
    requires
        0 <= i <= j,
    ensures
        new_number(start, body, i) <= new_number(start, body, j),
    decreases j - i,
{
    if i < j {
        lemma_new_number_monotone(start, body, i, j - 1);
    }
}

proof fn lemma_old_number_monotone(start: u32, body: Seq<Seq<char>>, i: int, j: int)
    requires
        0 <= i <= j,
    ensures
        old_number(start, body, i) <= old_number(start, body, j),
    decreases j - i,
{
    if i < j {
        lemma_old_number_monotone(start, body, i, j - 1);
    }
}

/// How many of `count` lines are due after `done` of them.
spec fn due_after(count: nat, done: int) -> nat {
    if done < count {
        (count - done) as nat
    } else {
        0
    }
}

proof fn lemma_hunk_cursor(ls: Seq<Seq<char>>, h: HunkAt, k: int)
    requires
        h.is_in(ls),
        h.is_read(ls),
        fits(ls),
        0 <= k <= h.len,
    ensures
        cursor_at(ls, h.at + 1 + k) == (Cursor {
            old: h.old_at(ls, k),
            new: h.new_at(ls, k),
            in_hunk: true,
            old_due: due_after(h.due(ls).0, h.old_at(ls, k) - h.old_start),
            new_due: due_after(h.due(ls).1, h.new_at(ls, k) - h.new_start),
        }),
        h.old_at(ls, k) <= u32::MAX,
        h.new_at(ls, k) <= u32::MAX,
        k < h.len ==> in_body(cursor_at(ls, h.at + 1 + k), h.body(ls)[k]),
        map_at(ls, h.at + 1) == map_at(ls, h.at),
    decreases k,
{
    let body = h.body(ls);
    let header = ls[h.at];
    let n = h.at + 1 + k;
    reveal_strlit("@@ ");
    reveal_strlit("@@");
    assert(starts_with(header, "@@"@)) by {
        assert(header.take(3)[0] == '@' && header.take(3)[1] == '@');
        assert(header.take(2) =~= "@@"@);
    }
    assert(cursor_at(ls, n) == step(cursor_at(ls, n - 1), ls[n - 1], ls.skip(n)));
    if k > 0 {
        lemma_hunk_cursor(ls, h, k - 1);
        assert(body[k - 1] == ls[n - 1]);
        assert(is_body_line(body[k - 1]));
        lemma_new_number_monotone(h.new_start, body, 0, k - 1);
        lemma_old_number_monotone(h.old_start, body, 0, k - 1);
    }
    if k < h.len {
        assert(is_body_line(body[k]));
        assert(h.is_expected(ls, k));
        lemma_new_number_monotone(h.new_start, body, 0, k);
        lemma_old_number_monotone(h.old_start, body, 0, k);
        if is_file_header(body[k]) {
            lemma_looks_like_header(body[k]);
        }
        if starts_with(body[k], "@@"@) {
            assert(body[k].take(2)[0] == '@');
        }
    }
}

proof fn lemma_hunk_entry(ls: Seq<Seq<char>>, h: HunkAt, i: int, k: int)
    requires
        h.is_in(ls),
        h.is_read(ls),
        fits(ls),
        0 <= i < k <= h.len,
    ensures
        ({
            let map = map_at(ls, h.at + 1 + k);
            let line = h.body(ls)[i];
            let new = h.new_at(ls, i) as u32;
            let old = h.old_at(ls, i) as u32;
            &&& line[0] == ' ' ==> map.contains_key(new) && map[new] == Some(old)
            &&& line[0] == '+' ==> map.contains_key(new) && map[new] == None::<u32>
        }),
    decreases k,
{
    let body = h.body(ls);
    lemma_hunk_cursor(ls, h, k - 1);
    lemma_hunk_cursor(ls, h, i);
    assert(ls[h.at + k] == body[k - 1]);
    if i < k - 1 {
        lemma_hunk_entry(ls, h, i, k - 1);
        lemma_new_number_monotone(h.new_start, body, i + 1, k - 1);
    }
}

proof fn lemma_hunk_keys(ls: Seq<Seq<char>>, h: HunkAt, line: u32, k: int)
    requires
        h.is_in(ls),
        h.is_read(ls),
        fits(ls),
        0 <= k <= h.len,
    ensures
        ({
            let before = map_at(ls, h.at);
            let map = map_at(ls, h.at + 1 + k);
            if h.new_start <= line < h.new_at(ls, k) {
                map.contains_key(line)
            } else {
                map.contains_key(line) == before.contains_key(line) && map[line] == before[line]
            }
        }),
    decreases k,
{
    let body = h.body(ls);
    lemma_hunk_cursor(ls, h, k);
    if k > 0 {
        lemma_hunk_cursor(ls, h, k - 1);
        lemma_hunk_keys(ls, h, line, k - 1);
        lemma_new_number_monotone(h.new_start, body, 0, k - 1);
        assert(ls[h.at + k] == body[k - 1]);
        assert(is_body_line(body[k - 1]));
    }
}

/// A marker line such as `\ No newline at end of file` leaves no trace.
pub proof fn law_marker_ignored(c: Cursor, line: Seq<char>, rest: Seq<Seq<char>>)
    requires
        is_marker(line),
    ensures
        step(c, line, rest) == c,
        entry(c, line) is None,
{
    reveal_strlit("@@");
    reveal_strlit("--- ");
    reveal_strlit("+++ ");
    reveal_strlit("diff ");
    reveal_strlit("index ");
    assert(starts_with(line, "@@"@) ==> line.take(2)[0] == '@');
    assert(starts_with(line, "--- "@) ==> line.take(4)[0] == '-');
    assert(starts_with(line, "+++ "@) ==> line.take(4)[0] == '+');
    assert(starts_with(line, "diff "@) ==> line.take(5)[0] == 'd');
    assert(starts_with(line, "index "@) ==> line.take(6)[0] == 'i');
}

/// The headers of a file leave no trace: the walk over what follows them goes as if they were not
/// there.
pub proof fn law_headers_ignored(headers: Seq<Seq<char>>, ls: Seq<Seq<char>>, k: int)
    requires
        forall|i: int|
            0 <= i < headers.len() ==> is_file_header(#[trigger] headers[i]) && !starts_with(
                headers[i],
                "@@"@,
            ),
        0 <= k <= ls.len(),
    ensures
        cursor_at(headers + ls, headers.len() + k) == cursor_at(ls, k),
        map_at(headers + ls, headers.len() + k) == map_at(ls, k),
    decreases headers.len() + k,
{
    let all = headers + ls;
    if k > 0 {
        law_headers_ignored(headers, ls, k - 1);
        assert(all[headers.len() + k - 1] == ls[k - 1]);
        assert(all.skip(headers.len() + k) =~= ls.skip(k));
    } else if headers.len() > 0 {
        let fewer = headers.drop_last();
        assert forall|i: int| 0 <= i < fewer.len() implies is_file_header(#[trigger] fewer[i])
            && !starts_with(fewer[i], "@@"@) by {
            assert(fewer[i] == headers[i]);
        }
        assert(all =~= fewer + (seq![headers.last()] + ls));
        law_headers_ignored(fewer, seq![headers.last()] + ls, 0);
        assert(all[headers.len() - 1] == headers.last());
        assert(is_file_header(headers[headers.len() - 1]));
        assert(cursor_at(all, headers.len() as int) == step(
            cursor_at(all, headers.len() - 1),
            headers.last(),
            all.skip(headers.len() as int),
        ));
    }
}

/// What may stand behind a line number in a hunk header: nothing, or a comma and a text without a
/// space.
pub open spec fn is_count(count: Seq<char>) -> bool {
    count.len() == 0 || (count[0] == ',' && forall|i: int| 0 <= i < count.len() ==> count[i] != ' ')
}

/// A hunk starts at the two numbers that its header names, the old one behind the minus sign and
/// the new one behind the plus sign, whichever is larger, whatever their counts are and whatever
/// follows.
pub proof fn law_header_start(
    old: u32,
    old_count: Seq<char>,
    new: u32,
    new_count: Seq<char>,
    rest: Seq<char>,
)
    requires
        is_count(old_count),
        is_count(new_count),
    ensures
        hunk_start(
            "@@ -"@ + decimal(old as nat) + old_count + " +"@ + decimal(new as nat) + new_count
                + " @@"@ + rest,
        ) == Some((old, new)),
{
    lemma_header_parts(old, old_count, new, new_count, rest);
    lemma_range_parts(old, old_count, '-');
    lemma_range_parts(new, new_count, '+');
}

/// A hunk has as many old and new lines as its header names behind the commas, and one where there
/// is no comma.
pub proof fn law_header_counts(
    old: u32,
    old_count: Option<u32>,
    new: u32,
    new_count: Option<u32>,
    rest: Seq<char>,
)
    ensures
        hunk_counts(
            "@@ -"@ + decimal(old as nat) + (match old_count {
                Some(n) => seq![','] + decimal(n as nat),
                None => Seq::empty(),
            }) + " +"@ + decimal(new as nat) + (match new_count {
                Some(n) => seq![','] + decimal(n as nat),
                None => Seq::empty(),
            }) + " @@"@ + rest,
        ) == (
            match old_count {
                Some(n) => n,
                None => 1,
            },
            match new_count {
                Some(n) => n,
                None => 1,
            },
        ),
{
    let a = match old_count {
        Some(n) => seq![','] + decimal(n as nat),
        None => Seq::empty(),
    };
    let b = match new_count {
        Some(n) => seq![','] + decimal(n as nat),
        None => Seq::empty(),
    };
    lemma_count_text(old_count);
    lemma_count_text(new_count);
    lemma_header_parts(old, a, new, b, rest);
    lemma_range_parts(old, a, '-');
    lemma_range_parts(new, b, '+');
    if let Some(n) = old_count {
        law_written_is_read(n as nat);
        assert(a.drop_first() =~= decimal(n as nat));
    }
    if let Some(n) = new_count {
        law_written_is_read(n as nat);
        assert(b.drop_first() =~= decimal(n as nat));
    }
}

proof fn lemma_count_text(count: Option<u32>)
    ensures
        is_count(
            match count {
                Some(n) => seq![','] + decimal(n as nat),
                None => Seq::empty(),
            },
        ),
{
    if let Some(n) = count {
        law_written_is_read(n as nat);
        let text = seq![','] + decimal(n as nat);
        assert forall|i: int| 0 <= i < text.len() implies text[i] != ' ' by {
            if i > 0 {
                assert(text[i] == decimal(n as nat)[i - 1]);
            }
        }
    }
}

proof fn lemma_range_parts(n: u32, count: Seq<char>, sign: char)
    requires
        is_count(count),
        sign != ',',
    ensures
        ({
            let range = seq![sign] + decimal(n as nat) + count;
            &&& range_start(range, sign) == Some(n)
            &&& count.len() == 0 ==> range_count(range) == 1
            &&& count.len() > 0 ==> after(range, ',') == Some(count.drop_first())
        }),
{
    let number = decimal(n as nat);
    let range = seq![sign] + number + count;
    law_written_is_read(n as nat);
    let signed = seq![sign] + number;
    assert forall|i: int| 0 <= i < signed.len() implies signed[i] != ',' by {
        if i > 0 {
            assert(signed[i] == number[i - 1]);
        }
    }
    assert forall|i: int| 0 <= i < number.len() implies number[i] != ',' by {
        assert('0' <= number[i] <= '9');
    }
    assert(range.drop_first() =~= number + count);
    if count.len() > 0 {
        let rest = count.drop_first();
        assert(number + count =~= number + seq![','] + rest);
        assert(range =~= signed + seq![','] + rest);
        law_cut_of_two(number, ',', rest);
        law_cut_of_two(signed, ',', rest);
    } else {
        assert(number + count =~= number);
        assert(range =~= signed);
        law_cut_of_two(number, ',', Seq::empty());
        law_cut_of_two(signed, ',', Seq::empty());
    }
}

proof fn lemma_header_parts(
    old: u32,
    old_count: Seq<char>,
    new: u32,
    new_count: Seq<char>,
    rest: Seq<char>,
)
    requires
        is_count(old_count),
        is_count(new_count),
    ensures
        ({
            let header = "@@ -"@ + decimal(old as nat) + old_count + " +"@ + decimal(new as nat)
                + new_count + " @@"@ + rest;
            let ranges = header.skip("@@ "@.len() as int);
            &&& starts_with(header, "@@ "@)
            &&& before(ranges, ' ') == seq!['-'] + decimal(old as nat) + old_count
            &&& after(ranges, ' ') is Some
            &&& before(after(ranges, ' ')->0, ' ') == seq!['+'] + decimal(new as nat) + new_count
        }),
{
    reveal_strlit("@@ -");
    reveal_strlit("@@ ");
    reveal_strlit(" +");
    reveal_strlit(" @@");
    law_written_is_read(old as nat);
    law_written_is_read(new as nat);
    let header = "@@ -"@ + decimal(old as nat) + old_count + " +"@ + decimal(new as nat) + new_count
        + " @@"@ + rest;
    let first = seq!['-'] + decimal(old as nat) + old_count;
    let second = seq!['+'] + decimal(new as nat) + new_count;
    let behind = seq!['@', '@'] + rest;
    let ranges = header.skip(3);
    assert(header.take(3) =~= "@@ "@);
    assert(second + seq![' '] + behind =~= seq!['+'] + decimal(new as nat) + new_count + " @@"@
        + rest);
    assert(ranges =~= first + seq![' '] + (second + seq![' '] + behind));
    assert forall|i: int| 0 <= i < first.len() implies first[i] != ' ' by {
        let n = decimal(old as nat).len();
        if 1 <= i < 1 + n {
            assert(first[i] == decimal(old as nat)[i - 1]);
        } else if i >= 1 + n {
            assert(first[i] == old_count[i - 1 - n]);
        }
    }
    assert forall|i: int| 0 <= i < second.len() implies second[i] != ' ' by {
        let n = decimal(new as nat).len();
        if 1 <= i < 1 + n {
            assert(second[i] == decimal(new as nat)[i - 1]);
        } else if i >= 1 + n {
            assert(second[i] == new_count[i - 1 - n]);
        }
    }
    law_cut_of_two(first, ' ', second + seq![' '] + behind);
    law_cut_of_two(second, ' ', behind);
}

/// The line begins with the character.
pub open spec fn begins(line: Seq<char>, c: char) -> bool {
    line.len() > 0 && line[0] == c
}

/// A line of a hunk has the number at which the hunk starts, and one more for each line before it
/// that is in the file: in the new one those that begin with a space or a plus sign, in the old one
/// those that begin with a space or a minus sign.
pub proof fn law_line_numbers(old: u32, new: u32, body: Seq<Seq<char>>, i: int)
    requires
        0 <= i <= body.len(),
    ensures
        new_number(new, body, i) == new + body.take(i).filter(
            |line: Seq<char>| begins(line, ' ') || begins(line, '+'),
        ).len(),
        old_number(old, body, i) == old + body.take(i).filter(
            |line: Seq<char>| begins(line, ' ') || begins(line, '-'),
        ).len(),
    decreases i,
{
    reveal(Seq::filter);
    if i > 0 {
        law_line_numbers(old, new, body, i - 1);
        assert(body.take(i).drop_last() =~= body.take(i - 1));
        assert(body.take(i).last() == body[i - 1]);
    }
}

/// A diff of one hunk maps its lines from the numbers in its header on. A line that begins with a
/// space goes from its number in the new file to that in the old one, and one that begins with a
/// plus sign to none; there is no other entry.
pub proof fn law_one_hunk(
    old: u32,
    old_count: Seq<char>,
    new: u32,
    new_count: Seq<char>,
    rest: Seq<char>,
    body: Seq<Seq<char>>,
    line: u32,
)
    requires
        is_count(old_count),
        is_count(new_count),
        forall|i: int|
            0 <= i < body.len() ==> {
                let l = #[trigger] body[i];
                begins(l, ' ') || begins(l, '\\') || (begins(l, '+') && !starts_with(l, "+++ "@))
                    || (begins(l, '-') && !starts_with(l, "--- "@))
            },
        old + body.len() <= u32::MAX,
        new + body.len() <= u32::MAX,
    ensures
        ({
            let header = "@@ -"@ + decimal(old as nat) + old_count + " +"@ + decimal(new as nat)
                + new_count + " @@"@ + rest;
            let ls = seq![header] + body;
            let map = map_at(ls, ls.len() as int);
            let new_at = |i: int|
                new + body.take(i).filter(
                    |l: Seq<char>| begins(l, ' ') || begins(l, '+'),
                ).len();
            let old_at = |i: int|
                old + body.take(i).filter(
                    |l: Seq<char>| begins(l, ' ') || begins(l, '-'),
                ).len();
            &&& fits(ls)
            &&& forall|i: int|
                0 <= i < body.len() && begins(#[trigger] body[i], ' ') ==> map.contains_key(
                    new_at(i) as u32,
                ) && map[new_at(i) as u32] == Some(old_at(i) as u32)
            &&& forall|i: int|
                0 <= i < body.len() && begins(#[trigger] body[i], '+') ==> map.contains_key(
                    new_at(i) as u32,
                ) && map[new_at(i) as u32] == None::<u32>
            &&& map.contains_key(line) <==> new <= line < new_at(body.len() as int)
        }),
{
    let header = "@@ -"@ + decimal(old as nat) + old_count + " +"@ + decimal(new as nat) + new_count
        + " @@"@ + rest;
    let ls = seq![header] + body;
    law_header_start(old, old_count, new, new_count, rest);
    let h = HunkAt { at: 0, len: body.len(), old_start: old, new_start: new };
    assert(h.body(ls) =~= body);
    assert forall|i: int| 0 <= i < h.len implies #[trigger] is_body_line(h.body(ls)[i]) by {
        assert(begins(body[i], ' ') || begins(body[i], '\\') || begins(body[i], '+') || begins(
            body[i],
            '-',
        ));
    }
    assert forall|i: int| 0 <= i < h.len implies !is_file_header(#[trigger] h.body(ls)[i]) by {
        let l = body[i];
        lemma_no_header(l);
    }
    law_plain_hunk(ls, h);
    assert forall|k: int| 0 <= k <= ls.len() implies (#[trigger] cursor_at(ls, k)).old <= u32::MAX
        && cursor_at(ls, k).new <= u32::MAX by {
        lemma_cursor_bound(ls, old, new, k);
    }
    assert(fits(ls));
    assert forall|i: int| 0 <= i < body.len() && begins(#[trigger] body[i], ' ') implies ({
        let map = map_at(ls, ls.len() as int);
        let n = (new + body.take(i).filter(
            |l: Seq<char>| begins(l, ' ') || begins(l, '+'),
        ).len()) as u32;
        let o = (old + body.take(i).filter(
            |l: Seq<char>| begins(l, ' ') || begins(l, '-'),
        ).len()) as u32;
        map.contains_key(n) && map[n] == Some(o)
    }) by {
        law_hunk_line(ls, h, i);
        law_line_numbers(old, new, body, i);
    }
    assert forall|i: int| 0 <= i < body.len() && begins(#[trigger] body[i], '+') implies ({
        let map = map_at(ls, ls.len() as int);
        let n = (new + body.take(i).filter(
            |l: Seq<char>| begins(l, ' ') || begins(l, '+'),
        ).len()) as u32;
        map.contains_key(n) && map[n] == None::<u32>
    }) by {
        law_hunk_line(ls, h, i);
        law_line_numbers(old, new, body, i);
    }
    law_hunk_lines(ls, h, line);
    law_line_numbers(old, new, body, body.len() as int);
    assert(map_at(ls, 0) == Map::<u32, Option<u32>>::empty());
}

/// A line that begins with a space, a backslash or one sign is no file's header.
proof fn lemma_no_header(l: Seq<char>)
    requires
        begins(l, ' ') || begins(l, '\\') || (begins(l, '+') && !starts_with(l, "+++ "@)) || (
        begins(l, '-') && !starts_with(l, "--- "@)),
    ensures
        !is_file_header(l),
{
    reveal_strlit("--- ");
    reveal_strlit("+++ ");
    reveal_strlit("diff ");
    reveal_strlit("index ");
    assert(starts_with(l, "--- "@) ==> l.take(4)[0] == '-');
    assert(starts_with(l, "+++ "@) ==> l.take(4)[0] == '+');
    assert(starts_with(l, "diff "@) ==> l.take(5)[0] == 'd');
    assert(starts_with(l, "index "@) ==> l.take(6)[0] == 'i');
}

/// Under one hunk header, no number is larger than the one in the header by more than the lines so far.
proof fn lemma_cursor_bound(ls: Seq<Seq<char>>, old: u32, new: u32, k: int)
    requires
        0 <= k <= ls.len(),
        ls.len() > 0,
        hunk_start(ls[0]) == Some((old, new)),
        forall|i: int| 1 <= i < ls.len() ==> !begins(#[trigger] ls[i], '@'),
    ensures
        k > 0 ==> cursor_at(ls, k).old < old + k && cursor_at(ls, k).new < new + k,
    decreases k,
{
    reveal_strlit("@@");
    reveal_strlit("@@ ");
    if k > 0 {
        lemma_cursor_bound(ls, old, new, k - 1);
        let c = cursor_at(ls, k - 1);
        assert(cursor_at(ls, k) == step(c, ls[k - 1], ls.skip(k)));
        if k == 1 {
            assert(ls[0].take(3)[0] == '@' && ls[0].take(3)[1] == '@');
            assert(ls[0].take(2) =~= "@@"@);
            assert(starts_with(ls[0], "@@"@));
        }
        if k > 1 {
            assert(!begins(ls[k - 1], '@'));
            assert(starts_with(ls[k - 1], "@@"@) ==> ls[k - 1].take(2)[0] == '@');
        }
    }
}

/// A file's header ends a hunk, wherever it stands: a line that begins with `diff ` or `index `
/// always, and one that begins with `--- ` or `+++ ` where no old, or no new, line is due.
pub proof fn law_header_ends_hunk(c: Cursor, text: Seq<char>, rest: Seq<Seq<char>>)
    ensures
        step(c, "diff "@ + text, rest) == (Cursor { in_hunk: false, ..c }),
        step(c, "index "@ + text, rest) == (Cursor { in_hunk: false, ..c }),
        c.old_due == 0 ==> step(c, "--- "@ + text, rest) == (Cursor { in_hunk: false, ..c }),
        c.new_due == 0 ==> step(c, "+++ "@ + text, rest) == (Cursor { in_hunk: false, ..c }),
        entry(c, "diff "@ + text) is None,
        entry(c, "index "@ + text) is None,
        c.old_due == 0 ==> entry(c, "--- "@ + text) is None,
        c.new_due == 0 ==> entry(c, "+++ "@ + text) is None,
{
    reveal_strlit("@@");
    reveal_strlit("--- ");
    reveal_strlit("+++ ");
    reveal_strlit("diff ");
    reveal_strlit("index ");
    let a = "diff "@ + text;
    let b = "index "@ + text;
    let m = "--- "@ + text;
    let p = "+++ "@ + text;
    assert(a.take(5) =~= "diff "@);
    assert(b.take(6) =~= "index "@);
    assert(m.take(4) =~= "--- "@);
    assert(p.take(4) =~= "+++ "@);
    assert(a.take(2)[0] == 'd' && b.take(2)[0] == 'i' && m.take(2)[0] == '-' && p.take(2)[0]
        == '+');
    assert(a.take(4)[0] == 'd' && b.take(4)[0] == 'i' && m.take(4)[0] == '-' && p.take(4)[0]
        == '+');
}

/// Inside a hunk a line counts by how it begins: a space, in both files; a plus sign, in the new
/// one; a minus sign, in the old one; anything else, in none.
pub proof fn law_line_counts(c: Cursor, line: Seq<char>, rest: Seq<Seq<char>>)
    requires
        c.in_hunk,
        !begins(line, '@'),
        !begins(line, 'd'),
        !begins(line, 'i'),
        starts_with(line, "--- "@) ==> c.old_due > 0,
        starts_with(line, "+++ "@) ==> c.new_due > 0,
        c.old <= u32::MAX,
        c.new <= u32::MAX,
    ensures
        step(c, line, rest).in_hunk,
        step(c, line, rest).old == c.old + (if begins(line, ' ') || begins(line, '-') {
            1int
        } else {
            0
        }),
        step(c, line, rest).new == c.new + (if begins(line, ' ') || begins(line, '+') {
            1int
        } else {
            0
        }),
        entry(c, line) == (if begins(line, ' ') {
            Some((c.new as u32, Some(c.old as u32)))
        } else if begins(line, '+') {
            Some((c.new as u32, None))
        } else {
            None
        }),
{
    reveal_strlit("@@");
    reveal_strlit("diff ");
    reveal_strlit("index ");
    assert(starts_with(line, "@@"@) ==> line.take(2)[0] == '@');
    assert(starts_with(line, "diff "@) ==> line.take(5)[0] == 'd');
    assert(starts_with(line, "index "@) ==> line.take(6)[0] == 'i');
}

/// Outside a hunk nothing counts until a hunk header comes, and a line that only looks like one
/// changes nothing.
pub proof fn law_outside_hunk(c: Cursor, line: Seq<char>, rest: Seq<Seq<char>>)
    ensures
        !c.in_hunk ==> entry(c, line) is None,
        !c.in_hunk && !begins(line, '@') ==> step(c, line, rest) == c,
        begins(line, '@') && hunk_start(line) is None && starts_with(line, "@@"@) ==> step(
            c,
            line,
            rest,
        ) == c && entry(c, line) is None,
{
    reveal_strlit("@@");
    assert(starts_with(line, "@@"@) ==> line.take(2)[0] == '@');
}

/// A line is a hunk header only if it begins with `@@ -`, and a space and a plus sign follow.
pub proof fn law_no_other_header(line: Seq<char>)
    requires
        hunk_start(line) is Some,
    ensures
        exists|a: Seq<char>, b: Seq<char>| line == #[trigger] ("@@ -"@ + a + " +"@ + b),
{
    reveal_strlit("@@ -");
    reveal_strlit("@@ ");
    reveal_strlit(" +");
    let ranges = line.skip(3);
    law_cut_at_first(ranges, ' ');
    let first = before(ranges, ' ');
    let tail = after(ranges, ' ')->0;
    let second = before(tail, ' ');
    law_cut_at_first(tail, ' ');
    let a = first.drop_first();
    let b = tail.drop_first();
    assert(tail[0] == second[0]);
    assert(line =~= line.take(3) + ranges);
    assert(first =~= seq!['-'] + a);
    assert(tail =~= seq!['+'] + b);
    assert(line =~= "@@ -"@ + a + " +"@ + b);
}

/// The map of a diff is that of all its lines, however many there are.
pub proof fn law_map_of_lines(ls: Seq<Seq<char>>)
    requires
        forall|k: int, i: int|
            0 <= k < ls.len() && 0 <= i < ls[k].len() ==> #[trigger] ls[k][i] != '\n',
        forall|k: int|
            0 <= k < ls.len() && (#[trigger] ls[k]).len() > 0 ==> ls[k][ls[k].len() - 1] != '\r',
    ensures
        line_map(with_line_feeds(ls)) == map_at(ls, ls.len() as int),
        numbers_fit(with_line_feeds(ls)) == fits(ls),
{
    law_lines_of_lines(ls);
}

/// A note's position names the file, under both its names, the line in the new file, and the three
/// commits of the diff.
pub proof fn law_position(line: u32, path: Seq<char>, refs: DiffRefsModel)
    ensures
        ({
            let p = position_on(line, path, refs);
            &&& p.new_path == path
            &&& p.old_path == Some(path)
            &&& p.new_line == Some(line)
            &&& p.old_line is None
            &&& p.position_type == "text"@
            &&& p.base_sha == refs.base_sha
            &&& p.head_sha == refs.head_sha
            &&& p.start_sha == refs.start_sha
        }),
{
}

} // verus!
