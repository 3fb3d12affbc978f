//! Text as sequences of characters: the searching, cutting and trimming that the rest of the
//! crate is built on, each function stated over `Seq<char>`.
use vstd::prelude::*;
use vstd::slice::slice_subrange;
use vstd::string::StringExecFns;

verus! {

/// `String::push` appends the given character to the end of the string.
pub assume_specification[ String::push ](s: &mut String, c: char)
    ensures
        final(s)@ == old(s)@.push(c),
;

/// The characters of `s`, in order.
pub fn chars_of(s: &str) -> (v: Vec<char>)
    ensures
        v@ == s@,
{
    let mut v: Vec<char> = Vec::new();
    for c in it: s.chars()
        invariant
            v@ == it.seq().take(it.index()),
            it.seq() == s@,
    {
        v.push(c);
        assert(it.seq().take(it.index() + 1) =~= it.seq().take(it.index()).push(c));
    }
    assert(v@ =~= s@);
    v
}

/// The string whose characters are `v`.
pub fn string_of(v: &[char]) -> (s: String)
    ensures
        s@ == v@,
{
    let mut s = String::new();
    let mut i: usize = 0;
    while i < v.len()
        invariant
            i <= v.len(),
            s@ == v@.take(i as int),
        decreases v.len() - i,
    {
        s.push(v[i]);
        assert(v@.take(i + 1) =~= v@.take(i as int).push(v@[i as int]));
        i += 1;
    }
    assert(v@.take(v.len() as int) =~= v@);
    s
}

/// Index of the first `c` in `s`, or `s.len()` where there is none.
pub open spec fn find(s: Seq<char>, c: char) -> int
    decreases s.len(),
{
    if s.len() == 0 {
        0
    } else if s[0] == c {
        0
    } else {
        1 + find(s.drop_first(), c)
    }
}

/// `find` is the one index at which `c` stands with no `c` before it.
pub proof fn lemma_find(s: Seq<char>, c: char)
    ensures
        0 <= find(s, c) <= s.len(),
        forall|j: int| 0 <= j < find(s, c) ==> s[j] != c,
        find(s, c) < s.len() ==> s[find(s, c)] == c,
    decreases s.len(),
{
    if s.len() > 0 && s[0] != c {
        let t = s.drop_first();
        lemma_find(t, c);
        assert forall|j: int| 0 <= j < find(s, c) implies s[j] != c by {
            if j > 0 {
                assert(s[j] == t[j - 1]);
            }
        }
        if find(s, c) < s.len() {
            assert(t[find(t, c)] == s[find(s, c)]);
        }
    }
}

/// An index with no `c` before it, that holds `c` or is the end, is `find(s, c)`.
pub proof fn lemma_find_unique(s: Seq<char>, c: char, i: int)
    requires
        0 <= i <= s.len(),
        forall|j: int| 0 <= j < i ==> s[j] != c,
        i < s.len() ==> s[i] == c,
    ensures
        find(s, c) == i,
{
    lemma_find(s, c);
    let f = find(s, c);
    if f < i {
        assert(s[f] != c);
    }
    if i < f {
        assert(s[i] != c);
    }
}

/// Index of the first `c` in `s`, or `s.len()`.
pub fn find_char(s: &[char], c: char) -> (r: usize)
    ensures
        r == find(s@, c),
        r <= s.len(),
{
    let mut i: usize = 0;
    while i < s.len() && s[i] != c
        invariant
            i <= s.len(),
            forall|j: int| 0 <= j < i ==> s@[j] != c,
        decreases s.len() - i,
    {
        i += 1;
    }
    proof {
        lemma_find_unique(s@, c, i as int);
    }
    i
}

/// `p` stands at the start of `s`.
pub open spec fn starts_with(s: Seq<char>, p: Seq<char>) -> bool {
    p.len() <= s.len() && s.take(p.len() as int) == p
}

/// `p` stands at the end of `s`.
pub open spec fn ends_with(s: Seq<char>, p: Seq<char>) -> bool {
    p.len() <= s.len() && s.skip(s.len() - p.len()) == p
}

/// The text before the first `c`, all of `s` where there is none.
pub open spec fn before(s: Seq<char>, c: char) -> Seq<char> {
    s.take(find(s, c))
}

/// The text after the first `c`, where there is one.
pub open spec fn after(s: Seq<char>, c: char) -> Option<Seq<char>> {
    if find(s, c) < s.len() {
        Some(s.skip(find(s, c) + 1))
    } else {
        None
    }
}

/// Whether the characters of `s` from `at` on begin with `p`.
pub fn holds_at(s: &[char], at: usize, p: &[char]) -> (r: bool)
    requires
        at <= s.len(),
    ensures
        r == starts_with(s@.skip(at as int), p@),
{
    let ghost t = s@.skip(at as int);
    if s.len() - at < p.len() {
        return false;
    }
    let mut i: usize = 0;
    while i < p.len()
        invariant
            at <= s.len(),
            p.len() <= s.len() - at,
            i <= p.len(),
            t == s@.skip(at as int),
            forall|j: int| 0 <= j < i ==> t[j] == p@[j],
        decreases p.len() - i,
    {
        if s[at + i] != p[i] {
            assert(t.take(p.len() as int)[i as int] != p@[i as int]);
            return false;
        }
        i += 1;
    }
    assert(t.take(p.len() as int) =~= p@);
    true
}

/// Whether `s` begins with the text `p`.
pub fn has_prefix(s: &[char], p: &str) -> (r: bool)
    ensures
        r == starts_with(s@, p@),
{
    let p = chars_of(p);
    assert(s@.skip(0) =~= s@);
    holds_at(s, 0, p.as_slice())
}

/// Whether `s` ends with the text `p`.
pub fn has_suffix(s: &[char], p: &str) -> (r: bool)
    ensures
        r == ends_with(s@, p@),
{
    let p = chars_of(p);
    if p.len() > s.len() {
        return false;
    }
    let at: usize = s.len() - p.len();
    let r = holds_at(s, at, p.as_slice());
    assert(s@.skip(at as int).take(p.len() as int) =~= s@.skip(at as int));
    r
}

/// `s` without its first `n` characters.
pub fn tail(s: &[char], n: usize) -> (r: &[char])
    requires
        n <= s.len(),
    ensures
        r@ == s@.skip(n as int),
{
    let r = slice_subrange(s, n, s.len());
    assert(r@ =~= s@.skip(n as int));
    r
}

/// The first `n` characters of `s`.
pub fn head(s: &[char], n: usize) -> (r: &[char])
    requires
        n <= s.len(),
    ensures
        r@ == s@.take(n as int),
{
    let r = slice_subrange(s, 0, n);
    assert(r@ =~= s@.take(n as int));
    r
}

/// The text before the first `c`, or all of it.
pub fn text_before(s: &[char], c: char) -> (r: &[char])
    ensures
        r@ == before(s@, c),
{
    let i = find_char(s, c);
    head(s, i)
}

/// The text after the first `c`, where there is one.
pub fn text_after(s: &[char], c: char) -> (r: Option<&[char]>)
    ensures
        (match r {
            Some(t) => after(s@, c) == Some(t@),
            None => after(s@, c) is None,
        }),
{
    let i = find_char(s, c);
    if i < s.len() {
        Some(tail(s, i + 1))
    } else {
        None
    }
}

/// Unicode's `White_Space` property.
pub open spec fn is_space(c: char) -> bool {
    let n = c as u32;
    ||| 0x9 <= n <= 0xd
    ||| n == 0x20
    ||| n == 0x85
    ||| n == 0xa0
    ||| n == 0x1680
    ||| 0x2000 <= n <= 0x200a
    ||| n == 0x2028
    ||| n == 0x2029
    ||| n == 0x202f
    ||| n == 0x205f
    ||| n == 0x3000
}

/// Whether `c` is white space.
pub fn is_white_space(c: char) -> (r: bool)
    ensures
        r == is_space(c),
{
    let n: u32 = c as u32;
    (0x9 <= n && n <= 0xd) || n == 0x20 || n == 0x85 || n == 0xa0 || n == 0x1680 || (0x2000 <= n
        && n <= 0x200a) || n == 0x2028 || n == 0x2029 || n == 0x202f || n == 0x205f || n == 0x3000
}

/// `s` without its leading white space.
pub open spec fn trim_start(s: Seq<char>) -> Seq<char>
    decreases s.len(),
{
    if s.len() > 0 && is_space(s[0]) {
        trim_start(s.drop_first())
    } else {
        s
    }
}

/// `s` without its trailing white space.
pub open spec fn trim_end(s: Seq<char>) -> Seq<char>
    decreases s.len(),
{
    if s.len() > 0 && is_space(s.last()) {
        trim_end(s.drop_last())
    } else {
        s
    }
}

/// `s` without its leading and trailing white space.
pub open spec fn trim(s: Seq<char>) -> Seq<char> {
    trim_end(trim_start(s))
}

/// `s` without its leading and trailing white space.
pub fn trimmed(s: &[char]) -> (r: &[char])
    ensures
        r@ == trim(s@),
{
    let mut i: usize = 0;
    assert(s@.skip(0) =~= s@);
    while i < s.len() && is_white_space(s[i])
        invariant
            i <= s.len(),
            trim_start(s@) == trim_start(s@.skip(i as int)),
        decreases s.len() - i,
    {
        assert(s@.skip(i as int).drop_first() =~= s@.skip(i + 1));
        i += 1;
    }
    let t = tail(s, i);
    let mut n: usize = t.len();
    assert(t@.take(n as int) =~= t@);
    while n > 0 && is_white_space(t[n - 1])
        invariant
            n <= t.len(),
            trim_end(t@) == trim_end(t@.take(n as int)),
        decreases n,
    {
        assert(t@.take(n as int).drop_last() =~= t@.take(n - 1));
        n -= 1;
    }
    head(t, n)
}

/// `s` without the `c`s at its end.
pub open spec fn trim_end_char(s: Seq<char>, c: char) -> Seq<char>
    decreases s.len(),
{
    if s.len() > 0 && s.last() == c {
        trim_end_char(s.drop_last(), c)
    } else {
        s
    }
}

/// `s` without the `c`s at its end.
pub fn without_trailing_char(s: &[char], c: char) -> (r: &[char])
    ensures
        r@ == trim_end_char(s@, c),
{
    let mut n: usize = s.len();
    assert(s@.take(n as int) =~= s@);
    while n > 0 && s[n - 1] == c
        invariant
            n <= s.len(),
            trim_end_char(s@, c) == trim_end_char(s@.take(n as int), c),
        decreases n,
    {
        assert(s@.take(n as int).drop_last() =~= s@.take(n - 1));
        n -= 1;
    }
    head(s, n)
}

/// `s` with every `p` at its end cut off, one after the other.
pub open spec fn trim_end_text(s: Seq<char>, p: Seq<char>) -> Seq<char>
    decreases s.len(),
{
    if p.len() > 0 && ends_with(s, p) {
        trim_end_text(s.take(s.len() - p.len()), p)
    } else {
        s
    }
}

/// `s` with every `p` at its end cut off, one after the other.
pub fn without_trailing_text<'a>(s: &'a [char], p: &str) -> (r: &'a [char])
    requires
        p@.len() > 0,
    ensures
        r@ == trim_end_text(s@, p@),
{
    let mut t: &[char] = s;
    let n: usize = chars_of(p).len();
    while has_suffix(t, p)
        invariant
            n == p@.len(),
            n > 0,
            trim_end_text(s@, p@) == trim_end_text(t@, p@),
        decreases t.len(),
    {
        t = head(t, t.len() - n);
    }
    t
}

/// `s` with every `p` at its start cut off, one after the other.
pub open spec fn trim_start_text(s: Seq<char>, p: Seq<char>) -> Seq<char>
    decreases s.len(),
{
    if p.len() > 0 && starts_with(s, p) {
        trim_start_text(s.skip(p.len() as int), p)
    } else {
        s
    }
}

/// `s` with every `p` at its start cut off, one after the other.
pub fn without_leading_text<'a>(s: &'a [char], p: &str) -> (r: &'a [char])
    requires
        p@.len() > 0,
    ensures
        r@ == trim_start_text(s@, p@),
{
    let mut t: &[char] = s;
    let n: usize = chars_of(p).len();
    while has_prefix(t, p)
        invariant
            n == p@.len(),
            n > 0,
            trim_start_text(s@, p@) == trim_start_text(t@, p@),
        decreases t.len(),
    {
        t = tail(t, n);
    }
    t
}

/// The texts that the vectors of `v` hold.
pub open spec fn texts(v: Seq<Vec<char>>) -> Seq<Seq<char>> {
    v.map_values(|x: Vec<char>| x@)
}

/// The texts that the strings of `v` hold.
pub open spec fn string_texts(v: Seq<String>) -> Seq<Seq<char>> {
    v.map_values(|x: String| x@)
}

/// `l` without one carriage return at its end.
pub open spec fn strip_cr(l: Seq<char>) -> Seq<char> {
    if l.len() > 0 && l.last() == '\r' {
        l.drop_last()
    } else {
        l
    }
}

/// The lines of `s`. A line ends at a line feed, which does not belong to it, nor does a carriage
/// return right before that; what follows the last line feed is a line unless it is empty.
pub open spec fn lines(s: Seq<char>) -> Seq<Seq<char>>
    decreases s.len(),
{
    if s.len() == 0 {
        Seq::empty()
    } else if find(s, '\n') < s.len() {
        proof {
            lemma_find(s, '\n');
        }
        seq![strip_cr(before(s, '\n'))] + lines(s.skip(find(s, '\n') + 1))
    } else {
        seq![s]
    }
}

/// A text without a line feed, and a line feed, make a line of their own before the lines of what
/// follows.
pub proof fn lemma_lines_cons(line: Seq<char>, rest: Seq<char>)
    requires
        !line.contains('\n'),
    ensures
        lines(line + seq!['\n'] + rest) == seq![strip_cr(line)] + lines(rest),
{
    let s = line + seq!['\n'] + rest;
    let n = line.len() as int;
    assert forall|j: int| 0 <= j < n implies s[j] != '\n' by {
        assert(s[j] == line[j]);
        assert(line.contains(line[j]));
    }
    assert(s[n] == '\n');
    lemma_find_unique(s, '\n', n);
    assert(before(s, '\n') =~= line);
    assert(s.skip(n + 1) =~= rest);
}

/// The first line of `s`, empty where `s` is.
pub open spec fn first_line(s: Seq<char>) -> Seq<char> {
    if lines(s).len() > 0 {
        lines(s)[0]
    } else {
        Seq::empty()
    }
}

/// `l` without one carriage return at its end.
fn without_cr(l: &[char]) -> (r: &[char])
    ensures
        r@ == strip_cr(l@),
{
    if l.len() > 0 && l[l.len() - 1] == '\r' {
        let r = head(l, l.len() - 1);
        assert(r@ =~= l@.drop_last());
        r
    } else {
        l
    }
}

/// A copy of `s`.
pub fn copy_of(s: &[char]) -> (v: Vec<char>)
    ensures
        v@ == s@,
{
    let mut v: Vec<char> = Vec::new();
    let mut i: usize = 0;
    while i < s.len()
        invariant
            i <= s.len(),
            v@ == s@.take(i as int),
        decreases s.len() - i,
    {
        v.push(s[i]);
        assert(s@.take(i + 1) =~= s@.take(i as int).push(s@[i as int]));
        i += 1;
    }
    assert(s@.take(s.len() as int) =~= s@);
    v
}

/// The lines of `s`.
pub fn lines_of(s: &[char]) -> (out: Vec<Vec<char>>)
    ensures
        texts(out@) == lines(s@),
{
    let mut out: Vec<Vec<char>> = Vec::new();
    let mut rest: &[char] = s;
    assert(texts(out@) + lines(s@) =~= lines(s@));
    while rest.len() > 0
        invariant
            lines(s@) == texts(out@) + lines(rest@),
        decreases rest.len(),
    {
        let ghost done = texts(out@);
        proof {
            lemma_find(rest@, '\n');
        }
        let i = find_char(rest, '\n');
        if i < rest.len() {
            let line = copy_of(without_cr(head(rest, i)));
            out.push(line);
            assert(texts(out@) =~= done.push(line@));
            let next = tail(rest, i + 1);
            assert(texts(out@) + lines(next@) =~= done + lines(rest@));
            rest = next;
        } else {
            let line = copy_of(rest);
            out.push(line);
            assert(texts(out@) =~= done.push(line@));
            let next = tail(rest, rest.len());
            assert(lines(next@) =~= Seq::empty());
            assert(texts(out@) + lines(next@) =~= done + lines(rest@));
            rest = next;
        }
    }
    assert(lines(rest@) =~= Seq::empty());
    assert(texts(out@) =~= lines(s@));
    out
}

/// The first line of `s`.
pub fn first_line_of(s: &[char]) -> (r: &[char])
    ensures
        r@ == first_line(s@),
{
    proof {
        lemma_find(s@, '\n');
    }
    let i = find_char(s, '\n');
    let r = if i < s.len() {
        without_cr(head(s, i))
    } else {
        s
    };
    assert(s.len() == 0 ==> s@ =~= Seq::empty());
    r
}

/// `parts` one after the other, with `sep` between each two.
pub open spec fn join(parts: Seq<Seq<char>>, sep: Seq<char>) -> Seq<char>
    decreases parts.len(),
{
    if parts.len() == 0 {
        Seq::empty()
    } else if parts.len() == 1 {
        parts[0]
    } else {
        join(parts.drop_last(), sep) + sep + parts.last()
    }
}

/// The strings one after the other, with `sep` between each two.
pub fn joined(parts: &Vec<String>, sep: &str) -> (out: String)
    ensures
        out@ == join(string_texts(parts@), sep@),
{
    let ghost all = string_texts(parts@);
    let mut out = String::new();
    let mut i: usize = 0;
    assert(all.take(0) =~= Seq::empty());
    while i < parts.len()
        invariant
            i <= parts.len(),
            all == string_texts(parts@),
            out@ == join(all.take(i as int), sep@),
        decreases parts.len() - i,
    {
        assert(all.take(i + 1).drop_last() =~= all.take(i as int));
        if i > 0 {
            out.append(sep);
        }
        let ghost done = out@;
        out.append(parts[i].as_str());
        assert(i == 0 ==> done + all[0] =~= all[0]);
        i += 1;
    }
    assert(all.take(all.len() as int) =~= all);
    out
}

/// `s` with `with` in the place of every `c`.
pub open spec fn replace(s: Seq<char>, c: char, with: Seq<char>) -> Seq<char>
    decreases s.len(),
{
    if s.len() == 0 {
        Seq::empty()
    } else {
        replace(s.drop_last(), c, with) + (if s.last() == c {
            with
        } else {
            seq![s.last()]
        })
    }
}

/// `s` with `with` in the place of every `c`.
pub fn replaced(s: &[char], c: char, with: &str) -> (out: String)
    ensures
        out@ == replace(s@, c, with@),
{
    let mut out = String::new();
    let mut i: usize = 0;
    assert(out@ =~= replace(s@.take(0), c, with@));
    while i < s.len()
        invariant
            i <= s.len(),
            out@ == replace(s@.take(i as int), c, with@),
        decreases s.len() - i,
    {
        assert(s@.take(i + 1).drop_last() =~= s@.take(i as int));
        let ghost done = out@;
        if s[i] == c {
            out.append(with);
        } else {
            out.push(s[i]);
            assert(out@ =~= done + seq![s@[i as int]]);
        }
        i += 1;
    }
    assert(s@.take(s.len() as int) =~= s@);
    out
}

/// `p` stands somewhere in `s`.
pub open spec fn contains(s: Seq<char>, p: Seq<char>) -> bool {
    exists|i: int| 0 <= i <= s.len() && #[trigger] starts_with(s.skip(i), p)
}

/// Whether `p` stands somewhere in `s`.
pub fn contains_text(s: &str, p: &str) -> (r: bool)
    ensures
        r == contains(s@, p@),
{
    let text = chars_of(s);
    let part = chars_of(p);
    let mut i: usize = 0;
    while i < text.len()
        invariant
            text@ == s@,
            part@ == p@,
            i <= text.len(),
            forall|j: int| 0 <= j < i ==> !#[trigger] starts_with(s@.skip(j), p@),
        decreases text.len() - i,
    {
        if holds_at(text.as_slice(), i, part.as_slice()) {
            assert(starts_with(s@.skip(i as int), p@));
            return true;
        }
        i += 1;
    }
    holds_at(text.as_slice(), i, part.as_slice())
}

/// Index of the first `p` in `s`, where there is one.
pub open spec fn find_text(s: Seq<char>, p: Seq<char>) -> Option<int>
    decreases s.len(),
{
    if starts_with(s, p) {
        Some(0)
    } else if s.len() == 0 {
        None
    } else {
        match find_text(s.drop_first(), p) {
            Some(i) => Some(i + 1),
            None => None,
        }
    }
}

/// Where `find_text` finds `p`, there `p` stands.
pub proof fn lemma_find_text(s: Seq<char>, p: Seq<char>)
    ensures
        find_text(s, p) matches Some(i) ==> 0 <= i <= s.len() - p.len() && starts_with(
            s.skip(i),
            p,
        ),
    decreases s.len(),
{
    if starts_with(s, p) {
        assert(s.skip(0) =~= s);
    } else if s.len() > 0 {
        lemma_find_text(s.drop_first(), p);
        if let Some(i) = find_text(s.drop_first(), p) {
            assert(s.drop_first().skip(i) =~= s.skip(i + 1));
        }
    }
}

/// Index of the first `p` in `s`.
pub fn position_of(s: &[char], p: &[char]) -> (r: Option<usize>)
    ensures
        (match r {
            Some(i) => find_text(s@, p@) == Some(i as int) && i + p.len() <= s.len(),
            None => find_text(s@, p@) is None,
        }),
{
    let mut i: usize = 0;
    assert(s@.skip(0) =~= s@);
    proof {
        lemma_find_text(s@, p@);
    }
    while i < s.len()
        invariant
            i <= s.len(),
            (match find_text(s@.skip(i as int), p@) {
                Some(k) => find_text(s@, p@) == Some(k + i),
                None => find_text(s@, p@) is None,
            }),
            find_text(s@, p@) matches Some(k) ==> k + p.len() <= s.len(),
        decreases s.len() - i,
    {
        if holds_at(s, i, p) {
            return Some(i);
        }
        assert(s@.skip(i as int).drop_first() =~= s@.skip(i + 1));
        i += 1;
    }
    if holds_at(s, i, p) {
        Some(i)
    } else {
        None
    }
}

/// The text between the first `p` in `s` and the next one, or the end; none where `s` has no `p`.
pub open spec fn second_piece(s: Seq<char>, p: Seq<char>) -> Option<Seq<char>> {
    match find_text(s, p) {
        Some(i) => {
            let rest = s.skip(i + p.len());
            match find_text(rest, p) {
                Some(j) => Some(rest.take(j)),
                None => Some(rest),
            }
        },
        None => None,
    }
}

/// The text between the first `p` in `s` and the next one, or the end.
pub fn piece_after<'a>(s: &'a [char], p: &str) -> (r: Option<&'a [char]>)
    ensures
        (match r {
            Some(t) => second_piece(s@, p@) == Some(t@),
            None => second_piece(s@, p@) is None,
        }),
{
    let p = chars_of(p);
    match position_of(s, p.as_slice()) {
        Some(i) => {
            let rest = tail(s, i + p.len());
            match position_of(rest, p.as_slice()) {
                Some(j) => Some(head(rest, j)),
                None => Some(rest),
            }
        },
        None => None,
    }
}

/// Whether `a` and `b` hold the same text.
pub fn same_text(a: &str, b: &str) -> (r: bool)
    ensures
        r == (a@ == b@),
{
    a.to_owned() == b.to_owned()
}

// ── Laws ────────────────────────────────────────────────────────────────────────────────────────

/// A text starts with another if and only if something, or nothing, put behind the other makes it.
pub proof fn law_starts_with(s: Seq<char>, p: Seq<char>)
    ensures
        starts_with(s, p) <==> exists|t: Seq<char>| s == #[trigger] (p + t),
{
    if starts_with(s, p) {
        assert(s =~= p + s.skip(p.len() as int));
    }
    if exists|t: Seq<char>| s == #[trigger] (p + t) {
        let t = choose|t: Seq<char>| s == #[trigger] (p + t);
        assert(s.take(p.len() as int) =~= p);
    }
}

/// A text ends with another if and only if something, or nothing, put before the other makes it.
pub proof fn law_ends_with(s: Seq<char>, p: Seq<char>)
    ensures
        ends_with(s, p) <==> exists|t: Seq<char>| s == #[trigger] (t + p),
{
    if ends_with(s, p) {
        assert(s =~= s.take(s.len() - p.len()) + p);
    }
    if exists|t: Seq<char>| s == #[trigger] (t + p) {
        let t = choose|t: Seq<char>| s == #[trigger] (t + p);
        assert(s.skip(s.len() - p.len()) =~= p);
    }
}

/// A text holds another if and only if something, or nothing, put around the other makes it.
pub proof fn law_contains(s: Seq<char>, p: Seq<char>)
    ensures
        contains(s, p) <==> exists|a: Seq<char>, b: Seq<char>| s == #[trigger] (a + p + b),
{
    if contains(s, p) {
        let i = choose|i: int| 0 <= i <= s.len() && #[trigger] starts_with(s.skip(i), p);
        let rest = s.skip(i);
        assert(s =~= s.take(i) + p + rest.skip(p.len() as int)) by {
            assert(rest =~= p + rest.skip(p.len() as int));
            assert(s =~= s.take(i) + rest);
        }
    }
    if exists|a: Seq<char>, b: Seq<char>| s == #[trigger] (a + p + b) {
        let (a, b) = choose|a: Seq<char>, b: Seq<char>| s == #[trigger] (a + p + b);
        assert(s.skip(a.len() as int) =~= p + b);
        assert(s.skip(a.len() as int).take(p.len() as int) =~= p);
        assert(starts_with(s.skip(a.len() as int), p));
    }
}

/// A text is cut at the first of a character: what stands before it, the character, and what stands
/// after it make the text, and it does not stand before. Where it does not stand in the text at
/// all, everything stands before it.
pub proof fn law_cut_at_first(s: Seq<char>, c: char)
    ensures
        forall|i: int| 0 <= i < before(s, c).len() ==> before(s, c)[i] != c,
        (match after(s, c) {
            Some(rest) => s == before(s, c) + seq![c] + rest,
            None => s == before(s, c),
        }),
{
    lemma_find(s, c);
    let i = find(s, c);
    if i < s.len() {
        assert(s =~= s.take(i) + seq![c] + s.skip(i + 1));
    } else {
        assert(s.take(i) =~= s);
    }
}

/// Cutting at the first of a character undoes putting the character between two texts, of which
/// the first does not hold it.
pub proof fn law_cut_of_two(a: Seq<char>, c: char, b: Seq<char>)
    requires
        forall|i: int| 0 <= i < a.len() ==> a[i] != c,
    ensures
        before(a + seq![c] + b, c) == a,
        after(a + seq![c] + b, c) == Some(b),
        before(a, c) == a,
        after(a, c) is None,
{
    let s = a + seq![c] + b;
    lemma_find_unique(s, c, a.len() as int);
    lemma_find_unique(a, c, a.len() as int);
    assert(s.take(a.len() as int) =~= a);
    assert(s.skip(a.len() as int + 1) =~= b);
    assert(a.take(a.len() as int) =~= a);
}

/// White space: the tab, the line breaks and the blanks of Unicode.
pub proof fn law_white_space(c: char)
    ensures
        is_space(c) <==> (c == '\t' || c == '\n' || c == '\u{b}' || c == '\u{c}' || c == '\r' || c
            == ' ' || c == '\u{85}' || c == '\u{a0}' || c == '\u{1680}' || c == '\u{2000}' || c
            == '\u{2001}' || c == '\u{2002}' || c == '\u{2003}' || c == '\u{2004}' || c
            == '\u{2005}' || c == '\u{2006}' || c == '\u{2007}' || c == '\u{2008}' || c
            == '\u{2009}' || c == '\u{200a}' || c == '\u{2028}' || c == '\u{2029}' || c
            == '\u{202f}' || c == '\u{205f}' || c == '\u{3000}'),
{
}

/// The text stands between white space, and neither begins nor ends with any.
pub open spec fn is_core(s: Seq<char>, core: Seq<char>, i: int) -> bool {
    let j = i + core.len();
    &&& 0 <= i && j <= s.len()
    &&& core == s.subrange(i, j)
    &&& forall|k: int| 0 <= k < i ==> is_space(#[trigger] s[k])
    &&& forall|k: int| j <= k < s.len() ==> is_space(#[trigger] s[k])
    &&& core.len() > 0 ==> !is_space(core[0]) && !is_space(core[core.len() - 1])
}

/// Trimming takes off white space at both ends, all of it and nothing else.
pub proof fn law_trim(s: Seq<char>)
    ensures
        exists|i: int| #[trigger] is_core(s, trim(s), i),
{
    lemma_trim_start(s);
    let t = trim_start(s);
    let i = s.len() - t.len();
    lemma_trim_end(t);
    let core = trim_end(t);
    assert(core =~= s.subrange(i, i + core.len()));
    assert forall|k: int| i + core.len() <= k < s.len() implies is_space(#[trigger] s[k]) by {
        assert(s[k] == t[k - i]);
    }
    assert(is_core(s, trim(s), i));
}

proof fn lemma_trim_start(s: Seq<char>)
    ensures
        ({
            let t = trim_start(s);
            let i = s.len() - t.len();
            &&& 0 <= i <= s.len()
            &&& t == s.skip(i)
            &&& forall|k: int| 0 <= k < i ==> is_space(#[trigger] s[k])
            &&& t.len() > 0 ==> !is_space(t[0])
        }),
    decreases s.len(),
{
    if s.len() > 0 && is_space(s[0]) {
        let d = s.drop_first();
        lemma_trim_start(d);
        let t = trim_start(s);
        let i = s.len() - t.len();
        assert(t =~= s.skip(i));
        assert forall|k: int| 0 <= k < i implies is_space(#[trigger] s[k]) by {
            if k > 0 {
                assert(s[k] == d[k - 1]);
            }
        }
    } else {
        assert(s.skip(0) =~= s);
    }
}

proof fn lemma_trim_end(s: Seq<char>)
    ensures
        ({
            let t = trim_end(s);
            &&& t.len() <= s.len()
            &&& t == s.take(t.len() as int)
            &&& forall|k: int| t.len() <= k < s.len() ==> is_space(#[trigger] s[k])
            &&& t.len() > 0 ==> !is_space(t[t.len() - 1])
        }),
    decreases s.len(),
{
    if s.len() > 0 && is_space(s.last()) {
        let d = s.drop_last();
        lemma_trim_end(d);
        let t = trim_end(s);
        assert(t =~= s.take(t.len() as int));
        assert forall|k: int| t.len() <= k < s.len() implies is_space(#[trigger] s[k]) by {
            if k < s.len() - 1 {
                assert(s[k] == d[k]);
            }
        }
    } else {
        assert(s.take(s.len() as int) =~= s);
    }
}

/// A character at the end of a text is taken off as often as it stands there, and nothing else is.
pub proof fn law_trim_end_char(s: Seq<char>, c: char)
    ensures
        ({
            let t = trim_end_char(s, c);
            &&& t.len() <= s.len()
            &&& t == s.take(t.len() as int)
            &&& forall|k: int| t.len() <= k < s.len() ==> (#[trigger] s[k]) == c
            &&& t.len() > 0 ==> t[t.len() - 1] != c
        }),
    decreases s.len(),
{
    if s.len() > 0 && s.last() == c {
        let d = s.drop_last();
        law_trim_end_char(d, c);
        let t = trim_end_char(s, c);
        assert(t =~= s.take(t.len() as int));
        assert forall|k: int| t.len() <= k < s.len() implies (#[trigger] s[k]) == c by {
            if k < s.len() - 1 {
                assert(s[k] == d[k]);
            }
        }
    } else {
        assert(s.take(s.len() as int) =~= s);
    }
}

/// A text at the end of another is taken off as often as it stands there: once more put behind, it
/// makes no difference, and what is left does not end with it.
pub proof fn law_trim_end_text(s: Seq<char>, p: Seq<char>)
    requires
        p.len() > 0,
    ensures
        trim_end_text(s + p, p) == trim_end_text(s, p),
        forall|t: Seq<char>| trim_end_text(s, p) != #[trigger] (t + p),
        (forall|t: Seq<char>| s != #[trigger] (t + p)) ==> trim_end_text(s, p) == s,
    decreases s.len(),
{
    law_ends_with(s, p);
    assert((s + p).skip(s.len() as int) =~= p);
    assert((s + p).take(s.len() as int) =~= s);
    assert(ends_with(s + p, p));
    if ends_with(s, p) {
        law_trim_end_text(s.take(s.len() - p.len()), p);
    }
}

/// A text at the start of another is taken off as often as it stands there: once more put before,
/// it makes no difference, and what is left does not start with it.
pub proof fn law_trim_start_text(s: Seq<char>, p: Seq<char>)
    requires
        p.len() > 0,
    ensures
        trim_start_text(p + s, p) == trim_start_text(s, p),
        forall|t: Seq<char>| trim_start_text(s, p) != #[trigger] (p + t),
        (forall|t: Seq<char>| s != #[trigger] (p + t)) ==> trim_start_text(s, p) == s,
    decreases s.len(),
{
    law_starts_with(s, p);
    assert((p + s).take(p.len() as int) =~= p);
    assert((p + s).skip(p.len() as int) =~= s);
    assert(starts_with(p + s, p));
    if starts_with(s, p) {
        law_trim_start_text(s.skip(p.len() as int), p);
    }
}

/// A line ends at a line feed, or at a carriage return and a line feed, which do not belong to it.
/// What follows the last line feed is a line unless it is empty. `line` is a text without a line
/// feed.
pub proof fn law_lines(line: Seq<char>, rest: Seq<char>)
    requires
        forall|i: int| 0 <= i < line.len() ==> line[i] != '\n',
    ensures
        lines(line + seq!['\r', '\n'] + rest) == seq![line] + lines(rest),
        (line.len() == 0 || line[line.len() - 1] != '\r') ==> lines(line + seq!['\n'] + rest)
            == seq![line] + lines(rest),
        line.len() > 0 ==> lines(line) == seq![line],
        lines(Seq::empty()) == Seq::<Seq<char>>::empty(),
        line.len() > 0 ==> first_line(line) == line,
        first_line(Seq::empty()) == Seq::<char>::empty(),
        first_line(line + seq!['\r', '\n'] + rest) == line,
        (line.len() == 0 || line[line.len() - 1] != '\r') ==> first_line(
            line + seq!['\n'] + rest,
        ) == line,
{
    assert(!line.contains('\n'));
    let ended = line.push('\r');
    assert(!ended.contains('\n')) by {
        if ended.contains('\n') {
            let k = ended.index_of('\n');
            assert(k < line.len());
        }
    }
    lemma_lines_cons(ended, rest);
    assert(ended + seq!['\n'] + rest =~= line + seq!['\r', '\n'] + rest);
    assert(ended.drop_last() =~= line);
    lemma_lines_cons(line, rest);
    if line.len() > 0 {
        lemma_find_unique(line, '\n', line.len() as int);
    }
}

/// Texts are joined by putting the separator between each two of them, and nothing at the ends.
pub proof fn law_join(parts: Seq<Seq<char>>, last: Seq<char>, sep: Seq<char>)
    ensures
        join(Seq::empty(), sep) == Seq::<char>::empty(),
        join(seq![last], sep) == last,
        parts.len() > 0 ==> join(parts.push(last), sep) == join(parts, sep) + sep + last,
{
    assert(parts.push(last).drop_last() =~= parts);
}

/// Each character is replaced for itself: the one by the text that is put in its place, any other
/// by itself, and none moves.
pub proof fn law_replace(a: Seq<char>, x: char, b: Seq<char>, c: char, with: Seq<char>)
    ensures
        replace(Seq::empty(), c, with) == Seq::<char>::empty(),
        replace(a + seq![x] + b, c, with) == replace(a, c, with) + (if x == c {
            with
        } else {
            seq![x]
        }) + replace(b, c, with),
    decreases b.len(),
{
    let all = a + seq![x] + b;
    if b.len() == 0 {
        assert(all.drop_last() =~= a);
        assert(all.last() == x);
        assert(replace(all, c, with) =~= replace(a, c, with) + (if x == c {
            with
        } else {
            seq![x]
        }) + replace(b, c, with));
    } else {
        law_replace(a, x, b.drop_last(), c, with);
        assert(all.drop_last() =~= a + seq![x] + b.drop_last());
        assert(all.last() == b.last());
        assert(replace(all, c, with) =~= replace(a, c, with) + (if x == c {
            with
        } else {
            seq![x]
        }) + replace(b, c, with));
    }
}

/// The first place at which a text stands in another is found, and none where it stands nowhere.
pub proof fn law_find_text(s: Seq<char>, p: Seq<char>)
    ensures
        (match find_text(s, p) {
            Some(i) => {
                &&& 0 <= i <= s.len() - p.len()
                &&& s.subrange(i, i + p.len()) == p
                &&& forall|j: int| 0 <= j < i ==> #[trigger] s.subrange(j, j + p.len()) != p
            },
            None => forall|j: int|
                0 <= j <= s.len() - p.len() ==> #[trigger] s.subrange(j, j + p.len()) != p,
        }),
    decreases s.len(),
{
    lemma_find_text(s, p);
    if starts_with(s, p) {
        assert(s.subrange(0, p.len() as int) =~= s.take(p.len() as int));
    } else if s.len() == 0 {
        assert forall|j: int| 0 <= j <= s.len() - p.len() implies #[trigger] s.subrange(
            j,
            j + p.len(),
        ) != p by {
            assert(s.take(0) =~= p);
        }
    } else {
        let t = s.drop_first();
        law_find_text(t, p);
        assert forall|j: int|
            0 <= j <= s.len() - p.len() && (match find_text(s, p) {
                Some(i) => j < i,
                None => true,
            }) implies #[trigger] s.subrange(j, j + p.len()) != p by {
            if j == 0 {
                assert(s.subrange(0, p.len() as int) =~= s.take(p.len() as int));
            } else {
                assert(t.subrange(j - 1, j - 1 + p.len()) =~= s.subrange(j, j + p.len()));
            }
        }
        if let Some(i) = find_text(s, p) {
            assert(t.subrange(i - 1, i - 1 + p.len()) =~= s.subrange(i, i + p.len()));
        }
    }
}

/// The piece behind the first `p` goes up to the next one, or to the end: `p` does not stand in it,
/// and what stands before it is a text and the first `p`.
pub proof fn law_second_piece(s: Seq<char>, p: Seq<char>)
    requires
        p.len() > 0,
    ensures
        (match second_piece(s, p) {
            Some(piece) => exists|i: int|
                {
                    let n = i + p.len();
                    &&& 0 <= i && n + piece.len() <= s.len()
                    &&& #[trigger] s.subrange(i, i + p.len()) == p
                    &&& forall|j: int| 0 <= j < i ==> #[trigger] s.subrange(j, j + p.len()) != p
                    &&& piece == s.subrange(n, n + piece.len())
                    &&& forall|j: int|
                        n <= j < n + piece.len() && j + p.len() <= s.len()
                            ==> #[trigger] s.subrange(j, j + p.len()) != p
                    &&& n + piece.len() == s.len() || (n + piece.len() + p.len() <= s.len()
                        && s.subrange(n + piece.len(), n + piece.len() + p.len()) == p)
                },
            None => forall|j: int|
                0 <= j <= s.len() - p.len() ==> #[trigger] s.subrange(j, j + p.len()) != p,
        }),
{
    law_find_text(s, p);
    if let Some(i) = find_text(s, p) {
        let n = i + p.len();
        let rest = s.skip(n);
        law_find_text(rest, p);
        let piece = second_piece(s, p)->0;
        assert(piece =~= s.subrange(n, n + piece.len()));
        assert forall|j: int|
            n <= j < n + piece.len() && j + p.len() <= s.len() implies #[trigger] s.subrange(
            j,
            j + p.len(),
        ) != p by {
            assert(rest.subrange(j - n, j - n + p.len()) =~= s.subrange(j, j + p.len()));
        }
        if let Some(k) = find_text(rest, p) {
            assert(rest.subrange(k, k + p.len()) =~= s.subrange(n + k, n + k + p.len()));
        }
        assert(s.subrange(i, i + p.len()) == p);
    }
}

/// The lines, each with a line feed behind it, one after the other.
pub open spec fn with_line_feeds(ls: Seq<Seq<char>>) -> Seq<char> {
    ls.map_values(|l: Seq<char>| l + seq!['\n']).flatten()
}

/// The lines of a text that was made of lines are those lines, however many there are.
pub proof fn law_lines_of_lines(ls: Seq<Seq<char>>)
    requires
        forall|k: int, i: int|
            0 <= k < ls.len() && 0 <= i < ls[k].len() ==> #[trigger] ls[k][i] != '\n',
        forall|k: int|
            0 <= k < ls.len() && (#[trigger] ls[k]).len() > 0 ==> ls[k][ls[k].len() - 1] != '\r',
    ensures
        lines(with_line_feeds(ls)) == ls,
    decreases ls.len(),
{
    let f = |l: Seq<char>| l + seq!['\n'];
    if ls.len() > 0 {
        let rest = ls.drop_first();
        assert forall|k: int, i: int|
            0 <= k < rest.len() && 0 <= i < rest[k].len() implies #[trigger] rest[k][i] != '\n' by {
            assert(ls[k + 1][i] != '\n');
        }
        assert forall|k: int| 0 <= k < rest.len() && (#[trigger] rest[k]).len() > 0 implies rest[k][
            rest[k].len() - 1
        ] != '\r' by {
            assert(ls[k + 1] == rest[k]);
        }
        law_lines_of_lines(rest);
        assert(ls.map_values(f).drop_first() =~= rest.map_values(f));
        assert(ls.map_values(f).first() == ls[0] + seq!['\n']);
        assert(with_line_feeds(ls) =~= ls[0] + seq!['\n'] + with_line_feeds(rest));
        assert forall|i: int| 0 <= i < ls[0].len() implies ls[0][i] != '\n' by {
        }
        law_lines(ls[0], with_line_feeds(rest));
        assert(seq![ls[0]] + rest =~= ls);
    } else {
        assert(with_line_feeds(ls) =~= Seq::<char>::empty());
        assert(lines(with_line_feeds(ls)) =~= ls);
    }
}

} // verus!
