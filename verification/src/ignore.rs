//! Files that need no review: paths that match one of the configured glob patterns.
use vstd::prelude::*;

use crate::text::string_texts;

verus! {

/// Whether the glob pattern `pattern` matches `path` on the platform `target`, which is named as
/// compilers name it; none where it is no valid pattern there.
pub uninterp spec fn glob_verdict(
    target: Seq<char>,
    pattern: Seq<char>,
    path: Seq<char>,
) -> Option<bool>;

/// `s` reads the same on every platform: it holds no backslash, which separates directories on
/// some platforms only.
pub open spec fn is_portable(s: Seq<char>) -> bool {
    !s.contains('\\')
}

/// `pattern` holds no bracket and no two stars in a row, so that nothing in it but `?` and `*`
/// means something else than itself.
pub open spec fn is_simple(pattern: Seq<char>) -> bool {
    &&& !pattern.contains('[')
    &&& forall|i: int|
        0 <= i < pattern.len() - 1 && #[trigger] pattern[i] == '*' ==> pattern[i + 1] != '*'
}

/// `path` is as the simple pattern says: `?` stands for any one character, `*` for any number of
/// characters or none, and every other character for itself.
pub open spec fn wildcard(pattern: Seq<char>, path: Seq<char>) -> bool
    decreases pattern.len(), path.len(),
{
    if pattern.len() == 0 {
        path.len() == 0
    } else if pattern[0] == '*' {
        wildcard(pattern.drop_first(), path) || (path.len() > 0 && wildcard(
            pattern,
            path.drop_first(),
        ))
    } else {
        path.len() > 0 && (pattern[0] == '?' || pattern[0] == path[0]) && wildcard(
            pattern.drop_first(),
            path.drop_first(),
        )
    }
}

/// `glob::Pattern::new`, and `glob::Pattern::matches` on the pattern that it gave.
///
/// `Pattern::new` and `matches` look at the pattern and the path alone, and at which characters
/// separate directories on the platform that the program runs on: the answer is what
/// [`glob_verdict`] is on that platform, and without a backslash in either it is the same on every
/// platform. A pattern in which only `?` and `*` mean something else than themselves is then valid
/// and matches as [`wildcard`] says.
#[verifier::external_body]
fn glob_matches(pattern: &str, path: &str) -> (r: Option<bool>)
    ensures
        exists|target: Seq<char>| r == #[trigger] glob_verdict(target, pattern@, path@),
        is_portable(pattern@) && is_portable(path@) ==> forall|target: Seq<char>|
            r == #[trigger] glob_verdict(target, pattern@, path@),
        is_portable(pattern@) && is_portable(path@) && is_simple(pattern@) ==> r == Some(
            wildcard(pattern@, path@),
        ),
{
    glob::Pattern::new(pattern).ok().map(|p| p.matches(path))
}

/// Whether the pattern matches the path on the platform `target`; none where it is no valid
/// pattern there. Where neither holds a backslash the platform does not matter.
pub open spec fn verdict(target: Seq<char>, pattern: Seq<char>, path: Seq<char>) -> Option<bool> {
    if !is_portable(pattern) || !is_portable(path) {
        glob_verdict(target, pattern, path)
    } else if is_simple(pattern) {
        Some(wildcard(pattern, path))
    } else {
        glob_verdict(Seq::empty(), pattern, path)
    }
}

/// `ignored` answers whether one of the patterns matches the path, each pattern as it is read on
/// the platform that `targets` gives for it. A pattern that is not valid matches nothing.
pub open spec fn answers_on(
    targets: Seq<Seq<char>>,
    patterns: Seq<Seq<char>>,
    path: Seq<char>,
    ignored: bool,
) -> bool {
    ignored == exists|i: int|
        0 <= i < patterns.len() && #[trigger] verdict(targets[i], patterns[i], path) == Some(true)
}

/// `ignored` answers whether one of the patterns matches the path.
pub open spec fn is_answer(patterns: Seq<Seq<char>>, path: Seq<char>, ignored: bool) -> bool {
    exists|targets: Seq<Seq<char>>|
        targets.len() == patterns.len() && #[trigger] answers_on(targets, patterns, path, ignored)
}

/// Whether the pattern matches the path.
fn matches(pattern: &str, path: &str) -> (r: bool)
    ensures
        exists|target: Seq<char>|
            r == (#[trigger] verdict(target, pattern@, path@) == Some(true)),
{
    let found = glob_matches(pattern, path);
    let ghost here = choose|target: Seq<char>| found == #[trigger] glob_verdict(
        target,
        pattern@,
        path@,
    );
    assert(is_portable(pattern@) && is_portable(path@) ==> found == glob_verdict(
        Seq::empty(),
        pattern@,
        path@,
    ));
    assert(found == verdict(here, pattern@, path@));
    found == Some(true)
}

/// Whether one of the patterns matches the path.
pub fn is_ignored(patterns: &Vec<String>, path: &str) -> (r: bool)
    ensures
        is_answer(string_texts(patterns@), path@, r),
{
    let ghost all = string_texts(patterns@);
    let ghost mut targets: Seq<Seq<char>> = Seq::new(all.len(), |i: int| Seq::<char>::empty());
    let mut i: usize = 0;
    while i < patterns.len()
        invariant
            i <= patterns.len(),
            all == string_texts(patterns@),
            targets.len() == all.len(),
            forall|j: int|
                0 <= j < i ==> #[trigger] verdict(targets[j], all[j], path@) != Some(true),
        decreases patterns.len() - i,
    {
        assert(all[i as int] == patterns@[i as int]@);
        let found = matches(patterns[i].as_str(), path);
        proof {
            let here = choose|target: Seq<char>|
                found == (#[trigger] verdict(target, all[i as int], path@) == Some(true));
            let known = targets;
            targets = targets.update(i as int, here);
            assert forall|j: int| 0 <= j < i implies #[trigger] verdict(targets[j], all[j], path@)
                != Some(true) by {
                assert(targets[j] == known[j]);
                assert(verdict(known[j], all[j], path@) != Some(true));
            }
            assert(found == (verdict(targets[i as int], all[i as int], path@) == Some(true)));
        }
        if found {
            assert(answers_on(targets, all, path@, true));
            return true;
        }
        i += 1;
    }
    assert(answers_on(targets, all, path@, false));
    false
}

// ── Laws ────────────────────────────────────────────────────────────────────────────────────────

/// Where no pattern and no path holds a backslash, there is one answer, the same on every platform:
/// that some pattern matches.
pub proof fn law_one_answer(
    patterns: Seq<Seq<char>>,
    path: Seq<char>,
    ignored: bool,
    target: Seq<char>,
)
    requires
        is_portable(path),
        forall|i: int| 0 <= i < patterns.len() ==> is_portable(#[trigger] patterns[i]),
        is_answer(patterns, path, ignored),
    ensures
        ignored <==> exists|i: int|
            0 <= i < patterns.len() && verdict(target, #[trigger] patterns[i], path) == Some(true),
{
    let targets = choose|targets: Seq<Seq<char>>|
        targets.len() == patterns.len() && #[trigger] answers_on(targets, patterns, path, ignored);
    assert forall|i: int| 0 <= i < patterns.len() implies verdict(target, patterns[i], path)
        == #[trigger] verdict(targets[i], patterns[i], path) by {
        assert(is_portable(patterns[i]));
    }
    if ignored {
        let i = choose|i: int|
            0 <= i < patterns.len() && #[trigger] verdict(targets[i], patterns[i], path) == Some(
                true,
            );
        assert(verdict(target, patterns[i], path) == Some(true));
    }
    if exists|i: int|
        0 <= i < patterns.len() && verdict(target, #[trigger] patterns[i], path) == Some(true) {
        let i = choose|i: int|
            0 <= i < patterns.len() && verdict(target, #[trigger] patterns[i], path) == Some(true);
        assert(verdict(targets[i], patterns[i], path) == Some(true));
    }
}

/// Without a pattern nothing is ignored.
pub proof fn law_no_pattern(path: Seq<char>, ignored: bool)
    requires
        is_answer(Seq::empty(), path, ignored),
    ensures
        !ignored,
{
}

/// A pattern without `?`, `*` and brackets matches the one path that it spells.
pub proof fn law_literal_pattern(target: Seq<char>, pattern: Seq<char>, path: Seq<char>)
    requires
        is_portable(pattern),
        is_portable(path),
        !pattern.contains('?'),
        !pattern.contains('*'),
        !pattern.contains('['),
    ensures
        verdict(target, pattern, path) == Some(pattern == path),
{
    assert(is_simple(pattern)) by {
        assert forall|i: int|
            0 <= i < pattern.len() - 1 && #[trigger] pattern[i] == '*' implies pattern[i + 1]
            != '*' by {
            assert(pattern.contains(pattern[i]));
        }
    }
    lemma_literal(pattern, path);
}

proof fn lemma_literal(pattern: Seq<char>, path: Seq<char>)
    requires
        !pattern.contains('?'),
        !pattern.contains('*'),
    ensures
        wildcard(pattern, path) == (pattern == path),
    decreases pattern.len(),
{
    if pattern.len() == 0 {
        assert(path.len() == 0 ==> pattern =~= path);
    } else {
        let p = pattern.drop_first();
        assert(pattern.contains(pattern[0]));
        assert(!p.contains('?') && !p.contains('*')) by {
            if p.contains('?') {
                let k = p.index_of('?');
                assert(pattern[k + 1] == '?');
            }
            if p.contains('*') {
                let k = p.index_of('*');
                assert(pattern[k + 1] == '*');
            }
        }
        if path.len() > 0 {
            lemma_literal(p, path.drop_first());
            if pattern[0] == path[0] && p == path.drop_first() {
                assert(pattern =~= seq![pattern[0]] + p);
                assert(path =~= seq![path[0]] + path.drop_first());
            }
        }
    }
}

/// A pattern of a star and an ending without `?`, `*` and brackets matches every path that ends
/// so, in whichever directory.
pub proof fn law_ending_pattern(target: Seq<char>, ending: Seq<char>, stem: Seq<char>)
    requires
        is_portable(ending),
        is_portable(stem),
        !ending.contains('?'),
        !ending.contains('*'),
        !ending.contains('['),
    ensures
        verdict(target, seq!['*'] + ending, stem + ending) == Some(true),
{
    let pattern = seq!['*'] + ending;
    assert(pattern.drop_first() =~= ending);
    assert(is_simple(pattern)) by {
        assert(!pattern.contains('[')) by {
            if pattern.contains('[') {
                let k = pattern.index_of('[');
                assert(ending[k - 1] == '[');
            }
        }
        assert forall|i: int|
            0 <= i < pattern.len() - 1 && #[trigger] pattern[i] == '*' implies pattern[i + 1]
            != '*' by {
            assert(pattern[i + 1] == ending[i]);
            assert(ending.contains(ending[i]));
        }
    }
    assert(is_portable(pattern)) by {
        if pattern.contains('\\') {
            let k = pattern.index_of('\\');
            assert(ending[k - 1] == '\\');
        }
    }
    assert(is_portable(stem + ending)) by {
        let all = stem + ending;
        if all.contains('\\') {
            let k = all.index_of('\\');
            if k < stem.len() {
                assert(stem[k] == '\\');
            } else {
                assert(ending[k - stem.len()] == '\\');
            }
        }
    }
    lemma_ending(ending, stem);
}

proof fn lemma_ending(ending: Seq<char>, stem: Seq<char>)
    requires
        !ending.contains('?'),
        !ending.contains('*'),
    ensures
        wildcard(seq!['*'] + ending, stem + ending),
    decreases stem.len(),
{
    let pattern = seq!['*'] + ending;
    assert(pattern.drop_first() =~= ending);
    if stem.len() == 0 {
        assert(stem + ending =~= ending);
        lemma_literal(ending, ending);
    } else {
        lemma_ending(ending, stem.drop_first());
        assert((stem + ending).drop_first() =~= stem.drop_first() + ending);
    }
}

/// A simple pattern is read character by character: `?` stands for any one character, `*` for any
/// part, the empty one too, and any other character for itself.
pub proof fn law_wildcard(c: char, pattern: Seq<char>, path: Seq<char>)
    ensures
        wildcard(Seq::empty(), path) <==> path.len() == 0,
        c != '*' ==> (wildcard(seq![c] + pattern, path) <==> path.len() > 0 && (c == '?' || c
            == path[0]) && wildcard(pattern, path.drop_first())),
        wildcard(seq!['*'] + pattern, path) <==> exists|k: int|
            0 <= k <= path.len() && #[trigger] wildcard(pattern, path.skip(k)),
    decreases path.len(),
{
    let all = seq![c] + pattern;
    let star = seq!['*'] + pattern;
    assert(all.drop_first() =~= pattern);
    assert(star.drop_first() =~= pattern);
    assert(path.skip(0) =~= path);
    if path.len() > 0 {
        let rest = path.drop_first();
        law_wildcard(c, pattern, rest);
        if exists|k: int| 0 <= k <= path.len() && #[trigger] wildcard(pattern, path.skip(k)) {
            let k = choose|k: int|
                0 <= k <= path.len() && #[trigger] wildcard(pattern, path.skip(k));
            if k > 0 {
                assert(rest.skip(k - 1) =~= path.skip(k));
                assert(wildcard(pattern, rest.skip(k - 1)));
            }
        }
        if wildcard(star, rest) {
            let k = choose|k: int|
                0 <= k <= rest.len() && #[trigger] wildcard(pattern, rest.skip(k));
            assert(rest.skip(k) =~= path.skip(k + 1));
            assert(wildcard(pattern, path.skip(k + 1)));
        }
        if wildcard(pattern, path) {
            assert(wildcard(pattern, path.skip(0)));
        }
    } else {
        if wildcard(pattern, path) {
            assert(wildcard(pattern, path.skip(0)));
        }
    }
}

/// A file is ignored if one of the patterns matches it, and is not if none does, where no pattern
/// and no path holds a backslash and every pattern is simple.
pub proof fn law_ignored(patterns: Seq<Seq<char>>, path: Seq<char>, ignored: bool)
    requires
        is_answer(patterns, path, ignored),
        !path.contains('\\'),
        forall|i: int|
            0 <= i < patterns.len() ==> !(#[trigger] patterns[i]).contains('\\')
                && !patterns[i].contains('['),
        forall|i: int, k: int|
            0 <= i < patterns.len() && 0 <= k < patterns[i].len() - 1 && #[trigger] patterns[i][k]
                == '*' ==> patterns[i][k + 1] != '*',
    ensures
        ignored <==> exists|i: int| 0 <= i < patterns.len() && wildcard(#[trigger] patterns[i], path),
{
    let targets = choose|targets: Seq<Seq<char>>|
        targets.len() == patterns.len() && #[trigger] answers_on(targets, patterns, path, ignored);
    assert forall|i: int| 0 <= i < patterns.len() implies #[trigger] verdict(
        targets[i],
        patterns[i],
        path,
    ) == Some(wildcard(patterns[i], path)) by {
        assert(!patterns[i].contains('\\'));
        assert(is_simple(patterns[i]));
    }
    if exists|i: int| 0 <= i < patterns.len() && wildcard(#[trigger] patterns[i], path) {
        let i = choose|i: int| 0 <= i < patterns.len() && wildcard(#[trigger] patterns[i], path);
        assert(verdict(targets[i], patterns[i], path) == Some(true));
    }
    if ignored {
        let i = choose|i: int|
            0 <= i < patterns.len() && #[trigger] verdict(targets[i], patterns[i], path) == Some(
                true,
            );
        assert(wildcard(patterns[i], path));
    }
}

} // verus!
