//! Maps from a repository's files to what is known of each.
use vstd::prelude::*;

use crate::text::{same_text, string_texts};

verus! {

/// A map keyed by repo-relative path. It holds each path once and keeps the order in which the
/// paths first came.
#[derive(Debug)]
pub struct FileMap<V> {
    entries: Vec<(String, V)>,
}

impl<V> View for FileMap<V> {
    type V = Map<Seq<char>, V>;

    closed spec fn view(&self) -> Map<Seq<char>, V> {
        Map::new(
            |path: Seq<char>| self.paths().contains(path),
            |path: Seq<char>| self.entries@[self.paths().index_of(path)].1,
        )
    }
}

impl<V> FileMap<V> {
    /// The paths, in the order in which they first came.
    pub closed spec fn paths(&self) -> Seq<Seq<char>> {
        self.entries@.map_values(|e: (String, V)| e.0@)
    }

    #[verifier::type_invariant]
    spec fn each_once(&self) -> bool {
        self.paths().no_duplicates()
    }

    /// A map of no file.
    pub fn new() -> (map: Self)
        ensures
            map@ == Map::<Seq<char>, V>::empty(),
            map.paths() == Seq::<Seq<char>>::empty(),
    {
        let map = FileMap { entries: Vec::new() };
        assert(map.paths() =~= Seq::<Seq<char>>::empty());
        assert(map@ =~= Map::<Seq<char>, V>::empty());
        map
    }

    /// Index of the entry for `path`.
    fn position(&self, path: &str) -> (r: Option<usize>)
        ensures
            (match r {
                Some(i) => i < self.entries@.len() && self.paths()[i as int] == path@
                    && self.paths().index_of(path@) == i && self@.contains_key(path@)
                    && self@[path@] == self.entries@[i as int].1,
                None => !self@.contains_key(path@) && !self.paths().contains(path@),
            }),
    {
        proof {
            use_type_invariant(self);
        }
        let mut i: usize = 0;
        while i < self.entries.len()
            invariant
                i <= self.entries.len(),
                self.paths().no_duplicates(),
                forall|j: int| 0 <= j < i ==> #[trigger] self.paths()[j] != path@,
            decreases self.entries.len() - i,
        {
            if same_text(self.entries[i].0.as_str(), path) {
                assert(self.paths()[i as int] == path@);
                assert(self.paths().index_of(path@) == i);
                return Some(i);
            }
            assert(self.paths()[i as int] != path@);
            i += 1;
        }
        None
    }

    /// What the map holds for `path`.
    pub fn get(&self, path: &str) -> (r: Option<&V>)
        ensures
            (match r {
                Some(v) => self@.contains_key(path@) && *v == self@[path@],
                None => !self@.contains_key(path@),
            }),
    {
        match self.position(path) {
            Some(i) => Some(&self.entries[i].1),
            None => None,
        }
    }

    /// Whether the map holds something for `path`.
    pub fn contains_key(&self, path: &str) -> (r: bool)
        ensures
            r == self@.contains_key(path@),
    {
        self.position(path).is_some()
    }

    /// Number of paths.
    pub fn len(&self) -> (n: usize)
        ensures
            n == self.paths().len(),
            self.paths().no_duplicates(),
            forall|path: Seq<char>| #[trigger]
                self@.contains_key(path) <==> self.paths().contains(path),
    {
        proof {
            use_type_invariant(self);
        }
        self.entries.len()
    }

    /// The path number `i`, in the order in which the paths first came, and what the map holds
    /// for it.
    pub fn at(&self, i: usize) -> (r: (&str, &V))
        requires
            i < self.paths().len(),
        ensures
            r.0@ == self.paths()[i as int],
            self@.contains_key(r.0@),
            *r.1 == self@[r.0@],
    {
        proof {
            use_type_invariant(self);
            assert(self.paths().contains(self.paths()[i as int]));
            assert(self.paths().index_of(self.paths()[i as int]) == i);
        }
        (self.entries[i].0.as_str(), &self.entries[i].1)
    }

    /// The paths, in the order in which they first came.
    pub fn path_list(&self) -> (r: Vec<String>)
        ensures
            string_texts(r@) == self.paths(),
    {
        let mut r: Vec<String> = Vec::new();
        let mut i: usize = 0;
        while i < self.entries.len()
            invariant
                i <= self.entries.len(),
                r.len() == i,
                forall|j: int| 0 <= j < i ==> (#[trigger] r@[j])@ == self.entries@[j].0@,
            decreases self.entries.len() - i,
        {
            r.push(self.entries[i].0.clone());
            i += 1;
        }
        assert(string_texts(r@) =~= self.paths());
        r
    }

    /// Makes `value` what the map holds for `path`.
    pub fn insert(&mut self, path: String, value: V)
        ensures
            final(self)@ == old(self)@.insert(path@, value),
            final(self).paths() == (if old(self)@.contains_key(path@) {
                old(self).paths()
            } else {
                old(self).paths().push(path@)
            }),
            forall|p: Seq<char>| #[trigger]
                final(self)@.contains_key(p) <==> final(self).paths().contains(p),
    {
        let ghost was = *self;
        proof {
            use_type_invariant(&*self);
        }
        let at = self.position(path.as_str());
        let mut entries: Vec<(String, V)> = Vec::new();
        std::mem::swap(&mut entries, &mut self.entries);
        match at {
            Some(i) => {
                entries.set(i, (path, value));
            },
            None => {
                entries.push((path, value));
            },
        }
        let ghost now = FileMap { entries };
        proof {
            match at {
                Some(i) => {
                    assert(now.paths() =~= was.paths());
                },
                None => {
                    assert(now.paths() =~= was.paths().push(path@));
                },
            }
            assert(now.paths().no_duplicates());
            assert forall|p: Seq<char>| now@.contains_key(p) <==> was@.insert(
                path@,
                value,
            ).contains_key(p) by {
                if was.paths().contains(p) {
                    let k = was.paths().index_of(p);
                    assert(now.paths()[k] == p);
                }
                if p == path@ {
                    match at {
                        Some(i) => {
                            assert(now.paths()[i as int] == p);
                        },
                        None => {
                            assert(now.paths()[now.paths().len() - 1] == p);
                        },
                    }
                }
            }
            assert forall|p: Seq<char>| now@.contains_key(p) implies now@[p] == was@.insert(
                path@,
                value,
            )[p] by {
                let k = now.paths().index_of(p);
                if p == path@ {
                    match at {
                        Some(i) => {
                            assert(now.paths()[i as int] == p);
                        },
                        None => {
                            assert(now.paths()[now.paths().len() - 1] == p);
                        },
                    }
                } else {
                    assert(was.paths().contains(p));
                    let w = was.paths().index_of(p);
                    assert(now.paths()[w] == p);
                }
            }
            assert(now@ =~= was@.insert(path@, value));
        }
        self.entries = entries;
    }
}

impl<V: Clone> Clone for FileMap<V> {
    fn clone(&self) -> (r: Self)
        ensures
            r.paths() == self.paths(),
            r@.dom() == self@.dom(),
            forall|path: Seq<char>| #[trigger]
                self@.contains_key(path) ==> cloned(self@[path], r@[path]),
    {
        proof {
            use_type_invariant(self);
        }
        let mut entries: Vec<(String, V)> = Vec::new();
        let mut i: usize = 0;
        while i < self.entries.len()
            invariant
                i <= self.entries.len(),
                entries.len() == i,
                forall|j: int|
                    0 <= j < i ==> (#[trigger] entries@[j]).0@ == self.entries@[j].0@ && cloned(
                        self.entries@[j].1,
                        entries@[j].1,
                    ),
            decreases self.entries.len() - i,
        {
            let value = self.entries[i].1.clone();
            entries.push((self.entries[i].0.clone(), value));
            i += 1;
        }
        assert(FileMap { entries }.paths() =~= self.paths());
        let r = FileMap { entries };
        assert(r@.dom() =~= self@.dom());
        r
    }
}

impl<V> Default for FileMap<V> {
    fn default() -> (map: Self)
        ensures
            map@ == Map::<Seq<char>, V>::empty(),
            map.paths() == Seq::<Seq<char>>::empty(),
    {
        FileMap::new()
    }
}

} // verus!
