//! A set of repository paths.

use vstd::hash_set::StringHashSet;
use vstd::prelude::*;

use crate::repo_path::RepoPath;
use crate::repo_path::RepoPathBuf;

verus! {

/// Paths without duplicates, kept in the order in which they were added.
pub struct PathSet {
    paths: Vec<RepoPathBuf>,
    index: StringHashSet,
}

impl View for PathSet {
    type V = Seq<Seq<char>>;

    closed spec fn view(&self) -> Seq<Seq<char>> {
        self.paths@.map_values(|path: RepoPathBuf| path@)
    }
}

impl PathSet {
    /// Nothing occurs twice, and the index holds exactly the listed paths.
    pub closed spec fn wf(&self) -> bool {
        &&& self@.no_duplicates()
        &&& forall|path: Seq<char>| self.index@.contains(path) <==> #[trigger] self@.contains(path)
    }

    pub fn new() -> (r: PathSet)
        ensures
            r.wf(),
            r@ == Seq::<Seq<char>>::empty(),
    {
        let r = PathSet { paths: Vec::new(), index: StringHashSet::new() };
        assert(r@ =~= Seq::empty());
        r
    }

    /// Adds a path. Returns false if it was there already.
    pub fn insert(&mut self, path: RepoPathBuf) -> (r: bool)
        requires
            old(self).wf(),
        ensures
            final(self).wf(),
            r == !old(self)@.contains(path@),
            final(self)@ == if r {
                old(self)@.push(path@)
            } else {
                old(self)@
            },
    {
        let key = path.clone().into_internal_string();
        if self.index.contains(key.as_str()) {
            return false;
        }
        let ghost before = self@;
        self.index.insert(key);
        self.paths.push(path);
        proof {
            assert(self@ =~= before.push(path@));
            assert forall|p: Seq<char>| self.index@.contains(p) <==> #[trigger] self@.contains(
                p,
            ) by {
                if before.contains(p) {
                    let i = choose|i: int| 0 <= i < before.len() && before[i] == p;
                    assert(self@[i] == p);
                }
                if p == path@ {
                    assert(self@[before.len() as int] == p);
                }
                if self@.contains(p) {
                    let i = choose|i: int| 0 <= i < self@.len() && self@[i] == p;
                    if i < before.len() {
                        assert(before[i] == p);
                    }
                }
            }
            assert forall|i: int, j: int| 0 <= i < self@.len() && 0 <= j < self@.len() && i
                != j implies self@[i] != self@[j] by {
                if i < before.len() && j < before.len() {
                    assert(before[i] != before[j]);
                } else if i < before.len() {
                    assert(before.contains(before[i]));
                } else {
                    assert(before.contains(before[j]));
                }
            }
        }
        true
    }

    pub fn contains(&self, path: RepoPath<'_>) -> (r: bool)
        requires
            self.wf(),
        ensures
            r == self@.contains(path@),
    {
        self.index.contains(path.as_internal_file_string())
    }

    pub fn is_empty(&self) -> (r: bool)
        ensures
            r == (self@.len() == 0),
    {
        self.paths.len() == 0
    }

    pub fn len(&self) -> (r: usize)
        ensures
            r == self@.len(),
    {
        self.paths.len()
    }

    /// The path that was added as number `i`, counted from 0.
    pub fn path(&self, i: usize) -> (r: RepoPath<'_>)
        requires
            i < self@.len(),
        ensures
            r@ == self@[i as int],
    {
        self.paths[i].as_ref()
    }
}

} // verus!
