//! What trees hold at their paths, and trees themselves, as plain values.

use vstd::prelude::*;

use crate::fs_path;

verus! {

/// What a tree holds at a path.
#[derive(Debug, PartialEq, Eq)]
pub enum TreeValue {
    File { id: Vec<u8>, executable: bool, copy_id: Vec<u8> },
    Symlink(Vec<u8>),
    Tree(Vec<u8>),
    GitSubmodule(Vec<u8>),
}

/// What a [`TreeValue`] stands for.
pub enum TreeEntry {
    File { id: Seq<u8>, executable: bool, copy_id: Seq<u8> },
    Symlink(Seq<u8>),
    Tree(Seq<u8>),
    GitSubmodule(Seq<u8>),
}

impl View for TreeValue {
    type V = TreeEntry;

    open spec fn view(&self) -> TreeEntry {
        match *self {
            TreeValue::File { id, executable, copy_id } => TreeEntry::File {
                id: id@,
                executable,
                copy_id: copy_id@,
            },
            TreeValue::Symlink(id) => TreeEntry::Symlink(id@),
            TreeValue::Tree(id) => TreeEntry::Tree(id@),
            TreeValue::GitSubmodule(id) => TreeEntry::GitSubmodule(id@),
        }
    }
}

impl TreeValue {
    /// Copies this value.
    pub fn duplicate(&self) -> (r: TreeValue)
        ensures
            r@ == self@,
    {
        match self {
            TreeValue::File { id, executable, copy_id } => TreeValue::File {
                id: fs_path::copy_bytes(id),
                executable: *executable,
                copy_id: fs_path::copy_bytes(copy_id),
            },
            TreeValue::Symlink(id) => TreeValue::Symlink(fs_path::copy_bytes(id)),
            TreeValue::Tree(id) => TreeValue::Tree(fs_path::copy_bytes(id)),
            TreeValue::GitSubmodule(id) => TreeValue::GitSubmodule(fs_path::copy_bytes(id)),
        }
    }

    /// Whether two values are the same.
    pub fn same_as(&self, other: &TreeValue) -> (r: bool)
        ensures
            r == (self@ == other@),
    {
        match (self, other) {
            (
                TreeValue::File { id: a, executable: x, copy_id: c },
                TreeValue::File { id: b, executable: y, copy_id: d },
            ) => fs_path::same_bytes(a, b) && *x == *y && fs_path::same_bytes(c, d),
            (TreeValue::Symlink(a), TreeValue::Symlink(b)) => fs_path::same_bytes(a, b),
            (TreeValue::Tree(a), TreeValue::Tree(b)) => fs_path::same_bytes(a, b),
            (TreeValue::GitSubmodule(a), TreeValue::GitSubmodule(b)) => fs_path::same_bytes(a, b),
            _ => false,
        }
    }
}

/// What a term of a [`MergedTreeValue`] stands for.
pub open spec fn term_entry(term: Option<TreeValue>) -> Option<TreeEntry> {
    match term {
        Some(value) => Some(value@),
        None => None,
    }
}

/// What a tree with conflicts holds at a path: the terms of a merge, first a
/// side, then by turns a base to take off and a side to put on. A single term
/// is no conflict.
#[derive(Debug, PartialEq, Eq)]
pub struct MergedTreeValue {
    terms: Vec<Option<TreeValue>>,
}

impl View for MergedTreeValue {
    type V = Seq<Option<TreeEntry>>;

    closed spec fn view(&self) -> Seq<Option<TreeEntry>> {
        self.terms@.map_values(|term: Option<TreeValue>| term_entry(term))
    }
}

/// Whether a merge has settled on nothing being there.
pub open spec fn absent(terms: Seq<Option<TreeEntry>>) -> bool {
    terms == seq![None::<TreeEntry>]
}

/// What a merge has settled on, if it has and there is something.
pub open spec fn settled(terms: Seq<Option<TreeEntry>>) -> Option<TreeEntry> {
    if terms.len() == 1 {
        terms[0]
    } else {
        None
    }
}

/// Whether every term of a merge is a file or nothing.
pub open spec fn only_files(terms: Seq<Option<TreeEntry>>) -> bool {
    forall|i: int|
        0 <= i < terms.len() ==> ((#[trigger] terms[i]) is None || terms[i]->0 is File)
}

impl MergedTreeValue {
    /// The merge with the given terms.
    pub fn from_terms(terms: Vec<Option<TreeValue>>) -> (r: MergedTreeValue)
        ensures
            r@ == terms@.map_values(|term: Option<TreeValue>| term_entry(term)),
    {
        MergedTreeValue { terms }
    }

    /// Nothing is there.
    pub fn absent() -> (r: MergedTreeValue)
        ensures
            absent(r@),
    {
        let mut terms: Vec<Option<TreeValue>> = Vec::new();
        terms.push(None);
        let r = MergedTreeValue { terms };
        assert(r@ =~= seq![None::<TreeEntry>]);
        r
    }

    /// The value is there.
    pub fn normal(value: TreeValue) -> (r: MergedTreeValue)
        ensures
            r@ == seq![Some(value@)],
    {
        let mut terms: Vec<Option<TreeValue>> = Vec::new();
        terms.push(Some(value));
        let r = MergedTreeValue { terms };
        assert(r@ =~= seq![Some(value@)]);
        r
    }

    /// How many terms there are.
    pub fn len(&self) -> (r: usize)
        ensures
            r == self@.len(),
    {
        self.terms.len()
    }

    /// Term number `i`, counted from 0.
    pub fn term(&self, i: usize) -> (r: Option<&TreeValue>)
        requires
            i < self@.len(),
        ensures
            match r {
                Some(value) => self@[i as int] == Some(value@),
                None => self@[i as int] is None,
            },
    {
        self.terms[i].as_ref()
    }

    /// Whether there is no conflict.
    pub fn is_resolved(&self) -> (r: bool)
        ensures
            r == (self@.len() == 1),
    {
        self.terms.len() == 1
    }

    /// Whether there is no conflict and nothing is there.
    pub fn is_absent(&self) -> (r: bool)
        ensures
            r == absent(self@),
    {
        let r = self.terms.len() == 1 && self.terms[0].is_none();
        proof {
            if r {
                assert(self@ =~= seq![None::<TreeEntry>]);
            } else if absent(self@) {
                assert(self@.len() == 1);
                assert(self@[0] == term_entry(self.terms@[0]));
            }
        }
        r
    }

    /// What is there, if it is not in conflict.
    pub fn as_normal(&self) -> (r: Option<&TreeValue>)
        ensures
            match r {
                Some(value) => settled(self@) == Some(value@),
                None => settled(self@) is None,
            },
    {
        if self.terms.len() == 1 {
            self.terms[0].as_ref()
        } else {
            None
        }
    }

    /// Whether every term is a file or nothing.
    pub fn has_only_files(&self) -> (r: bool)
        ensures
            r == only_files(self@),
    {
        let mut i: usize = 0;
        while i < self.terms.len()
            invariant
                i <= self@.len(),
                forall|j: int|
                    0 <= j < i ==> ((#[trigger] self@[j]) is None || self@[j]->0 is File),
            decreases self@.len() - i,
        {
            match &self.terms[i] {
                None => {},
                Some(TreeValue::File { .. }) => {},
                Some(_) => {
                    assert(!(self@[i as int] is None || self@[i as int]->0 is File));
                    return false;
                },
            }
            i += 1;
        }
        true
    }

    /// Copies this value.
    pub fn duplicate(&self) -> (r: MergedTreeValue)
        ensures
            r@ == self@,
    {
        let mut terms: Vec<Option<TreeValue>> = Vec::new();
        let mut i: usize = 0;
        while i < self.terms.len()
            invariant
                i <= self@.len(),
                i == terms@.len(),
                forall|j: int| 0 <= j < i ==> term_entry(#[trigger] terms@[j]) == self@[j],
            decreases self@.len() - i,
        {
            let term = match &self.terms[i] {
                Some(value) => Some(value.duplicate()),
                None => None,
            };
            terms.push(term);
            i += 1;
        }
        let r = MergedTreeValue { terms };
        assert(r@ =~= self@);
        r
    }

    /// Whether two values are the same.
    pub fn same_as(&self, other: &MergedTreeValue) -> (r: bool)
        ensures
            r == (self@ == other@),
    {
        if self.terms.len() != other.terms.len() {
            assert(self@.len() != other@.len());
            return false;
        }
        let mut i: usize = 0;
        while i < self.terms.len()
            invariant
                i <= self@.len() == other@.len(),
                forall|j: int| 0 <= j < i ==> self@[j] == other@[j],
            decreases self@.len() - i,
        {
            let same = match (&self.terms[i], &other.terms[i]) {
                (None, None) => true,
                (Some(a), Some(b)) => a.same_as(b),
                _ => false,
            };
            if !same {
                assert(self@[i as int] != other@[i as int]);
                return false;
            }
            i += 1;
        }
        assert(self@ =~= other@);
        true
    }
}

/// A tree, possibly with conflicts: the ids of its terms, and what the sides of
/// its conflicts are called.
#[derive(Debug, PartialEq, Eq)]
pub struct MergedTree {
    pub tree_ids: Vec<Vec<u8>>,
    pub labels: Vec<String>,
}

/// What a [`MergedTree`] stands for.
pub struct TreeIdsAndLabels {
    pub tree_ids: Seq<Seq<u8>>,
    pub labels: Seq<Seq<char>>,
}

impl View for MergedTree {
    type V = TreeIdsAndLabels;

    open spec fn view(&self) -> TreeIdsAndLabels {
        TreeIdsAndLabels {
            tree_ids: self.tree_ids@.map_values(|id: Vec<u8>| id@),
            labels: self.labels@.map_values(|label: String| label@),
        }
    }
}

impl MergedTree {
    /// How many sides the tree has.
    pub open spec fn num_sides(self) -> nat {
        (self.tree_ids@.len() + 1) / 2
    }

    /// A tree without conflicts.
    pub fn resolved(tree_id: Vec<u8>) -> (r: MergedTree)
        ensures
            r@ == (TreeIdsAndLabels { tree_ids: seq![tree_id@], labels: Seq::empty() }),
    {
        let mut tree_ids: Vec<Vec<u8>> = Vec::new();
        tree_ids.push(tree_id);
        let r = MergedTree { tree_ids, labels: Vec::new() };
        assert(r@.tree_ids =~= seq![tree_id@]);
        assert(r@.labels =~= Seq::empty());
        r
    }

    /// Copies this tree.
    pub fn duplicate(&self) -> (r: MergedTree)
        ensures
            r@ == self@,
            r.tree_ids@.len() == self.tree_ids@.len(),
    {
        let mut tree_ids: Vec<Vec<u8>> = Vec::new();
        let mut i: usize = 0;
        while i < self.tree_ids.len()
            invariant
                i <= self.tree_ids@.len(),
                i == tree_ids@.len(),
                forall|j: int| 0 <= j < i ==> (#[trigger] tree_ids@[j])@ == self.tree_ids@[j]@,
            decreases self.tree_ids@.len() - i,
        {
            tree_ids.push(fs_path::copy_bytes(&self.tree_ids[i]));
            i += 1;
        }
        let mut labels: Vec<String> = Vec::new();
        let mut i: usize = 0;
        while i < self.labels.len()
            invariant
                i <= self.labels@.len(),
                i == labels@.len(),
                forall|j: int| 0 <= j < i ==> (#[trigger] labels@[j])@ == self.labels@[j]@,
            decreases self.labels@.len() - i,
        {
            labels.push(self.labels[i].clone());
            i += 1;
        }
        let r = MergedTree { tree_ids, labels };
        assert(r@.tree_ids =~= self@.tree_ids);
        assert(r@.labels =~= self@.labels);
        r
    }

    /// Whether the conflicts of two trees have the same labels.
    pub fn same_labels(&self, other: &MergedTree) -> (r: bool)
        ensures
            r == (self@.labels == other@.labels),
    {
        if self.labels.len() != other.labels.len() {
            assert(self@.labels.len() != other@.labels.len());
            return false;
        }
        let mut i: usize = 0;
        while i < self.labels.len()
            invariant
                i <= self.labels@.len() == other.labels@.len(),
                forall|j: int| 0 <= j < i ==> self@.labels[j] == other@.labels[j],
            decreases self.labels@.len() - i,
        {
            if self.labels[i] != other.labels[i] {
                assert(self@.labels[i as int] != other@.labels[i as int]);
                return false;
            }
            i += 1;
        }
        assert(self@.labels =~= other@.labels);
        true
    }

    /// Whether two trees have the same ids and labels.
    pub fn same_as(&self, other: &MergedTree) -> (r: bool)
        ensures
            r == (self@ == other@),
    {
        if !self.same_labels(other) || self.tree_ids.len() != other.tree_ids.len() {
            proof {
                if self.tree_ids@.len() != other.tree_ids@.len() {
                    assert(self@.tree_ids.len() != other@.tree_ids.len());
                }
            }
            return false;
        }
        let mut i: usize = 0;
        while i < self.tree_ids.len()
            invariant
                i <= self.tree_ids@.len() == other.tree_ids@.len(),
                forall|j: int| 0 <= j < i ==> self@.tree_ids[j] == other@.tree_ids[j],
            decreases self.tree_ids@.len() - i,
        {
            if !fs_path::same_bytes(&self.tree_ids[i], &other.tree_ids[i]) {
                assert(self@.tree_ids[i as int] != other@.tree_ids[i as int]);
                return false;
            }
            i += 1;
        }
        assert(self@.tree_ids =~= other@.tree_ids);
        true
    }
}

/// What is there by a merge is what it has settled on. There is a conflict exactly if there
/// are several terms.
pub proof fn lemma_merge_settled(
    value: MergedTreeValue,
    is_resolved: bool,
    is_absent: bool,
    normal: Option<&TreeValue>,
    only_files: bool,
)
    requires
        call_ensures(MergedTreeValue::is_resolved, (&value,), is_resolved),
        call_ensures(MergedTreeValue::is_absent, (&value,), is_absent),
        call_ensures(MergedTreeValue::as_normal, (&value,), normal),
        call_ensures(MergedTreeValue::has_only_files, (&value,), only_files),
    ensures
        is_resolved <==> value@.len() == 1,
        is_absent <==> is_resolved && value@[0] is None,
        normal is Some <==> is_resolved && value@[0] is Some,
        normal is Some ==> normal->0@ == value@[0]->0,
        !only_files <==> exists|i: int|
            0 <= i < value@.len() && (#[trigger] value@[i] is Some) && !(value@[i]->0 is File),
{
    if value@.len() == 1 && value@[0] is None {
        assert(value@ =~= seq![None::<TreeEntry>]);
    }
}

/// A value is there if it was put there, and nothing if nothing was.
pub proof fn lemma_merge_of_one(
    value: TreeValue,
    terms: Vec<Option<TreeValue>>,
    there: MergedTreeValue,
    nothing: MergedTreeValue,
    merge: MergedTreeValue,
    i: int,
)
    requires
        call_ensures(MergedTreeValue::normal, (value,), there),
        call_ensures(MergedTreeValue::absent, (), nothing),
        call_ensures(MergedTreeValue::from_terms, (terms,), merge),
    ensures
        there@.len() == 1 && there@[0] == Some(value@),
        nothing@.len() == 1 && nothing@[0] is None,
        merge@.len() == terms@.len(),
        0 <= i < terms@.len() ==> (merge@[i] is Some <==> terms@[i] is Some),
        0 <= i < terms@.len() && terms@[i] is Some ==> merge@[i]->0 == terms@[i]->0@,
{
}

/// Values, merges and trees are the same exactly if all of their parts are.
pub proof fn lemma_same_values(
    a: TreeValue,
    b: TreeValue,
    same: bool,
    p: MergedTreeValue,
    q: MergedTreeValue,
    same_merge: bool,
    s: MergedTree,
    t: MergedTree,
    same_tree: bool,
    same_labels: bool,
)
    requires
        call_ensures(TreeValue::same_as, (&a, &b), same),
        call_ensures(MergedTreeValue::same_as, (&p, &q), same_merge),
        call_ensures(MergedTree::same_as, (&s, &t), same_tree),
        call_ensures(MergedTree::same_labels, (&s, &t), same_labels),
    ensures
        same <==> a@ == b@,
        same_merge <==> p@.len() == q@.len() && forall|i: int|
            0 <= i < p@.len() ==> #[trigger] p@[i] == q@[i],
        same_tree <==> s@.tree_ids == t@.tree_ids && same_labels,
        same_labels <==> s@.labels == t@.labels,
{
    if p@.len() == q@.len() && forall|i: int| 0 <= i < p@.len() ==> #[trigger] p@[i] == q@[i] {
        assert(p@ =~= q@);
    }
}

/// The terms of a merge are those from which it was made, in order. A tree that is no merge
/// has one id and no labels.
pub proof fn lemma_terms_told(
    merge: MergedTreeValue,
    len: usize,
    i: usize,
    term: Option<&TreeValue>,
    tree_id: Vec<u8>,
    tree: MergedTree,
)
    requires
        i < merge@.len(),
        call_ensures(MergedTreeValue::len, (&merge,), len),
        call_ensures(MergedTreeValue::term, (&merge, i), term),
        call_ensures(MergedTree::resolved, (tree_id,), tree),
    ensures
        len == merge@.len(),
        term is Some <==> merge@[i as int] is Some,
        term is Some ==> merge@[i as int]->0 == term->0@,
        tree@.tree_ids.len() == 1,
        tree@.tree_ids[0] == tree_id@,
        tree@.labels.len() == 0,
{
}

} // verus!
