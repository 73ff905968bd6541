//! A tree that holds a value for each of some repository paths.

use vstd::prelude::*;

use crate::path_model;
use crate::repo_path;
use crate::repo_path::RepoPath;
use crate::repo_path::RepoPathComponent;
use crate::repo_path::RepoPathComponentBuf;
use crate::repo_path::RepoPathComponentsIter;
use crate::text;
use crate::text::Order;

verus! {

/// Tree that maps `RepoPath` to value of type `V`.
#[derive(Debug, PartialEq, Eq)]
pub struct RepoPathTree<V> {
    /// The children by their names, in the order of the names.
    entries: Vec<(RepoPathComponentBuf, RepoPathTree<V>)>,
    value: V,
}

/// Children in the order of their names.
spec fn sorted_names<V>(entries: Seq<(RepoPathComponentBuf, RepoPathTree<V>)>) -> bool {
    forall|i: int, j: int|
        0 <= i < j < entries.len() ==> text::chars_order(
            (#[trigger] entries[i]).0@,
            (#[trigger] entries[j]).0@,
        ) == Order::Less
}

/// Children none of which has the same name as another.
spec fn distinct_names<V>(entries: Seq<(RepoPathComponentBuf, RepoPathTree<V>)>) -> bool {
    forall|i: int, j: int|
        0 <= i < j < entries.len() ==> (#[trigger] entries[i]).0@ != (#[trigger] entries[j]).0@
}

proof fn lemma_sorted_distinct<V>(entries: Seq<(RepoPathComponentBuf, RepoPathTree<V>)>)
    requires
        sorted_names(entries),
    ensures
        distinct_names(entries),
{
    assert forall|i: int, j: int| 0 <= i < j < entries.len() implies (#[trigger] entries[i]).0@ != (
    #[trigger] entries[j]).0@ by {
        text::lemma_chars_order_equal(entries[i].0@, entries[j].0@);
    }
}

/// The child with the given name among some children.
spec fn child_among<V>(
    entries: Seq<(RepoPathComponentBuf, RepoPathTree<V>)>,
    name: Seq<char>,
) -> Option<RepoPathTree<V>> {
    if exists|i: int| 0 <= i < entries.len() && (#[trigger] entries[i]).0@ == name {
        let i = choose|i: int| 0 <= i < entries.len() && (#[trigger] entries[i]).0@ == name;
        Some(entries[i].1)
    } else {
        None
    }
}

impl<V> RepoPathTree<V> {
    /// The children of a node are in the order of their names, and no two have the
    /// same name.
    pub closed spec fn wf(self) -> bool
        decreases self,
    {
        &&& sorted_names(self.entries@)
        &&& forall|i: int| 0 <= i < self.entries@.len() ==> (#[trigger] self.entries@[i]).1.wf()
    }

    /// The value of this node.
    pub closed spec fn node_value(self) -> V {
        self.value
    }

    /// The names of the children of this node.
    pub closed spec fn child_names(self) -> Seq<Seq<char>> {
        self.entries@.map_values(|entry: (RepoPathComponentBuf, RepoPathTree<V>)| entry.0@)
    }

    /// The child with the given name.
    pub closed spec fn child(self, name: Seq<char>) -> Option<RepoPathTree<V>> {
        child_among(self.entries@, name)
    }

    /// The node that the given names lead to.
    pub open spec fn at(self, names: Seq<Seq<char>>) -> Option<RepoPathTree<V>>
        decreases names.len(),
    {
        if names.len() == 0 {
            Some(self)
        } else {
            match self.child(names[0]) {
                Some(child) => child.at(names.drop_first()),
                None => None,
            }
        }
    }

    /// The value at the node that the given names lead to.
    pub open spec fn value_at(self, names: Seq<Seq<char>>) -> Option<V> {
        match self.at(names) {
            Some(node) => Some(node.node_value()),
            None => None,
        }
    }

    /// The value of a node plays no part in its being well-formed.
    proof fn lemma_same_children(self, other: RepoPathTree<V>)
        requires
            self.entries@ == other.entries@,
        ensures
            self.wf() == other.wf(),
    {
        assert(self.wf() ==> other.wf());
        assert(other.wf() ==> self.wf());
    }

    proof fn lemma_child(self, i: int)
        requires
            self.wf(),
            0 <= i < self.entries@.len(),
        ensures
            self.child(self.entries@[i].0@) == Some(self.entries@[i].1),
            self.entries@[i].1.wf(),
    {
        lemma_sorted_distinct(self.entries@);
        let name = self.entries@[i].0@;
        let j = choose|j: int|
            0 <= j < self.entries@.len() && (#[trigger] self.entries@[j]).0@ == name;
        assert(self.entries@[i].0@ == name);
        assert(self.entries@[j].0@ == name);
        assert(i == j);
    }

    /// There is one child for each of the names of the children, and no other. The
    /// names are in order.
    pub proof fn lemma_child_names(self)
        requires
            self.wf(),
        ensures
            self.child_names().no_duplicates(),
            forall|i: int, j: int|
                0 <= i < j < self.child_names().len() ==> text::chars_order(
                    #[trigger] self.child_names()[i],
                    #[trigger] self.child_names()[j],
                ) == Order::Less,
            forall|name: Seq<char>| #[trigger]
                self.child(name) is Some <==> self.child_names().contains(name),
    {
        let names = self.child_names();
        lemma_sorted_distinct(self.entries@);
        assert forall|i: int, j: int| 0 <= i < j < names.len() implies text::chars_order(
            #[trigger] names[i],
            #[trigger] names[j],
        ) == Order::Less by {
            assert(names[i] == self.entries@[i].0@ && names[j] == self.entries@[j].0@);
        }
        assert forall|name: Seq<char>| #[trigger] self.child(name) is Some <==> names.contains(
            name,
        ) by {
            if self.child(name) is Some {
                let i = choose|i: int|
                    0 <= i < self.entries@.len() && (#[trigger] self.entries@[i]).0@ == name;
                assert(names[i] == name);
            }
            if names.contains(name) {
                let i = choose|i: int| 0 <= i < names.len() && names[i] == name;
                self.lemma_child(i);
            }
        }
        assert forall|i: int, j: int| 0 <= i < names.len() && 0 <= j < names.len() && i != j implies
            names[i] != names[j] by {
            if i < j {
                assert(self.entries@[i].0@ != self.entries@[j].0@);
            } else {
                assert(self.entries@[j].0@ != self.entries@[i].0@);
            }
        }
    }

    fn find(&self, name: RepoPathComponent<'_>) -> (r: Option<usize>)
        requires
            self.wf(),
        ensures
            match r {
                Some(i) => {
                    &&& i < self.entries@.len()
                    &&& self.entries@[i as int].0@ == name@
                    &&& self.child(name@) == Some(self.entries@[i as int].1)
                },
                None => self.child(name@) is None && forall|i: int|
                    0 <= i < self.entries@.len() ==> (#[trigger] self.entries@[i]).0@ != name@,
            },
    {
        let mut i: usize = 0;
        while i < self.entries.len()
            invariant
                i <= self.entries@.len(),
                self.wf(),
                forall|j: int| 0 <= j < i ==> (#[trigger] self.entries@[j]).0@ != name@,
            decreases self.entries@.len() - i,
        {
            if self.entries[i].0.as_ref() == name {
                proof {
                    self.lemma_child(i as int);
                }
                return Some(i);
            }
            i += 1;
        }
        None
    }

    /// Where a new child with the given name belongs.
    fn place_for(&self, name: RepoPathComponent<'_>) -> (r: usize)
        requires
            self.wf(),
            self.child(name@) is None,
        ensures
            r <= self.entries@.len(),
            forall|i: int|
                0 <= i < r ==> text::chars_order((#[trigger] self.entries@[i]).0@, name@)
                    == Order::Less,
            forall|i: int|
                r <= i < self.entries@.len() ==> text::chars_order(
                    name@,
                    (#[trigger] self.entries@[i]).0@,
                ) == Order::Less,
    {
        let mut k: usize = 0;
        while k < self.entries.len()
            invariant
                k <= self.entries@.len(),
                self.wf(),
                self.child(name@) is None,
                forall|i: int|
                    0 <= i < k ==> text::chars_order((#[trigger] self.entries@[i]).0@, name@)
                        == Order::Less,
            decreases self.entries@.len() - k,
        {
            let other = &self.entries[k].0;
            match text::str_order(other.as_ref().as_internal_str(), name.as_internal_str()) {
                Order::Less => {},
                _ => {
                    proof {
                        let first = self.entries@[k as int].0@;
                        text::lemma_chars_order_equal(first, name@);
                        text::lemma_chars_order_flip(first, name@);
                        assert forall|i: int|
                            k <= i < self.entries@.len() implies text::chars_order(
                            name@,
                            (#[trigger] self.entries@[i]).0@,
                        ) == Order::Less by {
                            if i > k {
                                text::lemma_chars_order_transitive(
                                    name@,
                                    first,
                                    self.entries@[i].0@,
                                );
                            }
                        }
                    }
                    return k;
                },
            }
            k += 1;
        }
        k
    }

    /// The value associated with this path.
    pub fn value(&self) -> (r: &V)
        ensures
            *r == self.node_value(),
    {
        &self.value
    }

    /// Mutable reference to the value associated with this path.
    pub fn value_mut(&mut self) -> (r: &mut V)
        ensures
            *r == old(self).node_value(),
            final(self).node_value() == *final(r),
            final(self).child_names() == old(self).child_names(),
            forall|name: Seq<char>| #[trigger]
                final(self).child(name) == old(self).child(name),
            final(self).wf() == old(self).wf(),
    {
        proof {
            assert forall|t: RepoPathTree<V>| t.entries == self.entries implies #[trigger] t.wf()
                == self.wf() by {
                t.lemma_same_children(*self);
            }
        }
        &mut self.value
    }

    /// Set the value associated with this path.
    pub fn set_value(&mut self, value: V)
        ensures
            final(self).node_value() == value,
            final(self).child_names() == old(self).child_names(),
            forall|name: Seq<char>| #[trigger]
                final(self).child(name) == old(self).child(name),
            final(self).wf() == old(self).wf(),
    {
        self.value = value;
        proof {
            self.lemma_same_children(*old(self));
        }
    }

    /// The immediate children of this node.
    pub fn children(&self) -> (r: Vec<(RepoPathComponent<'_>, &RepoPathTree<V>)>)
        requires
            self.wf(),
        ensures
            r@.len() == self.child_names().len(),
            forall|i: int|
                0 <= i < r@.len() ==> {
                    &&& (#[trigger] r@[i]).0@ == self.child_names()[i]
                    &&& self.child(r@[i].0@) == Some(*r@[i].1)
                    &&& r@[i].1.wf()
                },
    {
        let mut out: Vec<(RepoPathComponent<'_>, &RepoPathTree<V>)> = Vec::new();
        let mut i: usize = 0;
        while i < self.entries.len()
            invariant
                i <= self.entries@.len(),
                i == out@.len(),
                self.wf(),
                forall|j: int|
                    0 <= j < i ==> {
                        &&& (#[trigger] out@[j]).0@ == self.child_names()[j]
                        &&& self.child(out@[j].0@) == Some(*out@[j].1)
                        &&& out@[j].1.wf()
                    },
            decreases self.entries@.len() - i,
        {
            let entry = &self.entries[i];
            proof {
                self.lemma_child(i as int);
            }
            out.push((entry.0.as_ref(), &entry.1));
            i += 1;
        }
        out
    }

    /// Whether this node has any children.
    pub fn has_children(&self) -> (r: bool)
        ensures
            r == (self.child_names().len() > 0),
    {
        self.entries.len() > 0
    }

    /// Get a reference to the node for the given `path`, if it exists in the
    /// tree.
    pub fn get(&self, path: RepoPath<'_>) -> (r: Option<&RepoPathTree<V>>)
        requires
            self.wf(),
        ensures
            match r {
                Some(node) => self.at(path_model::components(path@)) == Some(*node) && node.wf(),
                None => self.at(path_model::components(path@)) is None,
            },
    {
        let ghost names = path_model::components(path@);
        let mut components = path.components();
        let mut node = self;
        loop
            invariant
                names == path_model::components(path@),
                node.wf(),
                self.at(names) == node.at(path_model::components(components@)),
            decreases components@.len(),
        {
            let ghost rest = path_model::components(components@);
            match components.next() {
                None => {
                    return Some(node);
                },
                Some(name) => {
                    assert(rest.drop_first() =~= path_model::components(components@));
                    match node.find(name) {
                        Some(i) => {
                            proof {
                                node.lemma_child(i as int);
                            }
                            node = &node.entries[i].1;
                        },
                        None => {
                            return None;
                        },
                    }
                },
            }
        }
    }

    /// Walks the tree from the root to the given `path`, listing each sub tree
    /// and remaining path.
    pub fn walk_to<'a, 'b>(&'a self, path: RepoPath<'b>) -> (r: Vec<
        (&'a RepoPathTree<V>, RepoPath<'b>),
    >)
        requires
            self.wf(),
        ensures
            r@.len() > 0,
            r@.len() <= path_model::components(path@).len() + 1,
            forall|i: int|
                0 <= i < r@.len() ==> {
                    &&& self.at(path_model::components(path@).take(i)) == Some(
                        *(#[trigger] r@[i]).0,
                    )
                    &&& path_model::components(r@[i].1@) == path_model::components(path@).skip(i)
                    &&& path_model::valid_path(path@) ==> r@[i].1@ == path_model::join_names(
                        path_model::components(path@).skip(i),
                    ) && path_model::valid_path(r@[i].1@)
                },
            r@[0].1@ == path@,
            r@.len() <= path_model::components(path@).len() ==> self.at(
                path_model::components(path@).take(r@.len() as int),
            ) is None,
    {
        let ghost names = path_model::components(path@);
        let mut components = path.components();
        let mut node = self;
        let mut out: Vec<(&'a RepoPathTree<V>, RepoPath<'b>)> = Vec::new();
        proof {
            assert(names.take(0) =~= Seq::empty());
            assert(names.skip(0) =~= names);
        }
        loop
            invariant
                names == path_model::components(path@),
                self.wf(),
                node.wf(),
                out@.len() <= names.len(),
                out@.len() == 0 ==> components@ == path@,
                out@.len() > 0 ==> out@[0].1@ == path@,
                path_model::valid_path(path@) ==> path_model::valid_path(components@),
                self.at(names.take(out@.len() as int)) == Some(*node),
                path_model::components(components@) == names.skip(out@.len() as int),
                forall|i: int|
                    0 <= i < out@.len() ==> {
                        &&& self.at(names.take(i)) == Some(*(#[trigger] out@[i]).0)
                        &&& path_model::components(out@[i].1@) == names.skip(i)
                        &&& path_model::valid_path(path@) ==> out@[i].1@
                            == path_model::join_names(names.skip(i)) && path_model::valid_path(
                            out@[i].1@,
                        )
                    },
            decreases components@.len(),
        {
            let ghost n = out@.len() as int;
            proof {
                if path_model::valid_path(path@) {
                    path_model::lemma_components_valid(components@);
                    lemma_rest_valid(components@);
                }
            }
            out.push((node, components.as_path()));
            match components.next() {
                None => {
                    assert(names.skip(n).len() == 0);
                    return out;
                },
                Some(name) => {
                    proof {
                        assert(names.skip(n)[0] == name@);
                        assert(names.skip(n).drop_first() =~= path_model::components(components@));
                        assert(names.skip(n).drop_first() =~= names.skip(n + 1));
                        assert(names.take(n + 1) =~= names.take(n).push(name@));
                        lemma_at_push(*self, names.take(n), name@);
                    }
                    match node.find(name) {
                        Some(i) => {
                            proof {
                                node.lemma_child(i as int);
                            }
                            node = &node.entries[i].1;
                        },
                        None => {
                            return out;
                        },
                    }
                },
            }
        }
    }
}

/// What follows the first name of a valid path is a valid path.
proof fn lemma_rest_valid(s: Seq<char>)
    requires
        path_model::valid_path(s),
    ensures
        path_model::valid_path(repo_path::front_split(s).1),
{
    text::lemma_first_index(s, '/');
    let i = text::first_index(s, '/');
    let rest = repo_path::front_split(s).1;
    if 0 <= i < s.len() && rest.len() > 0 {
        assert(s[i] == '/');
        assert(i + 1 < s.len());
        assert(rest =~= s.subrange(i + 1, s.len() as int));
        if s[i + 1] == '/' {
            assert(s[i + 1 - 1] != '/');
        }
        assert(rest.last() == s.last());
        assert forall|k: int| 0 < k < rest.len() && rest[k] == '/' implies #[trigger] rest[k - 1]
            != '/' by {
            assert(s[k + i + 1] == '/');
            assert(s[k + i + 1 - 1] != '/');
            assert(rest[k - 1] == s[k + i]);
        }
    }
}

/// One more name leads to a child.
proof fn lemma_at_push<V>(tree: RepoPathTree<V>, names: Seq<Seq<char>>, name: Seq<char>)
    ensures
        tree.at(names.push(name)) == match tree.at(names) {
            Some(node) => node.child(name),
            None => None,
        },
    decreases names.len(),
{
    let more = names.push(name);
    if names.len() == 0 {
        assert(more.drop_first() =~= Seq::empty());
        match tree.child(name) {
            Some(child) => {
                assert(child.at(Seq::empty()) == Some(child));
            },
            None => {},
        }
    } else {
        assert(more.drop_first() =~= names.drop_first().push(name));
        match tree.child(names[0]) {
            Some(child) => {
                lemma_at_push(child, names.drop_first(), name);
            },
            None => {},
        }
    }
}

/// The child at an index is the one with the name there.
proof fn lemma_child_among<V>(entries: Seq<(RepoPathComponentBuf, RepoPathTree<V>)>, i: int)
    requires
        0 <= i < entries.len(),
        distinct_names(entries),
    ensures
        child_among(entries, entries[i].0@) == Some(entries[i].1),
{
    let name = entries[i].0@;
    assert(entries[i].0@ == name);
    let j = choose|j: int| 0 <= j < entries.len() && (#[trigger] entries[j]).0@ == name;
    assert(entries[j].0@ == name);
    assert(i == j);
}

/// Growing a child grows its parent.
proof fn lemma_grown_child<V: Default>(
    before: RepoPathTree<V>,
    grown: RepoPathTree<V>,
    t: RepoPathTree<V>,
    k: int,
    names: Seq<Seq<char>>,
    node: RepoPathTree<V>,
)
    requires
        before.wf(),
        grown.wf(),
        0 <= k < grown.entries@.len(),
        names.len() > 0,
        grown.entries@[k].0@ == names[0],
        grown.value == before.value,
        grown.entries@ == before.entries@ || (k <= before.entries@.len() && grown.entries@
            == before.entries@.insert(k, grown.entries@[k]) && grown.entries@[k].1.is_fresh()),
        t.value == before.value,
        t.entries@.len() == grown.entries@.len(),
        t.entries@ == grown.entries@.update(k, (grown.entries@[k].0, t.entries@[k].1)),
        t.entries@[k].1.grown_by(grown.entries@[k].1, names.drop_first(), node),
    ensures
        t.grown_by(before, names, node),
{
    let old_child = grown.entries@[k].1;
    let new_child = t.entries@[k].1;
    let rest = names.drop_first();
    let is_new = grown.entries@ != before.entries@;
    lemma_sorted_distinct(grown.entries@);
    assert forall|i: int, j: int| 0 <= i < j < t.entries@.len() implies (
    #[trigger] t.entries@[i]).0@ != (#[trigger] t.entries@[j]).0@ by {
        assert(t.entries@[i].0@ == grown.entries@[i].0@);
        assert(t.entries@[j].0@ == grown.entries@[j].0@);
    }
    lemma_child_among(t.entries@, k);
    grown.lemma_child(k);
    if !is_new {
        before.lemma_child(k);
    } else if before.child(names[0]) is Some {
        let i = choose|i: int|
            0 <= i < before.entries@.len() && (#[trigger] before.entries@[i]).0@ == names[0];
        let at = if i < k {
            i
        } else {
            i + 1
        };
        assert(grown.entries@[at] == before.entries@[i]);
        assert(grown.entries@[at].0@ == names[0]);
    }
    assert forall|other: Seq<Seq<char>>|
        ({
            let now = #[trigger] t.value_at(other);
            if names.is_prefix_of(other) {
                now == node.value_at(other.skip(names.len() as int))
            } else if before.value_at(other) is Some {
                now == before.value_at(other)
            } else if other.is_prefix_of(names) {
                now matches Some(value) && call_ensures(V::default, (), value)
            } else {
                now is None
            }
        }) by {
        if other.len() > 0 {
            let o2 = other.drop_first();
            lemma_prefix_heads(names, other);
            lemma_prefix_heads(other, names);
            if other[0] == names[0] {
                assert(t.value_at(other) == new_child.value_at(o2));
                if names.is_prefix_of(other) {
                    assert(other.skip(names.len() as int) =~= o2.skip(rest.len() as int));
                }
                if is_new && o2.len() > 0 {
                    assert(old_child.child(o2[0]) is None) by {
                        assert(old_child.child_names().len() == old_child.entries@.len());
                    }
                    assert(old_child.value_at(o2) is None);
                }
                if o2.len() == 0 {
                    assert(old_child.value_at(o2) == Some(old_child.node_value()));
                }
            } else {
                lemma_other_child(grown, t, k, other[0]);
                if is_new {
                    lemma_new_child(before, grown, k, other[0]);
                }
            }
        }
    }
}

/// Whether a list is a prefix is decided by the heads and the tails.
proof fn lemma_prefix_heads(a: Seq<Seq<char>>, b: Seq<Seq<char>>)
    requires
        a.len() > 0,
        b.len() > 0,
    ensures
        a.is_prefix_of(b) <==> a[0] == b[0] && a.drop_first().is_prefix_of(b.drop_first()),
{
    let n = a.len() as int;
    if a.is_prefix_of(b) {
        assert(a[0] == b.subrange(0, n)[0]);
        assert(a.drop_first() =~= b.drop_first().subrange(0, n - 1));
    }
    if a[0] == b[0] && a.drop_first().is_prefix_of(b.drop_first()) {
        assert forall|i: int| 0 <= i < n implies a[i] == b[i] by {
            if i > 0 {
                assert(a.drop_first()[i - 1] == b.drop_first().subrange(0, n - 1)[i - 1]);
            }
        }
        assert(a =~= b.subrange(0, n));
    }
}

/// A change at one index leaves the children with other names alone.
proof fn lemma_other_child<V>(
    before: RepoPathTree<V>,
    t: RepoPathTree<V>,
    k: int,
    name: Seq<char>,
)
    requires
        before.wf(),
        0 <= k < t.entries@.len(),
        before.entries@.len() == t.entries@.len(),
        forall|i: int| 0 <= i < before.entries@.len() && i != k ==> before.entries@[i]
            == t.entries@[i],
        before.entries@[k].0@ == t.entries@[k].0@,
        t.entries@[k].0@ != name,
        distinct_names(t.entries@),
    ensures
        t.child(name) == before.child(name),
{
    if before.child(name) is Some {
        let i = choose|i: int|
            0 <= i < before.entries@.len() && (#[trigger] before.entries@[i]).0@ == name;
        before.lemma_child(i);
        assert(t.entries@[i].0@ == name);
        lemma_child_among(t.entries@, i);
    } else if t.child(name) is Some {
        let i = choose|i: int|
            0 <= i < t.entries@.len() && (#[trigger] t.entries@[i]).0@ == name;
        assert(before.entries@[i].0@ == name);
    }
}

/// A child that is put where it belongs leaves the children in order.
proof fn lemma_inserted<V>(
    before: RepoPathTree<V>,
    k: int,
    fresh: (RepoPathComponentBuf, RepoPathTree<V>),
)
    requires
        before.wf(),
        fresh.1.wf(),
        0 <= k <= before.entries@.len(),
        forall|i: int|
            0 <= i < k ==> text::chars_order((#[trigger] before.entries@[i]).0@, fresh.0@)
                == Order::Less,
        forall|i: int|
            k <= i < before.entries@.len() ==> text::chars_order(
                fresh.0@,
                (#[trigger] before.entries@[i]).0@,
            ) == Order::Less,
    ensures
        sorted_names(before.entries@.insert(k, fresh)),
        forall|i: int|
            0 <= i < before.entries@.len() + 1 ==> (#[trigger] before.entries@.insert(k, fresh)[i]).1.wf(),
{
    let after = before.entries@.insert(k, fresh);
    assert forall|i: int| 0 <= i < after.len() implies (#[trigger] after[i]).1.wf() by {
        if i < k {
            assert(after[i] == before.entries@[i]);
        } else if i > k {
            assert(after[i] == before.entries@[i - 1]);
        }
    }
    assert forall|i: int, j: int| 0 <= i < j < after.len() implies text::chars_order(
        (#[trigger] after[i]).0@,
        (#[trigger] after[j]).0@,
    ) == Order::Less by {
        if i < k {
            assert(after[i] == before.entries@[i]);
        } else if i > k {
            assert(after[i] == before.entries@[i - 1]);
        }
        if j < k {
            assert(after[j] == before.entries@[j]);
        } else if j > k {
            assert(after[j] == before.entries@[j - 1]);
        }
    }
}

/// A new child leaves the children with other names alone.
proof fn lemma_new_child<V>(
    before: RepoPathTree<V>,
    grown: RepoPathTree<V>,
    k: int,
    name: Seq<char>,
)
    requires
        before.wf(),
        grown.wf(),
        0 <= k <= before.entries@.len(),
        grown.entries@.len() == before.entries@.len() + 1,
        grown.entries@ == before.entries@.insert(k, grown.entries@[k]),
        grown.entries@[k].0@ != name,
    ensures
        grown.child(name) == before.child(name),
{
    if before.child(name) is Some {
        let i = choose|i: int|
            0 <= i < before.entries@.len() && (#[trigger] before.entries@[i]).0@ == name;
        before.lemma_child(i);
        let at = if i < k {
            i
        } else {
            i + 1
        };
        assert(grown.entries@[at] == before.entries@[i]);
        grown.lemma_child(at);
    } else if grown.child(name) is Some {
        let i = choose|i: int|
            0 <= i < grown.entries@.len() && (#[trigger] grown.entries@[i]).0@ == name;
        let at = if i < k {
            i
        } else {
            i - 1
        };
        assert(before.entries@[at] == grown.entries@[i]);
        assert(before.entries@[at].0@ == name);
    }
}

impl<V: Clone> RepoPathTree<V> {
    /// Whether a tree has the same nodes as this one, with clones of the values.
    pub closed spec fn cloned_to(self, copy: RepoPathTree<V>) -> bool
        decreases self,
    {
        &&& cloned(self.value, copy.value)
        &&& copy.entries@.len() == self.entries@.len()
        &&& forall|i: int|
            0 <= i < self.entries@.len() ==> {
                &&& (#[trigger] self.entries@[i]).0@ == copy.entries@[i].0@
                &&& self.entries@[i].1.cloned_to(copy.entries@[i].1)
            }
    }

    /// A clone has a value at the same paths, and these values are clones.
    pub proof fn lemma_cloned(self, copy: RepoPathTree<V>, names: Seq<Seq<char>>)
        requires
            self.wf(),
            self.cloned_to(copy),
        ensures
            copy.wf(),
            match self.value_at(names) {
                Some(value) => copy.value_at(names) matches Some(clone) && cloned(value, clone),
                None => copy.value_at(names) is None,
            },
        decreases self, names.len(),
    {
        assert forall|i: int, j: int| 0 <= i < j < copy.entries@.len() implies text::chars_order(
            (#[trigger] copy.entries@[i]).0@,
            (#[trigger] copy.entries@[j]).0@,
        ) == Order::Less by {
            assert(self.entries@[i].0@ == copy.entries@[i].0@);
            assert(self.entries@[j].0@ == copy.entries@[j].0@);
        }
        assert forall|i: int| 0 <= i < copy.entries@.len() implies (
        #[trigger] copy.entries@[i]).1.wf() by {
            assert(self.entries@[i].1.cloned_to(copy.entries@[i].1));
            self.entries@[i].1.lemma_cloned(copy.entries@[i].1, Seq::empty());
        }
        if names.len() > 0 {
            if self.child(names[0]) is Some {
                let i = choose|i: int|
                    0 <= i < self.entries@.len() && (#[trigger] self.entries@[i]).0@ == names[0];
                self.lemma_child(i);
                copy.lemma_child(i);
                self.entries@[i].1.lemma_cloned(copy.entries@[i].1, names.drop_first());
            } else if copy.child(names[0]) is Some {
                let i = choose|i: int|
                    0 <= i < copy.entries@.len() && (#[trigger] copy.entries@[i]).0@ == names[0];
                assert(self.entries@[i].0@ == names[0]);
            }
        }
    }
}

impl<V: Clone> Clone for RepoPathTree<V> {
    fn clone(&self) -> (r: RepoPathTree<V>)
        ensures
            self.cloned_to(r),
        decreases self,
    {
        let mut entries: Vec<(RepoPathComponentBuf, RepoPathTree<V>)> = Vec::new();
        let mut i: usize = 0;
        while i < self.entries.len()
            invariant
                i <= self.entries@.len(),
                entries@.len() == i,
                forall|j: int|
                    0 <= j < i ==> {
                        &&& (#[trigger] self.entries@[j]).0@ == entries@[j].0@
                        &&& self.entries@[j].1.cloned_to(entries@[j].1)
                    },
            decreases self.entries@.len() - i,
        {
            let child = &self.entries[i];
            assert(decreases_to!(self => self.entries@[i as int].1));
            entries.push((child.0.clone(), child.1.clone()));
            i += 1;
        }
        RepoPathTree { entries, value: self.value.clone() }
    }
}

impl<V: Default> Default for RepoPathTree<V> {
    fn default() -> (r: RepoPathTree<V>)
        ensures
            r.is_fresh(),
    {
        RepoPathTree { entries: Vec::new(), value: V::default() }
    }
}

impl<V: Default> RepoPathTree<V> {
    /// A node without children that holds a default value.
    pub open spec fn is_fresh(self) -> bool {
        &&& self.wf()
        &&& self.child_names().len() == 0
        &&& call_ensures(V::default, (), self.node_value())
    }

    /// How a tree looks once a path was added and the node there is `node`: what
    /// lies under the path is as in `node`, what was there before stays, and
    /// the nodes on the way that were missing hold default values.
    pub open spec fn grown_by(
        self,
        before: RepoPathTree<V>,
        names: Seq<Seq<char>>,
        node: RepoPathTree<V>,
    ) -> bool {
        forall|other: Seq<Seq<char>>|
            {
                let now = #[trigger] self.value_at(other);
                if names.is_prefix_of(other) {
                    now == node.value_at(other.skip(names.len() as int))
                } else if before.value_at(other) is Some {
                    now == before.value_at(other)
                } else if other.is_prefix_of(names) {
                    now matches Some(value) && call_ensures(V::default, (), value)
                } else {
                    now is None
                }
            }
    }

    /// A path that was added leads to the node that was given a value there, and what
    /// was there at other paths stays.
    pub proof fn lemma_added(
        self,
        before: RepoPathTree<V>,
        names: Seq<Seq<char>>,
        node: RepoPathTree<V>,
        other: Seq<Seq<char>>,
    )
        requires
            self.grown_by(before, names, node),
        ensures
            self.value_at(names) == Some(node.node_value()),
            !names.is_prefix_of(other) && before.value_at(other) is Some ==> self.value_at(other)
                == before.value_at(other),
    {
        assert(names =~= names.subrange(0, names.len() as int));
        assert(names.skip(names.len() as int) =~= Seq::empty());
        let now = self.value_at(names);
        let there = self.value_at(other);
    }

    /// Add a path to the tree. Normally called on the root tree.
    pub fn add(&mut self, path: RepoPath<'_>) -> (r: &mut RepoPathTree<V>)
        requires
            old(self).wf(),
        ensures
            match old(self).at(path_model::components(path@)) {
                Some(node) => *r == node,
                None => r.is_fresh(),
            },
            r.wf(),
            final(r).wf() ==> final(self).wf(),
            final(self).grown_by(*old(self), path_model::components(path@), *final(r)),
    {
        self.add_components(path.components())
    }

    fn add_components(&mut self, components: RepoPathComponentsIter<'_>) -> (r: &mut RepoPathTree<
        V,
    >)
        requires
            old(self).wf(),
        ensures
            match old(self).at(path_model::components(components@)) {
                Some(node) => *r == node,
                None => r.is_fresh(),
            },
            r.wf(),
            final(r).wf() ==> final(self).wf(),
            final(self).grown_by(*old(self), path_model::components(components@), *final(r)),
        decreases components@.len(),
    {
        let ghost names = path_model::components(components@);
        let mut rest = components;
        match rest.next() {
            None => {
                proof {
                    assert(names =~= Seq::empty());
                    assert forall|t: RepoPathTree<V>| #[trigger]
                        t.grown_by(*self, names, t) by {
                        assert forall|other: Seq<Seq<char>>| names.is_prefix_of(other)
                            && other.skip(0) == other by {
                            assert(names =~= other.subrange(0, 0));
                            assert(other.skip(0) =~= other);
                        }
                    }
                }
                self
            },
            Some(name) => {
                let k = match self.find(name) {
                    Some(i) => i,
                    None => {
                        let k = self.place_for(name);
                        let fresh = (name.to_owned(), RepoPathTree::default());
                        proof {
                            lemma_inserted(*self, k as int, fresh);
                        }
                        self.entries.insert(k, fresh);
                        k
                    },
                };
                let ghost grown = *self;
                proof {
                    assert(names.drop_first() =~= path_model::components(rest@));
                    assert(grown.wf());
                    grown.lemma_child(k as int);
                    assert forall|node: RepoPathTree<V>, sub: RepoPathTree<V>, t: RepoPathTree<V>|
                        t.entries@ == grown.entries@.update(
                            k as int,
                            (grown.entries@[k as int].0, sub),
                        ) && t.value == grown.value && #[trigger] sub.grown_by(
                            grown.entries@[k as int].1,
                            path_model::components(rest@),
                            node,
                        ) implies #[trigger] t.grown_by(*old(self), names, node) by {
                        lemma_grown_child(*old(self), grown, t, k as int, names, node);
                    }
                }
                self.entries[k].1.add_components(rest)
            },
        }
    }
}

} // verus!
