//! The owned map of file states, and how changes are merged into it.

use vstd::prelude::*;

use crate::file_state;
use crate::file_state::FileState;
use crate::file_states;
use crate::file_states::FileStates;
use crate::path_model;
use crate::path_set::PathSet;
use crate::proto::FileStateEntry;
use crate::repo_path;
use crate::repo_path::RepoPath;
use crate::repo_path::RepoPathBuf;
use crate::text::Order;
use crate::tree_state;

verus! {

/// Owned map of path to file states, backed by its stored form.
#[derive(Debug)]
pub struct FileStatesMap {
    data: Vec<FileStateEntry>,
}

impl View for FileStatesMap {
    type V = Seq<FileStateEntry>;

    closed spec fn view(&self) -> Seq<FileStateEntry> {
        self.data@
    }
}

/// New states, valid and sorted by path without duplicates.
pub open spec fn sorted_changes(changes: Seq<(RepoPathBuf, FileState)>) -> bool {
    &&& forall|i: int| 0 <= i < changes.len() ==> path_model::valid_path((#[trigger] changes[i]).0@)
    &&& forall|i: int, j: int|
        0 <= i < j < changes.len() ==> path_model::path_order(
            (#[trigger] changes[i]).0@,
            (#[trigger] changes[j]).0@,
        ) == Order::Less
}

/// Whether one of the new states is for the given path.
pub open spec fn changes_path(changes: Seq<(RepoPathBuf, FileState)>, path: Seq<char>) -> bool {
    exists|i: int| 0 <= i < changes.len() && (#[trigger] changes[i]).0@ == path
}

/// The new state for the given path.
pub open spec fn changed_state(
    changes: Seq<(RepoPathBuf, FileState)>,
    path: Seq<char>,
) -> FileState {
    let i = choose|i: int| 0 <= i < changes.len() && (#[trigger] changes[i]).0@ == path;
    changes[i].1
}

/// An element of two sorted lists that are walked together.
pub enum Joined {
    Left(FileStateEntry),
    Right((RepoPathBuf, FileState)),
    Both(FileStateEntry, (RepoPathBuf, FileState)),
}

/// Two lists walked together: at each step the element with the smaller path is
/// taken from its list, or one from each if their paths are equal.
pub open spec fn joined_lists(
    left: Seq<FileStateEntry>,
    right: Seq<(RepoPathBuf, FileState)>,
) -> Seq<Joined>
    decreases left.len() + right.len(),
{
    if left.len() == 0 && right.len() == 0 {
        Seq::empty()
    } else if right.len() == 0 {
        seq![Joined::Left(left[0])] + joined_lists(left.drop_first(), right)
    } else if left.len() == 0 {
        seq![Joined::Right(right[0])] + joined_lists(left, right.drop_first())
    } else {
        match path_model::path_order(left[0].path@, right[0].0@) {
            Order::Less => seq![Joined::Left(left[0])] + joined_lists(left.drop_first(), right),
            Order::Greater => seq![Joined::Right(right[0])] + joined_lists(
                left,
                right.drop_first(),
            ),
            Order::Equal => seq![Joined::Both(left[0], right[0])] + joined_lists(
                left.drop_first(),
                right.drop_first(),
            ),
        }
    }
}

fn change_ordering(entry: &FileStateEntry, change: &(RepoPathBuf, FileState)) -> (r:
    std::cmp::Ordering)
    ensures
        r == repo_path::std_ordering(path_model::path_order(entry.path@, change.0@)),
{
    repo_path::to_std_ordering(
        RepoPath::from_internal_string_unchecked(entry.path.as_str()).compare(change.0.as_ref()),
    )
}

/// A value that is filed under a path.
pub trait KeyedByPath {
    spec fn key(&self) -> Seq<char>;

    fn path_key(&self) -> (r: RepoPath<'_>)
        ensures
            r@ == self.key(),
    ;
}

impl KeyedByPath for FileStateEntry {
    open spec fn key(&self) -> Seq<char> {
        self.path@
    }

    fn path_key(&self) -> (r: RepoPath<'_>) {
        RepoPath::from_internal_string_unchecked(self.path.as_str())
    }
}

impl<V> KeyedByPath for (RepoPathBuf, V) {
    open spec fn key(&self) -> Seq<char> {
        self.0@
    }

    fn path_key(&self) -> (r: RepoPath<'_>) {
        self.0.as_ref()
    }
}

fn key_ordering<T: KeyedByPath>(a: &T, b: &T) -> (r: std::cmp::Ordering)
    ensures
        r == repo_path::std_ordering(path_model::path_order(a.key(), b.key())),
{
    repo_path::to_std_ordering(a.path_key().compare(b.path_key()))
}

/// `itertools::merge_join_by` on two lists of which one may run out before the
/// other, with the order of paths as its comparison.
#[verifier::external_body]
fn merge_join_by_path(left: Vec<FileStateEntry>, right: Vec<(RepoPathBuf, FileState)>) -> (r: Vec<
    Joined,
>)
    ensures
        r@ == joined_lists(left@, right@),
{
    itertools::merge_join_by(left, right, |entry, change| change_ordering(entry, change))
        .map(|item| match item {
            itertools::EitherOrBoth::Left(entry) => Joined::Left(entry),
            itertools::EitherOrBoth::Right(change) => Joined::Right(change),
            itertools::EitherOrBoth::Both(entry, change) => Joined::Both(entry, change),
        })
        .collect()
}

/// `slice::sort_unstable_by` with the order of paths: a permutation that is in
/// order.
#[verifier::external_body]
fn sort_unstable_by_path<T: KeyedByPath>(data: &mut Vec<T>)
    ensures
        final(data)@.to_multiset() == old(data)@.to_multiset(),
        forall|i: int, j: int|
            0 <= i < j < final(data)@.len() ==> path_model::path_order(
                (#[trigger] final(data)@[i]).key(),
                (#[trigger] final(data)@[j]).key(),
            ) != Order::Greater,
{
    data.sort_unstable_by(|a, b| key_ordering(a, b));
}

/// Whether all values are filed under valid paths, and no two under the same.
pub open spec fn distinct_keys<T: KeyedByPath>(data: Seq<T>) -> bool {
    &&& forall|i: int| 0 <= i < data.len() ==> path_model::valid_path((#[trigger] data[i]).key())
    &&& forall|i: int, j: int|
        0 <= i < data.len() && 0 <= j < data.len() && i != j ==> (#[trigger] data[i]).key() != (
        #[trigger] data[j]).key()
}

/// Sorts values with distinct paths by path.
pub fn sort_by_path<T: KeyedByPath>(data: &mut Vec<T>)
    requires
        distinct_keys(old(data)@),
    ensures
        final(data)@.to_multiset() == old(data)@.to_multiset(),
        distinct_keys(final(data)@),
        forall|x: T| final(data)@.contains(x) <==> old(data)@.contains(x),
        forall|i: int, j: int|
            0 <= i < j < final(data)@.len() ==> path_model::path_order(
                (#[trigger] final(data)@[i]).key(),
                (#[trigger] final(data)@[j]).key(),
            ) == Order::Less,
{
    let ghost before = data@;
    sort_unstable_by_path(data);
    proof {
        lemma_permutation_distinct(before, data@);
        assert forall|i: int, j: int| 0 <= i < j < data@.len() implies path_model::path_order(
            (#[trigger] data@[i]).key(),
            (#[trigger] data@[j]).key(),
        ) == Order::Less by {
            path_model::lemma_path_order_equal(data@[i].key(), data@[j].key());
        }
    }
}

/// A permutation of values with distinct paths has distinct paths.
proof fn lemma_permutation_distinct<T: KeyedByPath>(a: Seq<T>, b: Seq<T>)
    requires
        distinct_keys(a),
        a.to_multiset() == b.to_multiset(),
    ensures
        distinct_keys(b),
        forall|x: T| b.contains(x) <==> a.contains(x),
{
    assert forall|x: T| b.contains(x) <==> a.contains(x) by {
        vstd::seq_lib::to_multiset_contains(a, x);
        vstd::seq_lib::to_multiset_contains(b, x);
    }
    assert(a.no_duplicates()) by {
        assert forall|i: int, j: int| 0 <= i < a.len() && 0 <= j < a.len() && i != j implies a[i]
            != a[j] by {
            assert(a[i].key() != a[j].key());
        }
    }
    a.lemma_multiset_has_no_duplicates();
    assert(b.no_duplicates()) by {
        b.lemma_multiset_has_no_duplicates_conv();
    }
    assert forall|i: int| 0 <= i < b.len() implies path_model::valid_path(
        (#[trigger] b[i]).key(),
    ) by {
        assert(b.contains(b[i]));
        let k = choose|k: int| 0 <= k < a.len() && a[k] == b[i];
        assert(path_model::valid_path(a[k].key()));
    }
    assert forall|i: int, j: int| 0 <= i < b.len() && 0 <= j < b.len() && i != j implies (
    #[trigger] b[i]).key() != (#[trigger] b[j]).key() by {
        assert(b.contains(b[i]) && b.contains(b[j]));
        let k = choose|k: int| 0 <= k < a.len() && a[k] == b[i];
        let l = choose|l: int| 0 <= l < a.len() && a[l] == b[j];
        assert(b[i] != b[j]);
        assert(k != l);
        assert(a[k].key() != a[l].key());
    }
}

impl Joined {
    /// The path of the element.
    pub open spec fn key(self) -> Seq<char> {
        match self {
            Joined::Left(entry) => entry.path@,
            Joined::Right(change) => change.0@,
            Joined::Both(_, change) => change.0@,
        }
    }

    /// Whether the element says truly from which of the lists it came.
    pub open spec fn came_from(
        self,
        left: Seq<FileStateEntry>,
        right: Seq<(RepoPathBuf, FileState)>,
    ) -> bool {
        match self {
            Joined::Left(entry) => left.contains(entry) && !changes_path(right, entry.path@),
            Joined::Right(change) => right.contains(change),
            Joined::Both(entry, change) => {
                &&& left.contains(entry)
                &&& right.contains(change)
                &&& entry.path@ == change.0@
            },
        }
    }
}

/// Whether a path precedes everything in the two lists.
spec fn precedes_all(
    key: Seq<char>,
    left: Seq<FileStateEntry>,
    right: Seq<(RepoPathBuf, FileState)>,
) -> bool {
    &&& forall|i: int|
        0 <= i < left.len() ==> path_model::path_order(key, (#[trigger] left[i]).path@)
            == Order::Less
    &&& forall|i: int|
        0 <= i < right.len() ==> path_model::path_order(key, (#[trigger] right[i]).0@)
            == Order::Less
}

/// What precedes the first of some sorted entries precedes all of them.
proof fn lemma_precedes_entries(key: Seq<char>, left: Seq<FileStateEntry>)
    requires
        file_states::sorted_entries(left),
        left.len() > 0,
        path_model::path_order(key, left[0].path@) == Order::Less,
    ensures
        forall|i: int|
            0 <= i < left.len() ==> path_model::path_order(key, (#[trigger] left[i]).path@)
                == Order::Less,
{
    assert forall|i: int| 0 <= i < left.len() implies path_model::path_order(
        key,
        (#[trigger] left[i]).path@,
    ) == Order::Less by {
        if i > 0 {
            assert(path_model::path_order(left[0].path@, left[i].path@) == Order::Less);
            path_model::lemma_path_order_transitive(key, left[0].path@, left[i].path@);
        }
    }
}

/// What precedes the first of some sorted changes precedes all of them.
proof fn lemma_precedes_changes(key: Seq<char>, right: Seq<(RepoPathBuf, FileState)>)
    requires
        sorted_changes(right),
        right.len() > 0,
        path_model::path_order(key, right[0].0@) == Order::Less,
    ensures
        forall|i: int|
            0 <= i < right.len() ==> path_model::path_order(key, (#[trigger] right[i]).0@)
                == Order::Less,
{
    assert forall|i: int| 0 <= i < right.len() implies path_model::path_order(
        key,
        (#[trigger] right[i]).0@,
    ) == Order::Less by {
        if i > 0 {
            assert(path_model::path_order(right[0].0@, right[i].0@) == Order::Less);
            path_model::lemma_path_order_transitive(key, right[0].0@, right[i].0@);
        }
    }
}

/// Sorted lists without their first elements are sorted, and the first element
/// precedes the others.
proof fn lemma_sorted_tails(left: Seq<FileStateEntry>, right: Seq<(RepoPathBuf, FileState)>)
    requires
        file_states::sorted_entries(left),
        sorted_changes(right),
    ensures
        left.len() > 0 ==> {
            &&& file_states::sorted_entries(left.drop_first())
            &&& forall|i: int|
                0 <= i < left.len() - 1 ==> path_model::path_order(
                    left[0].path@,
                    (#[trigger] left.drop_first()[i]).path@,
                ) == Order::Less
        },
        right.len() > 0 ==> {
            &&& sorted_changes(right.drop_first())
            &&& forall|i: int|
                0 <= i < right.len() - 1 ==> path_model::path_order(
                    right[0].0@,
                    (#[trigger] right.drop_first()[i]).0@,
                ) == Order::Less
        },
{
    if left.len() > 0 {
        let l2 = left.drop_first();
        assert forall|i: int, j: int| 0 <= i < j < l2.len() implies path_model::path_order(
            #[trigger] l2[i].path@,
            #[trigger] l2[j].path@,
        ) == Order::Less by {
            assert(left[i + 1].path@ == l2[i].path@ && left[j + 1].path@ == l2[j].path@);
        }
        assert forall|i: int| 0 <= i < l2.len() implies path_model::path_order(
            left[0].path@,
            (#[trigger] l2[i]).path@,
        ) == Order::Less by {
            assert(left[i + 1].path@ == l2[i].path@);
        }
    }
    if right.len() > 0 {
        let r2 = right.drop_first();
        assert forall|i: int, j: int| 0 <= i < j < r2.len() implies path_model::path_order(
            (#[trigger] r2[i]).0@,
            (#[trigger] r2[j]).0@,
        ) == Order::Less by {
            assert(right[i + 1] == r2[i] && right[j + 1] == r2[j]);
        }
        assert forall|i: int| 0 <= i < r2.len() implies path_model::path_order(
            right[0].0@,
            (#[trigger] r2[i]).0@,
        ) == Order::Less by {
            assert(right[i + 1] == r2[i]);
        }
    }
}

/// Whether one of the elements has the given path.
pub open spec fn listed(list: Seq<Joined>, key: Seq<char>) -> bool {
    exists|k: int| 0 <= k < list.len() && (#[trigger] list[k]).key() == key
}

/// What walking two sorted lists together gives.
pub open spec fn good_join(
    list: Seq<Joined>,
    left: Seq<FileStateEntry>,
    right: Seq<(RepoPathBuf, FileState)>,
) -> bool {
    &&& forall|k: int| 0 <= k < list.len() ==> (#[trigger] list[k]).came_from(left, right)
    &&& forall|i: int| 0 <= i < left.len() ==> listed(list, (#[trigger] left[i]).path@)
    &&& forall|i: int| 0 <= i < right.len() ==> listed(list, (#[trigger] right[i]).0@)
    &&& forall|k: int, l: int|
        0 <= k < l < list.len() ==> path_model::path_order(
            (#[trigger] list[k]).key(),
            (#[trigger] list[l]).key(),
        ) == Order::Less
}

/// One step of walking two sorted lists together.
proof fn lemma_join_step(
    head: Joined,
    rest: Seq<Joined>,
    left: Seq<FileStateEntry>,
    right: Seq<(RepoPathBuf, FileState)>,
    left2: Seq<FileStateEntry>,
    right2: Seq<(RepoPathBuf, FileState)>,
)
    requires
        good_join(rest, left2, right2),
        precedes_all(head.key(), left2, right2),
        head.came_from(left, right),
        left2 == left || (left.len() > 0 && left2 == left.drop_first() && left[0].path@
            == head.key()),
        right2 == right || (right.len() > 0 && right2 == right.drop_first() && right[0].0@
            == head.key()),
        path_model::valid_path(head.key()),
    ensures
        good_join(seq![head] + rest, left, right),
{
    let list = seq![head] + rest;
    path_model::lemma_path_order_equal(head.key(), head.key());
    assert forall|k: int| 0 <= k < rest.len() implies (#[trigger] rest[k]).came_from(left, right)
        && path_model::path_order(head.key(), rest[k].key()) == Order::Less by {
        let x = rest[k];
        assert(x.came_from(left2, right2));
        match x {
            Joined::Left(entry) => {
                let i = choose|i: int| 0 <= i < left2.len() && left2[i] == entry;
                assert(left2[i] == entry);
                if left2 != left {
                    assert(left[i + 1] == entry);
                }
                assert(left.contains(entry));
                if changes_path(right, entry.path@) {
                    let j = choose|j: int|
                        0 <= j < right.len() && (#[trigger] right[j]).0@ == entry.path@;
                    if right2 != right {
                        if j > 0 {
                            assert(right2[j - 1].0@ == entry.path@);
                        }
                    } else {
                        assert(right2[j].0@ == entry.path@);
                    }
                }
            },
            Joined::Right(change) => {
                let i = choose|i: int| 0 <= i < right2.len() && right2[i] == change;
                assert(right2[i] == change);
                if right2 != right {
                    assert(right[i + 1] == change);
                }
                assert(right.contains(change));
            },
            Joined::Both(entry, change) => {
                let i = choose|i: int| 0 <= i < left2.len() && left2[i] == entry;
                if left2 != left {
                    assert(left[i + 1] == entry);
                }
                assert(left.contains(entry));
                let j = choose|j: int| 0 <= j < right2.len() && right2[j] == change;
                assert(right2[j] == change);
                if right2 != right {
                    assert(right[j + 1] == change);
                }
                assert(right.contains(change));
            },
        }
    }
    assert forall|k: int| 0 <= k < list.len() implies (#[trigger] list[k]).came_from(
        left,
        right,
    ) by {
        if k > 0 {
            assert(list[k] == rest[k - 1]);
        }
    }
    assert forall|k: int, l: int| 0 <= k < l < list.len() implies path_model::path_order(
        (#[trigger] list[k]).key(),
        (#[trigger] list[l]).key(),
    ) == Order::Less by {
        assert(list[l] == rest[l - 1]);
        if k > 0 {
            assert(list[k] == rest[k - 1]);
        }
    }
    assert forall|i: int| 0 <= i < left.len() implies listed(
        list,
        (#[trigger] left[i]).path@,
    ) by {
        if left2 != left && i == 0 {
            assert(list[0].key() == left[i].path@);
        } else {
            let i2 = if left2 != left {
                i - 1
            } else {
                i
            };
            assert(left2[i2] == left[i]);
            lemma_listed_later(head, rest, left2[i2].path@);
        }
    }
    assert forall|i: int| 0 <= i < right.len() implies listed(list, (#[trigger] right[i]).0@) by {
        if right2 != right && i == 0 {
            assert(list[0].key() == right[i].0@);
        } else {
            let i2 = if right2 != right {
                i - 1
            } else {
                i
            };
            assert(right2[i2] == right[i]);
            lemma_listed_later(head, rest, right2[i2].0@);
        }
    }
}

/// An element put in front hides nothing.
proof fn lemma_listed_later(head: Joined, rest: Seq<Joined>, key: Seq<char>)
    requires
        listed(rest, key),
    ensures
        listed(seq![head] + rest, key),
{
    let k = choose|k: int| 0 <= k < rest.len() && (#[trigger] rest[k]).key() == key;
    assert((seq![head] + rest)[k + 1] == rest[k]);
}

/// Walking two sorted lists together keeps the order and misses nothing.
pub proof fn lemma_joined_lists(
    left: Seq<FileStateEntry>,
    right: Seq<(RepoPathBuf, FileState)>,
)
    requires
        file_states::sorted_entries(left),
        sorted_changes(right),
    ensures
        good_join(joined_lists(left, right), left, right),
    decreases left.len() + right.len(),
{
    lemma_sorted_tails(left, right);
    if left.len() == 0 && right.len() == 0 {
    } else if right.len() == 0 {
        let rest = joined_lists(left.drop_first(), right);
        lemma_joined_lists(left.drop_first(), right);
        assert(left.contains(left[0]));
        lemma_join_step(Joined::Left(left[0]), rest, left, right, left.drop_first(), right);
    } else if left.len() == 0 {
        let rest = joined_lists(left, right.drop_first());
        lemma_joined_lists(left, right.drop_first());
        assert(right.contains(right[0]));
        lemma_join_step(Joined::Right(right[0]), rest, left, right, left, right.drop_first());
    } else {
        let a = left[0].path@;
        let b = right[0].0@;
        assert(left.contains(left[0]));
        assert(right.contains(right[0]));
        path_model::lemma_path_order_equal(a, b);
        path_model::lemma_path_order_flip(a, b);
        match path_model::path_order(a, b) {
            Order::Less => {
                let rest = joined_lists(left.drop_first(), right);
                lemma_joined_lists(left.drop_first(), right);
                lemma_precedes_changes(a, right);
                path_model::lemma_path_order_equal(a, a);
                lemma_join_step(Joined::Left(left[0]), rest, left, right, left.drop_first(), right);
            },
            Order::Greater => {
                let rest = joined_lists(left, right.drop_first());
                lemma_joined_lists(left, right.drop_first());
                lemma_precedes_entries(b, left);
                lemma_join_step(
                    Joined::Right(right[0]),
                    rest,
                    left,
                    right,
                    left,
                    right.drop_first(),
                );
            },
            Order::Equal => {
                let rest = joined_lists(left.drop_first(), right.drop_first());
                lemma_joined_lists(left.drop_first(), right.drop_first());
                lemma_join_step(
                    Joined::Both(left[0], right[0]),
                    rest,
                    left,
                    right,
                    left.drop_first(),
                    right.drop_first(),
                );
            },
        }
    }
}

/// What a merge leaves of a path: its new state if it has one, nothing if it was
/// deleted, and otherwise what was there before.
pub open spec fn merged_state(
    before: Seq<FileStateEntry>,
    changes: Seq<(RepoPathBuf, FileState)>,
    deleted: Seq<Seq<char>>,
    path: Seq<char>,
) -> Option<FileState> {
    if changes_path(changes, path) {
        Some(changed_state(changes, path))
    } else if deleted.contains(path) {
        None
    } else {
        file_states::lookup(before, path)
    }
}

/// What a merge can leave as an entry: the encoding of a new state for a path that
/// has one, and otherwise an entry that was there before.
pub open spec fn merged_entry(
    before: Seq<FileStateEntry>,
    changes: Seq<(RepoPathBuf, FileState)>,
    entry: FileStateEntry,
) -> bool {
    if changes_path(changes, entry.path@) {
        entry.state == Some(file_state::encoded_state(changed_state(changes, entry.path@)))
    } else {
        before.contains(entry)
    }
}

impl Joined {
    /// The state that the element contributes, unless it was deleted.
    spec fn contribution(self, deleted: Seq<Seq<char>>) -> Option<FileState> {
        match self {
            Joined::Left(entry) => if deleted.contains(entry.path@) {
                None
            } else {
                Some(file_states::entry_state(entry))
            },
            Joined::Right(change) => Some(change.1),
            Joined::Both(_, change) => Some(change.1),
        }
    }
}

/// The state that a list of elements gives to a path.
spec fn list_state(list: Seq<Joined>, deleted: Seq<Seq<char>>, path: Seq<char>) -> Option<FileState>
    decreases list.len(),
{
    if list.len() == 0 {
        None
    } else if list.last().key() == path && list.last().contribution(deleted) is Some {
        list.last().contribution(deleted)
    } else {
        list_state(list.drop_last(), deleted, path)
    }
}

/// A path that no element has gets no state.
proof fn lemma_list_state_absent(list: Seq<Joined>, deleted: Seq<Seq<char>>, path: Seq<char>)
    requires
        forall|k: int| 0 <= k < list.len() ==> (#[trigger] list[k]).key() != path,
    ensures
        list_state(list, deleted, path) is None,
    decreases list.len(),
{
    if list.len() > 0 {
        assert(list.last() == list[list.len() - 1]);
        lemma_list_state_absent(list.drop_last(), deleted, path);
    }
}

/// Where the paths are distinct, a path gets its state from its own element.
proof fn lemma_list_state_at(list: Seq<Joined>, deleted: Seq<Seq<char>>, k: int)
    requires
        0 <= k < list.len(),
        forall|i: int, j: int|
            0 <= i < j < list.len() ==> (#[trigger] list[i]).key() != (#[trigger] list[j]).key(),
    ensures
        list_state(list, deleted, list[k].key()) == list[k].contribution(deleted),
    decreases list.len(),
{
    let rest = list.drop_last();
    let n = list.len() - 1;
    assert(list.last() == list[n]);
    if k == n {
        if list[k].contribution(deleted) is None {
            assert forall|j: int| 0 <= j < rest.len() implies (#[trigger] rest[j]).key()
                != list[k].key() by {
                assert(rest[j] == list[j]);
            }
            lemma_list_state_absent(rest, deleted, list[k].key());
        }
    } else {
        assert(list[k].key() != list[n].key());
        assert(rest[k] == list[k]);
        lemma_list_state_at(rest, deleted, k);
    }
}

/// The list made of two sorted lists gives each path its merged state.
proof fn lemma_join_states(
    list: Seq<Joined>,
    left: Seq<FileStateEntry>,
    right: Seq<(RepoPathBuf, FileState)>,
    deleted: Seq<Seq<char>>,
    path: Seq<char>,
)
    requires
        file_states::sorted_entries(left),
        sorted_changes(right),
        good_join(list, left, right),
    ensures
        list_state(list, deleted, path) == merged_state(left, right, deleted, path),
{
    assert forall|i: int, j: int| 0 <= i < j < list.len() implies (#[trigger] list[i]).key() != (
    #[trigger] list[j]).key() by {
        path_model::lemma_names_order_equal(
            path_model::components(list[i].key()),
            path_model::components(list[j].key()),
        );
    }
    if changes_path(right, path) {
        let i = choose|i: int| 0 <= i < right.len() && (#[trigger] right[i]).0@ == path;
        assert(listed(list, right[i].0@));
    } else if file_states::has_path(left, path) {
        let i = choose|i: int| 0 <= i < left.len() && #[trigger] left[i].path@ == path;
        assert(listed(list, left[i].path@));
    }
    if listed(list, path) {
        let k = choose|k: int| 0 <= k < list.len() && (#[trigger] list[k]).key() == path;
        lemma_list_state_at(list, deleted, k);
        assert(list[k].came_from(left, right));
        match list[k] {
            Joined::Left(entry) => {
                let i = choose|i: int| 0 <= i < left.len() && left[i] == entry;
                file_states::lemma_lookup(left, i);
            },
            Joined::Right(change) => {
                lemma_changed_state(right, change);
            },
            Joined::Both(entry, change) => {
                lemma_changed_state(right, change);
            },
        }
    } else {
        assert forall|k: int| 0 <= k < list.len() implies (#[trigger] list[k]).key() != path by {}
        lemma_list_state_absent(list, deleted, path);
    }
}

/// A change among sorted changes is the one for its path.
pub proof fn lemma_changed_state(
    changes: Seq<(RepoPathBuf, FileState)>,
    change: (RepoPathBuf, FileState),
)
    requires
        sorted_changes(changes),
        changes.contains(change),
    ensures
        changes_path(changes, change.0@),
        changed_state(changes, change.0@) == change.1,
{
    let i = choose|i: int| 0 <= i < changes.len() && changes[i] == change;
    assert(changes[i].0@ == change.0@);
    let j = choose|j: int| 0 <= j < changes.len() && (#[trigger] changes[j]).0@ == change.0@;
    path_model::lemma_path_order_equal(change.0@, change.0@);
    if i < j {
        assert(path_model::path_order(changes[i].0@, changes[j].0@) == Order::Less);
    } else if j < i {
        assert(path_model::path_order(changes[j].0@, changes[i].0@) == Order::Less);
    }
}

/// Appending an entry adds its path and no other.
proof fn lemma_lookup_push(data: Seq<FileStateEntry>, entry: FileStateEntry, path: Seq<char>)
    requires
        file_states::sorted_entries(data.push(entry)),
    ensures
        file_states::lookup(data.push(entry), path) == if path == entry.path@ {
            Some(file_states::entry_state(entry))
        } else {
            file_states::lookup(data, path)
        },
{
    let more = data.push(entry);
    assert(file_states::sorted_entries(data)) by {
        assert forall|i: int| 0 <= i < data.len() implies file_states::valid_entry(
            #[trigger] data[i],
        ) by {
            assert(more[i] == data[i]);
        }
        assert forall|i: int, j: int| 0 <= i < j < data.len() implies path_model::path_order(
            #[trigger] data[i].path@,
            #[trigger] data[j].path@,
        ) == Order::Less by {
            assert(more[i] == data[i] && more[j] == data[j]);
            assert(path_model::path_order(more[i].path@, more[j].path@) == Order::Less);
        }
    }
    if path == entry.path@ {
        assert(more[data.len() as int] == entry);
        file_states::lemma_lookup(more, data.len() as int);
    } else if file_states::has_path(data, path) {
        let i = choose|i: int| 0 <= i < data.len() && #[trigger] data[i].path@ == path;
        assert(more[i] == data[i]);
        file_states::lemma_lookup(data, i);
        file_states::lemma_lookup(more, i);
    } else if file_states::has_path(more, path) {
        let i = choose|i: int| 0 <= i < more.len() && #[trigger] more[i].path@ == path;
        assert(data[i].path@ == path);
    }
}

impl FileStatesMap {
    /// The entries are valid, and sorted by path without duplicates.
    pub open spec fn wf(&self) -> bool {
        file_states::sorted_entries(self@)
    }

    pub fn new() -> (r: FileStatesMap)
        ensures
            r.wf(),
            r@ == Seq::<FileStateEntry>::empty(),
    {
        FileStatesMap { data: Vec::new() }
    }

    /// Wraps stored entries, which are sorted first unless they are known to be
    /// sorted.
    pub fn from_proto(data: Vec<FileStateEntry>, is_sorted: bool) -> (r: FileStatesMap)
        requires
            forall|i: int| 0 <= i < data@.len() ==> file_states::valid_entry(#[trigger] data@[i]),
            distinct_keys(data@),
            is_sorted ==> file_states::sorted_entries(data@),
        ensures
            r.wf(),
            r@.to_multiset() == data@.to_multiset(),
            forall|entry: FileStateEntry| r@.contains(entry) <==> data@.contains(entry),
            is_sorted ==> r@ == data@,
    {
        let ghost before = data@;
        let mut data = data;
        if !is_sorted {
            sort_by_path(&mut data);
            proof {
                assert forall|i: int| 0 <= i < data@.len() implies file_states::valid_entry(
                    #[trigger] data@[i],
                ) by {
                    assert(data@.contains(data@[i]));
                    let k = choose|k: int| 0 <= k < before.len() && before[k] == data@[i];
                    assert(file_states::valid_entry(before[k]));
                }
                assert forall|i: int, j: int| 0 <= i < j < data@.len() implies
                    path_model::path_order(
                    #[trigger] data@[i].path@,
                    #[trigger] data@[j].path@,
                ) == Order::Less by {
                    assert(path_model::path_order(data@[i].key(), data@[j].key()) == Order::Less);
                }
            }
        }
        FileStatesMap { data }
    }

    /// Merges changed and deleted entries into this map. The changed entries
    /// must be sorted by path. The other entries are kept as they are.
    pub fn merge_in(
        &mut self,
        changed_file_states: Vec<(RepoPathBuf, FileState)>,
        deleted_files: &PathSet,
    )
        requires
            old(self).wf(),
            sorted_changes(changed_file_states@),
            deleted_files.wf(),
        ensures
            final(self).wf(),
            forall|path: Seq<char>|
                file_states::lookup(final(self)@, path) == #[trigger] merged_state(
                    old(self)@,
                    changed_file_states@,
                    deleted_files@,
                    path,
                ),
            forall|i: int|
                0 <= i < final(self)@.len() ==> merged_entry(
                    old(self)@,
                    changed_file_states@,
                    #[trigger] final(self)@[i],
                ),
            tree_state::merged_files(
                old(self)@,
                final(self)@,
                changed_file_states@,
                deleted_files@,
            ),
    {
        if changed_file_states.len() == 0 && deleted_files.is_empty() {
            return;
        }
        let ghost left = self@;
        let ghost right = changed_file_states@;
        let ghost deleted = deleted_files@;
        let mut entries: Vec<FileStateEntry> = Vec::new();
        std::mem::swap(&mut entries, &mut self.data);
        let list = merge_join_by_path(entries, changed_file_states);
        let ghost items = list@;
        proof {
            lemma_joined_lists(left, right);
        }
        let mut out: Vec<FileStateEntry> = Vec::new();
        for item in it: list
            invariant
                it.seq() == items,
                deleted_files.wf(),
                deleted == deleted_files@,
                file_states::sorted_entries(left),
                sorted_changes(right),
                good_join(items, left, right),
                file_states::sorted_entries(out@),
                forall|m: int, k: int|
                    0 <= m < out@.len() && it.index() <= k < items.len() ==> path_model::path_order(
                        (#[trigger] out@[m]).path@,
                        (#[trigger] items[k]).key(),
                    ) == Order::Less,
                forall|path: Seq<char>|
                    file_states::lookup(out@, path) == #[trigger] list_state(
                        items.take(it.index() as int),
                        deleted,
                        path,
                    ),
                forall|m: int|
                    0 <= m < out@.len() ==> merged_entry(left, right, #[trigger] out@[m]),
        {
            let ghost n = it.index() as int;
            let ghost before = out@;
            assert(item == items[n]);
            assert(item.came_from(left, right));
            assert(items.take(n + 1).drop_last() =~= items.take(n));
            assert(items.take(n + 1).last() == items[n]);
            let new_entry = match item {
                Joined::Both(_, (path, state)) | Joined::Right((path, state)) => {
                    Some(file_states::file_state_entry_to_proto(path, &state))
                },
                Joined::Left(entry) => {
                    let path = RepoPath::from_internal_string_unchecked(entry.path.as_str());
                    if deleted_files.contains(path) {
                        None
                    } else {
                        Some(entry)
                    }
                },
            };
            if let Some(entry) = new_entry {
                out.push(entry);
                proof {
                    assert(file_states::valid_entry(entry)) by {
                        match items[n] {
                            Joined::Left(e) => {
                                let i = choose|i: int| 0 <= i < left.len() && left[i] == e;
                                assert(file_states::valid_entry(left[i]));
                            },
                            Joined::Right(c) => {
                                let i = choose|i: int| 0 <= i < right.len() && right[i] == c;
                                assert(path_model::valid_path(right[i].0@));
                            },
                            Joined::Both(_, c) => {
                                let i = choose|i: int| 0 <= i < right.len() && right[i] == c;
                                assert(path_model::valid_path(right[i].0@));
                            },
                        }
                    }
                    assert(entry.path@ == items[n].key());
                    assert(items[n].contribution(deleted) == Some(
                        file_states::entry_state(entry),
                    ));
                    assert(out@ == before.push(entry));
                    assert forall|m: int| 0 <= m < out@.len() implies merged_entry(
                        left,
                        right,
                        #[trigger] out@[m],
                    ) by {
                        if m < before.len() {
                            assert(out@[m] == before[m]);
                        } else if let Joined::Left(e) = items[n] {
                            let i = choose|i: int| 0 <= i < left.len() && left[i] == e;
                            assert(left[i] == entry);
                        } else if let Joined::Right(c) | Joined::Both(_, c) = items[n] {
                            let i = choose|i: int| 0 <= i < right.len() && right[i] == c;
                            assert(right[i] == c);
                            lemma_changed_state(right, c);
                        }
                    }
                    assert forall|i: int, j: int| 0 <= i < j < out@.len() implies
                        path_model::path_order(
                        #[trigger] out@[i].path@,
                        #[trigger] out@[j].path@,
                    ) == Order::Less by {
                        assert(out@[i] == before[i]);
                        if j < before.len() {
                            assert(out@[j] == before[j]);
                            assert(path_model::path_order(before[i].path@, before[j].path@)
                                == Order::Less);
                        }
                    }
                    assert forall|path: Seq<char>|
                        file_states::lookup(out@, path) == #[trigger] list_state(
                            items.take(n + 1),
                            deleted,
                            path,
                        ) by {
                        lemma_lookup_push(before, entry, path);
                        assert(file_states::lookup(before, path) == list_state(
                            items.take(n),
                            deleted,
                            path,
                        ));
                    }
                    assert forall|m: int, k: int|
                        0 <= m < out@.len() && n + 1 <= k < items.len() implies
                        path_model::path_order(
                        (#[trigger] out@[m]).path@,
                        (#[trigger] items[k]).key(),
                    ) == Order::Less by {
                        if m < before.len() {
                            assert(out@[m] == before[m]);
                        } else {
                            assert(path_model::path_order(items[n].key(), items[k].key())
                                == Order::Less);
                        }
                    }
                }
            } else {
                proof {
                    assert(items[n].contribution(deleted) is None);
                    assert forall|path: Seq<char>|
                        file_states::lookup(out@, path) == #[trigger] list_state(
                            items.take(n + 1),
                            deleted,
                            path,
                        ) by {
                        assert(file_states::lookup(before, path) == list_state(
                            items.take(n),
                            deleted,
                            path,
                        ));
                    }
                }
            }
        }
        self.data = out;
        proof {
            assert(items.take(items.len() as int) =~= items);
            assert forall|path: Seq<char>|
                file_states::lookup(self@, path) == #[trigger] merged_state(
                    left,
                    right,
                    deleted,
                    path,
                ) by {
                lemma_join_states(items, left, right, deleted, path);
                assert(file_states::lookup(self@, path) == list_state(items, deleted, path));
            }
        }
    }

    /// Forgets all files.
    pub fn clear(&mut self)
        ensures
            final(self).wf(),
            final(self)@ == Seq::<FileStateEntry>::empty(),
    {
        self.data.clear();
    }

    /// Returns read-only map containing all file states.
    pub fn all(&self) -> (r: FileStates<'_>)
        ensures
            r@ == self@,
    {
        FileStates::from_sorted(self.data.as_slice())
    }

    /// Copies the stored form of all file states.
    pub fn to_proto(&self) -> (r: Vec<FileStateEntry>)
        ensures
            r@ == self@,
    {
        let mut out: Vec<FileStateEntry> = Vec::new();
        let mut i: usize = 0;
        while i < self.data.len()
            invariant
                i <= self.data@.len(),
                out@ == self.data@.take(i as int),
            decreases self.data@.len() - i,
        {
            out.push(self.data[i].clone());
            i += 1;
        }
        assert(self.data@.take(i as int) =~= self.data@);
        out
    }
}

/// Changes with distinct paths, in order, are sorted changes.
pub proof fn lemma_sorted_keys(changes: Seq<(RepoPathBuf, FileState)>)
    ensures
        distinct_keys(changes) && (forall|i: int, j: int|
            0 <= i < j < changes.len() ==> path_model::path_order(
                (#[trigger] changes[i]).key(),
                (#[trigger] changes[j]).key(),
            ) == Order::Less) ==> sorted_changes(changes),
{
    if distinct_keys(changes) && (forall|i: int, j: int|
        0 <= i < j < changes.len() ==> path_model::path_order(
            (#[trigger] changes[i]).key(),
            (#[trigger] changes[j]).key(),
        ) == Order::Less) {
        assert forall|i: int| 0 <= i < changes.len() implies path_model::valid_path(
            (#[trigger] changes[i]).0@,
        ) by {
            assert(path_model::valid_path(changes[i].key()));
        }
        assert forall|i: int, j: int| 0 <= i < j < changes.len() implies path_model::path_order(
            (#[trigger] changes[i]).0@,
            (#[trigger] changes[j]).0@,
        ) == Order::Less by {
            assert(path_model::path_order(changes[i].key(), changes[j].key()) == Order::Less);
        }
    }
}

/// The order of changes with distinct paths plays no part in what they say of a
/// path.
pub proof fn lemma_same_changes(
    a: Seq<(RepoPathBuf, FileState)>,
    b: Seq<(RepoPathBuf, FileState)>,
    path: Seq<char>,
)
    requires
        distinct_keys(a),
        distinct_keys(b),
        forall|x: (RepoPathBuf, FileState)| b.contains(x) <==> a.contains(x),
    ensures
        changes_path(a, path) == changes_path(b, path),
        changes_path(a, path) ==> changed_state(a, path) == changed_state(b, path),
{
    if changes_path(a, path) {
        let i = choose|i: int| 0 <= i < a.len() && (#[trigger] a[i]).0@ == path;
        assert(a.contains(a[i]));
        let j = choose|j: int| 0 <= j < b.len() && b[j] == a[i];
        assert(b[j].0@ == path);
        let k = choose|k: int| 0 <= k < b.len() && (#[trigger] b[k]).0@ == path;
        assert(b[k].key() == b[j].key());
    }
    if changes_path(b, path) {
        let j = choose|j: int| 0 <= j < b.len() && (#[trigger] b[j]).0@ == path;
        assert(b.contains(b[j]));
        let i = choose|i: int| 0 <= i < a.len() && a[i] == b[j];
        assert(a[i].0@ == path);
    }
}

} // verus!
