//! What a snapshot finds, collected from the directories that were visited.

use vstd::hash_set::StringHashSet;
use vstd::prelude::*;

use crate::backend;
use crate::backend::MergedTreeValue;
use crate::file_state::FileState;
use crate::file_state::FileType;
use crate::file_states;
use crate::file_states::FileStates;
use crate::file_states_map;
use crate::file_states_map::KeyedByPath;
use crate::matchers::SnapshotMatcher;
use crate::path_model;
use crate::path_set::PathSet;
use crate::proto::FileStateEntry;
use crate::repo_path;
use crate::repo_path::RepoPath;
use crate::repo_path::RepoPathBuf;
use crate::snapshot::PresentDirEntryKind;
use crate::snapshot::UntrackedReason;
use crate::stored_value;

verus! {

/// The names of the entries that are there in a directory.
pub struct PresentDirEntries {
    dirs: StringHashSet,
    files: StringHashSet,
}

impl PresentDirEntries {
    /// Whether an entry is there.
    pub closed spec fn has(&self, kind: PresentDirEntryKind, name: Seq<char>) -> bool {
        match kind {
            PresentDirEntryKind::Dir => self.dirs@.contains(name),
            PresentDirEntryKind::File => self.files@.contains(name),
        }
    }

    /// Whether these are the entries `before` and one more.
    pub open spec fn holds_one_more(
        &self,
        before: PresentDirEntries,
        entry_kind: PresentDirEntryKind,
        entry_name: Seq<char>,
    ) -> bool {
        forall|kind: PresentDirEntryKind, name: Seq<char>| #[trigger]
            self.has(kind, name) <==> {
                ||| before.has(kind, name)
                ||| kind == entry_kind && name == entry_name
            }
    }

    pub fn new() -> (r: PresentDirEntries)
        ensures
            forall|kind: PresentDirEntryKind, name: Seq<char>| !#[trigger] r.has(kind, name),
    {
        PresentDirEntries { dirs: StringHashSet::new(), files: StringHashSet::new() }
    }

    pub fn insert(&mut self, entry_kind: PresentDirEntryKind, entry_name: String)
        ensures
            forall|kind: PresentDirEntryKind, name: Seq<char>| #[trigger]
                final(self).has(kind, name) <==> {
                    ||| old(self).has(kind, name)
                    ||| kind == entry_kind && name == entry_name@
                },
            final(self).holds_one_more(*old(self), entry_kind, entry_name@),
    {
        match entry_kind {
            PresentDirEntryKind::Dir => {
                self.dirs.insert(entry_name);
            },
            PresentDirEntryKind::File => {
                self.files.insert(entry_name);
            },
        }
    }

    pub fn contains(&self, kind: PresentDirEntryKind, name: &str) -> (r: bool)
        ensures
            r == self.has(kind, name@),
    {
        match kind {
            PresentDirEntryKind::Dir => self.dirs.contains(name),
            PresentDirEntryKind::File => self.files.contains(name),
        }
    }
}

/// The entry of the directory `dir` that a path belongs to: `<name>` for the path
/// `<dir>/<name>`, which is a file, or `<dir>/<name>/**`. A file `<dir>` itself
/// has no name in the directory.
pub open spec fn entry_of(dir: Seq<char>, path: Seq<char>) -> (PresentDirEntryKind, Seq<char>) {
    let n = path_model::components(dir).len() as int;
    let names = path_model::components(path);
    if names.len() <= n {
        (PresentDirEntryKind::File, Seq::empty())
    } else if names.len() == n + 1 {
        (PresentDirEntryKind::File, names[n])
    } else {
        (PresentDirEntryKind::Dir, names[n])
    }
}

/// Whether a tracked file is gone from a directory. Whether or not the entry
/// exists, submodule is ignored.
pub open spec fn is_missing(
    dir: Seq<char>,
    present: PresentDirEntries,
    entry: FileStateEntry,
) -> bool {
    let (kind, name) = entry_of(dir, entry.path@);
    &&& !present.has(kind, name)
    &&& !(file_states::entry_state(entry).file_type is GitSubmodule)
}

/// The paths of some entries.
pub open spec fn entry_paths(entries: Seq<FileStateEntry>) -> Seq<Seq<char>> {
    entries.map_values(|entry: FileStateEntry| entry.path@)
}

/// Whether the directory has an entry for the given path in it.
fn has_entry_for(dir: RepoPath<'_>, present: &PresentDirEntries, path: RepoPath<'_>) -> (r: bool)
    requires
        path_model::valid_path(dir@),
        path_model::valid_path(path@),
        path_model::under(dir@, path@),
    ensures
        r == present.has(entry_of(dir@, path@).0, entry_of(dir@, path@).1),
{
    let ghost n = path_model::components(dir@).len() as int;
    let ghost names = path_model::components(path@);
    // (file states may contain <dir> file on file->dir transition.)
    match path.strip_prefix(dir) {
        Some(tail) => {
            proof {
                path_model::lemma_components_valid(tail@);
                assert(names.skip(n) =~= path_model::components(tail@));
            }
            let mut components = tail.components();
            match components.next() {
                Some(name) => {
                    proof {
                        assert(path_model::components(tail@)[0] == names[n]);
                        assert(path_model::components(components@).len() == 0 <==> components@.len() == 0);
                    }
                    if components.as_path().is_root() {
                        present.contains(PresentDirEntryKind::File, name.as_internal_str())
                    } else {
                        present.contains(PresentDirEntryKind::Dir, name.as_internal_str())
                    }
                },
                None => {
                    proof {
                        assert(""@ =~= Seq::<char>::empty()) by {
                            reveal_strlit("");
                        }
                    }
                    present.contains(PresentDirEntryKind::File, "")
                },
            }
        },
        None => false,
    }
}

/// Lists the tracked files that are gone from the directory `dir`, whose files
/// have the given states.
pub fn missing_files<'a>(
    dir: RepoPath<'_>,
    file_states: FileStates<'a>,
    present: &PresentDirEntries,
) -> (r: Vec<RepoPath<'a>>)
    requires
        path_model::valid_path(dir@),
        file_states.wf(),
        file_states::all_under(file_states@, dir@),
    ensures
        repo_path::path_texts(r@) == entry_paths(
            file_states@.filter(|entry: FileStateEntry| is_missing(dir@, *present, entry)),
        ),
{
    let ghost pred = |entry: FileStateEntry| is_missing(dir@, *present, entry);
    let ghost all = file_states@;
    let mut out: Vec<RepoPath<'a>> = Vec::new();
    let mut i: usize = 0;
    proof {
        reveal(Seq::filter);
        assert(all.take(0) =~= Seq::empty());
        assert(repo_path::path_texts(out@) =~= entry_paths(all.take(0).filter(pred)));
    }
    while i < file_states.len()
        invariant
            i <= all.len(),
            all == file_states@,
            path_model::valid_path(dir@),
            file_states.wf(),
            file_states::all_under(all, dir@),
            pred == |entry: FileStateEntry| is_missing(dir@, *present, entry),
            repo_path::path_texts(out@) == entry_paths(all.take(i as int).filter(pred)),
        decreases all.len() - i,
    {
        let ghost before = out@;
        let ghost kept = all.take(i as int).filter(pred);
        proof {
            reveal(Seq::filter);
            assert(all.take(i + 1).drop_last() =~= all.take(i as int));
            assert(all.take(i + 1).last() == all[i as int]);
            assert(file_states::valid_entry(all[i as int]));
            assert(path_model::under(dir@, all[i as int].path@));
        }
        let (path, state) = file_states.entry(i);
        let is_submodule = match state.file_type {
            FileType::GitSubmodule => true,
            _ => false,
        };
        if !is_submodule && !has_entry_for(dir, present, path) {
            out.push(path);
            proof {
                assert(pred(all[i as int]));
                assert(repo_path::path_texts(out@) =~= repo_path::path_texts(before).push(path@));
                assert(entry_paths(kept.push(all[i as int])) =~= entry_paths(kept).push(path@));
            }
        } else {
            assert(!pred(all[i as int]));
        }
        i += 1;
    }
    assert(all.take(i as int) =~= all);
    out
}

/// What a snapshot has found.
pub struct SnapshotOutput {
    /// New values for the tree.
    pub tree_entries: Vec<(RepoPathBuf, MergedTreeValue)>,
    /// New states of files.
    pub file_states: Vec<(RepoPathBuf, FileState)>,
    /// Files that are not tracked although they could be.
    pub untracked_paths: Vec<(RepoPathBuf, UntrackedReason)>,
    /// Tracked files that are gone.
    pub deleted_files: PathSet,
}

/// Whether a list has grown by a value for the given path.
pub open spec fn added<V>(
    before: Seq<(RepoPathBuf, V)>,
    after: Seq<(RepoPathBuf, V)>,
    path: Seq<char>,
    value: V,
) -> bool {
    &&& after.len() == before.len() + 1
    &&& after.drop_last() == before
    &&& after.last().0@ == path
    &&& after.last().1 == value
}

/// Whether a list has a value for the given path.
pub open spec fn lists_path<V>(list: Seq<(RepoPathBuf, V)>, path: Seq<char>) -> bool {
    exists|i: int| 0 <= i < list.len() && (#[trigger] list[i]).0@ == path
}

/// The state to record for a present file. Materialized conflict data is preserved
/// for normal, non-resolved files.
pub open spec fn present_state(
    current: Option<FileState>,
    update: Option<MergedTreeValue>,
    new_state: FileState,
) -> FileState {
    if new_state.file_type is Normal && !(update matches Some(value) && value@.len() == 1) {
        FileState {
            materialized_conflict_data: stored_value::recorded_conflict(current),
            ..new_state
        }
    } else {
        new_state
    }
}

/// Whether a file that is there was recorded: its new value in the tree, if it has
/// changed, and its new state, if that differs from the recorded one.
pub open spec fn found_present(
    before: SnapshotOutput,
    after: SnapshotOutput,
    path: Seq<char>,
    current: Option<FileState>,
    update: Option<MergedTreeValue>,
    new_state: FileState,
) -> bool {
    let state = present_state(current, update, new_state);
    &&& after.untracked_paths == before.untracked_paths
    &&& after.deleted_files == before.deleted_files
    &&& match update {
        Some(value) => added(before.tree_entries@, after.tree_entries@, path, value),
        None => after.tree_entries == before.tree_entries,
    }
    &&& if current != Some(state) {
        added(before.file_states@, after.file_states@, path, state)
    } else {
        after.file_states == before.file_states
    }
}

/// A value for another path keeps the paths of a list distinct.
proof fn lemma_added_distinct<V>(list: Seq<(RepoPathBuf, V)>, path: RepoPathBuf, value: V)
    requires
        file_states_map::distinct_keys(list),
        path_model::valid_path(path@),
        !lists_path(list, path@),
    ensures
        file_states_map::distinct_keys(list.push((path, value))),
        added(list, list.push((path, value)), path@, value),
{
    let after = list.push((path, value));
    let n = list.len() as int;
    assert(after.drop_last() =~= list);
    assert(after[n].key() == path@);
    assert forall|i: int| 0 <= i < after.len() implies path_model::valid_path(
        (#[trigger] after[i]).key(),
    ) by {
        if i < n {
            assert(after[i] == list[i]);
            assert(path_model::valid_path(list[i].key()));
        }
    }
    assert forall|i: int, j: int|
        0 <= i < after.len() && 0 <= j < after.len() && i != j implies (#[trigger] after[i]).key()
        != (#[trigger] after[j]).key() by {
        if i < n && j < n {
            assert(after[i] == list[i] && after[j] == list[j]);
            assert(list[i].key() != list[j].key());
        } else if i < n {
            assert(after[i] == list[i]);
            assert(list[i].0@ != path@);
        } else {
            assert(after[j] == list[j]);
            assert(list[j].0@ != path@);
        }
    }
}

impl SnapshotOutput {
    /// Each path is listed once.
    pub open spec fn wf(&self) -> bool {
        &&& file_states_map::distinct_keys(self.tree_entries@)
        &&& file_states_map::distinct_keys(self.file_states@)
        &&& file_states_map::distinct_keys(self.untracked_paths@)
        &&& self.deleted_files.wf()
    }

    /// Whether something was found about a path.
    pub open spec fn mentions(&self, path: Seq<char>) -> bool {
        ||| lists_path(self.tree_entries@, path)
        ||| lists_path(self.file_states@, path)
        ||| lists_path(self.untracked_paths@, path)
    }

    pub fn new() -> (r: SnapshotOutput)
        ensures
            r.wf(),
            r.tree_entries@.len() == 0,
            r.file_states@.len() == 0,
            r.untracked_paths@.len() == 0,
            r.deleted_files@.len() == 0,
    {
        SnapshotOutput {
            tree_entries: Vec::new(),
            file_states: Vec::new(),
            untracked_paths: Vec::new(),
            deleted_files: PathSet::new(),
        }
    }

    /// Reports a file that is not tracked.
    pub fn report_untracked(&mut self, path: RepoPathBuf, reason: UntrackedReason)
        requires
            old(self).wf(),
            path_model::valid_path(path@),
            !old(self).mentions(path@),
        ensures
            final(self).wf(),
            final(self).tree_entries == old(self).tree_entries,
            final(self).file_states == old(self).file_states,
            final(self).deleted_files == old(self).deleted_files,
            added(old(self).untracked_paths@, final(self).untracked_paths@, path@, reason),
    {
        proof {
            lemma_added_distinct(self.untracked_paths@, path, reason);
        }
        self.untracked_paths.push((path, reason));
    }

    /// Records a file that is there: its new value in the tree, if it has changed,
    /// and its new state, if that differs from the recorded one.
    pub fn process_present_file(
        &mut self,
        path: RepoPathBuf,
        current: Option<FileState>,
        update: Option<MergedTreeValue>,
        new_state: FileState,
    )
        requires
            old(self).wf(),
            path_model::valid_path(path@),
            !old(self).mentions(path@),
        ensures
            final(self).wf(),
            found_present(*old(self), *final(self), path@, current, update, new_state),
    {
        let ghost state = present_state(current, update, new_state);
        let mut new_state = new_state;
        let is_settled = match &update {
            Some(value) => value.is_resolved(),
            None => false,
        };
        if let FileType::Normal { .. } = new_state.file_type {
            if !is_settled {
                new_state.materialized_conflict_data = match current {
                    Some(current) => current.materialized_conflict_data,
                    None => None,
                };
            }
        }
        assert(new_state == state);
        if let Some(tree_value) = update {
            let tree_path = path.clone();
            proof {
                lemma_added_distinct(self.tree_entries@, tree_path, tree_value);
            }
            self.tree_entries.push((tree_path, tree_value));
        }
        let unchanged = match current {
            Some(current) => current == new_state,
            None => false,
        };
        if !unchanged {
            proof {
                lemma_added_distinct(self.file_states@, path, new_state);
            }
            self.file_states.push((path, new_state));
        }
    }

    /// Records that a tracked file is gone.
    pub fn report_deleted(&mut self, path: RepoPathBuf)
        requires
            old(self).wf(),
        ensures
            final(self).wf(),
            final(self).tree_entries == old(self).tree_entries,
            final(self).file_states == old(self).file_states,
            final(self).untracked_paths == old(self).untracked_paths,
            forall|p: Seq<char>| #[trigger]
                final(self).deleted_files@.contains(p) <==> old(self).deleted_files@.contains(p)
                    || p == path@,
    {
        let ghost before = self.deleted_files@;
        self.deleted_files.insert(path);
        proof {
            lemma_contains_more(before, self.deleted_files@, path@);
        }
    }

    /// Records which of the missing files are gone: those that the snapshot looks
    /// at. `forced` tells of each whether it is to be tracked in any case.
    pub fn emit_deleted_files(
        &mut self,
        matcher: &SnapshotMatcher<'_>,
        missing: &Vec<RepoPath<'_>>,
        forced: &Vec<bool>,
    )
        requires
            old(self).wf(),
            matcher.wf(),
            missing@.len() == forced@.len(),
        ensures
            final(self).wf(),
            final(self).tree_entries == old(self).tree_entries,
            final(self).file_states == old(self).file_states,
            final(self).untracked_paths == old(self).untracked_paths,
            forall|p: Seq<char>| #[trigger]
                final(self).deleted_files@.contains(p) <==> old(self).deleted_files@.contains(p)
                    || is_emitted(*matcher, missing@, forced@, p),
    {
        let ghost before = self.deleted_files@;
        let mut i: usize = 0;
        while i < missing.len()
            invariant
                i <= missing@.len() == forced@.len(),
                self.wf(),
                matcher.wf(),
                self.tree_entries == old(self).tree_entries,
                self.file_states == old(self).file_states,
                self.untracked_paths == old(self).untracked_paths,
                forall|p: Seq<char>| #[trigger]
                    self.deleted_files@.contains(p) <==> before.contains(p) || is_emitted(
                        *matcher,
                        missing@.take(i as int),
                        forced@,
                        p,
                    ),
            decreases missing@.len() - i,
        {
            let ghost seen = missing@.take(i as int);
            let ghost next = missing@.take(i + 1);
            let ghost earlier = self.deleted_files@;
            let path = missing[i];
            if matcher.matches(path, forced[i]) {
                self.report_deleted(path.to_owned());
            }
            proof {
                assert(next =~= seen.push(path));
                assert forall|p: Seq<char>| #[trigger]
                    self.deleted_files@.contains(p) <==> before.contains(p) || is_emitted(
                        *matcher,
                        next,
                        forced@,
                        p,
                    ) by {
                    lemma_emitted_more(*matcher, seen, path, forced@, p);
                    assert(earlier.contains(p) <==> before.contains(p) || is_emitted(
                        *matcher,
                        seen,
                        forced@,
                        p,
                    ));
                }
            }
            i += 1;
        }
        assert(missing@.take(i as int) =~= missing@);
    }
}

/// Two lists with distinct paths that have no path in common make one.
proof fn lemma_concat_distinct<V>(a: Seq<(RepoPathBuf, V)>, b: Seq<(RepoPathBuf, V)>)
    requires
        file_states_map::distinct_keys(a),
        file_states_map::distinct_keys(b),
        forall|path: Seq<char>| !(#[trigger] lists_path(a, path) && lists_path(b, path)),
    ensures
        file_states_map::distinct_keys(a + b),
{
    let all = a + b;
    let n = a.len() as int;
    assert forall|i: int| 0 <= i < all.len() implies path_model::valid_path(
        (#[trigger] all[i]).key(),
    ) by {
        if i < n {
            assert(path_model::valid_path(a[i].key()));
        } else {
            assert(path_model::valid_path(b[i - n].key()));
        }
    }
    assert forall|i: int, j: int|
        0 <= i < all.len() && 0 <= j < all.len() && i != j implies (#[trigger] all[i]).key() != (
    #[trigger] all[j]).key() by {
        if i < n && j < n {
            assert(a[i].key() != a[j].key());
        } else if i >= n && j >= n {
            assert(b[i - n].key() != b[j - n].key());
        } else if i < n {
            assert(lists_path(a, a[i].0@));
            assert(!lists_path(b, a[i].0@));
            assert(b[j - n].0@ != a[i].0@);
        } else {
            assert(lists_path(a, a[j].0@));
            assert(!lists_path(b, a[j].0@));
            assert(b[i - n].0@ != a[j].0@);
        }
    }
}

impl SnapshotOutput {
    /// Adds what was found in other directories.
    pub fn append(&mut self, other: SnapshotOutput)
        requires
            old(self).wf(),
            other.wf(),
            forall|path: Seq<char>| !(#[trigger] old(self).mentions(path) && other.mentions(path)),
        ensures
            final(self).wf(),
            final(self).tree_entries@ == old(self).tree_entries@ + other.tree_entries@,
            final(self).file_states@ == old(self).file_states@ + other.file_states@,
            final(self).untracked_paths@ == old(self).untracked_paths@ + other.untracked_paths@,
            forall|path: Seq<char>| #[trigger]
                final(self).deleted_files@.contains(path)
                    <==> old(self).deleted_files@.contains(path)
                    || other.deleted_files@.contains(path),
    {
        proof {
            assert forall|path: Seq<char>|
                !(#[trigger] lists_path(self.tree_entries@, path) && lists_path(
                    other.tree_entries@,
                    path,
                )) by {
                assert(!(self.mentions(path) && other.mentions(path)));
            }
            assert forall|path: Seq<char>|
                !(#[trigger] lists_path(self.file_states@, path) && lists_path(
                    other.file_states@,
                    path,
                )) by {
                assert(!(self.mentions(path) && other.mentions(path)));
            }
            assert forall|path: Seq<char>|
                !(#[trigger] lists_path(self.untracked_paths@, path) && lists_path(
                    other.untracked_paths@,
                    path,
                )) by {
                assert(!(self.mentions(path) && other.mentions(path)));
            }
            lemma_concat_distinct(self.tree_entries@, other.tree_entries@);
            lemma_concat_distinct(self.file_states@, other.file_states@);
            lemma_concat_distinct(self.untracked_paths@, other.untracked_paths@);
        }
        let ghost all = other.deleted_files@;
        let mut other = other;
        self.tree_entries.append(&mut other.tree_entries);
        self.file_states.append(&mut other.file_states);
        self.untracked_paths.append(&mut other.untracked_paths);
        let mut i: usize = 0;
        let ghost before = self.deleted_files@;
        let ghost so_far = *self;
        assert(all.take(0) =~= Seq::empty());
        while i < other.deleted_files.len()
            invariant
                i <= all.len(),
                all == other.deleted_files@,
                self.wf(),
                self.tree_entries == so_far.tree_entries,
                self.file_states == so_far.file_states,
                self.untracked_paths == so_far.untracked_paths,
                forall|path: Seq<char>| #[trigger]
                    self.deleted_files@.contains(path) <==> before.contains(path) || all.take(
                        i as int,
                    ).contains(path),
            decreases all.len() - i,
        {
            let ghost seen = all.take(i as int);
            let ghost earlier = self.deleted_files@;
            let path = other.deleted_files.path(i);
            self.report_deleted(path.to_owned());
            proof {
                let next = all.take(i + 1);
                assert(next =~= seen.push(path@));
                assert forall|p: Seq<char>| #[trigger]
                    self.deleted_files@.contains(p) <==> before.contains(p) || next.contains(
                        p,
                    ) by {
                    assert(earlier.contains(p) <==> before.contains(p) || seen.contains(p));
                    if seen.contains(p) {
                        let k = choose|k: int| 0 <= k < seen.len() && seen[k] == p;
                        assert(next[k] == p);
                    }
                    if p == path@ {
                        assert(next[i as int] == p);
                    }
                    if next.contains(p) {
                        let k = choose|k: int| 0 <= k < next.len() && next[k] == p;
                        if k < i {
                            assert(seen[k] == p);
                        }
                    }
                }
            }
            i += 1;
        }
        assert(all.take(i as int) =~= all);
    }

    /// Takes out what is to be changed in the tree: the new values, and the files
    /// that are gone.
    pub fn take_tree_changes(&mut self) -> (r: Vec<(RepoPathBuf, MergedTreeValue)>)
        requires
            old(self).wf(),
        ensures
            final(self).wf(),
            final(self).tree_entries@.len() == 0,
            final(self).file_states == old(self).file_states,
            final(self).untracked_paths == old(self).untracked_paths,
            final(self).deleted_files == old(self).deleted_files,
            ({
                let n = old(self).tree_entries@.len() as int;
                &&& r@.len() == n + old(self).deleted_files@.len()
                &&& r@.take(n) == old(self).tree_entries@
                &&& forall|i: int|
                    0 <= i < old(self).deleted_files@.len() ==> (#[trigger] r@[n + i]).0@ == old(
                        self,
                    ).deleted_files@[i] && backend::absent(r@[n + i].1@)
            }),
    {
        let ghost n = self.tree_entries@.len() as int;
        let ghost entries = self.tree_entries@;
        let mut changes: Vec<(RepoPathBuf, MergedTreeValue)> = Vec::new();
        std::mem::swap(&mut changes, &mut self.tree_entries);
        let mut i: usize = 0;
        assert(changes@.take(n) =~= entries);
        while i < self.deleted_files.len()
            invariant
                i <= self.deleted_files@.len(),
                changes@.len() == n + i,
                n >= 0,
                changes@.take(n) == entries,
                forall|k: int|
                    0 <= k < i ==> (#[trigger] changes@[n + k]).0@ == self.deleted_files@[k]
                        && backend::absent(changes@[n + k].1@),
            decreases self.deleted_files@.len() - i,
        {
            let ghost before = changes@;
            changes.push((self.deleted_files.path(i).to_owned(), MergedTreeValue::absent()));
            assert(changes@.take(n) =~= before.take(n));
            i += 1;
        }
        changes
    }
}

/// Whether a path is among the missing files that the snapshot looks at.
pub open spec fn is_emitted(
    matcher: SnapshotMatcher<'_>,
    missing: Seq<RepoPath<'_>>,
    forced: Seq<bool>,
    path: Seq<char>,
) -> bool {
    exists|i: int|
        0 <= i < missing.len() && (#[trigger] missing[i])@ == path && matcher.looks_at(
            path,
            forced[i],
        )
}

/// One more missing file.
proof fn lemma_emitted_more(
    matcher: SnapshotMatcher<'_>,
    seen: Seq<RepoPath<'_>>,
    file: RepoPath<'_>,
    forced: Seq<bool>,
    path: Seq<char>,
)
    ensures
        is_emitted(matcher, seen.push(file), forced, path) <==> {
            ||| is_emitted(matcher, seen, forced, path)
            ||| file@ == path && matcher.looks_at(path, forced[seen.len() as int])
        },
{
    let next = seen.push(file);
    if is_emitted(matcher, seen, forced, path) {
        let k = choose|k: int|
            0 <= k < seen.len() && (#[trigger] seen[k])@ == path && matcher.looks_at(
                path,
                forced[k],
            );
        assert(next[k] == seen[k]);
    }
    if file@ == path && matcher.looks_at(path, forced[seen.len() as int]) {
        assert(next[seen.len() as int] == file);
    }
    if is_emitted(matcher, next, forced, path) {
        let k = choose|k: int|
            0 <= k < next.len() && (#[trigger] next[k])@ == path && matcher.looks_at(
                path,
                forced[k],
            );
        if k < seen.len() {
            assert(seen[k] == next[k]);
        }
    }
}

/// What a set holds after one more path was added.
pub(crate) proof fn lemma_contains_more(before: Seq<Seq<char>>, after: Seq<Seq<char>>, path: Seq<char>)
    requires
        after == if before.contains(path) {
            before
        } else {
            before.push(path)
        },
    ensures
        forall|p: Seq<char>| #[trigger] after.contains(p) <==> before.contains(p) || p == path,
{
    assert forall|p: Seq<char>| #[trigger] after.contains(p) <==> before.contains(p) || p
        == path by {
        if before.contains(p) {
            let i = choose|i: int| 0 <= i < before.len() && before[i] == p;
            assert(after[i] == p);
        }
        if p == path && !before.contains(path) {
            assert(after[before.len() as int] == p);
        }
        if after.contains(p) {
            let i = choose|i: int| 0 <= i < after.len() && after[i] == p;
            if i < before.len() {
                assert(before[i] == p);
            }
        }
    }
}

} // verus!
