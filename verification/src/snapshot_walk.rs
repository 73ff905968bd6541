//! A whole walk over the working copy, from what was found at each step of it.

use vstd::prelude::*;

use crate::backend;
use crate::backend::MergedTreeValue;
use crate::backend::TreeEntry;
use crate::file_state::FileState;
use crate::file_state::FileType;
use crate::file_states;
use crate::file_states::FileStates;
use crate::matchers::SnapshotMatcher;
use crate::path_model;
use crate::path_set::PathSet;
use crate::proto::FileStateEntry;
use crate::proto::WatchmanClock;
use crate::repo_path;
use crate::repo_path::RepoPath;
use crate::repo_path::RepoPathBuf;
use crate::snapshot::FileSnapshotter;
use crate::snapshot::UntrackedReason;
use crate::snapshot_output;
use crate::snapshot_output::SnapshotOutput;
use crate::stored_value;
use crate::stored_value::StorePlan;
use crate::stored_value::StoredContents;
use crate::tracked_files;
use crate::tree_state;
use crate::tree_state::TreeStateFacts;

verus! {

/// What came of storing a file at a path at which the tree has `current_value`.
#[derive(Debug)]
pub struct StoredFile {
    pub current_value: MergedTreeValue,
    pub contents: StoredContents,
}

/// What is found at one step of a walk.
#[derive(Debug)]
pub enum WalkStep {
    /// A file that is not tracked although it could be.
    Untracked { path: RepoPathBuf, reason: UntrackedReason },
    /// A file that is there. It was stored if it may have changed.
    Present { path: RepoPathBuf, new_state: FileState, stored: Option<StoredFile> },
    /// A tracked file that is gone.
    Gone { path: RepoPathBuf },
    /// The tracked files that are missing in a directory. `forced` tells of each whether
    /// it is to be tracked in any case.
    Missing { paths: Vec<RepoPathBuf>, forced: Vec<bool> },
}

impl WalkStep {
    /// Whether a file was found at a path.
    pub open spec fn finds(self, path: Seq<char>) -> bool {
        match self {
            WalkStep::Untracked { path: at, .. } => at@ == path,
            WalkStep::Present { path: at, .. } => at@ == path,
            _ => false,
        }
    }

    /// Whether the file at a path is taken for gone.
    pub open spec fn removes(self, matcher: SnapshotMatcher<'_>, path: Seq<char>) -> bool {
        match self {
            WalkStep::Gone { path: at } => at@ == path,
            WalkStep::Missing { paths, forced } => exists|i: int|
                0 <= i < paths@.len() && (#[trigger] paths@[i])@ == path && matcher.looks_at(
                    path,
                    forced@[i],
                ),
            _ => false,
        }
    }
}

/// Whether a file was found at a path.
pub open spec fn found(steps: Seq<WalkStep>, path: Seq<char>) -> bool {
    exists|i: int| 0 <= i < steps.len() && (#[trigger] steps[i]).finds(path)
}

/// Whether the file at a path is taken for gone.
pub open spec fn removed(
    matcher: SnapshotMatcher<'_>,
    steps: Seq<WalkStep>,
    path: Seq<char>,
) -> bool {
    exists|i: int| 0 <= i < steps.len() && (#[trigger] steps[i]).removes(matcher, path)
}

/// The files that are reported as untracked.
pub open spec fn untracked_list(steps: Seq<WalkStep>) -> Seq<(Seq<char>, UntrackedReason)>
    decreases steps.len(),
{
    if steps.len() == 0 {
        Seq::empty()
    } else {
        match steps.last() {
            WalkStep::Untracked { path, reason } => untracked_list(steps.drop_last()).push(
                (path@, reason),
            ),
            _ => untracked_list(steps.drop_last()),
        }
    }
}

/// Paths with what is listed for them.
pub open spec fn path_views<V>(list: Seq<(RepoPathBuf, V)>) -> Seq<(Seq<char>, V)> {
    list.map_values(|item: (RepoPathBuf, V)| (item.0@, item.1))
}

/// Paths with the terms of what they get in the tree.
pub open spec fn term_views(
    list: Seq<(RepoPathBuf, MergedTreeValue)>,
) -> Seq<(Seq<char>, Seq<Option<TreeEntry>>)> {
    list.map_values(|item: (RepoPathBuf, MergedTreeValue)| (item.0@, item.1@))
}

/// Whether a list has something for a path.
pub open spec fn has_path<V>(list: Seq<(Seq<char>, V)>, path: Seq<char>) -> bool {
    exists|i: int| 0 <= i < list.len() && (#[trigger] list[i]).0 == path
}

/// The state to record for a present file, whose new value in the tree has the given
/// terms if it has changed. Materialized conflict data is preserved for normal,
/// non-resolved files.
pub open spec fn recorded_state(
    current: Option<FileState>,
    new_value: Option<Seq<Option<TreeEntry>>>,
    new_state: FileState,
) -> FileState {
    if new_state.file_type is Normal && !(new_value matches Some(terms) && terms.len() == 1) {
        FileState {
            materialized_conflict_data: stored_value::recorded_conflict(current),
            ..new_state
        }
    } else {
        new_state
    }
}

/// Whether what a walk has seen of the tree is what the tree has.
pub open spec fn saw_tree(steps: Seq<WalkStep>, tree: Set<Seq<char>>) -> bool {
    forall|i: int|
        0 <= i < steps.len() ==> match #[trigger] steps[i] {
            WalkStep::Present { path, stored: Some(stored), .. } => {
                tree.contains(path@) <==> !backend::absent(stored.current_value@)
            },
            _ => true,
        }
}

impl<'a> FileSnapshotter<'a> {
    /// How a present file is stored.
    pub open spec fn plan(
        self,
        current: Option<FileState>,
        new_state: FileState,
        current_value: Seq<Option<TreeEntry>>,
    ) -> StorePlan {
        stored_value::store_plan(
            stored_value::stored_type(self.symlink_support, new_state.file_type, current_value),
            current_value,
            stored_value::recorded_conflict(current),
        )
    }

    /// What the tree is to have at the path of a present file, if that has changed.
    pub open spec fn new_value(
        self,
        current: Option<FileState>,
        new_state: FileState,
        stored: Option<StoredFile>,
    ) -> Option<Seq<Option<TreeEntry>>> {
        match stored {
            Some(stored) => {
                let terms = stored_value::stored_terms(
                    self.plan(current, new_state, stored.current_value@),
                    self.exec_policy,
                    stored.current_value@,
                    stored.contents,
                );
                if terms != stored.current_value@ {
                    Some(terms)
                } else {
                    None
                }
            },
            None => None,
        }
    }

    /// Whether a present file was stored as planned if it may have changed, and not stored
    /// otherwise.
    pub open spec fn stored_as_planned(
        self,
        current: Option<FileState>,
        new_state: FileState,
        stored: Option<StoredFile>,
    ) -> bool {
        match stored {
            Some(stored) => {
                &&& !stored_value::known_clean(current, new_state, self.own_mtime)
                &&& !(new_state.file_type is GitSubmodule)
                &&& stored_value::fits(
                    self.plan(current, new_state, stored.current_value@),
                    stored.current_value@,
                    stored.contents,
                )
            },
            None => stored_value::known_clean(current, new_state, self.own_mtime),
        }
    }

    /// Whether a step can follow others in a walk. A file is found once, and is not gone
    /// as well. Only a file that is not tracked is untracked. A present file was stored
    /// as planned exactly if it may have changed.
    pub open spec fn can_follow(
        self,
        files: Seq<FileStateEntry>,
        before: Seq<WalkStep>,
        step: WalkStep,
    ) -> bool {
        match step {
            WalkStep::Untracked { path, .. } => {
                &&& path_model::valid_path(path@)
                &&& file_states::lookup(files, path@) is None
                &&& !found(before, path@)
            },
            WalkStep::Present { path, new_state, stored } => {
                let current = file_states::lookup(files, path@);
                &&& path_model::valid_path(path@)
                &&& !found(before, path@)
                &&& !removed(self.matcher, before, path@)
                &&& self.stored_as_planned(current, new_state, stored)
            },
            WalkStep::Gone { path } => !found(before, path@),
            WalkStep::Missing { paths, forced } => {
                &&& paths@.len() == forced@.len()
                &&& forall|i: int|
                    0 <= i < paths@.len() && self.matcher.looks_at(paths@[i]@, forced@[i])
                        ==> !found(before, (#[trigger] paths@[i])@)
            },
        }
    }

    /// Whether steps make up a walk.
    pub open spec fn is_walk(self, files: Seq<FileStateEntry>, steps: Seq<WalkStep>) -> bool
        decreases steps.len(),
    {
        steps.len() == 0 || {
            &&& self.is_walk(files, steps.drop_last())
            &&& self.can_follow(files, steps.drop_last(), steps.last())
        }
    }

    /// The new values in the tree.
    pub open spec fn tree_list(
        self,
        files: Seq<FileStateEntry>,
        steps: Seq<WalkStep>,
    ) -> Seq<(Seq<char>, Seq<Option<TreeEntry>>)>
        decreases steps.len(),
    {
        if steps.len() == 0 {
            Seq::empty()
        } else {
            let before = self.tree_list(files, steps.drop_last());
            match steps.last() {
                WalkStep::Present { path, new_state, stored } => {
                    let current = file_states::lookup(files, path@);
                    match self.new_value(current, new_state, stored) {
                        Some(terms) => before.push((path@, terms)),
                        None => before,
                    }
                },
                _ => before,
            }
        }
    }

    /// The new states of files.
    pub open spec fn state_list(
        self,
        files: Seq<FileStateEntry>,
        steps: Seq<WalkStep>,
    ) -> Seq<(Seq<char>, FileState)>
        decreases steps.len(),
    {
        if steps.len() == 0 {
            Seq::empty()
        } else {
            let before = self.state_list(files, steps.drop_last());
            match steps.last() {
                WalkStep::Present { path, new_state, stored } => {
                    let current = file_states::lookup(files, path@);
                    let state = recorded_state(
                        current,
                        self.new_value(current, new_state, stored),
                        new_state,
                    );
                    if current != Some(state) {
                        before.push((path@, state))
                    } else {
                        before
                    }
                },
                _ => before,
            }
        }
    }

    /// Whether `output` is what the steps of a walk have found.
    pub open spec fn walked(
        self,
        files: Seq<FileStateEntry>,
        steps: Seq<WalkStep>,
        output: SnapshotOutput,
    ) -> bool {
        &&& term_views(output.tree_entries@) == self.tree_list(files, steps)
        &&& path_views(output.file_states@) == self.state_list(files, steps)
        &&& path_views(output.untracked_paths@) == untracked_list(steps)
        &&& forall|path: Seq<char>| #[trigger]
            output.deleted_files@.contains(path) <==> removed(self.matcher, steps, path)
    }
}

/// One more step.
proof fn lemma_one_more(
    matcher: SnapshotMatcher<'_>,
    before: Seq<WalkStep>,
    step: WalkStep,
    path: Seq<char>,
)
    ensures
        found(before.push(step), path) <==> found(before, path) || step.finds(path),
        removed(matcher, before.push(step), path) <==> removed(matcher, before, path)
            || step.removes(matcher, path),
{
    let all = before.push(step);
    let n = before.len() as int;
    assert(all[n] == step);
    if found(before, path) {
        let i = choose|i: int| 0 <= i < before.len() && (#[trigger] before[i]).finds(path);
        assert(all[i].finds(path));
    }
    if found(all, path) {
        let i = choose|i: int| 0 <= i < all.len() && (#[trigger] all[i]).finds(path);
        assert(i < n ==> before[i].finds(path));
    }
    if removed(matcher, before, path) {
        let i = choose|i: int|
            0 <= i < before.len() && (#[trigger] before[i]).removes(matcher, path);
        assert(all[i].removes(matcher, path));
    }
    if removed(matcher, all, path) {
        let i = choose|i: int| 0 <= i < all.len() && (#[trigger] all[i]).removes(matcher, path);
        assert(i < n ==> before[i].removes(matcher, path));
    }
}

/// A list with one more item.
proof fn lemma_has_more<V>(list: Seq<(Seq<char>, V)>, item: (Seq<char>, V), path: Seq<char>)
    ensures
        has_path(list.push(item), path) <==> has_path(list, path) || item.0 == path,
{
    let all = list.push(item);
    assert(all[list.len() as int] == item);
    if has_path(list, path) {
        let i = choose|i: int| 0 <= i < list.len() && (#[trigger] list[i]).0 == path;
        assert(all[i].0 == path);
    }
    if has_path(all, path) {
        let i = choose|i: int| 0 <= i < all.len() && (#[trigger] all[i]).0 == path;
        assert(i < list.len() ==> list[i].0 == path);
    }
}

/// What is listed was found.
proof fn lemma_listed_is_found(
    snapshotter: FileSnapshotter<'_>,
    files: Seq<FileStateEntry>,
    steps: Seq<WalkStep>,
    path: Seq<char>,
)
    ensures
        has_path(snapshotter.tree_list(files, steps), path) ==> found(steps, path),
        has_path(snapshotter.state_list(files, steps), path) ==> found(steps, path),
        has_path(untracked_list(steps), path) ==> found(steps, path),
    decreases steps.len(),
{
    if steps.len() > 0 {
        let before = steps.drop_last();
        let step = steps.last();
        lemma_listed_is_found(snapshotter, files, before, path);
        assert(steps =~= before.push(step));
        lemma_one_more(snapshotter.matcher, before, step, path);
        match step {
            WalkStep::Untracked { path: at, reason } => {
                lemma_has_more(untracked_list(before), (at@, reason), path);
            },
            WalkStep::Present { path: at, new_state, stored } => {
                let current = file_states::lookup(files, at@);
                let new_value = snapshotter.new_value(current, new_state, stored);
                let state = recorded_state(current, new_value, new_state);
                lemma_has_more(snapshotter.state_list(files, before), (at@, state), path);
                if let Some(terms) = new_value {
                    lemma_has_more(snapshotter.tree_list(files, before), (at@, terms), path);
                }
            },
            _ => {},
        }
    }
}

/// What is known of a path after a walk, where the tree had the tracked files.
proof fn lemma_walked_path(
    snapshotter: FileSnapshotter<'_>,
    files: Seq<FileStateEntry>,
    steps: Seq<WalkStep>,
    tree: Set<Seq<char>>,
    path: Seq<char>,
)
    requires
        snapshotter.is_walk(files, steps),
        tracked_files::tracks(tree, files),
        saw_tree(steps, tree),
    ensures
        ({
            let values = snapshotter.tree_list(files, steps);
            let states = snapshotter.state_list(files, steps);
            let untracked = untracked_list(steps);
            &&& has_path(values, path) ==> {
                &&& file_states::lookup(files, path) is Some || has_path(states, path)
                &&& forall|i: int|
                    0 <= i < values.len() && (#[trigger] values[i]).0 == path ==> !backend::absent(
                        values[i].1,
                    )
            }
            &&& has_path(states, path) ==> tree.contains(path) || has_path(values, path)
            &&& has_path(untracked, path) ==> {
                &&& file_states::lookup(files, path) is None
                &&& !has_path(states, path)
            }
            &&& has_path(values, path) || has_path(states, path) ==> !removed(
                snapshotter.matcher,
                steps,
                path,
            )
        }),
    decreases steps.len(),
{
    if steps.len() > 0 {
        let before = steps.drop_last();
        let step = steps.last();
        let values = snapshotter.tree_list(files, before);
        let states = snapshotter.state_list(files, before);
        assert(saw_tree(before, tree)) by {
            assert forall|i: int| 0 <= i < before.len() implies match #[trigger] before[i] {
                WalkStep::Present { path, stored: Some(stored), .. } => {
                    tree.contains(path@) <==> !backend::absent(stored.current_value@)
                },
                _ => true,
            } by {
                assert(before[i] == steps[i]);
            }
        }
        lemma_walked_path(snapshotter, files, before, tree, path);
        lemma_listed_is_found(snapshotter, files, before, path);
        assert(steps =~= before.push(step));
        lemma_one_more(snapshotter.matcher, before, step, path);
        match step {
            WalkStep::Untracked { path: at, reason } => {
                lemma_has_more(untracked_list(before), (at@, reason), path);
            },
            WalkStep::Present { path: at, new_state, stored } => {
                let current = file_states::lookup(files, at@);
                let new_value = snapshotter.new_value(current, new_state, stored);
                let state = recorded_state(current, new_value, new_state);
                lemma_has_more(states, (at@, state), path);
                if let Some(stored) = stored {
                    assert(steps[steps.len() - 1] == step);
                    stored_value::lemma_stored_not_absent(
                        snapshotter.plan(current, new_state, stored.current_value@),
                        snapshotter.exec_policy,
                        stored.current_value@,
                        stored.contents,
                    );
                }
                assert(new_value is None ==> tree.contains(at@));
                if let Some(terms) = new_value {
                    let all = values.push((at@, terms));
                    lemma_has_more(values, (at@, terms), path);
                    assert forall|i: int| 0 <= i < all.len() && (#[trigger] all[i]).0
                        == path implies !backend::absent(all[i].1) by {
                        if i < values.len() {
                            assert(values[i] == all[i]);
                            assert(has_path(values, path));
                        }
                    }
                }
            },
            WalkStep::Missing { paths, forced } => {
                if step.removes(snapshotter.matcher, path) {
                    let i = choose|i: int|
                        0 <= i < paths@.len() && (#[trigger] paths@[i])@ == path
                            && snapshotter.matcher.looks_at(path, forced@[i]);
                    assert(!found(before, paths@[i]@));
                }
            },
            WalkStep::Gone { .. } => {},
        }
    }
}

/// The paths of a list are those of its views.
proof fn lemma_paths_of_views<V>(list: Seq<(RepoPathBuf, V)>, path: Seq<char>)
    ensures
        snapshot_output::lists_path(list, path) == has_path(path_views(list), path),
{
    let views = path_views(list);
    if snapshot_output::lists_path(list, path) {
        let i = choose|i: int| 0 <= i < list.len() && (#[trigger] list[i]).0@ == path;
        assert(views[i].0 == path);
    }
    if has_path(views, path) {
        let i = choose|i: int| 0 <= i < views.len() && (#[trigger] views[i]).0 == path;
        assert(list[i].0@ == path);
    }
}

/// The paths of new values are those of their terms.
proof fn lemma_paths_of_terms(list: Seq<(RepoPathBuf, MergedTreeValue)>, path: Seq<char>)
    ensures
        snapshot_output::lists_path(list, path) == has_path(term_views(list), path),
{
    let views = term_views(list);
    if snapshot_output::lists_path(list, path) {
        let i = choose|i: int| 0 <= i < list.len() && (#[trigger] list[i]).0@ == path;
        assert(views[i].0 == path);
    }
    if has_path(views, path) {
        let i = choose|i: int| 0 <= i < views.len() && (#[trigger] views[i]).0 == path;
        assert(list[i].0@ == path);
    }
}

/// What a whole walk has found about files goes with what it has found about the tree, if
/// the tree had the tracked files.
pub proof fn lemma_walk_agrees(
    snapshotter: FileSnapshotter<'_>,
    files: Seq<FileStateEntry>,
    steps: Seq<WalkStep>,
    output: SnapshotOutput,
    tree: Set<Seq<char>>,
)
    requires
        snapshotter.is_walk(files, steps),
        snapshotter.walked(files, steps, output),
        tracked_files::tracks(tree, files),
        saw_tree(steps, tree),
    ensures
        tracked_files::agrees(output, tree, files),
{
    let values = snapshotter.tree_list(files, steps);
    assert forall|path: Seq<char>| #[trigger]
        snapshot_output::lists_path(output.tree_entries@, path) implies {
        &&& !tracked_files::sets_absent(output.tree_entries@, path)
        &&& !output.deleted_files@.contains(path)
        &&& file_states::lookup(files, path) is Some || snapshot_output::lists_path(
            output.file_states@,
            path,
        )
    } by {
        lemma_walked_path(snapshotter, files, steps, tree, path);
        lemma_paths_of_terms(output.tree_entries@, path);
        lemma_paths_of_views(output.file_states@, path);
        if tracked_files::sets_absent(output.tree_entries@, path) {
            let entries = output.tree_entries@;
            let i = choose|i: int|
                0 <= i < entries.len() && (#[trigger] entries[i]).0@ == path && backend::absent(
                    entries[i].1@,
                );
            assert(values[i] == term_views(entries)[i]);
            assert(values[i].0 == path);
        }
    }
    assert forall|path: Seq<char>| #[trigger]
        snapshot_output::lists_path(output.file_states@, path) implies {
        &&& !output.deleted_files@.contains(path)
        &&& tree.contains(path) || snapshot_output::lists_path(output.tree_entries@, path)
    } by {
        lemma_walked_path(snapshotter, files, steps, tree, path);
        lemma_paths_of_terms(output.tree_entries@, path);
        lemma_paths_of_views(output.file_states@, path);
    }
    assert forall|path: Seq<char>| #[trigger]
        snapshot_output::lists_path(output.untracked_paths@, path) implies {
        &&& file_states::lookup(files, path) is None
        &&& !snapshot_output::lists_path(output.file_states@, path)
    } by {
        lemma_walked_path(snapshotter, files, steps, tree, path);
        lemma_paths_of_views(output.untracked_paths@, path);
        lemma_paths_of_views(output.file_states@, path);
    }
}

/// After a snapshot of what a whole walk has found, the tracked files are those that the
/// new tree has, if they were those of the old tree. What the walk reports as untracked is
/// not tracked.
pub proof fn lemma_walk_tracks(
    snapshotter: FileSnapshotter<'_>,
    steps: Seq<WalkStep>,
    output: SnapshotOutput,
    tree: Set<Seq<char>>,
    before: TreeStateFacts,
    after: TreeStateFacts,
    new_tree: backend::TreeIdsAndLabels,
    watchman_clock: Option<WatchmanClock>,
    untracked: Seq<(RepoPathBuf, UntrackedReason)>,
)
    requires
        snapshotter.is_walk(before.file_states, steps),
        snapshotter.walked(before.file_states, steps, output),
        tracked_files::tracks(tree, before.file_states),
        saw_tree(steps, tree),
        tree_state::snapshotted(before, after, output, new_tree, watchman_clock),
        tree_state::sorted_by_path(untracked, output.untracked_paths@),
    ensures
        tracked_files::tracks(tracked_files::tree_after(tree, output), after.file_states),
        forall|i: int|
            0 <= i < untracked.len() ==> file_states::lookup(
                after.file_states,
                (#[trigger] untracked[i]).0@,
            ) is None,
{
    lemma_walk_agrees(snapshotter, before.file_states, steps, output, tree);
    tracked_files::lemma_snapshot_tracks(
        tree,
        before,
        after,
        output,
        new_tree,
        watchman_clock,
        untracked,
    );
}

/// Each part of a walk from its start on is a walk.
proof fn lemma_walk_start(
    snapshotter: FileSnapshotter<'_>,
    files: Seq<FileStateEntry>,
    steps: Seq<WalkStep>,
    n: int,
)
    requires
        snapshotter.is_walk(files, steps),
        0 <= n <= steps.len(),
    ensures
        snapshotter.is_walk(files, steps.take(n)),
    decreases steps.len(),
{
    if n == steps.len() {
        assert(steps.take(n) =~= steps);
    } else {
        lemma_walk_start(snapshotter, files, steps.drop_last(), n);
        assert(steps.drop_last().take(n) =~= steps.take(n));
    }
}

/// Nothing is listed for a path that was not found.
proof fn lemma_not_mentioned(
    snapshotter: FileSnapshotter<'_>,
    files: Seq<FileStateEntry>,
    steps: Seq<WalkStep>,
    output: SnapshotOutput,
    path: Seq<char>,
)
    requires
        snapshotter.walked(files, steps, output),
        !found(steps, path),
    ensures
        !output.mentions(path),
{
    lemma_listed_is_found(snapshotter, files, steps, path);
    lemma_paths_of_terms(output.tree_entries@, path);
    lemma_paths_of_views(output.file_states@, path);
    lemma_paths_of_views(output.untracked_paths@, path);
}

/// A list that has grown by an item.
proof fn lemma_added_view<V>(
    before: Seq<(RepoPathBuf, V)>,
    after: Seq<(RepoPathBuf, V)>,
    path: Seq<char>,
    value: V,
)
    requires
        snapshot_output::added(before, after, path, value),
    ensures
        path_views(after) == path_views(before).push((path, value)),
{
    assert forall|i: int| 0 <= i < before.len() implies after[i] == before[i] by {
        assert(after.drop_last()[i] == after[i]);
    }
    assert(path_views(after) =~= path_views(before).push((path, value)));
}

/// A list of new values that has grown by one.
proof fn lemma_added_terms(
    before: Seq<(RepoPathBuf, MergedTreeValue)>,
    after: Seq<(RepoPathBuf, MergedTreeValue)>,
    path: Seq<char>,
    value: MergedTreeValue,
)
    requires
        snapshot_output::added(before, after, path, value),
    ensures
        term_views(after) == term_views(before).push((path, value@)),
{
    assert forall|i: int| 0 <= i < before.len() implies after[i] == before[i] by {
        assert(after.drop_last()[i] == after[i]);
    }
    assert(term_views(after) =~= term_views(before).push((path, value@)));
}

/// What the steps of a walk so far have found.
struct Walk {
    output: SnapshotOutput,
    found: PathSet,
}

impl Walk {
    spec fn comes_from(
        &self,
        snapshotter: FileSnapshotter<'_>,
        files: Seq<FileStateEntry>,
        steps: Seq<WalkStep>,
    ) -> bool {
        &&& self.output.wf()
        &&& self.found.wf()
        &&& snapshotter.walked(files, steps, self.output)
        &&& forall|path: Seq<char>| #[trigger]
            self.found@.contains(path) <==> found(steps, path)
    }
}

/// A step that finds a file at a path.
proof fn lemma_found_recorded(
    snapshotter: FileSnapshotter<'_>,
    files: Seq<FileStateEntry>,
    earlier: Walk,
    walk: Walk,
    before: Seq<WalkStep>,
    step: WalkStep,
    path: Seq<char>,
)
    requires
        earlier.comes_from(snapshotter, files, before),
        walk.found@ == earlier.found@.push(path),
        walk.output.deleted_files == earlier.output.deleted_files,
        !earlier.found@.contains(path),
        step.finds(path),
        step is Untracked || step is Present,
    ensures
        forall|p: Seq<char>| #[trigger]
            walk.found@.contains(p) <==> found(before.push(step), p),
        forall|p: Seq<char>| #[trigger]
            walk.output.deleted_files@.contains(p) <==> removed(
                snapshotter.matcher,
                before.push(step),
                p,
            ),
{
    snapshot_output::lemma_contains_more(earlier.found@, walk.found@, path);
    assert forall|p: Seq<char>| #[trigger]
        walk.found@.contains(p) <==> found(before.push(step), p) by {
        lemma_one_more(snapshotter.matcher, before, step, p);
        assert(earlier.found@.contains(p) <==> found(before, p));
    }
    assert forall|p: Seq<char>| #[trigger]
        walk.output.deleted_files@.contains(p) <==> removed(
            snapshotter.matcher,
            before.push(step),
            p,
        ) by {
        lemma_one_more(snapshotter.matcher, before, step, p);
    }
}

impl<'a> FileSnapshotter<'a> {
    /// The new value in the tree of a present file, if it has changed. Nothing if the
    /// file was not stored as planned.
    fn walked_value(
        &self,
        current: Option<FileState>,
        new_state: &FileState,
        stored: Option<StoredFile>,
    ) -> (r: Option<Option<MergedTreeValue>>)
        ensures
            match r {
                Some(update) => {
                    &&& self.stored_as_planned(current, *new_state, stored)
                    &&& match (update, self.new_value(current, *new_state, stored)) {
                        (Some(value), Some(terms)) => value@ == terms,
                        (None, None) => true,
                        _ => false,
                    }
                },
                None => !self.stored_as_planned(current, *new_state, stored),
            },
    {
        let may_have_changed = self.may_have_changed(current, new_state);
        match stored {
            Some(stored) => {
                if !may_have_changed {
                    return None;
                }
                if let FileType::GitSubmodule = new_state.file_type {
                    return None;
                }
                let plan = self.plan_store(current, new_state, &stored.current_value);
                if !stored_value::contents_fit(plan, &stored.current_value, &stored.contents) {
                    return None;
                }
                Some(self.get_updated_tree_value(plan, &stored.current_value, stored.contents))
            },
            None => if may_have_changed {
                None
            } else {
                Some(None)
            },
        }
    }

    /// Records a present file.
    fn record_present(
        &self,
        file_states: FileStates<'_>,
        walk: &mut Walk,
        path: RepoPathBuf,
        new_state: FileState,
        stored: Option<StoredFile>,
        Ghost(before): Ghost<Seq<WalkStep>>,
    ) -> (r: bool)
        requires
            self.matcher.wf(),
            file_states.wf(),
            old(walk).comes_from(*self, file_states@, before),
        ensures
            ({
                let step = WalkStep::Present { path, new_state, stored };
                &&& r == self.can_follow(file_states@, before, step)
                &&& r ==> final(walk).comes_from(*self, file_states@, before.push(step))
            }),
    {
        if !repo_path::is_valid_repo_path_str(path.as_ref().as_internal_file_string()) || walk.found.contains(path.as_ref())
            || walk.output.deleted_files.contains(path.as_ref()) {
            return false;
        }
        let current = file_states.get(path.as_ref());
        let ghost step = WalkStep::Present { path, new_state, stored };
        let ghost new_value = self.new_value(current, new_state, stored);
        let ghost earlier = *walk;
        match self.walked_value(current, &new_state, stored) {
            Some(update) => {
                let ghost state = snapshot_output::present_state(current, update, new_state);
                proof {
                    lemma_not_mentioned(*self, file_states@, before, walk.output, path@);
                }
                walk.found.insert(path.clone());
                walk.output.process_present_file(path, current, update, new_state);
                proof {
                    assert(state == recorded_state(current, new_value, new_state));
                    assert(before.push(step).drop_last() =~= before);
                    if update is Some {
                        lemma_added_terms(
                            earlier.output.tree_entries@,
                            walk.output.tree_entries@,
                            path@,
                            update->0,
                        );
                    }
                    if current != Some(state) {
                        lemma_added_view(
                            earlier.output.file_states@,
                            walk.output.file_states@,
                            path@,
                            state,
                        );
                    }
                    lemma_found_recorded(
                        *self,
                        file_states@,
                        earlier,
                        *walk,
                        before,
                        step,
                        path@,
                    );
                }
                true
            },
            None => false,
        }
    }
}

/// A step that finds nothing at any path.
proof fn lemma_removal_recorded(
    snapshotter: FileSnapshotter<'_>,
    files: Seq<FileStateEntry>,
    earlier: Walk,
    walk: Walk,
    before: Seq<WalkStep>,
    step: WalkStep,
)
    requires
        earlier.comes_from(snapshotter, files, before),
        step is Gone || step is Missing,
        walk.found == earlier.found,
        walk.output.wf(),
        walk.output.tree_entries == earlier.output.tree_entries,
        walk.output.file_states == earlier.output.file_states,
        walk.output.untracked_paths == earlier.output.untracked_paths,
        forall|p: Seq<char>| #[trigger]
            walk.output.deleted_files@.contains(p) <==> {
                ||| earlier.output.deleted_files@.contains(p)
                ||| step.removes(snapshotter.matcher, p)
            },
    ensures
        walk.comes_from(snapshotter, files, before.push(step)),
{
    assert(before.push(step).drop_last() =~= before);
    assert forall|p: Seq<char>| #[trigger]
        walk.found@.contains(p) <==> found(before.push(step), p) by {
        lemma_one_more(snapshotter.matcher, before, step, p);
    }
    assert forall|p: Seq<char>| #[trigger]
        walk.output.deleted_files@.contains(p) <==> removed(
            snapshotter.matcher,
            before.push(step),
            p,
        ) by {
        lemma_one_more(snapshotter.matcher, before, step, p);
        assert(earlier.output.deleted_files@.contains(p) <==> removed(
            snapshotter.matcher,
            before,
            p,
        ));
    }
}

impl<'a> FileSnapshotter<'a> {
    /// Records the tracked files that are missing in a directory.
    fn record_missing(
        &self,
        walk: &mut Walk,
        paths: Vec<RepoPathBuf>,
        forced: Vec<bool>,
        Ghost(files): Ghost<Seq<FileStateEntry>>,
        Ghost(before): Ghost<Seq<WalkStep>>,
    ) -> (r: bool)
        requires
            self.matcher.wf(),
            old(walk).comes_from(*self, files, before),
        ensures
            ({
                let step = WalkStep::Missing { paths, forced };
                &&& r == self.can_follow(files, before, step)
                &&& r ==> final(walk).comes_from(*self, files, before.push(step))
            }),
    {
        if paths.len() != forced.len() {
            return false;
        }
        let ghost earlier = *walk;
        let ghost step = WalkStep::Missing { paths, forced };
        let mut missing: Vec<RepoPath<'_>> = Vec::new();
        let mut i: usize = 0;
        while i < paths.len()
            invariant
                i <= paths@.len() == forced@.len(),
                missing@.len() == i,
                *walk == earlier,
                self.matcher.wf(),
                walk.comes_from(*self, files, before),
                step == (WalkStep::Missing { paths, forced }),
                forall|j: int| 0 <= j < i ==> (#[trigger] missing@[j])@ == paths@[j]@,
                forall|j: int|
                    0 <= j < i && self.matcher.looks_at(paths@[j]@, forced@[j]) ==> !found(
                        before,
                        (#[trigger] paths@[j])@,
                    ),
            decreases paths@.len() - i,
        {
            let path = paths[i].as_ref();
            if self.matcher.matches(path, forced[i]) && walk.found.contains(path) {
                proof {
                    assert(paths@[i as int]@ == path@);
                    assert(found(before, paths@[i as int]@));
                    assert(!self.can_follow(files, before, step));
                }
                return false;
            }
            missing.push(path);
            i += 1;
        }
        walk.output.emit_deleted_files(&self.matcher, &missing, &forced);
        proof {
            assert forall|p: Seq<char>|
                snapshot_output::is_emitted(self.matcher, missing@, forced@, p)
                    <==> #[trigger] step.removes(self.matcher, p) by {
                if snapshot_output::is_emitted(self.matcher, missing@, forced@, p) {
                    let j = choose|j: int|
                        0 <= j < missing@.len() && (#[trigger] missing@[j])@ == p
                            && self.matcher.looks_at(p, forced@[j]);
                    assert(paths@[j]@ == p);
                    assert(step matches WalkStep::Missing { paths: listed, .. } && listed == paths);
                    assert(step.removes(self.matcher, p));
                }
                if step.removes(self.matcher, p) {
                    let j = choose|j: int|
                        0 <= j < paths@.len() && (#[trigger] paths@[j])@ == p
                            && self.matcher.looks_at(p, forced@[j]);
                    assert(missing@[j]@ == p);
                    assert(snapshot_output::is_emitted(self.matcher, missing@, forced@, p));
                }
            }
            lemma_removal_recorded(*self, files, earlier, *walk, before, step);
        }
        true
    }

    /// Records one more step of a walk, if it can follow the steps before.
    fn record_step(
        &self,
        file_states: FileStates<'_>,
        walk: &mut Walk,
        step: WalkStep,
        Ghost(before): Ghost<Seq<WalkStep>>,
    ) -> (r: bool)
        requires
            self.matcher.wf(),
            file_states.wf(),
            old(walk).comes_from(*self, file_states@, before),
        ensures
            r == self.can_follow(file_states@, before, step),
            r ==> final(walk).comes_from(*self, file_states@, before.push(step)),
    {
        let ghost earlier = *walk;
        let ghost files = file_states@;
        match step {
            WalkStep::Untracked { path, reason } => {
                if !repo_path::is_valid_repo_path_str(path.as_ref().as_internal_file_string())
                    || walk.found.contains(path.as_ref()) || file_states.get(
                    path.as_ref(),
                ).is_some() {
                    return false;
                }
                proof {
                    lemma_not_mentioned(*self, files, before, walk.output, path@);
                }
                walk.found.insert(path.clone());
                walk.output.report_untracked(path, reason);
                proof {
                    assert(before.push(step).drop_last() =~= before);
                    lemma_added_view(
                        earlier.output.untracked_paths@,
                        walk.output.untracked_paths@,
                        path@,
                        reason,
                    );
                    lemma_found_recorded(*self, files, earlier, *walk, before, step, path@);
                }
                true
            },
            WalkStep::Present { path, new_state, stored } => self.record_present(
                file_states,
                walk,
                path,
                new_state,
                stored,
                Ghost(before),
            ),
            WalkStep::Gone { path } => {
                if walk.found.contains(path.as_ref()) {
                    return false;
                }
                walk.output.report_deleted(path);
                proof {
                    lemma_removal_recorded(*self, files, earlier, *walk, before, step);
                }
                true
            },
            WalkStep::Missing { paths, forced } => self.record_missing(
                walk,
                paths,
                forced,
                Ghost(files),
                Ghost(before),
            ),
        }
    }

    /// What a walk over a working copy with the given file states has found, from all of
    /// its steps. Nothing if the steps do not make up a walk.
    pub fn record_walk(&self, file_states: FileStates<'_>, steps: Vec<WalkStep>) -> (r: Option<
        SnapshotOutput,
    >)
        requires
            self.matcher.wf(),
            file_states.wf(),
        ensures
            match r {
                Some(output) => {
                    &&& self.is_walk(file_states@, steps@)
                    &&& output.wf()
                    &&& self.walked(file_states@, steps@, output)
                },
                None => !self.is_walk(file_states@, steps@),
            },
    {
        let ghost all = steps@;
        let ghost files = file_states@;
        let mut walk = Walk { output: SnapshotOutput::new(), found: PathSet::new() };
        proof {
            assert(all.take(0) =~= Seq::empty());
            assert(term_views(walk.output.tree_entries@) =~= self.tree_list(files, all.take(0)));
            assert(path_views(walk.output.file_states@) =~= self.state_list(files, all.take(0)));
            assert(path_views(walk.output.untracked_paths@) =~= untracked_list(all.take(0)));
        }
        for step in it: steps
            invariant
                it.seq() == all,
                files == file_states@,
                self.matcher.wf(),
                file_states.wf(),
                self.is_walk(files, all.take(it.index() as int)),
                walk.comes_from(*self, files, all.take(it.index() as int)),
        {
            let ghost n = it.index() as int;
            let ghost before = all.take(n);
            assert(step == all[n]);
            assert(all.take(n + 1) =~= before.push(step));
            assert(all.take(n + 1).drop_last() =~= before);
            if !self.record_step(file_states, &mut walk, step, Ghost(before)) {
                proof {
                    if self.is_walk(files, all) {
                        lemma_walk_start(*self, files, all, n + 1);
                    }
                }
                return None;
            }
        }
        assert(all.take(all.len() as int) =~= all);
        Some(walk.output)
    }
}

} // verus!
