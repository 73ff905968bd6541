//! The tracked files of a working copy are those that its tree has.
//!
//! Trees are stood for by the sets of paths at which they have something, within the
//! sparse patterns.

use vstd::prelude::*;

use crate::backend;
use crate::backend::MergedTreeValue;
use crate::backend::TreeEntry;
use crate::checkout;
use crate::checkout::MaterializedTreeValue;
use crate::checkout::TreeUpdate;
use crate::entry_run;
use crate::file_state::ExecBit;
use crate::file_state::ExecChangePolicy;
use crate::file_state::FileState;
use crate::file_state::FileType;
use crate::file_state::MillisSinceEpoch;
use crate::file_states;
use crate::file_states_map;
use crate::platform::Platform;
use crate::proto::FileStateEntry;
use crate::proto::WatchmanClock;
use crate::repo_path::RepoPathBuf;
use crate::reset;
use crate::snapshot::FileFacts;
use crate::snapshot::FileSnapshotter;
use crate::snapshot::UntrackedReason;
use crate::snapshot_output;
use crate::snapshot_output::SnapshotOutput;
use crate::stored_value;
use crate::stored_value::StoredContents;
use crate::tree_state;
use crate::tree_state::TreeStateFacts;

verus! {

/// Whether the tracked files are those that the tree has.
pub open spec fn tracks(tree: Set<Seq<char>>, files: Seq<FileStateEntry>) -> bool {
    forall|path: Seq<char>| #[trigger]
        tree.contains(path) <==> file_states::lookup(files, path) is Some
}

/// Whether a list of new values removes a path.
pub open spec fn sets_absent(
    entries: Seq<(RepoPathBuf, MergedTreeValue)>,
    path: Seq<char>,
) -> bool {
    exists|i: int|
        0 <= i < entries.len() && (#[trigger] entries[i]).0@ == path && backend::absent(
            entries[i].1@,
        )
}

/// The tree after a snapshot that found `output`: with the new values, and without the
/// files that are gone.
pub open spec fn tree_after(tree: Set<Seq<char>>, output: SnapshotOutput) -> Set<Seq<char>> {
    Set::new(
        |path: Seq<char>|
            {
                &&& !output.deleted_files@.contains(path)
                &&& if snapshot_output::lists_path(output.tree_entries@, path) {
                    !sets_absent(output.tree_entries@, path)
                } else {
                    tree.contains(path)
                }
            },
    )
}

/// Whether what a snapshot found about files goes with what it found about the tree:
/// what gets a value is tracked, what gets a state is in the tree, and neither is gone.
/// What is reported as untracked is not tracked and gets no state.
pub open spec fn agrees(
    output: SnapshotOutput,
    tree: Set<Seq<char>>,
    files: Seq<FileStateEntry>,
) -> bool {
    &&& forall|path: Seq<char>| #[trigger]
        snapshot_output::lists_path(output.tree_entries@, path) ==> {
            &&& !sets_absent(output.tree_entries@, path)
            &&& !output.deleted_files@.contains(path)
            &&& file_states::lookup(files, path) is Some || snapshot_output::lists_path(
                output.file_states@,
                path,
            )
        }
    &&& forall|path: Seq<char>| #[trigger]
        snapshot_output::lists_path(output.file_states@, path) ==> {
            &&& !output.deleted_files@.contains(path)
            &&& tree.contains(path) || snapshot_output::lists_path(output.tree_entries@, path)
        }
    &&& forall|path: Seq<char>| #[trigger]
        snapshot_output::lists_path(output.untracked_paths@, path) ==> {
            &&& file_states::lookup(files, path) is None
            &&& !snapshot_output::lists_path(output.file_states@, path)
        }
}

/// A snapshot leaves the files tracked that the new tree has, if the files were tracked
/// that the old tree had. None of the paths that it reports as untracked is tracked
/// afterwards, and the sparse patterns stay. If it leaves nothing to save, the tree and
/// the states of all files are as before, and no filesystem monitor is used.
pub proof fn lemma_snapshot_tracks(
    tree: Set<Seq<char>>,
    before: TreeStateFacts,
    after: TreeStateFacts,
    output: SnapshotOutput,
    new_tree: backend::TreeIdsAndLabels,
    watchman_clock: Option<WatchmanClock>,
    untracked: Seq<(RepoPathBuf, UntrackedReason)>,
)
    requires
        tracks(tree, before.file_states),
        agrees(output, tree, before.file_states),
        tree_state::snapshotted(before, after, output, new_tree, watchman_clock),
        tree_state::sorted_by_path(untracked, output.untracked_paths@),
    ensures
        tracks(tree_after(tree, output), after.file_states),
        forall|i: int|
            0 <= i < untracked.len() ==> file_states::lookup(
                after.file_states,
                (#[trigger] untracked[i]).0@,
            ) is None,
        after.sparse_patterns == before.sparse_patterns,
        !tree_state::dirty_after_snapshot(before, output, new_tree) ==> {
            &&& after.tree == before.tree
            &&& forall|path: Seq<char>|
                file_states::lookup(after.file_states, path) == #[trigger] file_states::lookup(
                    before.file_states,
                    path,
                )
            &&& before.fsmonitor_settings is Disabled
        },
{
    assert forall|i: int| 0 <= i < untracked.len() implies file_states::lookup(
        after.file_states,
        (#[trigger] untracked[i]).0@,
    ) is None by {
        let path = untracked[i].0@;
        vstd::seq_lib::to_multiset_contains(untracked, untracked[i]);
        vstd::seq_lib::to_multiset_contains(output.untracked_paths@, untracked[i]);
        let k = choose|k: int|
            0 <= k < output.untracked_paths@.len() && output.untracked_paths@[k] == untracked[i];
        assert(output.untracked_paths@[k].0@ == path);
        assert(snapshot_output::lists_path(output.untracked_paths@, path));
        let merged = file_states_map::merged_state(
            before.file_states,
            output.file_states@,
            output.deleted_files@,
            path,
        );
        assert(file_states::lookup(after.file_states, path) == merged);
        assert(file_states_map::changes_path(output.file_states@, path)
            == snapshot_output::lists_path(output.file_states@, path));
    }
    assert forall|path: Seq<char>|
        !tree_state::dirty_after_snapshot(before, output, new_tree) implies file_states::lookup(
        after.file_states,
        path,
    ) == #[trigger] file_states::lookup(before.file_states, path) by {
        let merged = file_states_map::merged_state(
            before.file_states,
            output.file_states@,
            output.deleted_files@,
            path,
        );
        assert(file_states::lookup(after.file_states, path) == merged);
    }
    assert forall|path: Seq<char>| #[trigger]
        tree_after(tree, output).contains(path) <==> file_states::lookup(
            after.file_states,
            path,
        ) is Some by {
        let merged = file_states_map::merged_state(
            before.file_states,
            output.file_states@,
            output.deleted_files@,
            path,
        );
        assert(file_states::lookup(after.file_states, path) == merged);
        assert(file_states_map::changes_path(output.file_states@, path)
            == snapshot_output::lists_path(output.file_states@, path));
        assert(tree.contains(path) <==> file_states::lookup(before.file_states, path) is Some);
        let given = snapshot_output::lists_path(output.tree_entries@, path);
    }
}

/// Nothing found agrees with everything.
pub proof fn lemma_nothing_agrees(
    output: SnapshotOutput,
    tree: Set<Seq<char>>,
    files: Seq<FileStateEntry>,
)
    requires
        output.tree_entries@.len() == 0,
        output.file_states@.len() == 0,
        output.untracked_paths@.len() == 0,
    ensures
        agrees(output, tree, files),
{
}

/// Only a file that is not tracked is reported as untracked.
pub proof fn lemma_untracked_is_new(
    snapshotter: FileSnapshotter<'_>,
    path: Seq<char>,
    current: Option<FileState>,
    facts: FileFacts,
)
    requires
        snapshotter.file_step(path, current, facts) is ReportUntracked,
    ensures
        current is None,
{
}

/// That a file is untracked goes with the rest, if it is not tracked and nothing else
/// was found about it.
pub proof fn lemma_untracked_agrees(
    before: SnapshotOutput,
    after: SnapshotOutput,
    tree: Set<Seq<char>>,
    files: Seq<FileStateEntry>,
    path: Seq<char>,
    reason: UntrackedReason,
)
    requires
        agrees(before, tree, files),
        file_states::lookup(files, path) is None,
        !before.mentions(path),
        after.tree_entries == before.tree_entries,
        after.file_states == before.file_states,
        after.deleted_files == before.deleted_files,
        snapshot_output::added(before.untracked_paths@, after.untracked_paths@, path, reason),
    ensures
        agrees(after, tree, files),
{
    assert forall|p: Seq<char>| #[trigger]
        snapshot_output::lists_path(after.untracked_paths@, p) implies {
        &&& file_states::lookup(files, p) is None
        &&& !snapshot_output::lists_path(after.file_states@, p)
    } by {
        lemma_lists_more(before.untracked_paths@, after.untracked_paths@, path, reason, p);
    }
}

/// A list has the values that it had, and one more.
proof fn lemma_lists_more<V>(
    before: Seq<(RepoPathBuf, V)>,
    after: Seq<(RepoPathBuf, V)>,
    path: Seq<char>,
    value: V,
    p: Seq<char>,
)
    requires
        snapshot_output::added(before, after, path, value),
    ensures
        snapshot_output::lists_path(after, p) <==> snapshot_output::lists_path(before, p) || p
            == path,
{
    let n = before.len() as int;
    if snapshot_output::lists_path(before, p) {
        let i = choose|i: int| 0 <= i < before.len() && (#[trigger] before[i]).0@ == p;
        assert(after.drop_last()[i] == after[i]);
    }
    if p == path {
        assert(after[n].0@ == p);
    }
    if snapshot_output::lists_path(after, p) {
        let i = choose|i: int| 0 <= i < after.len() && (#[trigger] after[i]).0@ == p;
        if i < n {
            assert(after.drop_last()[i] == after[i]);
            assert(before[i].0@ == p);
        }
    }
}

/// A value that is not nothing removes no path.
proof fn lemma_sets_absent_more(
    before: Seq<(RepoPathBuf, MergedTreeValue)>,
    after: Seq<(RepoPathBuf, MergedTreeValue)>,
    path: Seq<char>,
    value: MergedTreeValue,
    p: Seq<char>,
)
    requires
        snapshot_output::added(before, after, path, value),
        !backend::absent(value@),
        !sets_absent(before, p),
    ensures
        !sets_absent(after, p),
{
    if sets_absent(after, p) {
        let i = choose|i: int|
            0 <= i < after.len() && (#[trigger] after[i]).0@ == p && backend::absent(after[i].1@);
        if i < before.len() {
            assert(after.drop_last()[i] == after[i]);
            assert(before[i].0@ == p);
        }
    }
}

/// What is found about a file that is there goes with the rest. The file has something
/// in the tree, or is given something.
pub proof fn lemma_present_agrees(
    before: SnapshotOutput,
    after: SnapshotOutput,
    tree: Set<Seq<char>>,
    files: Seq<FileStateEntry>,
    path: Seq<char>,
    update: Option<MergedTreeValue>,
    new_state: FileState,
)
    requires
        agrees(before, tree, files),
        tracks(tree, files),
        !before.mentions(path),
        !before.deleted_files@.contains(path),
        snapshot_output::found_present(
            before,
            after,
            path,
            file_states::lookup(files, path),
            update,
            new_state,
        ),
        update matches Some(value) ==> !backend::absent(value@),
        update is None ==> tree.contains(path),
    ensures
        agrees(after, tree, files),
{
    let current = file_states::lookup(files, path);
    let state = snapshot_output::present_state(current, update, new_state);
    assert forall|p: Seq<char>| #[trigger]
        snapshot_output::lists_path(after.tree_entries@, p) <==> {
            ||| snapshot_output::lists_path(before.tree_entries@, p)
            ||| p == path && update is Some
        } by {
        if let Some(value) = update {
            lemma_lists_more(before.tree_entries@, after.tree_entries@, path, value, p);
        }
    }
    assert forall|p: Seq<char>| #[trigger]
        snapshot_output::lists_path(after.file_states@, p) <==> {
            ||| snapshot_output::lists_path(before.file_states@, p)
            ||| p == path && current != Some(state)
        } by {
        if current != Some(state) {
            lemma_lists_more(before.file_states@, after.file_states@, path, state, p);
        }
    }
    assert forall|p: Seq<char>| #[trigger]
        snapshot_output::lists_path(after.tree_entries@, p) implies !sets_absent(
        after.tree_entries@,
        p,
    ) by {
        if !snapshot_output::lists_path(before.tree_entries@, p) {
            assert(!sets_absent(before.tree_entries@, p));
        }
        if let Some(value) = update {
            lemma_sets_absent_more(before.tree_entries@, after.tree_entries@, path, value, p);
        }
    }
}

/// A file that is known not to have changed has something in the tree.
pub proof fn lemma_clean_file_in_tree(
    tree: Set<Seq<char>>,
    files: Seq<FileStateEntry>,
    path: Seq<char>,
    new_state: FileState,
    own_mtime: MillisSinceEpoch,
)
    requires
        tracks(tree, files),
        stored_value::known_clean(file_states::lookup(files, path), new_state, own_mtime),
    ensures
        tree.contains(path),
{
}

/// A file that was stored is given something in the tree, if that does not have it.
pub proof fn lemma_stored_file_in_tree(
    tree: Set<Seq<char>>,
    path: Seq<char>,
    symlink_support: bool,
    exec_policy: ExecChangePolicy,
    current: Option<FileState>,
    new_state: FileState,
    current_value: Seq<Option<TreeEntry>>,
    contents: StoredContents,
    update: Option<MergedTreeValue>,
)
    requires
        tree.contains(path) <==> !backend::absent(current_value),
        ({
            let plan = stored_value::store_plan(
                stored_value::stored_type(symlink_support, new_state.file_type, current_value),
                current_value,
                stored_value::recorded_conflict(current),
            );
            let terms = stored_value::stored_terms(plan, exec_policy, current_value, contents);
            &&& stored_value::fits(plan, current_value, contents)
            &&& match update {
                Some(value) => value@ == terms,
                None => terms == current_value,
            }
        }),
    ensures
        update matches Some(value) ==> !backend::absent(value@),
        update is None ==> tree.contains(path),
{
    let plan = stored_value::store_plan(
        stored_value::stored_type(symlink_support, new_state.file_type, current_value),
        current_value,
        stored_value::recorded_conflict(current),
    );
    stored_value::lemma_stored_not_absent(plan, exec_policy, current_value, contents);
}

/// That files are gone goes with the rest, if nothing else was found about them.
pub proof fn lemma_deleted_agrees(
    before: SnapshotOutput,
    after: SnapshotOutput,
    tree: Set<Seq<char>>,
    files: Seq<FileStateEntry>,
)
    requires
        agrees(before, tree, files),
        after.tree_entries == before.tree_entries,
        after.file_states == before.file_states,
        after.untracked_paths == before.untracked_paths,
        forall|path: Seq<char>| #[trigger]
            after.deleted_files@.contains(path) ==> before.deleted_files@.contains(path)
                || !before.mentions(path),
    ensures
        agrees(after, tree, files),
{
    assert forall|path: Seq<char>| #[trigger]
        snapshot_output::lists_path(after.tree_entries@, path) implies !after.deleted_files@.contains(
        path,
    ) by {
        assert(before.mentions(path));
    }
    assert forall|path: Seq<char>| #[trigger]
        snapshot_output::lists_path(after.file_states@, path) implies !after.deleted_files@.contains(
        path,
    ) by {
        assert(before.mentions(path));
    }
}

/// The list of two lists has what they have.
proof fn lemma_lists_both<V>(
    a: Seq<(RepoPathBuf, V)>,
    b: Seq<(RepoPathBuf, V)>,
    path: Seq<char>,
)
    ensures
        snapshot_output::lists_path(a + b, path) <==> snapshot_output::lists_path(a, path)
            || snapshot_output::lists_path(b, path),
{
    let all = a + b;
    if snapshot_output::lists_path(a, path) {
        let i = choose|i: int| 0 <= i < a.len() && (#[trigger] a[i]).0@ == path;
        assert(all[i] == a[i]);
    }
    if snapshot_output::lists_path(b, path) {
        let i = choose|i: int| 0 <= i < b.len() && (#[trigger] b[i]).0@ == path;
        assert(all[a.len() + i] == b[i]);
    }
    if snapshot_output::lists_path(all, path) {
        let i = choose|i: int| 0 <= i < all.len() && (#[trigger] all[i]).0@ == path;
        if i < a.len() {
            assert(a[i].0@ == path);
        } else {
            assert(b[i - a.len()].0@ == path);
        }
    }
}

/// What is found in different directories goes together.
pub proof fn lemma_append_agrees(
    a: SnapshotOutput,
    b: SnapshotOutput,
    all: SnapshotOutput,
    tree: Set<Seq<char>>,
    files: Seq<FileStateEntry>,
)
    requires
        agrees(a, tree, files),
        agrees(b, tree, files),
        all.tree_entries@ == a.tree_entries@ + b.tree_entries@,
        all.file_states@ == a.file_states@ + b.file_states@,
        all.untracked_paths@ == a.untracked_paths@ + b.untracked_paths@,
        forall|path: Seq<char>| !(#[trigger] a.mentions(path) && b.mentions(path)),
        forall|path: Seq<char>| #[trigger]
            all.deleted_files@.contains(path) <==> a.deleted_files@.contains(path)
                || b.deleted_files@.contains(path),
        forall|path: Seq<char>| #[trigger]
            a.deleted_files@.contains(path) ==> !b.mentions(path),
        forall|path: Seq<char>| #[trigger]
            b.deleted_files@.contains(path) ==> !a.mentions(path),
    ensures
        agrees(all, tree, files),
{
    assert forall|path: Seq<char>| #[trigger]
        snapshot_output::lists_path(all.tree_entries@, path) implies {
        &&& !sets_absent(all.tree_entries@, path)
        &&& !all.deleted_files@.contains(path)
        &&& file_states::lookup(files, path) is Some || snapshot_output::lists_path(
            all.file_states@,
            path,
        )
    } by {
        lemma_lists_both(a.tree_entries@, b.tree_entries@, path);
        lemma_lists_both(a.file_states@, b.file_states@, path);
        if sets_absent(all.tree_entries@, path) {
            let i = choose|i: int|
                0 <= i < all.tree_entries@.len() && (#[trigger] all.tree_entries@[i]).0@ == path
                    && backend::absent(all.tree_entries@[i].1@);
            if i < a.tree_entries@.len() {
                assert(a.tree_entries@[i].0@ == path);
                assert(snapshot_output::lists_path(a.tree_entries@, path));
            } else {
                assert(b.tree_entries@[i - a.tree_entries@.len()].0@ == path);
                assert(snapshot_output::lists_path(b.tree_entries@, path));
            }
        }
        assert(a.mentions(path) || b.mentions(path));
    }
    assert forall|path: Seq<char>| #[trigger]
        snapshot_output::lists_path(all.file_states@, path) implies {
        &&& !all.deleted_files@.contains(path)
        &&& tree.contains(path) || snapshot_output::lists_path(all.tree_entries@, path)
    } by {
        lemma_lists_both(a.tree_entries@, b.tree_entries@, path);
        lemma_lists_both(a.file_states@, b.file_states@, path);
        assert(a.mentions(path) || b.mentions(path));
    }
    assert forall|path: Seq<char>| #[trigger]
        snapshot_output::lists_path(all.untracked_paths@, path) implies {
        &&& file_states::lookup(files, path) is None
        &&& !snapshot_output::lists_path(all.file_states@, path)
    } by {
        lemma_lists_both(a.untracked_paths@, b.untracked_paths@, path);
        lemma_lists_both(a.file_states@, b.file_states@, path);
        assert(!(a.mentions(path) && b.mentions(path)));
    }
}

/// The tree after a reset, whose values differ from those of the old tree where `diff`
/// tells.
pub open spec fn tree_after_reset(
    tree: Set<Seq<char>>,
    diff: Seq<(RepoPathBuf, MergedTreeValue)>,
) -> Set<Seq<char>> {
    Set::new(
        |path: Seq<char>|
            if snapshot_output::lists_path(diff, path) {
                !reset::removes_path(diff, path)
            } else {
                tree.contains(path)
            },
    )
}

/// A reset leaves the files tracked that the new tree has, if the files were tracked
/// that the old tree had.
pub proof fn lemma_reset_tracks(
    tree: Set<Seq<char>>,
    before: TreeStateFacts,
    after: TreeStateFacts,
    known: Seq<FileStateEntry>,
    new_tree: backend::TreeIdsAndLabels,
    diff: Seq<(RepoPathBuf, MergedTreeValue)>,
)
    requires
        tracks(tree, known),
        reset::file_diff(diff),
        tree_state::was_reset(before, after, known, new_tree, diff),
    ensures
        tracks(tree_after_reset(tree, diff), after.file_states),
{
    assert forall|path: Seq<char>| #[trigger]
        tree_after_reset(tree, diff).contains(path) <==> file_states::lookup(
            after.file_states,
            path,
        ) is Some by {
        assert(tree.contains(path) <==> file_states::lookup(known, path) is Some);
        tree_state::lemma_reset_file(before, after, known, new_tree, diff, path);
    }
}

/// Whether nothing is written for a value.
pub open spec fn leaves_nothing(value: MaterializedTreeValue) -> bool {
    value is Absent || value is AccessDenied || value is Tree
}

/// Whether what an update has recorded goes with the new tree: what it has removed is
/// not in the tree, what it left without a record is in both trees, and what it gave a
/// state is in the tree unless it was skipped. `open` is a path that it is not done with.
pub open spec fn follows(
    update: TreeUpdate,
    old_tree: Set<Seq<char>>,
    new_tree: Set<Seq<char>>,
    open: Option<Seq<char>>,
) -> bool {
    &&& forall|path: Seq<char>| #[trigger]
        update.deleted_files@.contains(path) ==> !new_tree.contains(path)
    &&& forall|path: Seq<char>| #[trigger]
        update.touched@.contains(path) && open != Some(path) && !update.recorded(path)
            ==> old_tree.contains(path) && new_tree.contains(path)
    &&& forall|i: int|
        0 <= i < update.changed_file_states@.len() ==> {
            ||| new_tree.contains((#[trigger] update.changed_file_states@[i]).0@)
            ||| update.stats.skipped_files > 0 && update.changed_file_states@[i].1
                == FileState::unknown(FileType::Normal { exec_bit: ExecBit(false) })
        }
}

/// An update that has not done anything yet goes with all trees.
pub proof fn lemma_new_follows(
    update: TreeUpdate,
    old_tree: Set<Seq<char>>,
    new_tree: Set<Seq<char>>,
)
    requires
        update.touched@.len() == 0,
        update.changed_file_states@.len() == 0,
        update.deleted_files@.len() == 0,
    ensures
        follows(update, old_tree, new_tree, None),
{
}

/// A path may be started with.
pub proof fn lemma_begun_follows(
    before: TreeUpdate,
    after: TreeUpdate,
    old_tree: Set<Seq<char>>,
    new_tree: Set<Seq<char>>,
    path: Seq<char>,
)
    requires
        follows(before, old_tree, new_tree, None),
        after.touched@ == before.touched@.push(path),
        after.changed_file_states == before.changed_file_states,
        after.deleted_files == before.deleted_files,
        after.stats.skipped_files == before.stats.skipped_files,
    ensures
        follows(after, old_tree, new_tree, Some(path)),
        old_tree.contains(path) && new_tree.contains(path) ==> follows(
            after,
            old_tree,
            new_tree,
            None,
        ),
{
    assert forall|p: Seq<char>| #[trigger] after.touched@.contains(p) && p != path implies
        before.touched@.contains(p) by {
        let i = choose|i: int| 0 <= i < after.touched@.len() && after.touched@[i] == p;
        assert(before.touched@[i] == p);
    }
    assert forall|p: Seq<char>| after.recorded(p) == #[trigger] before.recorded(p) by {}
    assert forall|p: Seq<char>| #[trigger]
        after.touched@.contains(p) && p != path && !after.recorded(p) implies old_tree.contains(p)
        && new_tree.contains(p) by {
        assert(after.recorded(p) == before.recorded(p));
    }
}

/// What is recorded decides, not how far the work on a path has come.
pub proof fn lemma_same_records_follow(
    before: TreeUpdate,
    after: TreeUpdate,
    old_tree: Set<Seq<char>>,
    new_tree: Set<Seq<char>>,
    open: Option<Seq<char>>,
)
    requires
        follows(before, old_tree, new_tree, open),
        entry_run::same_records(before, after),
    ensures
        follows(after, old_tree, new_tree, open),
{
    assert forall|p: Seq<char>| #[trigger] after.touched@.contains(p) && open != Some(p)
        && !after.recorded(p) implies old_tree.contains(p) && new_tree.contains(p) by {
        assert(before.recorded(p) == after.recorded(p));
    }
}

/// A list of states has what it had, and one more.
proof fn lemma_changes_more(before: TreeUpdate, after: TreeUpdate, path: Seq<char>, p: Seq<char>)
    requires
        after.changed_file_states@.len() == before.changed_file_states@.len() + 1,
        after.changed_file_states@.drop_last() == before.changed_file_states@,
        after.changed_file_states@.last().0@ == path,
        after.deleted_files == before.deleted_files,
        before.recorded(p) || p == path,
    ensures
        after.recorded(p),
{
    let n = before.changed_file_states@.len() as int;
    if p == path {
        assert(after.changed_file_states@[n].0@ == p);
    } else if file_states_map::changes_path(before.changed_file_states@, p) {
        let i = choose|i: int|
            0 <= i < n && (#[trigger] before.changed_file_states@[i]).0@ == p;
        assert(after.changed_file_states@.drop_last()[i] == after.changed_file_states@[i]);
    }
}

/// A path may be skipped.
pub proof fn lemma_skipped_follows(
    before: TreeUpdate,
    after: TreeUpdate,
    old_tree: Set<Seq<char>>,
    new_tree: Set<Seq<char>>,
    path: Seq<char>,
)
    requires
        follows(before, old_tree, new_tree, Some(path)),
        before.stats.has_room(),
        entry_run::skipped(before, after, path),
    ensures
        follows(after, old_tree, new_tree, None),
{
    let n = before.changed_file_states@.len() as int;
    assert forall|p: Seq<char>| #[trigger] after.touched@.contains(p) && !after.recorded(
        p,
    ) implies old_tree.contains(p) && new_tree.contains(p) by {
        if before.recorded(p) || p == path {
            lemma_changes_more(before, after, path, p);
        }
        assert(before.touched@.contains(p));
    }
    assert forall|i: int| 0 <= i < after.changed_file_states@.len() implies {
        ||| new_tree.contains((#[trigger] after.changed_file_states@[i]).0@)
        ||| after.stats.skipped_files > 0 && after.changed_file_states@[i].1
            == FileState::unknown(FileType::Normal { exec_bit: ExecBit(false) })
    } by {
        if i < n {
            assert(after.changed_file_states@.drop_last()[i] == after.changed_file_states@[i]);
            assert(before.changed_file_states@[i] == after.changed_file_states@[i]);
        }
    }
}

/// A path may be written as is planned for what the new tree has.
pub proof fn lemma_written_follows(
    before: TreeUpdate,
    after: TreeUpdate,
    old_tree: Set<Seq<char>>,
    new_tree: Set<Seq<char>>,
    path: Seq<char>,
    value: MaterializedTreeValue,
    platform: Platform,
    exec_policy: ExecChangePolicy,
    symlink_support: bool,
    prev_exec: Option<ExecBit>,
    written: FileState,
)
    requires
        follows(before, old_tree, new_tree, Some(path)),
        new_tree.contains(path) <==> !leaves_nothing(value),
        entry_run::wrote(
            before,
            after,
            path,
            value,
            checkout::write_action(value, platform, exec_policy, symlink_support, prev_exec),
            written,
        ),
    ensures
        follows(after, old_tree, new_tree, None),
{
    let n = before.changed_file_states@.len() as int;
    let removed = leaves_nothing(value);
    if removed {
        let (gone, now_gone) = (before.deleted_files@, after.deleted_files@);
        assert forall|p: Seq<char>| #[trigger] now_gone.contains(p) <==> gone.contains(p) || p
            == path by {
            if gone.contains(p) {
                let i = choose|i: int| 0 <= i < gone.len() && gone[i] == p;
                assert(now_gone[i] == p);
            }
            if p == path {
                assert(now_gone[gone.len() as int] == p);
            }
            if now_gone.contains(p) {
                let i = choose|i: int| 0 <= i < now_gone.len() && now_gone[i] == p;
                if i < gone.len() {
                    assert(gone[i] == p);
                }
            }
        }
        assert forall|p: Seq<char>| #[trigger] after.touched@.contains(p) && !after.recorded(
            p,
        ) implies old_tree.contains(p) && new_tree.contains(p) by {
            assert(after.deleted_files@.contains(p) <==> gone.contains(p) || p == path);
            assert(before.touched@.contains(p) && !before.recorded(p));
        }
    } else {
        assert forall|p: Seq<char>| #[trigger] after.touched@.contains(p) && !after.recorded(
            p,
        ) implies old_tree.contains(p) && new_tree.contains(p) by {
            if before.recorded(p) || p == path {
                lemma_changes_more(before, after, path, p);
            }
            assert(before.touched@.contains(p));
        }
        assert forall|i: int| 0 <= i < after.changed_file_states@.len() implies {
            ||| new_tree.contains((#[trigger] after.changed_file_states@[i]).0@)
            ||| after.stats.skipped_files > 0 && after.changed_file_states@[i].1
                == FileState::unknown(FileType::Normal { exec_bit: ExecBit(false) })
        } by {
            if i < n {
                assert(after.changed_file_states@.drop_last()[i] == after.changed_file_states@[i]);
                assert(before.changed_file_states@[i] == after.changed_file_states@[i]);
            }
        }
    }
}

/// Whether two trees have the same at all paths that an update has not touched.
pub open spec fn differs_where_touched(
    update: TreeUpdate,
    old_tree: Set<Seq<char>>,
    new_tree: Set<Seq<char>>,
) -> bool {
    forall|path: Seq<char>|
        !update.touched@.contains(path) ==> (#[trigger] old_tree.contains(path)
            <==> new_tree.contains(path))
}

/// What is tracked of a path after an update.
proof fn lemma_updated_file(
    old_tree: Set<Seq<char>>,
    new_tree: Set<Seq<char>>,
    before: Seq<FileStateEntry>,
    update: TreeUpdate,
    path: Seq<char>,
)
    requires
        update.wf(),
        tracks(old_tree, before),
        follows(update, old_tree, new_tree, None),
        differs_where_touched(update, old_tree, new_tree),
    ensures
        ({
            let state = file_states_map::merged_state(
                before,
                update.changed_file_states@,
                update.deleted_files@,
                path,
            );
            &&& new_tree.contains(path) ==> state is Some
            &&& state is Some ==> {
                ||| new_tree.contains(path)
                ||| update.stats.skipped_files > 0 && state == Some(
                    FileState::unknown(FileType::Normal { exec_bit: ExecBit(false) }),
                )
            }
        }),
{
    let changes = update.changed_file_states@;
    assert(old_tree.contains(path) <==> file_states::lookup(before, path) is Some);
    if file_states_map::changes_path(changes, path) {
        let i = choose|i: int| 0 <= i < changes.len() && (#[trigger] changes[i]).0@ == path;
        assert(file_states_map::changed_state(changes, path) == changes[i].1);
    } else if update.deleted_files@.contains(path) {
    } else if update.touched@.contains(path) {
        assert(!update.recorded(path));
    }
}

/// After a checkout, each file of the new tree is tracked, if those of the old tree
/// were. What is tracked besides was skipped, and is to be looked at again. If nothing
/// was skipped, the tracked files are those that the new tree has.
pub proof fn lemma_check_out_tracks(
    old_tree: Set<Seq<char>>,
    new_tree: Set<Seq<char>>,
    before: TreeStateFacts,
    after: TreeStateFacts,
    tree_ids: backend::TreeIdsAndLabels,
    update: TreeUpdate,
)
    requires
        update.wf(),
        tracks(old_tree, before.file_states),
        follows(update, old_tree, new_tree, None),
        differs_where_touched(update, old_tree, new_tree),
        tree_state::checked_out(before, after, tree_ids, update),
    ensures
        forall|path: Seq<char>| #[trigger]
            new_tree.contains(path) ==> file_states::lookup(after.file_states, path) is Some,
        forall|path: Seq<char>|
            (#[trigger] file_states::lookup(after.file_states, path)) is Some
                && !new_tree.contains(path) ==> file_states::lookup(after.file_states, path)
                == Some(FileState::unknown(FileType::Normal { exec_bit: ExecBit(false) })),
        update.stats.skipped_files == 0 ==> tracks(new_tree, after.file_states),
{
    assert forall|path: Seq<char>|
        {
            let state = #[trigger] file_states::lookup(after.file_states, path);
            &&& new_tree.contains(path) ==> state is Some
            &&& state is Some ==> {
                ||| new_tree.contains(path)
                ||| update.stats.skipped_files > 0 && state == Some(
                    FileState::unknown(FileType::Normal { exec_bit: ExecBit(false) }),
                )
            }
        } by {
        lemma_updated_file(old_tree, new_tree, before.file_states, update, path);
        let merged = file_states_map::merged_state(
            before.file_states,
            update.changed_file_states@,
            update.deleted_files@,
            path,
        );
    }
    assert forall|path: Seq<char>| #[trigger] new_tree.contains(path) implies file_states::lookup(
        after.file_states,
        path,
    ) is Some by {
        let state = file_states::lookup(after.file_states, path);
    }
    if update.stats.skipped_files == 0 {
        assert forall|path: Seq<char>| #[trigger]
            new_tree.contains(path) <==> file_states::lookup(after.file_states, path) is Some by {
            let state = file_states::lookup(after.file_states, path);
        }
    }
}

/// After the sparse patterns were replaced, the tracked files are those that the tree
/// has within the new patterns, if they were those within the old ones and nothing was
/// skipped. The files that are new come first, so in between there are those within any
/// of the patterns.
pub proof fn lemma_sparse_tracks(
    old_part: Set<Seq<char>>,
    both_parts: Set<Seq<char>>,
    new_part: Set<Seq<char>>,
    before: TreeStateFacts,
    after: TreeStateFacts,
    sparse_patterns: Seq<Seq<char>>,
    added: TreeUpdate,
    removed: TreeUpdate,
)
    requires
        added.wf(),
        removed.wf(),
        tracks(old_part, before.file_states),
        follows(added, old_part, both_parts, None),
        differs_where_touched(added, old_part, both_parts),
        added.stats.skipped_files == 0,
        follows(removed, both_parts, new_part, None),
        differs_where_touched(removed, both_parts, new_part),
        removed.stats.skipped_files == 0,
        tree_state::sparse_patterns_replaced(before, after, sparse_patterns, added, removed),
    ensures
        tracks(new_part, after.file_states),
{
    assert forall|path: Seq<char>| #[trigger]
        new_part.contains(path) <==> file_states::lookup(after.file_states, path) is Some by {
        lemma_updated_file(old_part, both_parts, before.file_states, added, path);
        let state = tree_state::twice_merged_state(before.file_states, added, removed, path);
        assert(file_states::lookup(after.file_states, path) == state);
        let changes = removed.changed_file_states@;
        if file_states_map::changes_path(changes, path) {
            let i = choose|i: int| 0 <= i < changes.len() && (#[trigger] changes[i]).0@ == path;
            assert(new_part.contains(changes[i].0@));
        } else if removed.deleted_files@.contains(path) {
        } else if removed.touched@.contains(path) {
            assert(!removed.recorded(path));
        }
    }
}

} // verus!
