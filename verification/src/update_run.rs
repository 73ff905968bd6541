//! A whole update of the working copy, path by path.

use vstd::prelude::*;

use crate::backend;
use crate::backend::TreeEntry;
use crate::checkout;
use crate::checkout::MaterializedTreeValue;
use crate::checkout::TreeUpdate;
use crate::entry_run;
use crate::entry_run::UpdateContext;
use crate::file_state::ExecBit;
use crate::file_state::FileState;
use crate::file_state::FileType;
use crate::file_states;
use crate::tracked_files;
use crate::tree_state;
use crate::tree_state::TreeStateFacts;

verus! {

/// A path of an update, with what the two trees have there. `written` is the state that
/// was found after the path was written, if it was.
pub struct UpdatedEntry {
    pub path: Seq<char>,
    pub before: Seq<Option<TreeEntry>>,
    pub after: MaterializedTreeValue,
    pub prev_exec: Option<ExecBit>,
    pub written: FileState,
}

/// Whether an update has started with a path, and nothing else happened.
pub open spec fn path_begun(before: TreeUpdate, after: TreeUpdate, entry: UpdatedEntry) -> bool {
    &&& after.touched@ == before.touched@.push(entry.path)
    &&& after.stats == checkout::counted(before.stats, entry.before, entry.after)
    &&& after.changed_file_states == before.changed_file_states
    &&& after.deleted_files == before.deleted_files
}

/// Whether a path that was started with was settled: it is a submodule that stays, it was
/// skipped, or it was written as planned.
pub open spec fn path_settled(
    context: UpdateContext,
    before: TreeUpdate,
    after: TreeUpdate,
    entry: UpdatedEntry,
) -> bool {
    ||| {
        &&& checkout::was_submodule(entry.before)
        &&& entry.after is GitSubmodule
        &&& after == before
    }
    ||| before.stats.has_room() && entry_run::skipped(before, after, entry.path)
    ||| entry_run::wrote(
        before,
        after,
        entry.path,
        entry.after,
        checkout::write_action(
            entry.after,
            context.platform,
            context.exec_policy,
            context.symlink_support,
            entry.prev_exec,
        ),
        entry.written,
    )
}

/// Whether an update has seen to a path from the first look at it to its recorded state.
pub open spec fn entry_updated(
    context: UpdateContext,
    before: TreeUpdate,
    after: TreeUpdate,
    entry: UpdatedEntry,
) -> bool {
    exists|begun: TreeUpdate, located: TreeUpdate|
        path_begun(before, begun, entry) && #[trigger] entry_run::same_records(begun, located)
            && path_settled(context, located, after, entry)
}

/// Whether an update has seen to some paths one after the other. `updates` are the update
/// as it was at the start and after each path.
pub open spec fn is_update_run(
    context: UpdateContext,
    updates: Seq<TreeUpdate>,
    entries: Seq<UpdatedEntry>,
) -> bool {
    &&& updates.len() == entries.len() + 1
    &&& updates[0].touched@.len() == 0
    &&& updates[0].changed_file_states@.len() == 0
    &&& updates[0].deleted_files@.len() == 0
    &&& forall|i: int|
        0 <= i < entries.len() ==> entry_updated(
            context,
            updates[i],
            updates[i + 1],
            #[trigger] entries[i],
        )
}

/// Whether a path is among those of an update.
pub open spec fn has_entry(entries: Seq<UpdatedEntry>, path: Seq<char>) -> bool {
    exists|i: int| 0 <= i < entries.len() && (#[trigger] entries[i]).path == path
}

/// Whether the paths of an update are told by what two trees have there.
pub open spec fn entries_tell(
    entries: Seq<UpdatedEntry>,
    old_tree: Set<Seq<char>>,
    new_tree: Set<Seq<char>>,
) -> bool {
    forall|i: int|
        0 <= i < entries.len() ==> {
            let entry = #[trigger] entries[i];
            &&& old_tree.contains(entry.path) <==> !backend::absent(entry.before)
            &&& new_tree.contains(entry.path) <==> !tracked_files::leaves_nothing(entry.after)
        }
}

/// Whether two trees have the same at all paths that are not among those of an update.
pub open spec fn entries_cover(
    entries: Seq<UpdatedEntry>,
    old_tree: Set<Seq<char>>,
    new_tree: Set<Seq<char>>,
) -> bool {
    forall|path: Seq<char>|
        !has_entry(entries, path) ==> (#[trigger] old_tree.contains(path) <==> new_tree.contains(
            path,
        ))
}

/// One path of an update goes with the trees.
proof fn lemma_entry_follows(
    context: UpdateContext,
    before: TreeUpdate,
    after: TreeUpdate,
    entry: UpdatedEntry,
    old_tree: Set<Seq<char>>,
    new_tree: Set<Seq<char>>,
)
    requires
        tracked_files::follows(before, old_tree, new_tree, None),
        entry_updated(context, before, after, entry),
        old_tree.contains(entry.path) <==> !backend::absent(entry.before),
        new_tree.contains(entry.path) <==> !tracked_files::leaves_nothing(entry.after),
    ensures
        tracked_files::follows(after, old_tree, new_tree, None),
        after.touched@ == before.touched@.push(entry.path),
{
    let (begun, located) = choose|begun: TreeUpdate, located: TreeUpdate|
        path_begun(before, begun, entry) && #[trigger] entry_run::same_records(begun, located)
            && path_settled(context, located, after, entry);
    let open = Some(entry.path);
    tracked_files::lemma_begun_follows(before, begun, old_tree, new_tree, entry.path);
    tracked_files::lemma_same_records_follow(begun, located, old_tree, new_tree, open);
    if checkout::was_submodule(entry.before) && entry.after is GitSubmodule && after == located {
        tracked_files::lemma_same_records_follow(begun, located, old_tree, new_tree, None);
    } else if located.stats.has_room() && entry_run::skipped(located, after, entry.path) {
        tracked_files::lemma_skipped_follows(located, after, old_tree, new_tree, entry.path);
    } else {
        tracked_files::lemma_written_follows(
            located,
            after,
            old_tree,
            new_tree,
            entry.path,
            entry.after,
            context.platform,
            context.exec_policy,
            context.symlink_support,
            entry.prev_exec,
            entry.written,
        );
    }
}

/// The paths of the entries of an update, one after the other.
spec fn entry_paths(entries: Seq<UpdatedEntry>) -> Seq<Seq<char>> {
    entries.map_values(|entry: UpdatedEntry| entry.path)
}

/// The part of a whole update up to entry number `n` goes with the trees.
proof fn lemma_part_follows(
    context: UpdateContext,
    updates: Seq<TreeUpdate>,
    entries: Seq<UpdatedEntry>,
    old_tree: Set<Seq<char>>,
    new_tree: Set<Seq<char>>,
    n: int,
)
    requires
        is_update_run(context, updates, entries),
        entries_tell(entries, old_tree, new_tree),
        0 <= n <= entries.len(),
    ensures
        tracked_files::follows(updates[n], old_tree, new_tree, None),
        updates[n].touched@ == entry_paths(entries.take(n)),
    decreases n,
{
    if n == 0 {
        tracked_files::lemma_new_follows(updates[0], old_tree, new_tree);
        assert(updates[0].touched@ =~= entry_paths(entries.take(0)));
    } else {
        lemma_part_follows(context, updates, entries, old_tree, new_tree, n - 1);
        let entry = entries[n - 1];
        assert(entry_updated(context, updates[n - 1], updates[n - 1 + 1], entry));
        lemma_entry_follows(context, updates[n - 1], updates[n], entry, old_tree, new_tree);
        assert(entry_paths(entries.take(n)) =~= entry_paths(entries.take(n - 1)).push(entry.path));
    }
}

/// What a whole update has recorded goes with the new tree, and it has started with all
/// paths at which the trees differ, if its entries tell what the trees have.
pub proof fn lemma_run_follows(
    context: UpdateContext,
    updates: Seq<TreeUpdate>,
    entries: Seq<UpdatedEntry>,
    old_tree: Set<Seq<char>>,
    new_tree: Set<Seq<char>>,
)
    requires
        is_update_run(context, updates, entries),
        entries_tell(entries, old_tree, new_tree),
        entries_cover(entries, old_tree, new_tree),
    ensures
        tracked_files::follows(updates.last(), old_tree, new_tree, None),
        tracked_files::differs_where_touched(updates.last(), old_tree, new_tree),
{
    let n = entries.len() as int;
    let update = updates.last();
    lemma_part_follows(context, updates, entries, old_tree, new_tree, n);
    assert(entries.take(n) =~= entries);
    assert forall|path: Seq<char>| !update.touched@.contains(path) implies (
    #[trigger] old_tree.contains(path) <==> new_tree.contains(path)) by {
        if has_entry(entries, path) {
            let i = choose|i: int| 0 <= i < entries.len() && (#[trigger] entries[i]).path == path;
            assert(entry_paths(entries)[i] == path);
            assert(update.touched@.contains(path));
        }
    }
}

/// After a whole checkout, each file of the new tree is tracked, if those of the old tree
/// were. What is tracked besides was skipped, and is to be looked at again. If nothing was
/// skipped, the tracked files are those that the new tree has.
pub proof fn lemma_run_tracks(
    context: UpdateContext,
    updates: Seq<TreeUpdate>,
    entries: Seq<UpdatedEntry>,
    old_tree: Set<Seq<char>>,
    new_tree: Set<Seq<char>>,
    before: TreeStateFacts,
    after: TreeStateFacts,
    tree_ids: backend::TreeIdsAndLabels,
)
    requires
        is_update_run(context, updates, entries),
        updates.last().wf(),
        entries_tell(entries, old_tree, new_tree),
        entries_cover(entries, old_tree, new_tree),
        tracked_files::tracks(old_tree, before.file_states),
        tree_state::checked_out(before, after, tree_ids, updates.last()),
    ensures
        forall|path: Seq<char>| #[trigger]
            new_tree.contains(path) ==> file_states::lookup(after.file_states, path) is Some,
        forall|path: Seq<char>|
            (#[trigger] file_states::lookup(after.file_states, path)) is Some
                && !new_tree.contains(path) ==> file_states::lookup(after.file_states, path)
                == Some(FileState::unknown(FileType::Normal { exec_bit: ExecBit(false) })),
        updates.last().stats.skipped_files == 0 ==> tracked_files::tracks(
            new_tree,
            after.file_states,
        ),
{
    lemma_run_follows(context, updates, entries, old_tree, new_tree);
    tracked_files::lemma_check_out_tracks(
        old_tree,
        new_tree,
        before,
        after,
        tree_ids,
        updates.last(),
    );
}

/// After the sparse patterns were replaced, the tracked files are those that the tree has
/// within the new patterns, if they were those within the old ones and nothing was skipped
/// by the two whole updates that this takes.
pub proof fn lemma_sparse_runs_track(
    context: UpdateContext,
    added: Seq<TreeUpdate>,
    added_entries: Seq<UpdatedEntry>,
    removed: Seq<TreeUpdate>,
    removed_entries: Seq<UpdatedEntry>,
    old_part: Set<Seq<char>>,
    both_parts: Set<Seq<char>>,
    new_part: Set<Seq<char>>,
    before: TreeStateFacts,
    after: TreeStateFacts,
    sparse_patterns: Seq<Seq<char>>,
)
    requires
        is_update_run(context, added, added_entries),
        added.last().wf(),
        added.last().stats.skipped_files == 0,
        entries_tell(added_entries, old_part, both_parts),
        entries_cover(added_entries, old_part, both_parts),
        is_update_run(context, removed, removed_entries),
        removed.last().wf(),
        removed.last().stats.skipped_files == 0,
        entries_tell(removed_entries, both_parts, new_part),
        entries_cover(removed_entries, both_parts, new_part),
        tracked_files::tracks(old_part, before.file_states),
        tree_state::sparse_patterns_replaced(
            before,
            after,
            sparse_patterns,
            added.last(),
            removed.last(),
        ),
    ensures
        tracked_files::tracks(new_part, after.file_states),
{
    lemma_run_follows(context, added, added_entries, old_part, both_parts);
    lemma_run_follows(context, removed, removed_entries, both_parts, new_part);
    tracked_files::lemma_sparse_tracks(
        old_part,
        both_parts,
        new_part,
        before,
        after,
        sparse_patterns,
        added.last(),
        removed.last(),
    );
}

} // verus!
