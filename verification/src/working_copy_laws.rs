//! What becomes of the state of a working copy.
//!
//! The laws speak of what the functions are called with and of what they return. Where a
//! function returns nothing, they speak of what it leaves.

use vstd::prelude::*;

use crate::backend::MergedTree;
use crate::backend::MergedTreeValue;
use crate::backend::TreeEntry;
use crate::backend::TreeValue;
use crate::checkout;
use crate::checkout::CheckoutStats;
use crate::checkout::TreeUpdate;
use crate::entry_run::UpdateContext;
use crate::eol::TargetEolStrategy;
use crate::file_state;
use crate::file_state::DiskMetadata;
use crate::file_state::ExecBit;
use crate::file_state::ExecChangePolicy;
use crate::file_state::FileState;
use crate::file_state::FileType;
use crate::file_state::MillisSinceEpoch;
use crate::file_state::MtimeOutOfRange;
use crate::file_states;
use crate::file_states::FileStates;
use crate::file_states_map;
use crate::file_states_map::FileStatesMap;
use crate::file_states_map::KeyedByPath;
use crate::fs_path::FsPath;
use crate::gitattributes::State;
use crate::local_working_copy::CheckoutState;
use crate::local_working_copy::FinishedWorkingCopy;
use crate::local_working_copy::LocalWorkingCopy;
use crate::local_working_copy::LocalWorkingCopyFactory;
use crate::local_working_copy::LockedLocalWorkingCopy;
use crate::matcher_laws;
use crate::matchers;
use crate::matchers::FsmonitorScan;
use crate::matchers::FsmonitorSettings;
use crate::matchers::SnapshotMatcher;
use crate::path_set::PathSet;
use crate::platform::Platform;
use crate::proto::CheckoutProto;
use crate::proto::FileStateEntry;
use crate::proto::TreeStateProto;
use crate::proto::WatchmanClock;
use crate::repo_path::RepoPath;
use crate::repo_path::RepoPathBuf;
use crate::reset;
use crate::reset::ResetChanges;
use crate::settings::ConflictMarkerStyle;
use crate::settings::TreeStateSettings;
use crate::snapshot::FileSnapshotter;
use crate::snapshot::UntrackedReason;
use crate::snapshot_output;
use crate::snapshot_output::SnapshotOutput;
use crate::tree_state;
use crate::tree_state::DiskSupport;
use crate::tree_state::SavedTreeState;
use crate::tree_state::SnapshotStats;
use crate::tree_state::TreeState;
use crate::tree_state::TreeStateFacts;

verus! {

/// Two states differ in nothing but the tree, the files and the sparse patterns.
pub open spec fn same_surroundings(a: TreeStateFacts, b: TreeStateFacts) -> bool {
    &&& a.working_copy_path == b.working_copy_path
    &&& a.state_path == b.state_path
    &&& a.own_mtime == b.own_mtime
    &&& a.symlink_support == b.symlink_support
    &&& a.conflict_marker_style == b.conflict_marker_style
    &&& a.exec_policy == b.exec_policy
    &&& a.fsmonitor_settings == b.fsmonitor_settings
    &&& a.eol_settings == b.eol_settings
    &&& a.platform == b.platform
}

/// A change with a path of its own is the one for that path.
proof fn lemma_change_at(changes: Seq<(RepoPathBuf, FileState)>, i: int)
    requires
        file_states_map::distinct_keys(changes),
        0 <= i < changes.len(),
    ensures
        file_states_map::changes_path(changes, changes[i].0@),
        file_states_map::changed_state(changes, changes[i].0@) == changes[i].1,
{
    let path = changes[i].0@;
    assert(file_states_map::changes_path(changes, path));
    let j = choose|j: int| 0 <= j < changes.len() && (#[trigger] changes[j]).0@ == path;
    assert(changes[j].key() == changes[i].key());
}

/// After a check-out the new tree is the current one. Each path for which the update has a
/// new state has that, each that it has deleted has none, and all others have what they had.
/// Nothing else changes.
pub proof fn lemma_checked_out_state(
    state: &mut TreeState,
    new_tree: MergedTree,
    update: TreeUpdate,
    resort: bool,
    r: CheckoutStats,
    before: FileStates<'_>,
    after: FileStates<'_>,
    path: RepoPath<'_>,
    old_file: Option<FileState>,
    new_file: Option<FileState>,
)
    requires
        file_states_map::distinct_keys(update.changed_file_states@),
        call_ensures(TreeState::check_out, (state, &new_tree, update, resort), r),
        call_ensures(TreeState::file_states, (&*old(state),), before),
        call_ensures(TreeState::file_states, (&*final(state),), after),
        call_ensures(FileStates::<'_>::get, (&before, path), old_file),
        call_ensures(FileStates::<'_>::get, (&after, path), new_file),
    ensures
        final(state)@.tree == new_tree@,
        final(state)@.sparse_patterns == old(state)@.sparse_patterns,
        final(state)@.watchman_clock == old(state)@.watchman_clock,
        same_surroundings(final(state)@, old(state)@),
        r == update.stats,
        forall|i: int|
            0 <= i < update.changed_file_states@.len() && (
            #[trigger] update.changed_file_states@[i]).0@ == path@ ==> new_file == Some(
                update.changed_file_states@[i].1,
            ),
        (forall|i: int|
            0 <= i < update.changed_file_states@.len() ==> (
            #[trigger] update.changed_file_states@[i]).0@ != path@) ==> new_file
            == if update.deleted_files@.contains(path@) {
            None
        } else {
            old_file
        },
{
    lemma_merged_file(
        before@,
        after@,
        update.changed_file_states@,
        update.deleted_files@,
        path@,
    );
}

/// What is known of a file after changes were taken over.
proof fn lemma_merged_file(
    before: Seq<FileStateEntry>,
    after: Seq<FileStateEntry>,
    changed: Seq<(RepoPathBuf, FileState)>,
    deleted: Seq<Seq<char>>,
    path: Seq<char>,
)
    requires
        file_states_map::distinct_keys(changed),
        tree_state::merged_files(before, after, changed, deleted),
    ensures
        forall|i: int|
            0 <= i < changed.len() && (#[trigger] changed[i]).0@ == path
                ==> file_states::lookup(after, path) == Some(changed[i].1),
        (forall|i: int| 0 <= i < changed.len() ==> (#[trigger] changed[i]).0@ != path)
            ==> file_states::lookup(after, path) == if deleted.contains(path) {
            None
        } else {
            file_states::lookup(before, path)
        },
{
    let merged = file_states_map::merged_state(before, changed, deleted, path);
    assert(file_states::lookup(after, path) == merged);
    assert forall|i: int| 0 <= i < changed.len() && (#[trigger] changed[i]).0@ == path implies
        file_states::lookup(after, path) == Some(changed[i].1) by {
        lemma_change_at(changed, i);
    }
}

/// After a snapshot the tree that was found is the current one, and each file has the state
/// in which it was found, or none if it is gone. Nothing else is known of it but what was
/// known before. All files that could be tracked and are not are told, with the reason. The
/// state has to be saved exactly if something has changed or a monitor is used.
pub proof fn lemma_snapshot_taken_over(
    state: &mut TreeState,
    output: SnapshotOutput,
    new_tree: MergedTree,
    clock: Option<WatchmanClock>,
    r: (bool, SnapshotStats),
    before: FileStates<'_>,
    after: FileStates<'_>,
    path: RepoPath<'_>,
    old_file: Option<FileState>,
    new_file: Option<FileState>,
)
    requires
        file_states_map::distinct_keys(output.file_states@),
        call_ensures(TreeState::finish_snapshot, (state, output, new_tree, clock), r),
        call_ensures(TreeState::file_states, (&*old(state),), before),
        call_ensures(TreeState::file_states, (&*final(state),), after),
        call_ensures(FileStates::<'_>::get, (&before, path), old_file),
        call_ensures(FileStates::<'_>::get, (&after, path), new_file),
    ensures
        final(state)@.tree == new_tree@,
        final(state)@.sparse_patterns == old(state)@.sparse_patterns,
        same_surroundings(final(state)@, old(state)@),
        forall|i: int|
            0 <= i < output.file_states@.len() && (#[trigger] output.file_states@[i]).0@ == path@
                ==> new_file == Some(output.file_states@[i].1),
        (forall|i: int|
            0 <= i < output.file_states@.len() ==> (#[trigger] output.file_states@[i]).0@ != path@)
            ==> new_file == if output.deleted_files@.contains(path@) {
            None
        } else {
            old_file
        },
        r.0 <==> {
            ||| !(old(state)@.fsmonitor_settings is Disabled)
            ||| output.deleted_files@.len() > 0
            ||| output.file_states@.len() > 0
            ||| new_tree@ != old(state)@.tree
        },
        r.1.untracked_paths@.len() == output.untracked_paths@.len(),
        forall|x: (RepoPathBuf, UntrackedReason)|
            r.1.untracked_paths@.contains(x) <==> #[trigger] output.untracked_paths@.contains(x),
{
    lemma_merged_file(before@, after@, output.file_states@, output.deleted_files@, path@);
    let told = r.1.untracked_paths@;
    let found = output.untracked_paths@;
    told.to_multiset_ensures();
    found.to_multiset_ensures();
    assert(told.to_multiset() == found.to_multiset());
    assert(told.len() == found.len());
    assert forall|x: (RepoPathBuf, UntrackedReason)|
        told.contains(x) <==> #[trigger] found.contains(x) by {
        assert(told.contains(x) <==> told.to_multiset().count(x) > 0);
        assert(found.contains(x) <==> found.to_multiset().count(x) > 0);
    }
}

/// As long as there are untracked files, which are not remembered, the clock of the monitor
/// is not advanced, so that they are reported again. If there is no new clock, none is kept.
pub proof fn lemma_clock_after_snapshot(
    state: &mut TreeState,
    output: SnapshotOutput,
    new_tree: MergedTree,
    clock: Option<WatchmanClock>,
    r: (bool, SnapshotStats),
    old_clock: Option<&WatchmanClock>,
    new_clock: Option<&WatchmanClock>,
)
    requires
        call_ensures(TreeState::finish_snapshot, (state, output, new_tree, clock), r),
        call_ensures(TreeState::watchman_clock, (&*old(state),), old_clock),
        call_ensures(TreeState::watchman_clock, (&*final(state),), new_clock),
    ensures
        clock is None ==> new_clock is None,
        clock is Some && output.untracked_paths@.len() == 0 ==> new_clock is Some
            && new_clock->0.encoded@ == clock->0.encoded@,
        clock is Some && output.untracked_paths@.len() > 0 ==> {
            &&& new_clock is Some <==> old_clock is Some
            &&& new_clock is Some ==> new_clock->0.encoded@ == old_clock->0.encoded@
        },
{
}

/// A snapshot without files to look at changes nothing but the clock of the monitor. The
/// state has to be saved exactly if there is one.
pub proof fn lemma_snapshot_skipped(
    state: &mut TreeState,
    clock: Option<WatchmanClock>,
    r: (bool, SnapshotStats),
    new_clock: Option<&WatchmanClock>,
)
    requires
        call_ensures(TreeState::skip_snapshot, (state, clock), r),
        call_ensures(TreeState::watchman_clock, (&*final(state),), new_clock),
    ensures
        new_clock is Some <==> clock is Some,
        clock is Some ==> new_clock->0.encoded@ == clock->0.encoded@,
        final(state)@.tree == old(state)@.tree,
        final(state)@.file_states == old(state)@.file_states,
        final(state)@.sparse_patterns == old(state)@.sparse_patterns,
        same_surroundings(final(state)@, old(state)@),
        r.0 <==> !(old(state)@.fsmonitor_settings is Disabled),
        r.1.untracked_paths@.len() == 0,
{
}

/// After the sparse patterns were replaced, the new ones are those that count. What the
/// updates have done to a file is known, the one that removed files last. What was added,
/// removed and skipped is counted.
pub proof fn lemma_sparse_patterns_set(
    state: &mut TreeState,
    patterns: Vec<RepoPathBuf>,
    added: TreeUpdate,
    removed: TreeUpdate,
    resort: bool,
    r: CheckoutStats,
    before: FileStates<'_>,
    after: FileStates<'_>,
    path: RepoPath<'_>,
    old_file: Option<FileState>,
    new_file: Option<FileState>,
    is_covered: bool,
    is_part: bool,
)
    requires
        file_states_map::distinct_keys(added.changed_file_states@),
        file_states_map::distinct_keys(removed.changed_file_states@),
        call_ensures(
            TreeState::set_sparse_patterns,
            (state, patterns, added, removed, resort),
            r,
        ),
        call_ensures(TreeState::file_states, (&*old(state),), before),
        call_ensures(TreeState::file_states, (&*final(state),), after),
        call_ensures(FileStates::<'_>::get, (&before, path), old_file),
        call_ensures(FileStates::<'_>::get, (&after, path), new_file),
        call_ensures(matchers::matches_prefixes, (&patterns, path), is_covered),
        call_ensures(TreeState::is_in_sparse_patterns, (&*final(state), path), is_part),
    ensures
        is_part == is_covered,
        final(state)@.tree == old(state)@.tree,
        final(state)@.watchman_clock == old(state)@.watchman_clock,
        same_surroundings(final(state)@, old(state)@),
        r.updated_files == 0,
        r.added_files == added.stats.added_files,
        r.removed_files == removed.stats.removed_files,
        r.skipped_files == added.stats.skipped_files,
        forall|i: int|
            0 <= i < removed.changed_file_states@.len() && (
            #[trigger] removed.changed_file_states@[i]).0@ == path@ ==> new_file == Some(
                removed.changed_file_states@[i].1,
            ),
        (forall|i: int|
            0 <= i < removed.changed_file_states@.len() ==> (
            #[trigger] removed.changed_file_states@[i]).0@ != path@) ==> {
            &&& removed.deleted_files@.contains(path@) ==> new_file is None
            &&& !removed.deleted_files@.contains(path@) ==> {
                &&& forall|i: int|
                    0 <= i < added.changed_file_states@.len() && (
                    #[trigger] added.changed_file_states@[i]).0@ == path@ ==> new_file == Some(
                        added.changed_file_states@[i].1,
                    )
                &&& (forall|i: int|
                    0 <= i < added.changed_file_states@.len() ==> (
                    #[trigger] added.changed_file_states@[i]).0@ != path@) ==> new_file
                    == if added.deleted_files@.contains(path@) {
                    None
                } else {
                    old_file
                }
            }
        },
{
    let merged = tree_state::twice_merged_state(before@, added, removed, path@);
    assert(new_file == merged);
    assert forall|i: int|
        0 <= i < removed.changed_file_states@.len() && (
        #[trigger] removed.changed_file_states@[i]).0@ == path@ implies new_file == Some(
        removed.changed_file_states@[i].1,
    ) by {
        lemma_change_at(removed.changed_file_states@, i);
    }
    if !file_states_map::changes_path(removed.changed_file_states@, path@)
        && !removed.deleted_files@.contains(path@) {
        assert forall|i: int|
            0 <= i < added.changed_file_states@.len() && (
            #[trigger] added.changed_file_states@[i]).0@ == path@ implies new_file == Some(
            added.changed_file_states@[i].1,
        ) by {
            lemma_change_at(added.changed_file_states@, i);
        }
    }
}

/// A new working copy has the given tree checked out, tracks no file, is not sparse and knows
/// no clock. Symlinks are supported only if that was found out. The rest is by the settings.
pub proof fn lemma_new_state(
    empty_tree: MergedTree,
    working_copy_path: FsPath,
    state_path: FsPath,
    settings: TreeStateSettings,
    support: DiskSupport,
    policy: ExecChangePolicy,
    saved: (TreeState, TreeStateProto),
    unsaved: TreeState,
    path: RepoPath<'_>,
    is_part: bool,
)
    requires
        call_ensures(
            TreeState::init,
            (empty_tree, working_copy_path, state_path, &settings, support),
            saved,
        ),
        call_ensures(
            TreeState::init_without_saving,
            (empty_tree, working_copy_path, state_path, &settings, support),
            unsaved,
        ),
        call_ensures(
            ExecChangePolicy::new,
            (support.platform, settings.exec_change_setting, support.exec_bits),
            policy,
        ),
        call_ensures(TreeState::is_in_sparse_patterns, (&unsaved, path), is_part),
    ensures
        saved.0@ == unsaved@,
        is_part,
        unsaved@.tree == empty_tree@,
        unsaved@.file_states.len() == 0,
        unsaved@.watchman_clock is None,
        unsaved@.own_mtime == MillisSinceEpoch(0),
        unsaved@.symlink_support <==> support.symlinks == Some(true),
        unsaved@.exec_policy == policy,
        unsaved@.working_copy_path == working_copy_path@,
        unsaved@.state_path == state_path@,
        unsaved@.conflict_marker_style == settings.conflict_marker_style,
        unsaved@.fsmonitor_settings == settings.fsmonitor_settings@,
        unsaved@.eol_settings == settings.eol_conversion_settings,
        unsaved@.platform == support.platform,
{
    assert(unsaved@.sparse_patterns[0].len() == 0);
    assert(matchers::covers(unsaved@.sparse_patterns[0], path@)) by {
        matcher_laws::lemma_root_covers(path@);
    }
}

/// What was saved is what is found when it is loaded: the tree with its labels, the files,
/// the sparse patterns and the clock. The time of the saved file, if it can be read and is
/// in range, is the time up to which files are known.
pub proof fn lemma_state_round_trip(
    state: &mut TreeState,
    metadata: Option<DiskMetadata>,
    proto: TreeStateProto,
    empty_tree: MergedTree,
    working_copy_path: FsPath,
    state_path: FsPath,
    settings: TreeStateSettings,
    support: DiskSupport,
    found: Option<DiskMetadata>,
    found_mtime: Result<MillisSinceEpoch, MtimeOutOfRange>,
    r: (TreeState, Option<TreeStateProto>),
    is_readable: bool,
)
    requires
        old(state).wf(),
        call_ensures(TreeState::save, (state, metadata), proto),
        call_ensures(tree_state::is_readable, (&proto,), is_readable),
        found matches Some(file) ==> call_ensures(
            file_state::mtime_from_metadata,
            (&file,),
            found_mtime,
        ),
        call_ensures(
            TreeState::load,
            (
                empty_tree,
                working_copy_path,
                state_path,
                &settings,
                support,
                Some(SavedTreeState { proto, metadata: found }),
            ),
            r,
        ),
    ensures
        is_readable,
        r.1 is None,
        r.0@.tree == old(state)@.tree,
        r.0@.file_states == old(state)@.file_states,
        r.0@.sparse_patterns == old(state)@.sparse_patterns,
        r.0@.watchman_clock == old(state)@.watchman_clock,
        r.0@.own_mtime == if found is Some && found_mtime is Ok {
            found_mtime->Ok_0
        } else {
            MillisSinceEpoch(0)
        },
        r.0@.eol_settings == settings.eol_conversion_settings,
        r.0@.conflict_marker_style == settings.conflict_marker_style,
        r.0@.working_copy_path == working_copy_path@,
        r.0@.state_path == state_path@,
        r.0@.symlink_support <==> support.symlinks == Some(true),
{
    let saved = SavedTreeState { proto, metadata: found };
    tree_state::lemma_stored_state(old(state)@, proto);
    let initial = tree_state::initial_facts(
        empty_tree@,
        working_copy_path@,
        state_path@,
        settings,
        support,
    );
    assert(tree_state::restored(initial, r.0@, saved));
    tree_state::lemma_saved_then_loaded(initial, old(state)@, saved, r.0@);
}

/// A working copy without a saved state is a new one, and what is to be saved of it is told.
pub proof fn lemma_nothing_saved(
    empty_tree: MergedTree,
    working_copy_path: FsPath,
    state_path: FsPath,
    settings: TreeStateSettings,
    support: DiskSupport,
    r: (TreeState, Option<TreeStateProto>),
    new: TreeState,
)
    requires
        call_ensures(
            TreeState::load,
            (empty_tree, working_copy_path, state_path, &settings, support, None),
            r,
        ),
        call_ensures(
            TreeState::init_without_saving,
            (empty_tree, working_copy_path, state_path, &settings, support),
            new,
        ),
    ensures
        r.0@ == new@,
        r.1 is Some,
{
}

/// Old working copies have a single tree id, and no sparse patterns: all files are part of
/// them.
pub proof fn lemma_old_formats(
    proto: TreeStateProto,
    metadata: Option<DiskMetadata>,
    empty_tree: MergedTree,
    working_copy_path: FsPath,
    state_path: FsPath,
    settings: TreeStateSettings,
    support: DiskSupport,
    r: (TreeState, Option<TreeStateProto>),
    path: RepoPath<'_>,
    is_part: bool,
)
    requires
        call_ensures(
            TreeState::load,
            (
                empty_tree,
                working_copy_path,
                state_path,
                &settings,
                support,
                Some(SavedTreeState { proto, metadata }),
            ),
            r,
        ),
        call_ensures(TreeState::is_in_sparse_patterns, (&r.0, path), is_part),
    ensures
        proto.tree_ids@.len() == 0 ==> r.0@.tree.tree_ids == seq![proto.legacy_tree_id@]
            && r.0@.tree.labels.len() == 0,
        proto.tree_ids@.len() > 0 ==> {
            &&& r.0@.tree.tree_ids.len() == proto.tree_ids@.len()
            &&& forall|i: int|
                0 <= i < proto.tree_ids@.len() ==> r.0@.tree.tree_ids[i] == (
                #[trigger] proto.tree_ids@[i])@
            &&& r.0@.tree.labels.len() == proto.conflict_labels@.len()
            &&& forall|i: int|
                0 <= i < proto.conflict_labels@.len() ==> r.0@.tree.labels[i] == (
                #[trigger] proto.conflict_labels@[i])@
        },
        proto.sparse_patterns is None ==> is_part,
        proto.sparse_patterns is Some ==> {
            &&& r.0@.sparse_patterns.len() == proto.sparse_patterns->0.prefixes@.len()
            &&& forall|i: int|
                0 <= i < r.0@.sparse_patterns.len() ==> #[trigger] r.0@.sparse_patterns[i]
                    == proto.sparse_patterns->0.prefixes@[i]@
        },
        r.0@.file_states.len() == proto.file_states@.len(),
        r.1 is None,
{
    let initial = tree_state::initial_facts(
        empty_tree@,
        working_copy_path@,
        state_path@,
        settings,
        support,
    );
    assert(tree_state::restored(initial, r.0@, SavedTreeState { proto, metadata }));
    if proto.sparse_patterns is None {
        assert(r.0@.sparse_patterns[0].len() == 0);
        matcher_laws::lemma_root_covers(path@);
        assert(matchers::covers(r.0@.sparse_patterns[0], path@));
    }
    r.0@.file_states.to_multiset_ensures();
    proto.file_states@.to_multiset_ensures();
}

/// A saved state can be read only if no file is listed twice, and its tree has one side more
/// than bases.
pub proof fn lemma_unreadable(proto: TreeStateProto, r: bool, i: int, j: int)
    requires
        call_ensures(tree_state::is_readable, (&proto,), r),
    ensures
        proto.tree_ids@.len() > 0 && proto.tree_ids@.len() % 2 == 0 ==> !r,
        0 <= i < j < proto.file_states@.len() && proto.file_states@[i].path@
            == proto.file_states@[j].path@ ==> !r,
        0 <= i < proto.file_states@.len() && proto.file_states@[i].state is None ==> !r,
        proto.tree_ids@.len() == 0 && proto.file_states@.len() == 0 && proto.sparse_patterns is None
            ==> r,
{
    if 0 <= i < j < proto.file_states@.len() && r {
        assert(proto.file_states@[i].key() != proto.file_states@[j].key());
    }
    if 0 <= i < proto.file_states@.len() && r {
        assert(file_states::valid_entry(proto.file_states@[i]));
    }
}

/// How a reset leaves a file that differs: not tracked if the tree has nothing there, and
/// else as a file that has to be looked at, of the type that the tree has. All others stay as
/// they are.
pub proof fn lemma_reset_changes(
    platform: Platform,
    policy: ExecChangePolicy,
    known: FileStates<'_>,
    diff: Vec<(RepoPathBuf, MergedTreeValue)>,
    r: ResetChanges,
    i: int,
    executable: bool,
    prev_exec: Option<ExecBit>,
    bit: ExecBit,
    path: RepoPath<'_>,
)
    requires
        0 <= i < diff@.len(),
        path@ == diff@[i].0@,
        call_ensures(reset::reset_changes, (platform, policy, known, diff), r),
        call_ensures(FileStates::<'_>::get_exec_bit, (&known, path), prev_exec),
        call_ensures(ExecBit::new_from_repo, (platform, executable, policy, prev_exec), bit),
    ensures
        ({
            let terms = diff@[i].1@;
            let left = file_states_map::merged_state(
                known@,
                r.changed_file_states@,
                r.deleted_files@,
                path@,
            );
            &&& left is None <==> terms == seq![None::<TreeEntry>]
            &&& left is Some ==> {
                &&& left->0.mtime == MillisSinceEpoch(0)
                &&& left->0.size == 0
                &&& left->0.materialized_conflict_data is None
            }
            &&& terms.len() == 1 && (terms[0] matches Some(TreeEntry::File { executable: e, .. })
                && e == executable) ==> left->0.file_type == FileType::Normal { exec_bit: bit }
            &&& terms.len() == 1 && (terms[0] matches Some(TreeEntry::Symlink(_)))
                ==> left->0.file_type == FileType::Symlink
            &&& terms.len() == 1 && (terms[0] matches Some(TreeEntry::GitSubmodule(_)))
                ==> left->0.file_type == FileType::GitSubmodule
            &&& terms.len() > 1 ==> left->0.file_type == FileType::Normal {
                exec_bit: ExecBit(false),
            }
        }),
{
    assert(file_states_map::merged_state(
        known@,
        r.changed_file_states@,
        r.deleted_files@,
        diff@[i].0@,
    ) == reset::reset_state(platform, policy, known@, diff@[i].0@, diff@[i].1@));
}

/// A reset takes over the tree and touches nothing but the files that differ.
pub proof fn lemma_reset_state(
    before: TreeStateFacts,
    after: TreeStateFacts,
    new_tree: MergedTree,
    diff: Vec<(RepoPathBuf, MergedTreeValue)>,
    path: Seq<char>,
)
    requires
        tree_state::was_reset(before, after, before.file_states, new_tree@, diff@),
        forall|i: int| 0 <= i < diff@.len() ==> (#[trigger] diff@[i]).0@ != path,
    ensures
        after.tree == new_tree@,
        after.sparse_patterns == before.sparse_patterns,
        after.watchman_clock == before.watchman_clock,
        same_surroundings(after, before),
        file_states::lookup(after.file_states, path) == file_states::lookup(
            before.file_states,
            path,
        ),
{
    assert(!snapshot_output::lists_path(diff@, path));
}

/// How files are looked at in a snapshot, and written in an update, is by what is known of
/// the working copy.
pub proof fn lemma_rules_of_state<'a>(
    state: &'a TreeState,
    scan: &'a FsmonitorScan,
    max_new_file_size: u64,
    snapshotter: FileSnapshotter<'a>,
    context: UpdateContext,
    strategy: TargetEolStrategy,
    path: RepoPath<'a>,
    is_part: bool,
    is_covered: bool,
)
    requires
        call_ensures(TreeState::snapshotter, (state, scan, max_new_file_size), snapshotter),
        call_ensures(TreeState::update_context, (state,), context),
        call_ensures(TreeState::target_eol_strategy, (state,), strategy),
        call_ensures(TreeState::is_in_sparse_patterns, (state, path), is_part),
        call_ensures(
            matchers::matches_prefixes,
            (snapshotter.matcher.sparse_patterns, path),
            is_covered,
        ),
    ensures
        is_covered == is_part,
        snapshotter.matcher.fsmonitor is Some <==> scan.matcher is Some,
        scan.matcher is Some ==> *snapshotter.matcher.fsmonitor->0 == scan.matcher->0,
        snapshotter.platform == state@.platform,
        snapshotter.exec_policy == state@.exec_policy,
        snapshotter.symlink_support == state@.symlink_support,
        snapshotter.own_mtime == state@.own_mtime,
        snapshotter.max_new_file_size == max_new_file_size,
        context.platform == state@.platform,
        context.exec_policy == state@.exec_policy,
        context.symlink_support == state@.symlink_support,
        context.working_copy_path@ == state@.working_copy_path,
        strategy.spec_settings() == state@.eol_settings,
        strategy.spec_platform() == state@.platform,
{
}

/// A stored checkout gives back the operation, and the name of the workspace. Old working
/// copies do not name it: it is `default`.
pub proof fn lemma_checkout_round_trip(
    state: CheckoutState,
    proto: CheckoutProto,
    read: CheckoutState,
    old_proto: CheckoutProto,
    old_read: CheckoutState,
)
    requires
        call_ensures(CheckoutState::to_proto, (&state,), proto),
        call_ensures(CheckoutState::from_proto, (proto,), read),
        call_ensures(CheckoutState::from_proto, (old_proto,), old_read),
    ensures
        read.operation_id@ == state.operation_id@,
        state.workspace_name@.len() > 0 ==> read.workspace_name@ == state.workspace_name@,
        old_read.operation_id@ == old_proto.operation_id@,
        old_proto.workspace_name@.len() == 0 ==> old_read.workspace_name@ == "default"@,
        old_proto.workspace_name@.len() > 0 ==> old_read.workspace_name@
            == old_proto.workspace_name@,
{
}

/// A working copy that is loaded from what was saved when it was made has the same operation
/// and workspace name.
pub proof fn lemma_working_copy_round_trip(
    empty_tree: MergedTree,
    working_copy_path: FsPath,
    state_path: FsPath,
    operation_id: Vec<u8>,
    workspace_name: String,
    settings: TreeStateSettings,
    support: DiskSupport,
    made: (LocalWorkingCopy, CheckoutProto, TreeStateProto),
    loaded: LocalWorkingCopy,
    found_id: &Vec<u8>,
    found_name: &str,
    found_path: &FsPath,
    made_tree: Option<&MergedTree>,
    loaded_tree: Option<&MergedTree>,
)
    requires
        workspace_name@.len() > 0,
        call_ensures(
            LocalWorkingCopy::init,
            (
                empty_tree,
                working_copy_path,
                state_path,
                operation_id,
                workspace_name,
                settings,
                support,
            ),
            made,
        ),
        call_ensures(
            LocalWorkingCopy::load,
            (working_copy_path, state_path, made.1, settings),
            loaded,
        ),
        call_ensures(LocalWorkingCopy::operation_id, (&loaded,), found_id),
        call_ensures(LocalWorkingCopy::workspace_name, (&loaded,), found_name),
        call_ensures(LocalWorkingCopy::state_path, (&loaded,), found_path),
        call_ensures(LocalWorkingCopy::tree, (&made.0,), made_tree),
        call_ensures(LocalWorkingCopy::tree, (&loaded,), loaded_tree),
    ensures
        found_id@ == operation_id@,
        found_name@ == workspace_name@,
        found_path@ == state_path@,
        made.0.checkout_state.operation_id@ == operation_id@,
        made.0.checkout_state.workspace_name@ == workspace_name@,
        made_tree is Some && made_tree->0@ == empty_tree@,
        loaded_tree is None,
{
}

/// If nothing was done while a working copy was locked, nothing is saved. Only another
/// operation is.
pub proof fn lemma_untouched_working_copy(
    wc: LocalWorkingCopy,
    state: TreeState,
    locked: LockedLocalWorkingCopy,
    operation_id: Vec<u8>,
    r: FinishedWorkingCopy,
)
    requires
        call_ensures(LockedLocalWorkingCopy::start_mutation, (wc, state), locked),
        call_ensures(LockedLocalWorkingCopy::finish, (locked, operation_id), r),
    ensures
        !r.save_tree_state,
        r.save_checkout <==> operation_id@ != wc.checkout_state.operation_id@,
        r.wc.checkout_state.operation_id@ == operation_id@,
        r.wc.checkout_state.workspace_name@ == wc.checkout_state.workspace_name@,
        r.wc.tree_state == Some(state),
        r.wc.working_copy_path == wc.working_copy_path,
        r.wc.state_path == wc.state_path,
        r.wc.tree_state_settings == wc.tree_state_settings,
        locked.old_operation_id@ == wc.checkout_state.operation_id@,
        locked.old_tree@ == state@.tree,
{
}

/// A new name of the workspace is saved, whatever the operation is.
pub proof fn lemma_renamed_workspace(
    locked: LockedLocalWorkingCopy,
    operation_id: Vec<u8>,
    r: FinishedWorkingCopy,
)
    requires
        locked.new_workspace_name is Some,
        call_ensures(LockedLocalWorkingCopy::finish, (locked, operation_id), r),
    ensures
        r.save_checkout,
        r.wc.checkout_state.workspace_name@ == locked.new_workspace_name->0@,
        r.wc.checkout_state.operation_id@ == operation_id@,
{
}

/// What was checked out while a working copy was locked is saved at the end.
pub proof fn lemma_check_out_saved(
    locked: &mut LockedLocalWorkingCopy,
    new_tree: MergedTree,
    needs_check_out: bool,
    update: TreeUpdate,
    resort: bool,
    stats: CheckoutStats,
    operation_id: Vec<u8>,
    r: FinishedWorkingCopy,
)
    requires
        call_ensures(
            LockedLocalWorkingCopy::needs_check_out,
            (&*old(locked), &new_tree),
            needs_check_out,
        ),
        call_ensures(
            LockedLocalWorkingCopy::check_out,
            (locked, &new_tree, update, resort),
            stats,
        ),
        call_ensures(LockedLocalWorkingCopy::finish, (*final(locked), operation_id), r),
    ensures
        needs_check_out <==> old(locked).tree_state@.tree != new_tree@,
        stats == update.stats,
        r.save_tree_state,
        r.wc.tree_state is Some,
        r.wc.tree_state->0@.tree == new_tree@,
        r.wc.checkout_state.operation_id@ == operation_id@,
        r.save_checkout <==> old(locked).old_operation_id@ != operation_id@ || old(
            locked,
        ).new_workspace_name is Some,
{
}

/// What a snapshot found while a working copy was locked is saved at the end, and what was
/// to be saved before it still is.
pub proof fn lemma_snapshot_saved(
    locked: &mut LockedLocalWorkingCopy,
    output: SnapshotOutput,
    new_tree: MergedTree,
    clock: Option<WatchmanClock>,
    stats: SnapshotStats,
    operation_id: Vec<u8>,
    r: FinishedWorkingCopy,
)
    requires
        call_ensures(
            LockedLocalWorkingCopy::finish_snapshot,
            (locked, output, new_tree, clock),
            stats,
        ),
        call_ensures(LockedLocalWorkingCopy::finish, (*final(locked), operation_id), r),
    ensures
        r.save_tree_state <==> {
            ||| old(locked).tree_state_dirty
            ||| !(old(locked).tree_state@.fsmonitor_settings is Disabled)
            ||| output.deleted_files@.len() > 0
            ||| output.file_states@.len() > 0
            ||| new_tree@ != old(locked).tree_state@.tree
        },
        r.wc.tree_state is Some,
        r.wc.tree_state->0@.tree == new_tree@,
        stats.untracked_paths@.len() == output.untracked_paths@.len(),
{
    let told = stats.untracked_paths@;
    let found = output.untracked_paths@;
    told.to_multiset_ensures();
    found.to_multiset_ensures();
    assert(told.to_multiset() == found.to_multiset());
    assert(told.len() == told.to_multiset().len());
}

/// After a reset the new tree is the current one. Files at which it does not differ keep what
/// is known of them. The others have to be looked at, and are not tracked if the tree has
/// nothing there. A recovery forgets all other files.
pub proof fn lemma_state_reset(
    state: &mut TreeState,
    recovered: &mut TreeState,
    empty_tree: MergedTree,
    new_tree: MergedTree,
    diff: Vec<(RepoPathBuf, MergedTreeValue)>,
    i: int,
    other: Seq<char>,
)
    requires
        call_ensures(TreeState::reset, (state, &new_tree, diff), ()),
        call_ensures(TreeState::recover, (recovered, empty_tree, &new_tree, diff), ()),
        0 <= i < diff@.len(),
        forall|k: int| 0 <= k < diff@.len() ==> (#[trigger] diff@[k]).0@ != other,
    ensures
        final(state)@.tree == new_tree@,
        final(state)@.sparse_patterns == old(state)@.sparse_patterns,
        final(state)@.watchman_clock == old(state)@.watchman_clock,
        same_surroundings(final(state)@, old(state)@),
        file_states::lookup(final(state)@.file_states, other) == file_states::lookup(
            old(state)@.file_states,
            other,
        ),
        file_states::lookup(final(state)@.file_states, diff@[i].0@) is None <==> diff@[i].1@
            == seq![None::<TreeEntry>],
        file_states::lookup(final(state)@.file_states, diff@[i].0@) matches Some(known)
            ==> known.mtime == MillisSinceEpoch(0) && known.size == 0,
        final(recovered)@.tree == new_tree@,
        final(recovered)@.sparse_patterns == old(recovered)@.sparse_patterns,
        same_surroundings(final(recovered)@, old(recovered)@),
        file_states::lookup(final(recovered)@.file_states, other) is None,
        file_states::lookup(final(recovered)@.file_states, diff@[i].0@) is None <==> diff@[i].1@
            == seq![None::<TreeEntry>],
{
    assert(!snapshot_output::lists_path(diff@, other));
    assert(file_states::lookup(final(state)@.file_states, diff@[i].0@) == reset::reset_state(
        old(state)@.platform,
        old(state)@.exec_policy,
        old(state)@.file_states,
        diff@[i].0@,
        diff@[i].1@,
    ));
    assert(file_states::lookup(final(recovered)@.file_states, diff@[i].0@) == reset::reset_state(
        old(recovered)@.platform,
        old(recovered)@.exec_policy,
        Seq::empty(),
        diff@[i].0@,
        diff@[i].1@,
    ));
    assert(file_states::lookup(Seq::empty(), other) is None);
}

/// What Watchman has told is forgotten on request, and nothing else is. When the state was
/// saved is known from its file alone.
pub proof fn lemma_single_facts_changed(
    state: &mut TreeState,
    dated: &mut TreeState,
    metadata: DiskMetadata,
    mtime: Result<MillisSinceEpoch, MtimeOutOfRange>,
    undated: &mut TreeState,
)
    requires
        call_ensures(TreeState::reset_watchman, (state,), ()),
        call_ensures(TreeState::update_own_mtime, (dated, Some(metadata)), ()),
        call_ensures(TreeState::update_own_mtime, (undated, None::<DiskMetadata>), ()),
        call_ensures(file_state::mtime_from_metadata, (&metadata,), mtime),
    ensures
        final(state)@.watchman_clock is None,
        final(state)@.tree == old(state)@.tree,
        final(state)@.file_states == old(state)@.file_states,
        final(state)@.sparse_patterns == old(state)@.sparse_patterns,
        same_surroundings(final(state)@, old(state)@),
        final(dated)@.own_mtime == if mtime is Ok {
            mtime->Ok_0
        } else {
            MillisSinceEpoch(0)
        },
        final(dated)@.tree == old(dated)@.tree,
        final(dated)@.file_states == old(dated)@.file_states,
        final(undated)@.own_mtime == MillisSinceEpoch(0),
{
}

/// What is done to a locked working copy is done to its state, and has to be saved. A new
/// name of the workspace is remembered. What an update did that was left half way is taken
/// over.
pub proof fn lemma_locked_changes(
    resetting: &mut LockedLocalWorkingCopy,
    recovering: &mut LockedLocalWorkingCopy,
    forgetting: &mut LockedLocalWorkingCopy,
    renaming: &mut LockedLocalWorkingCopy,
    empty_tree: MergedTree,
    new_tree: MergedTree,
    diff: Vec<(RepoPathBuf, MergedTreeValue)>,
    name: String,
)
    requires
        call_ensures(LockedLocalWorkingCopy::reset, (resetting, &new_tree, diff), ()),
        call_ensures(
            LockedLocalWorkingCopy::recover,
            (recovering, empty_tree, &new_tree, diff),
            (),
        ),
        call_ensures(LockedLocalWorkingCopy::reset_watchman, (forgetting,), ()),
        call_ensures(LockedLocalWorkingCopy::rename_workspace, (renaming, name), ()),
    ensures
        final(resetting).tree_state_dirty,
        final(resetting).tree_state@.tree == new_tree@,
        final(resetting).old_tree == old(resetting).old_tree,
        final(recovering).tree_state_dirty,
        final(recovering).tree_state@.tree == new_tree@,
        final(recovering).old_tree == old(recovering).old_tree,
        final(forgetting).tree_state_dirty,
        final(forgetting).tree_state@.watchman_clock is None,
        final(forgetting).tree_state@.tree == old(forgetting).tree_state@.tree,
        final(renaming).new_workspace_name is Some,
        final(renaming).new_workspace_name->0@ == name@,
        final(renaming).tree_state == old(renaming).tree_state,
        final(renaming).tree_state_dirty == old(renaming).tree_state_dirty,
        final(renaming).checkout_state == old(renaming).checkout_state,
{
}

/// What an update did that was left half way is taken over, and does not have to be saved.
pub proof fn lemma_update_taken_over(
    locked: &mut LockedLocalWorkingCopy,
    update: TreeUpdate,
    resort: bool,
    i: int,
    other: Seq<char>,
)
    requires
        file_states_map::distinct_keys(update.changed_file_states@),
        call_ensures(LockedLocalWorkingCopy::apply_update, (locked, update, resort), ()),
        0 <= i < update.changed_file_states@.len(),
        forall|k: int|
            0 <= k < update.changed_file_states@.len() ==> (
            #[trigger] update.changed_file_states@[k]).0@ != other,
    ensures
        file_states::lookup(
            final(locked).tree_state@.file_states,
            update.changed_file_states@[i].0@,
        ) == Some(update.changed_file_states@[i].1),
        file_states::lookup(final(locked).tree_state@.file_states, other)
            == if update.deleted_files@.contains(other) {
            None
        } else {
            file_states::lookup(old(locked).tree_state@.file_states, other)
        },
        final(locked).tree_state@.tree == old(locked).tree_state@.tree,
        final(locked).tree_state_dirty == old(locked).tree_state_dirty,
{
    lemma_merged_file(
        old(locked).tree_state@.file_states,
        final(locked).tree_state@.file_states,
        update.changed_file_states@,
        update.deleted_files@,
        update.changed_file_states@[i].0@,
    );
    lemma_merged_file(
        old(locked).tree_state@.file_states,
        final(locked).tree_state@.file_states,
        update.changed_file_states@,
        update.deleted_files@,
        other,
    );
}

/// Copies are the same as what was copied.
pub proof fn lemma_copies(
    value: TreeValue,
    value_copy: TreeValue,
    merge: MergedTreeValue,
    merge_copy: MergedTreeValue,
    tree: MergedTree,
    tree_copy: MergedTree,
    path: FsPath,
    path_copy: FsPath,
    state: State,
    state_copy: State,
    settings: TreeStateSettings,
    settings_copy: TreeStateSettings,
    monitor: FsmonitorSettings,
    monitor_copy: FsmonitorSettings,
)
    requires
        call_ensures(TreeValue::duplicate, (&value,), value_copy),
        call_ensures(MergedTreeValue::duplicate, (&merge,), merge_copy),
        call_ensures(MergedTree::duplicate, (&tree,), tree_copy),
        call_ensures(FsPath::duplicate, (&path,), path_copy),
        call_ensures(State::duplicate, (&state,), state_copy),
        call_ensures(TreeStateSettings::duplicate, (&settings,), settings_copy),
        call_ensures(FsmonitorSettings::duplicate, (&monitor,), monitor_copy),
    ensures
        value_copy@ == value@,
        merge_copy@ == merge@,
        tree_copy@ == tree@,
        path_copy@ == path@,
        state_copy@ == state@,
        settings_copy.conflict_marker_style == settings.conflict_marker_style,
        settings_copy.eol_conversion_settings == settings.eol_conversion_settings,
        settings_copy.exec_change_setting == settings.exec_change_setting,
        settings_copy.fsmonitor_settings@ == settings.fsmonitor_settings@,
        monitor_copy@ == monitor@,
{
}

/// What is told of a working copy is what it has.
pub proof fn lemma_facts_told(
    state: TreeState,
    tree: &MergedTree,
    patterns: &Vec<RepoPathBuf>,
    style: ConflictMarkerStyle,
    monitor: &FsmonitorSettings,
    place: &FsPath,
    state_place: &FsPath,
    proto: TreeStateProto,
    i: int,
    name: &'static str,
)
    requires
        call_ensures(TreeState::current_tree, (&state,), tree),
        call_ensures(TreeState::sparse_patterns, (&state,), patterns),
        call_ensures(TreeState::conflict_marker_style, (&state,), style),
        call_ensures(TreeState::fsmonitor_settings, (&state,), monitor),
        call_ensures(TreeState::working_copy_path, (&state,), place),
        call_ensures(TreeState::state_path, (&state,), state_place),
        call_ensures(TreeState::to_proto, (&state,), proto),
        call_ensures(LocalWorkingCopy::name, (), name),
    ensures
        tree@ == state@.tree,
        patterns@.len() == state@.sparse_patterns.len(),
        0 <= i < patterns@.len() ==> patterns@[i]@ == state@.sparse_patterns[i],
        style == state@.conflict_marker_style,
        monitor@ == state@.fsmonitor_settings,
        place@ == state@.working_copy_path,
        state_place@ == state@.state_path,
        proto.file_states@ == state@.file_states,
        proto.is_file_states_sorted,
        proto.tree_ids@.len() == state@.tree.tree_ids.len(),
        0 <= i < proto.tree_ids@.len() ==> proto.tree_ids@[i]@ == state@.tree.tree_ids[i],
        proto.watchman_clock is Some <==> state@.watchman_clock is Some,
        name@ == "local"@,
{
    let texts = checkout::path_list(patterns@);
    assert(texts.len() == patterns@.len());
    if 0 <= i < patterns@.len() {
        assert(texts[i] == patterns@[i]@);
    }
    let ids = tree_state::id_list(proto.tree_ids@);
    assert(ids.len() == proto.tree_ids@.len());
    if 0 <= i < proto.tree_ids@.len() {
        assert(ids[i] == proto.tree_ids@[i]@);
    }
}

/// What is told of a working copy whose files were read is what is told of their state. Where
/// they were not read, nothing is.
pub proof fn lemma_working_copy_told(
    wc: LocalWorkingCopy,
    tree: Option<&MergedTree>,
    patterns: Option<&Vec<RepoPathBuf>>,
    files: Option<FileStates<'_>>,
    locked: LockedLocalWorkingCopy,
    old_operation_id: &Vec<u8>,
    old_tree: &MergedTree,
)
    requires
        call_ensures(LocalWorkingCopy::tree, (&wc,), tree),
        call_ensures(LocalWorkingCopy::sparse_patterns, (&wc,), patterns),
        call_ensures(LocalWorkingCopy::file_states, (&wc,), files),
        call_ensures(LockedLocalWorkingCopy::old_operation_id, (&locked,), old_operation_id),
        call_ensures(LockedLocalWorkingCopy::old_tree, (&locked,), old_tree),
    ensures
        tree is Some <==> wc.tree_state is Some,
        patterns is Some <==> wc.tree_state is Some,
        files is Some <==> wc.tree_state is Some,
        wc.tree_state matches Some(state) ==> {
            &&& tree->0@ == state@.tree
            &&& patterns->0@.len() == state@.sparse_patterns.len()
            &&& files->0@ == state@.file_states
        },
        old_operation_id@ == locked.old_operation_id@,
        old_tree@ == locked.old_tree@,
{
    if patterns is Some {
        let texts = checkout::path_list(patterns->0@);
        assert(texts.len() == patterns->0@.len());
    }
}

/// A snapshot that is skipped, or new sparse patterns, of a locked working copy have to be
/// saved exactly where the state has.
pub proof fn lemma_locked_saves(
    skipping: &mut LockedLocalWorkingCopy,
    clock: Option<WatchmanClock>,
    stats: SnapshotStats,
    changing: &mut LockedLocalWorkingCopy,
    patterns: Vec<RepoPathBuf>,
    added: TreeUpdate,
    removed: TreeUpdate,
    resort: bool,
    r: CheckoutStats,
)
    requires
        call_ensures(LockedLocalWorkingCopy::skip_snapshot, (skipping, clock), stats),
        call_ensures(
            LockedLocalWorkingCopy::set_sparse_patterns,
            (changing, patterns, added, removed, resort),
            r,
        ),
    ensures
        final(skipping).tree_state_dirty <==> old(skipping).tree_state_dirty || !(old(
            skipping,
        ).tree_state@.fsmonitor_settings is Disabled),
        final(skipping).tree_state@.file_states == old(skipping).tree_state@.file_states,
        stats.untracked_paths@.len() == 0,
        final(changing).tree_state_dirty,
        final(changing).tree_state@.sparse_patterns.len() == patterns@.len(),
        r.added_files == added.stats.added_files,
        r.removed_files == removed.stats.removed_files,
        r.skipped_files == added.stats.skipped_files,
        r.updated_files == 0,
{
    let texts = checkout::path_list(patterns@);
    assert(texts.len() == patterns@.len());
}

/// Where changes are merged in, a file has its new state, or none if it was deleted. Nothing
/// else is known of it but what was known before.
pub proof fn lemma_changes_merged(
    files: &mut FileStatesMap,
    changed: Vec<(RepoPathBuf, FileState)>,
    deleted: PathSet,
    updated: &mut FileStatesMap,
    update: TreeUpdate,
    resort: bool,
    stats: CheckoutStats,
    path: Seq<char>,
)
    requires
        file_states_map::distinct_keys(changed@),
        file_states_map::distinct_keys(update.changed_file_states@),
        call_ensures(FileStatesMap::merge_in, (files, changed, &deleted), ()),
        call_ensures(TreeUpdate::finish, (update, updated, resort), stats),
    ensures
        forall|i: int|
            0 <= i < changed@.len() && (#[trigger] changed@[i]).0@ == path
                ==> file_states::lookup(final(files)@, path) == Some(changed@[i].1),
        (forall|i: int| 0 <= i < changed@.len() ==> (#[trigger] changed@[i]).0@ != path)
            ==> file_states::lookup(final(files)@, path) == if deleted@.contains(path) {
            None
        } else {
            file_states::lookup(old(files)@, path)
        },
        stats == update.stats,
        forall|i: int|
            0 <= i < update.changed_file_states@.len()
                && (#[trigger] update.changed_file_states@[i]).0@ == path ==> file_states::lookup(
                final(updated)@,
                path,
            ) == Some(update.changed_file_states@[i].1),
        (forall|i: int|
            0 <= i < update.changed_file_states@.len() ==> (
            #[trigger] update.changed_file_states@[i]).0@ != path) ==> file_states::lookup(
            final(updated)@,
            path,
        ) == if update.deleted_files@.contains(path) {
            None
        } else {
            file_states::lookup(old(updated)@, path)
        },
{
    lemma_merged_file(old(files)@, final(files)@, changed@, deleted@, path);
    lemma_merged_file(
        old(updated)@,
        final(updated)@,
        update.changed_file_states@,
        update.deleted_files@,
        path,
    );
}

/// A state that was stored is read back, with the time at which the file that holds it was
/// written. What is no part of it stays.
pub proof fn lemma_state_read_back(
    state: TreeState,
    proto: TreeStateProto,
    other: &mut TreeState,
    metadata: Option<DiskMetadata>,
)
    requires
        call_ensures(TreeState::to_proto, (&state,), proto),
        call_ensures(TreeState::read, (other, proto, metadata), ()),
        state@.tree.tree_ids.len() > 0,
    ensures
        final(other)@.tree == state@.tree,
        final(other)@.file_states == state@.file_states,
        final(other)@.sparse_patterns == state@.sparse_patterns,
        final(other)@.watchman_clock == state@.watchman_clock,
        metadata is None ==> final(other)@.own_mtime.0 == 0,
        final(other)@.working_copy_path == old(other)@.working_copy_path,
        final(other)@.state_path == old(other)@.state_path,
        final(other)@.symlink_support == old(other)@.symlink_support,
        final(other)@.exec_policy == old(other)@.exec_policy,
        final(other)@.conflict_marker_style == old(other)@.conflict_marker_style,
        final(other)@.fsmonitor_settings == old(other)@.fsmonitor_settings,
        final(other)@.eol_settings == old(other)@.eol_settings,
{
    assert(tree_state::id_list(proto.tree_ids@).len() == proto.tree_ids@.len());
}

/// A snapshot looks at the files that the sparse patterns and the monitor let it look at.
pub proof fn lemma_snapshot_narrowed<'a>(
    state: &'a TreeState,
    scan: &'a FsmonitorScan,
    r: SnapshotMatcher<'a>,
    path: RepoPath<'a>,
    is_in: bool,
    is_looked_at: bool,
)
    requires
        call_ensures(TreeState::snapshot_matcher, (state, scan), r),
        call_ensures(TreeState::is_in_sparse_patterns, (state, path), is_in),
        call_ensures(SnapshotMatcher::<'a>::matches, (&r, path, true), is_looked_at),
    ensures
        is_looked_at == is_in,
        r.fsmonitor is Some <==> scan.matcher is Some,
        scan.matcher is Some ==> *r.fsmonitor->0 == scan.matcher->0,
{
}

/// A working copy that the factory makes is like one that is made directly.
pub proof fn lemma_factory(
    factory: LocalWorkingCopyFactory,
    empty_tree: MergedTree,
    working_copy_path: FsPath,
    state_path: FsPath,
    operation_id: Vec<u8>,
    workspace_name: String,
    settings: TreeStateSettings,
    support: DiskSupport,
    checkout: CheckoutProto,
    r: (LocalWorkingCopy, CheckoutProto, TreeStateProto),
    s: (LocalWorkingCopy, CheckoutProto, TreeStateProto),
    r_loaded: LocalWorkingCopy,
    s_loaded: LocalWorkingCopy,
)
    requires
        call_ensures(
            LocalWorkingCopyFactory::init_working_copy,
            (
                &factory,
                empty_tree,
                working_copy_path,
                state_path,
                operation_id,
                workspace_name,
                settings,
                support,
            ),
            r,
        ),
        call_ensures(
            LocalWorkingCopy::init,
            (
                empty_tree,
                working_copy_path,
                state_path,
                operation_id,
                workspace_name,
                settings,
                support,
            ),
            s,
        ),
        call_ensures(
            LocalWorkingCopyFactory::load_working_copy,
            (&factory, working_copy_path, state_path, checkout, settings),
            r_loaded,
        ),
        call_ensures(
            LocalWorkingCopy::load,
            (working_copy_path, state_path, checkout, settings),
            s_loaded,
        ),
    ensures
        r.0.tree_state is Some,
        s.0.tree_state is Some,
        r.0.tree_state->0@ == s.0.tree_state->0@,
        r.0.checkout_state.operation_id == s.0.checkout_state.operation_id,
        r.0.checkout_state.workspace_name == s.0.checkout_state.workspace_name,
        r.1.operation_id@ == s.1.operation_id@,
        r.1.workspace_name@ == s.1.workspace_name@,
        r.2.file_states@ == s.2.file_states@,
        r_loaded.tree_state is None,
        s_loaded.tree_state is None,
        r_loaded.checkout_state.operation_id == s_loaded.checkout_state.operation_id,
        r_loaded.checkout_state.workspace_name@ == s_loaded.checkout_state.workspace_name@,
        r_loaded.tree_state_settings == settings,
        r_loaded.working_copy_path == working_copy_path,
        r_loaded.state_path == state_path,
{
}

} // verus!
