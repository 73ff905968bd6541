//! What a checkout writes is what the tree has, and a snapshot reads it back.
//!
//! The laws speak of what the functions are called with and of what they return.

use vstd::prelude::*;

use crate::backend::MergedTree;
use crate::backend::MergedTreeValue;
use crate::backend::TreeEntry;
use crate::checkout;
use crate::checkout::CheckoutStats;
use crate::checkout::MaterializedTreeValue;
use crate::checkout::MkdirOutcome;
use crate::checkout::ParentDirStep;
use crate::checkout::ParentDirs;
use crate::checkout::ProbeOutcome;
use crate::checkout::ProbeStep;
use crate::checkout::Removal;
use crate::checkout::RemoveFailed;
use crate::checkout::RemoveOutcome;
use crate::checkout::TreeUpdate;
use crate::checkout::WriteAction;
use crate::entry_run;
use crate::entry_run::DiskAction;
use crate::entry_run::EntryError;
use crate::entry_run::EntryRun;
use crate::entry_run::EntryStage;
use crate::entry_run::UpdateContext;
use crate::file_state;
use crate::file_state::DiskFileKind;
use crate::file_state::DiskMetadata;
use crate::file_state::ExecBit;
use crate::file_state::ExecChangePolicy;
use crate::file_state::FileState;
use crate::file_state::FileType;
use crate::file_state::MtimeOutOfRange;
use crate::fs_path::FsPart;
use crate::fs_path::FsPath;
use crate::matcher_laws;
use crate::path_model;
use crate::platform::Platform;
use crate::repo_path;
use crate::repo_path::InvalidRepoPathError;
use crate::repo_path::RepoPath;
use crate::repo_path::RepoPathBuf;
use crate::repo_path_fs;
use crate::stored_value;
use crate::stored_value::StorePlan;
use crate::stored_value::StoredContents;

verus! {

/// A symlink of the tree is written as a symlink exactly if the working copy supports them,
/// and as a regular file with its target otherwise.
pub proof fn lemma_symlink_written(
    platform: Platform,
    exec_policy: ExecChangePolicy,
    symlink_support: bool,
    prev_exec: Option<ExecBit>,
    action: WriteAction,
)
    requires
        call_ensures(
            checkout::plan_write,
            (
                &MaterializedTreeValue::Symlink,
                platform,
                exec_policy,
                symlink_support,
                prev_exec,
            ),
            action,
        ),
    ensures
        symlink_support <==> action == WriteAction::Symlink,
        !symlink_support <==> action == WriteAction::SymlinkAsFile,
{
}

/// What is written for a symlink of the tree is stored as a symlink again: what is on disk
/// afterwards is a symlink, or a regular file that stands for one.
pub proof fn lemma_symlink_round_trip(
    platform: Platform,
    exec_policy: ExecChangePolicy,
    symlink_support: bool,
    prev_exec: Option<ExecBit>,
    action: WriteAction,
    metadata: DiskMetadata,
    found: Result<Option<FileState>, MtimeOutOfRange>,
    current: MergedTreeValue,
    target: Seq<u8>,
    recorded: Option<FileState>,
    plan: StorePlan,
    id: Vec<u8>,
    value: MergedTreeValue,
)
    requires
        current@ == seq![Some(TreeEntry::Symlink(target))],
        call_ensures(
            checkout::plan_write,
            (
                &MaterializedTreeValue::Symlink,
                platform,
                exec_policy,
                symlink_support,
                prev_exec,
            ),
            action,
        ),
        metadata.kind == match action {
            WriteAction::Symlink => DiskFileKind::Symlink,
            WriteAction::SubmoduleDir => DiskFileKind::Dir,
            _ => DiskFileKind::File,
        },
        call_ensures(file_state::file_state, (platform, &metadata), found),
        found is Ok,
        found->Ok_0 is Some ==> call_ensures(
            stored_value::plan_store,
            (symlink_support, &found->Ok_0->0, &current, recorded),
            plan,
        ),
        id@ == target,
        call_ensures(
            stored_value::value_after_store,
            (plan, exec_policy, &current, StoredContents::Symlink { id }),
            value,
        ),
    ensures
        found->Ok_0 is Some,
        plan == StorePlan::Symlink,
        value@ == current@,
{
}

/// A regular file is written as one. While executable bits are respected on Unix, it gets the
/// bit that the tree has. While they are ignored, it keeps the bit that it has on disk.
pub proof fn lemma_file_written(
    executable: bool,
    platform: Platform,
    exec_policy: ExecChangePolicy,
    symlink_support: bool,
    prev_exec: Option<ExecBit>,
    action: WriteAction,
)
    requires
        call_ensures(
            checkout::plan_write,
            (
                &MaterializedTreeValue::File { executable },
                platform,
                exec_policy,
                symlink_support,
                prev_exec,
            ),
            action,
        ),
    ensures
        action matches WriteAction::File { exec_bit } && {
            &&& platform == Platform::Windows ==> !exec_bit.0
            &&& platform == Platform::Unix && exec_policy == ExecChangePolicy::Respect
                ==> exec_bit.0 == executable
            &&& platform == Platform::Unix && exec_policy == ExecChangePolicy::Ignore ==> (
            exec_bit.0 <==> prev_exec == Some(ExecBit(true)))
        },
{
}

/// A regular file that was checked out is recorded by a snapshot just as the tree has it,
/// with its contents, its executable bit and its copy id. On Windows, where no file is
/// executable on disk, that takes that executable bits are ignored.
pub proof fn lemma_file_round_trip(
    platform: Platform,
    exec_policy: ExecChangePolicy,
    symlink_support: bool,
    prev_exec: Option<ExecBit>,
    current: MergedTreeValue,
    id: Vec<u8>,
    executable: bool,
    copy_id: Seq<u8>,
    action: WriteAction,
    mode: Option<u32>,
    metadata: DiskMetadata,
    found: Result<Option<FileState>, MtimeOutOfRange>,
    recorded: Option<FileState>,
    plan: StorePlan,
    value: MergedTreeValue,
    change: Option<MergedTreeValue>,
)
    requires
        platform == Platform::Unix || exec_policy == ExecChangePolicy::Ignore,
        current@ == seq![Some(TreeEntry::File { id: id@, executable, copy_id })],
        call_ensures(
            checkout::plan_write,
            (
                &MaterializedTreeValue::File { executable },
                platform,
                exec_policy,
                symlink_support,
                prev_exec,
            ),
            action,
        ),
        action is File ==> call_ensures(
            ExecBit::disk_mode,
            (action->File_exec_bit, platform),
            mode,
        ),
        metadata.kind == DiskFileKind::File,
        mode is Some ==> metadata.permissions == mode->0,
        call_ensures(file_state::file_state, (platform, &metadata), found),
        found is Ok,
        found->Ok_0 is Some ==> call_ensures(
            stored_value::plan_store,
            (symlink_support, &found->Ok_0->0, &current, recorded),
            plan,
        ),
        call_ensures(
            stored_value::value_after_store,
            (plan, exec_policy, &current, StoredContents::File { id }),
            value,
        ),
        call_ensures(stored_value::changed_value, (&current, value), change),
    ensures
        found->Ok_0 is Some,
        plan is File,
        value@ == current@,
        change is None,
{
    assert(0o755u32 & 0o111 != 0) by (bit_vector);
    assert(0o644u32 & 0o111 == 0) by (bit_vector);
    assert(value@ =~= current@);
}

/// A conflict of files is written as a regular file, which is executable as the sides agree
/// on. The file that tells of any other conflict is not executable.
pub proof fn lemma_conflict_written(
    executable: Option<bool>,
    conflict_marker_len: usize,
    platform: Platform,
    exec_policy: ExecChangePolicy,
    symlink_support: bool,
    prev_exec: Option<ExecBit>,
    action: WriteAction,
    other_action: WriteAction,
    file_action: WriteAction,
)
    requires
        call_ensures(
            checkout::plan_write,
            (
                &MaterializedTreeValue::FileConflict { executable, conflict_marker_len },
                platform,
                exec_policy,
                symlink_support,
                prev_exec,
            ),
            action,
        ),
        call_ensures(
            checkout::plan_write,
            (
                &MaterializedTreeValue::OtherConflict,
                platform,
                exec_policy,
                symlink_support,
                prev_exec,
            ),
            other_action,
        ),
        call_ensures(
            checkout::plan_write,
            (
                &MaterializedTreeValue::File { executable: executable == Some(true) },
                platform,
                exec_policy,
                symlink_support,
                prev_exec,
            ),
            file_action,
        ),
    ensures
        action is Conflict && file_action is File && action->Conflict_exec_bit
            == file_action->File_exec_bit,
        other_action == (WriteAction::Conflict { exec_bit: ExecBit(false) }),
{
}

/// Where the tree has nothing that can be read, nothing is written. A submodule is a
/// directory that is left empty. Neither depends on what the platform offers.
pub proof fn lemma_nothing_written(
    after: MaterializedTreeValue,
    platform: Platform,
    exec_policy: ExecChangePolicy,
    symlink_support: bool,
    prev_exec: Option<ExecBit>,
    action: WriteAction,
)
    requires
        !(after is Tree),
        call_ensures(
            checkout::plan_write,
            (&after, platform, exec_policy, symlink_support, prev_exec),
            action,
        ),
    ensures
        action is RemoveEmptyParents <==> after is Absent || after is AccessDenied,
        action is SubmoduleDir <==> after is GitSubmodule,
        action is File <==> after is File,
        action is Conflict <==> after is FileConflict || after is OtherConflict,
{
}

/// A file that was written as a conflict is read back with conflict markers of the length
/// that it was written with, as far as that can be recorded.
pub proof fn lemma_marker_length_round_trip(
    executable: Option<bool>,
    conflict_marker_len: usize,
    written: FileState,
    recorded: FileState,
    symlink_support: bool,
    new_state: FileState,
    current: MergedTreeValue,
    plan: StorePlan,
)
    requires
        call_ensures(
            checkout::state_after_write,
            (
                &MaterializedTreeValue::FileConflict { executable, conflict_marker_len },
                written,
            ),
            recorded,
        ),
        call_ensures(
            stored_value::plan_store,
            (symlink_support, &new_state, &current, Some(recorded)),
            plan,
        ),
        plan is Conflict,
    ensures
        conflict_marker_len <= u32::MAX ==> plan->conflict_marker_len == conflict_marker_len,
        conflict_marker_len > u32::MAX ==> plan->conflict_marker_len == u32::MAX,
        plan->conflict_marker_len <= conflict_marker_len,
{
}

/// What was found of a file after it was written is recorded as it is. Only that a conflict of
/// files was written is recorded besides.
pub proof fn lemma_state_recorded(
    after: MaterializedTreeValue,
    written: FileState,
    recorded: FileState,
)
    requires
        call_ensures(checkout::state_after_write, (&after, written), recorded),
    ensures
        recorded.file_type == written.file_type,
        recorded.mtime == written.mtime,
        recorded.size == written.size,
        after is FileConflict ==> recorded.materialized_conflict_data is Some,
        !(after is FileConflict) ==> recorded == written,
{
}

/// No directory that is reserved is descended into. It is removed again exactly if the update
/// has just created it.
pub proof fn lemma_reserved_dir_rejected(mkdir: MkdirOutcome, step: ParentDirStep)
    requires
        mkdir != MkdirOutcome::Failed,
        call_ensures(checkout::parent_dir_step, (mkdir, true), step),
    ensures
        step == ParentDirStep::Reject || step == ParentDirStep::RemoveAndReject,
        step == ParentDirStep::RemoveAndReject <==> mkdir == MkdirOutcome::Created,
{
}

/// A directory that is not reserved is descended into, whether it is new or was there. What is
/// there but is no directory, such as a symlink, is never followed: the path is skipped.
pub proof fn lemma_dir_descended(mkdir: MkdirOutcome, is_reserved: bool, step: ParentDirStep)
    requires
        call_ensures(checkout::parent_dir_step, (mkdir, is_reserved), step),
    ensures
        step == ParentDirStep::Descend <==> !is_reserved && (mkdir == MkdirOutcome::Created || mkdir
            == (MkdirOutcome::Existing { is_dir: true })),
        step == ParentDirStep::Skip <==> !is_reserved && mkdir == (MkdirOutcome::Existing {
            is_dir: false,
        }),
        step == ParentDirStep::Fail <==> mkdir == MkdirOutcome::Failed,
{
}

/// Before a path is written, what the old tree had there is removed: a file, or the directory
/// of a submodule, and nothing where it had nothing.
pub proof fn lemma_old_entry_removed(before: MergedTreeValue, removal: Removal)
    requires
        call_ensures(checkout::old_entry_removal, (&before,), removal),
    ensures
        removal == Removal::Nothing <==> before@ == seq![None::<TreeEntry>],
        removal == Removal::SubmoduleDir <==> before@.len() == 1 && (before@[0] matches Some(
            TreeEntry::GitSubmodule(_),
        )),
{
    if before@.len() == 1 && before@[0] is None {
        assert(before@ =~= seq![None::<TreeEntry>]);
    }
}

/// A path is free only if the old file was removed. A directory in its place, be it one with
/// files or that of a submodule, is left alone. Nothing else that goes wrong is passed over.
pub proof fn lemma_removal_outcomes(
    outcome: RemoveOutcome,
    file: Result<bool, RemoveFailed>,
    submodule: Result<bool, RemoveFailed>,
)
    requires
        call_ensures(checkout::remove_old_file, (outcome,), file),
        call_ensures(checkout::remove_old_submodule_dir, (outcome,), submodule),
    ensures
        file == Ok::<bool, RemoveFailed>(true) <==> outcome == RemoveOutcome::Removed,
        submodule == Ok::<bool, RemoveFailed>(true) <==> outcome == RemoveOutcome::Removed,
        file is Err <==> outcome == RemoveOutcome::NotEmpty || outcome == (RemoveOutcome::Failed {
            is_dir: false,
        }),
        submodule is Err <==> outcome is Failed,
{
}

/// A file is created in place of the empty one only if that could be created and is not
/// reserved. The empty file never stays. What was there before is never removed.
pub proof fn lemma_probe_outcomes(probe: ProbeOutcome, is_reserved: bool, step: ProbeStep)
    requires
        call_ensures(checkout::can_create_new_file, (probe, is_reserved), step),
    ensures
        step == ProbeStep::RemoveAndProceed <==> probe == ProbeOutcome::Created && !is_reserved,
        step == ProbeStep::RemoveAndReject <==> probe == ProbeOutcome::Created && is_reserved,
        step == ProbeStep::Fail <==> probe == (ProbeOutcome::Failed { exists: false }),
        step == ProbeStep::Reject <==> is_reserved && (probe == ProbeOutcome::AlreadyExists || probe
            == (ProbeOutcome::Failed { exists: true })),
        step == ProbeStep::Skip <==> !is_reserved && (probe == ProbeOutcome::AlreadyExists || probe
            == (ProbeOutcome::Failed { exists: true })),
{
}

/// A path is written if it is free. If something is in its way, it is written only where that
/// loses nothing: a directory serves for a new submodule, and one that stays behind is fine
/// where a submodule is removed.
pub proof fn lemma_proceeds(
    before: MergedTreeValue,
    after: MaterializedTreeValue,
    present_file_deleted: bool,
    can_create: bool,
    is_dir: bool,
    r: bool,
)
    requires
        call_ensures(
            checkout::may_proceed,
            (&before, &after, present_file_deleted, can_create, is_dir),
            r,
        ),
    ensures
        present_file_deleted || can_create ==> r,
        !present_file_deleted && !can_create ==> {
            &&& after is GitSubmodule ==> r == is_dir
            &&& after is Absent ==> (r <==> before@.len() == 1 && (before@[0] matches Some(
                TreeEntry::GitSubmodule(_),
            )))
            &&& !(after is GitSubmodule) && !(after is Absent) ==> !r
        },
{
}

/// Each path counts once: as removed if the new tree has nothing there, as added if only the
/// new tree has something, and as updated if both do. Nothing else is counted with it.
pub proof fn lemma_path_counted(
    stats: CheckoutStats,
    before: Seq<Option<TreeEntry>>,
    after: MaterializedTreeValue,
)
    requires
        stats.updated_files < u32::MAX,
        stats.added_files < u32::MAX,
        stats.removed_files < u32::MAX,
    ensures
        ({
            let counted = checkout::counted(stats, before, after);
            let is_new = before.len() == 1 && before[0] is None;
            &&& counted.removed_files - stats.removed_files == if after is Absent {
                1int
            } else {
                0
            }
            &&& counted.added_files - stats.added_files == if is_new && !(after is Absent) {
                1int
            } else {
                0
            }
            &&& counted.updated_files - stats.updated_files == if !is_new && !(after is Absent) {
                1int
            } else {
                0
            }
            &&& counted.skipped_files == stats.skipped_files
        }),
{
    if before.len() == 1 && before[0] is None {
        assert(before =~= seq![None::<TreeEntry>]);
    }
}

/// A path that was skipped is recorded as a file that has to be looked at again, and counts as
/// skipped. Nothing that was recorded before changes.
pub proof fn lemma_skipped_path_recorded(before: TreeUpdate, after: TreeUpdate, path: Seq<char>)
    requires
        before.stats.skipped_files < u32::MAX,
        entry_run::skipped(before, after, path),
    ensures
        after.stats.skipped_files == before.stats.skipped_files + 1,
        after.stats.updated_files == before.stats.updated_files,
        after.stats.added_files == before.stats.added_files,
        after.stats.removed_files == before.stats.removed_files,
        after.changed_file_states@.len() == before.changed_file_states@.len() + 1,
        ({
            let (at, state) = after.changed_file_states@.last();
            &&& at@ == path
            &&& state.size == 0
            &&& state.mtime.0 == 0
            &&& state.file_type == (FileType::Normal { exec_bit: ExecBit(false) })
            &&& state.materialized_conflict_data is None
        }),
        forall|i: int|
            0 <= i < before.changed_file_states@.len() ==> #[trigger] after.changed_file_states@[i]
                == before.changed_file_states@[i],
        after.deleted_files@ == before.deleted_files@,
{
    assert forall|i: int|
        0 <= i < before.changed_file_states@.len() implies #[trigger] after.changed_file_states@[i]
        == before.changed_file_states@[i] by {
        assert(after.changed_file_states@.drop_last()[i] == before.changed_file_states@[i]);
    }
}

/// A path that was written is recorded with what was found afterwards. One that was removed is
/// recorded as gone, and its directories are no longer taken to be there.
pub proof fn lemma_written_path_recorded(
    before: TreeUpdate,
    after: TreeUpdate,
    path: Seq<char>,
    value: MaterializedTreeValue,
    action: WriteAction,
    written: FileState,
)
    requires
        entry_run::wrote(before, after, path, value, action, written),
    ensures
        after.stats == before.stats,
        action is RemoveEmptyParents ==> {
            &&& after.deleted_files@ == before.deleted_files@.push(path)
            &&& after.changed_file_states@ == before.changed_file_states@
            &&& after.prev_created_path@.len() == 0
        },
        !(action is RemoveEmptyParents) ==> {
            let (at, state) = after.changed_file_states@.last();
            &&& after.changed_file_states@.len() == before.changed_file_states@.len() + 1
            &&& after.deleted_files@ == before.deleted_files@
            &&& at@ == path
            &&& action is SubmoduleDir && !(value is FileConflict) ==> state.file_type
                is GitSubmodule && state.size == 0
            &&& !(action is SubmoduleDir) ==> {
                &&& state.file_type == written.file_type
                &&& state.mtime == written.mtime
                &&& state.size == written.size
                &&& value is FileConflict ==> state.materialized_conflict_data is Some
                &&& !(value is FileConflict) ==> state == written
            }
        },
{
}

/// A directory that cannot be created, or is reserved, ends the update. Nothing is recorded
/// of the path then.
pub proof fn lemma_bad_dir_ends_update<'a>(
    run: &mut EntryRun<'a>,
    update: &mut TreeUpdate,
    context: UpdateContext,
    mkdir: MkdirOutcome,
    is_reserved: bool,
    r: Result<DiskAction, EntryError>,
)
    requires
        mkdir == MkdirOutcome::Failed || is_reserved,
        call_ensures(
            EntryRun::<'a>::dir_created,
            (run, update, &context, mkdir, is_reserved),
            r,
        ),
    ensures
        r is Err,
        *final(update) == *old(update),
        mkdir != MkdirOutcome::Failed ==> (r matches Err(EntryError::Reserved { remove_created })
            && (remove_created <==> mkdir == MkdirOutcome::Created)),
{
}

/// A file or a symlink where a directory should be gets the path skipped.
pub proof fn lemma_file_for_dir_skipped<'a>(
    run: &mut EntryRun<'a>,
    update: &mut TreeUpdate,
    context: UpdateContext,
    r: Result<DiskAction, EntryError>,
)
    requires
        call_ensures(
            EntryRun::<'a>::dir_created,
            (run, update, &context, MkdirOutcome::Existing { is_dir: false }, false),
            r,
        ),
    ensures
        r == Ok::<DiskAction, EntryError>(DiskAction::Nothing),
        entry_run::skipped(*old(update), *final(update), old(run).path@),
{
}

/// A path is written as planned once the old file was removed. It is tried out first if there
/// was none, or if a directory is in its place. A reserved file is not removed and ends the
/// update.
pub proof fn lemma_removed_then_written<'a>(
    run: &mut EntryRun<'a>,
    context: UpdateContext,
    outcome: RemoveOutcome,
    is_reserved: bool,
    plan: WriteAction,
    r: Result<DiskAction, EntryError>,
)
    requires
        call_ensures(EntryRun::<'a>::removed, (run, &context, outcome, is_reserved), r),
        call_ensures(
            checkout::plan_write,
            (
                &old(run).after,
                context.platform,
                context.exec_policy,
                context.symlink_support,
                old(run).prev_exec,
            ),
            plan,
        ),
    ensures
        ({
            let submodule = old(run).before@.len() == 1 && (old(run).before@[0] matches Some(
                TreeEntry::GitSubmodule(_),
            ));
            &&& is_reserved && !submodule ==> (r matches Err(EntryError::Reserved { remove_created })
                && !remove_created)
            &&& !is_reserved && outcome == RemoveOutcome::Removed ==> r == Ok::<
                DiskAction,
                EntryError,
            >(DiskAction::Write(plan))
            &&& !is_reserved && outcome == RemoveOutcome::NotFound ==> r == Ok::<
                DiskAction,
                EntryError,
            >(DiskAction::ProbeFile)
            &&& r matches Ok(DiskAction::Write(action)) ==> outcome == RemoveOutcome::Removed
                && action == plan
            &&& r == Ok::<DiskAction, EntryError>(DiskAction::ProbeFile) <==> (submodule
                || !is_reserved) && (outcome == RemoveOutcome::NotFound || submodule && outcome
                == RemoveOutcome::NotEmpty || !submodule && outcome == (RemoveOutcome::Failed {
                is_dir: true,
            }))
        }),
{
}

/// After a path was tried out, it is written as planned exactly if the empty file could be
/// created or what is in the way loses nothing. Otherwise it is skipped, or the update ends.
pub proof fn lemma_probed_then_written<'a>(
    run: &mut EntryRun<'a>,
    update: &mut TreeUpdate,
    context: UpdateContext,
    probe: ProbeOutcome,
    is_reserved: bool,
    is_dir: bool,
    plan: WriteAction,
    proceeds: bool,
    r: Result<DiskAction, EntryError>,
)
    requires
        call_ensures(
            EntryRun::<'a>::probed,
            (run, update, &context, probe, is_reserved, is_dir),
            r,
        ),
        call_ensures(
            checkout::plan_write,
            (
                &old(run).after,
                context.platform,
                context.exec_policy,
                context.symlink_support,
                old(run).prev_exec,
            ),
            plan,
        ),
        call_ensures(
            checkout::may_proceed,
            (old(run).before, &old(run).after, false, probe == ProbeOutcome::Created, is_dir),
            proceeds,
        ),
    ensures
        probe == (ProbeOutcome::Failed { exists: false }) ==> r matches Err(
            EntryError::CannotProbe,
        ),
        is_reserved ==> r is Err,
        r is Err ==> *final(update) == *old(update),
        !is_reserved && probe != (ProbeOutcome::Failed { exists: false }) ==> {
            &&& proceeds ==> r == Ok::<DiskAction, EntryError>(DiskAction::Write(plan))
                && *final(update) == *old(update)
            &&& !proceeds ==> r == Ok::<DiskAction, EntryError>(DiskAction::Nothing)
                && entry_run::skipped(*old(update), *final(update), old(run).path@)
        },
        is_reserved && probe != (ProbeOutcome::Failed { exists: false }) ==> (r matches Err(
            EntryError::Reserved { remove_created },
        ) && (remove_created <==> probe == ProbeOutcome::Created)),
{
}

/// Conflicts that did not change are written again exactly if the update has not seen to them
/// yet. None is lost or added, and their order stays.
pub proof fn lemma_conflicts_rematerialized(
    update: TreeUpdate,
    conflicts: Vec<RepoPathBuf>,
    r: Vec<RepoPathBuf>,
    path: Seq<char>,
)
    requires
        call_ensures(TreeUpdate::conflicts_to_rematerialize, (&update, conflicts), r),
    ensures
        r@.len() <= conflicts@.len(),
        (exists|i: int| 0 <= i < r@.len() && (#[trigger] r@[i])@ == path) <==> (exists|k: int|
            0 <= k < conflicts@.len() && (#[trigger] conflicts@[k])@ == path
                && !update.touched@.contains(path)),
{
    let pred = |p: Seq<char>| !update.touched@.contains(p);
    let all = checkout::path_list(conflicts@);
    let kept = checkout::path_list(r@);
    assert(kept == all.filter(pred));
    all.lemma_filter_len(pred);
    assert(kept.len() == r@.len() && all.len() == conflicts@.len());
    if exists|i: int| 0 <= i < r@.len() && (#[trigger] r@[i])@ == path {
        let i = choose|i: int| 0 <= i < r@.len() && (#[trigger] r@[i])@ == path;
        assert(kept[i] == path);
        assert(kept.contains(path));
        all.lemma_filter_contains_rev(pred, path);
        all.lemma_filter_pred(pred, i);
        let k = choose|k: int| 0 <= k < all.len() && all[k] == path;
        assert(conflicts@[k]@ == path);
    }
    if exists|k: int|
        0 <= k < conflicts@.len() && (#[trigger] conflicts@[k])@ == path
            && !update.touched@.contains(path) {
        let k = choose|k: int|
            0 <= k < conflicts@.len() && (#[trigger] conflicts@[k])@ == path
                && !update.touched@.contains(path);
        assert(all[k] == path);
        all.lemma_filter_contains(pred, k);
        let i = choose|i: int| 0 <= i < kept.len() && kept[i] == path;
        assert(r@[i]@ == path);
    }
}

/// Conflicts that did not change have to be written again exactly if only what their sides are
/// called has changed.
pub proof fn lemma_labels_changed(old_tree: MergedTree, new_tree: MergedTree, r: bool)
    requires
        old_tree@.tree_ids.len() % 2 == 1,
        new_tree@.tree_ids.len() % 2 == 1,
        call_ensures(checkout::labels_changed, (&old_tree, &new_tree), r),
    ensures
        old_tree@.labels == new_tree@.labels ==> !r,
        old_tree@.tree_ids.len() != new_tree@.tree_ids.len() ==> !r,
        old_tree@.labels != new_tree@.labels && old_tree@.tree_ids.len() == new_tree@.tree_ids.len()
            ==> r,
{
    assert(old_tree@.tree_ids.len() == old_tree.tree_ids@.len());
    assert(new_tree@.tree_ids.len() == new_tree.tree_ids@.len());
}

/// What is worked on leads to a place on disk: the directory that is being created and the
/// names behind it, or the path that is being removed, tried out or written.
pub open spec fn heads_for(run: EntryRun<'_>, target: Seq<FsPart>) -> bool {
    match run.stage {
        EntryStage::Parents(dirs) => target == dirs.dir_path@ + repo_path_fs::name_parts(
            dirs.names_left(),
        ) + seq![FsPart::Normal(path_model::components(dirs.repo_path@).last())],
        EntryStage::Removing(path) => target == path@,
        EntryStage::Probing(path) => target == path@,
        EntryStage::Writing(path, _) => target == path@,
        EntryStage::Finished => true,
    }
}

/// What was begun leads to the place of the path in the working copy. A submodule that stays
/// one is left alone. Else the directories that lead to the path are seen to first, unless
/// they are those of a path that was written just before. Then a file that was there is
/// removed, or, if there was none, the path is tried out.
pub proof fn lemma_entry_begun<'a>(
    update: &mut TreeUpdate,
    context: UpdateContext,
    path: RepoPath<'a>,
    before: &'a MergedTreeValue,
    after: MaterializedTreeValue,
    prev_exec: Option<ExecBit>,
    place: Result<FsPath, InvalidRepoPathError>,
    parent: Option<RepoPath<'a>>,
    r: Result<(EntryRun<'a>, DiskAction), EntryError>,
)
    requires
        context.working_copy_path@.len() > 0,
        path_model::valid_path(path@),
        path@.len() > 0,
        path_model::valid_path(old(update).prev_created_path@),
        call_ensures(
            RepoPath::<'a>::to_fs_path_on,
            (&path, context.platform, &context.working_copy_path),
            place,
        ),
        call_ensures(RepoPath::<'a>::parent, (&path,), parent),
        call_ensures(
            EntryRun::<'a>::begin,
            (update, &context, path, before, after, prev_exec),
            r,
        ),
    ensures
        final(update).touched@ == old(update).touched@.push(path@),
        final(update).changed_file_states@ == old(update).changed_file_states@,
        final(update).deleted_files@ == old(update).deleted_files@,
        r is Err ==> place is Err,
        r matches Ok((run, action)) ==> {
            let was_submodule = before@.len() == 1 && (before@[0] matches Some(
                TreeEntry::GitSubmodule(_),
            ));
            &&& run.path@ == path@
            &&& run.before == before
            &&& run.after == after
            &&& run.prev_exec == prev_exec
            &&& place is Ok ==> heads_for(run, place->Ok_0@)
            &&& action == DiskAction::Nothing <==> was_submodule && after is GitSubmodule
            &&& action != DiskAction::Nothing && action != DiskAction::CreateDir ==> {
                &&& matcher_laws::at_or_below(parent->0@, old(update).prev_created_path@)
                &&& action == DiskAction::ProbeFile <==> before@ == seq![None::<TreeEntry>]
                &&& action == DiskAction::RemoveSubmoduleDir <==> was_submodule
                &&& action == DiskAction::RemoveFile <==> before@ != seq![None::<TreeEntry>]
                    && !was_submodule
            }
            &&& old(update).prev_created_path@ == parent->0@ ==> action != DiskAction::CreateDir
        },
{
    let names = path_model::components(path@);
    let created = path_model::components(old(update).prev_created_path@);
    let shared = repo_path::common_len(names, created);
    repo_path::lemma_common_len(names, created);
    path_model::lemma_components_valid(path@);
    path_model::lemma_split_last(path@);
    let wc = context.working_copy_path@;
    let dir = repo_path::back_split(path@).0;
    let tail = names.skip(shared);
    assert forall|i: int| 0 <= i < tail.len() implies path_model::valid_name(#[trigger] tail[i]) by {
        assert(tail[i] == names[shared + i]);
    }
    path_model::lemma_components_of_join(tail);
    lemma_place_of_directory(path@, dir, names);
    if shared >= names.len() - 1 {
        repo_path::lemma_stripped(old(update).prev_created_path@, dir);
        matcher_laws::lemma_covers(dir, old(update).prev_created_path@);
        assert(path_model::components(dir).is_prefix_of(created)) by {
            assert(created.subrange(0, names.len() - 1) =~= names.drop_last());
        }
    }
    if old(update).prev_created_path@ == dir {
        if shared < names.len() - 1 {
            assert(created[shared] == names[shared]);
        }
        assert(tail.drop_last().len() == 0);
    }
    if r is Ok && shared < names.len() {
        let known = names.take(shared);
        assert(tail.last() == names.last());
        assert(wc + repo_path_fs::name_parts(names) =~= wc + repo_path_fs::name_parts(known)
            + repo_path_fs::name_parts(tail.drop_last()) + seq![FsPart::Normal(names.last())]);
        if tail.len() > 1 {
            let left = tail.drop_last();
            assert(repo_path_fs::name_parts(left) =~= seq![FsPart::Normal(left[0])]
                + repo_path_fs::name_parts(left.drop_first()));
            assert((wc + repo_path_fs::name_parts(known)).push(FsPart::Normal(left[0]))
                + repo_path_fs::name_parts(left.drop_first()) =~= wc + repo_path_fs::name_parts(
                known,
            ) + repo_path_fs::name_parts(left));
        } else {
            assert(tail.drop_last() =~= Seq::<Seq<char>>::empty());
            assert(wc + repo_path_fs::name_parts(known) + repo_path_fs::name_parts(
                tail.drop_last(),
            ) =~= wc + repo_path_fs::name_parts(known));
            assert((wc + repo_path_fs::name_parts(known)).push(FsPart::Normal(names.last())) =~= wc
                + repo_path_fs::name_parts(known) + seq![FsPart::Normal(names.last())]);
        }
    }
}

/// The names of a directory are those of an entry but the last.
proof fn lemma_place_of_directory(path: Seq<char>, dir: Seq<char>, names: Seq<Seq<char>>)
    requires
        path_model::valid_path(path),
        path.len() > 0,
        dir == repo_path::back_split(path).0,
        names == path_model::components(path),
    ensures
        path_model::valid_path(dir),
        path_model::components(dir) == names.drop_last(),
        names.len() > 0,
{
    path_model::lemma_split_last(path);
}

/// While the directories that lead to a path are created, one below the other, the work
/// leads to the same place.
pub proof fn lemma_descent_leads_on<'a>(
    run: &mut EntryRun<'a>,
    update: &mut TreeUpdate,
    context: UpdateContext,
    mkdir: MkdirOutcome,
    is_reserved: bool,
    r: Result<DiskAction, EntryError>,
    target: Seq<FsPart>,
)
    requires
        old(run).stage is Parents,
        heads_for(*old(run), target),
        call_ensures(
            EntryRun::<'a>::dir_created,
            (run, update, &context, mkdir, is_reserved),
            r,
        ),
    ensures
        r is Ok ==> heads_for(*final(run), target),
        r matches Ok(action) && action == DiskAction::CreateDir ==> {
            &&& old(run).stage->Parents_0.names_left().len() > 0
            &&& final(run).stage matches EntryStage::Parents(dirs) && dirs.dir_path@.drop_last()
                == old(run).stage->Parents_0.dir_path@
        },
{
    let dirs = old(run).stage->Parents_0;
    let left = dirs.names_left();
    if r is Ok && left.len() > 0 {
        assert(repo_path_fs::name_parts(left) =~= seq![FsPart::Normal(left[0])]
            + repo_path_fs::name_parts(left.drop_first()));
        assert(dirs.dir_path@.push(FsPart::Normal(left[0])) + repo_path_fs::name_parts(
            left.drop_first(),
        ) =~= dirs.dir_path@ + repo_path_fs::name_parts(left));
        assert(dirs.dir_path@.push(FsPart::Normal(left[0])).drop_last() =~= dirs.dir_path@);
    } else if r is Ok {
        assert(repo_path_fs::name_parts(left) =~= Seq::<FsPart>::empty());
        assert(dirs.dir_path@ + repo_path_fs::name_parts(left) =~= dirs.dir_path@);
        let basename = path_model::components(dirs.repo_path@).last();
        assert(dirs.dir_path@.push(FsPart::Normal(basename)) =~= dirs.dir_path@ + seq![
            FsPart::Normal(basename),
        ]);
    }
}

/// The directory of a path is known to exist once all directories that lead to it are there,
/// and not before. While they are created, nothing is counted or recorded.
pub proof fn lemma_directory_known<'a>(
    run: &mut EntryRun<'a>,
    update: &mut TreeUpdate,
    context: UpdateContext,
    mkdir: MkdirOutcome,
    is_reserved: bool,
    r: Result<DiskAction, EntryError>,
    dir: Seq<char>,
    name: Seq<char>,
)
    requires
        path_model::valid_path(dir),
        path_model::valid_name(name),
        old(run).path@ == path_model::joined(dir, name),
        old(run).stage is Parents,
        call_ensures(
            EntryRun::<'a>::dir_created,
            (run, update, &context, mkdir, is_reserved),
            r,
        ),
    ensures
        r is Ok && (final(run).stage is Removing || final(run).stage is Probing) ==> final(update).prev_created_path@ == dir,
        r is Err || final(run).stage is Parents || final(run).stage is Finished ==> final(update).prev_created_path@ == old(update).prev_created_path@,
        !(r is Ok && final(run).stage is Finished) ==> {
            &&& final(update).stats == old(update).stats
            &&& final(update).changed_file_states@ == old(update).changed_file_states@
            &&& final(update).deleted_files@ == old(update).deleted_files@
            &&& final(update).touched@ == old(update).touched@
        },
{
    repo_path::lemma_split_of_join(dir, name);
}

/// A path is tried out and written where the old file was removed.
pub proof fn lemma_removal_leads_on<'a>(
    run: &mut EntryRun<'a>,
    context: UpdateContext,
    outcome: RemoveOutcome,
    is_reserved: bool,
    r: Result<DiskAction, EntryError>,
    old_place: Option<&FsPath>,
    new_place: Option<&FsPath>,
)
    requires
        old(run).stage is Removing,
        call_ensures(EntryRun::<'a>::removed, (run, &context, outcome, is_reserved), r),
        call_ensures(EntryRun::<'a>::disk_path, (&*old(run),), old_place),
        call_ensures(EntryRun::<'a>::disk_path, (&*final(run),), new_place),
    ensures
        r is Ok ==> new_place is Some && old_place is Some && new_place->0@ == old_place->0@,
        r is Ok ==> forall|target: Seq<FsPart>|
            heads_for(*old(run), target) ==> #[trigger] heads_for(*final(run), target),
{
}

/// A path is written where it was tried out.
pub proof fn lemma_probe_leads_on<'a>(
    run: &mut EntryRun<'a>,
    update: &mut TreeUpdate,
    context: UpdateContext,
    probe: ProbeOutcome,
    is_reserved: bool,
    is_dir: bool,
    r: Result<DiskAction, EntryError>,
    old_place: Option<&FsPath>,
    new_place: Option<&FsPath>,
)
    requires
        old(run).stage is Probing,
        call_ensures(
            EntryRun::<'a>::probed,
            (run, update, &context, probe, is_reserved, is_dir),
            r,
        ),
        call_ensures(EntryRun::<'a>::disk_path, (&*old(run),), old_place),
        call_ensures(EntryRun::<'a>::disk_path, (&*final(run),), new_place),
    ensures
        r matches Ok(DiskAction::Write(_)) ==> new_place is Some && old_place is Some
            && new_place->0@ == old_place->0@,
        r is Ok ==> forall|target: Seq<FsPart>|
            heads_for(*old(run), target) ==> #[trigger] heads_for(*final(run), target),
{
}

/// The directories that lead to a path are created one below the other, as long as their
/// names can be those of directories, and the path itself comes last.
pub proof fn lemma_next_directory<'a>(
    dirs: &mut ParentDirs<'a>,
    platform: Platform,
    r: Result<bool, InvalidRepoPathError>,
    file: Result<FsPath, InvalidRepoPathError>,
)
    requires
        call_ensures(ParentDirs::<'a>::next_dir, (dirs, platform), r),
        call_ensures(ParentDirs::<'a>::file_path, (&*old(dirs), platform), file),
    ensures
        r matches Ok(more) ==> (more <==> old(dirs).names_left().len() > 0),
        r == Ok::<bool, InvalidRepoPathError>(true) ==> {
            &&& final(dirs).dir_path@ == old(dirs).dir_path@ + seq![
                FsPart::Normal(old(dirs).names_left()[0]),
            ]
            &&& final(dirs).names_left() == old(dirs).names_left().drop_first()
        },
        r is Err ==> r->Err_0.source.component@ == old(dirs).names_left()[0],
        file is Ok ==> file->Ok_0@ == old(dirs).dir_path@ + seq![
            FsPart::Normal(path_model::components(old(dirs).repo_path@).last()),
        ],
{
    if r == Ok::<bool, InvalidRepoPathError>(true) {
        assert(old(dirs).dir_path@.push(FsPart::Normal(old(dirs).names_left()[0])) =~= old(
            dirs,
        ).dir_path@ + seq![FsPart::Normal(old(dirs).names_left()[0])]);
    }
    if file is Ok {
        let name = path_model::components(old(dirs).repo_path@).last();
        assert(old(dirs).dir_path@.push(FsPart::Normal(name)) =~= old(dirs).dir_path@ + seq![
            FsPart::Normal(name),
        ]);
    }
}

/// A path that is skipped counts as such. It is recorded as a file that is not known, so that
/// it is looked at again, and nothing else changes.
pub proof fn lemma_path_skipped(update: &mut TreeUpdate, path: RepoPathBuf)
    requires
        old(update).stats.has_room(),
        call_ensures(TreeUpdate::skip_entry, (update, path), ()),
    ensures
        final(update).stats.skipped_files == old(update).stats.skipped_files + 1,
        final(update).stats.updated_files == old(update).stats.updated_files,
        final(update).stats.added_files == old(update).stats.added_files,
        final(update).stats.removed_files == old(update).stats.removed_files,
        final(update).changed_file_states@.len() == old(update).changed_file_states@.len() + 1,
        final(update).changed_file_states@.drop_last() == old(update).changed_file_states@,
        final(update).changed_file_states@.last().0@ == path@,
        final(update).changed_file_states@.last().1.file_type == (FileType::Normal {
            exec_bit: ExecBit(false),
        }),
        final(update).changed_file_states@.last().1.mtime.0 == 0,
        final(update).changed_file_states@.last().1.size == 0,
        final(update).deleted_files@ == old(update).deleted_files@,
{
    assert(final(update).changed_file_states@.drop_last() =~= old(update).changed_file_states@);
}

/// A path that was removed is recorded as gone, and no directory is taken to be there any
/// more. One that was written is recorded with what was found afterwards. The directory of a
/// path that was seen to is remembered.
pub proof fn lemma_path_finished(
    removing: &mut TreeUpdate,
    writing: &mut TreeUpdate,
    creating: &mut TreeUpdate,
    path: RepoPathBuf,
    borrowed: RepoPath<'_>,
    parent: Option<RepoPath<'_>>,
    after: MaterializedTreeValue,
    written: FileState,
    state: FileState,
)
    requires
        call_ensures(TreeUpdate::finish_removed, (removing, path), ()),
        call_ensures(TreeUpdate::finish_written, (writing, path, &after, written), ()),
        call_ensures(TreeUpdate::parents_created, (creating, borrowed), ()),
        call_ensures(RepoPath::<'_>::parent, (&borrowed,), parent),
        call_ensures(checkout::state_after_write, (&after, written), state),
        borrowed@.len() > 0,
    ensures
        final(removing).deleted_files@ == old(removing).deleted_files@.push(path@),
        final(removing).changed_file_states@ == old(removing).changed_file_states@,
        final(removing).prev_created_path@.len() == 0,
        final(removing).stats == old(removing).stats,
        final(writing).changed_file_states@ == old(writing).changed_file_states@.push(
            (path, state),
        ),
        final(writing).deleted_files@ == old(writing).deleted_files@,
        final(writing).stats == old(writing).stats,
        final(creating).prev_created_path@ == parent->0@,
        final(creating).changed_file_states@ == old(creating).changed_file_states@,
        final(creating).deleted_files@ == old(creating).deleted_files@,
        final(creating).stats == old(creating).stats,
{
}

/// What was written to a path is recorded by what it was: a file that was removed is gone, a
/// submodule is known as one, and anything else has the state that was found.
pub proof fn lemma_write_recorded<'a>(
    run: &mut EntryRun<'a>,
    update: &mut TreeUpdate,
    written: FileState,
    place: FsPath,
    action: WriteAction,
    path: Seq<char>,
)
    requires
        old(run).stage == EntryStage::<'a>::Writing(place, action),
        old(run).path@ == path,
        call_ensures(EntryRun::<'a>::written, (run, update, written), ()),
    ensures
        final(run).stage is Finished,
        final(update).stats == old(update).stats,
        action is RemoveEmptyParents ==> {
            &&& final(update).deleted_files@ == old(update).deleted_files@.push(path)
            &&& final(update).changed_file_states@ == old(update).changed_file_states@
            &&& final(update).prev_created_path@.len() == 0
        },
        !(action is RemoveEmptyParents) ==> {
            let (at, state) = final(update).changed_file_states@.last();
            &&& final(update).changed_file_states@.len() == old(update).changed_file_states@.len()
                + 1
            &&& final(update).changed_file_states@.drop_last() == old(update).changed_file_states@
            &&& final(update).deleted_files@ == old(update).deleted_files@
            &&& at@ == path
            &&& action is SubmoduleDir && !(old(run).after is FileConflict) ==> state.file_type
                is GitSubmodule
            &&& !(action is SubmoduleDir) ==> state.file_type == written.file_type && state.mtime
                == written.mtime && state.size == written.size
        },
{
    lemma_written_path_recorded(*old(update), *final(update), path, old(run).after, action, written);
}

/// An update starts with nothing counted, seen to or recorded.
pub proof fn lemma_update_starts(update: TreeUpdate, path: RepoPath<'_>, is_touched: bool)
    requires
        call_ensures(TreeUpdate::new, (), update),
        call_ensures(TreeUpdate::is_touched, (&update, path), is_touched),
    ensures
        update.stats.updated_files == 0,
        update.stats.added_files == 0,
        update.stats.removed_files == 0,
        update.stats.skipped_files == 0,
        update.changed_file_states@.len() == 0,
        update.deleted_files@.len() == 0,
        update.prev_created_path@.len() == 0,
        !is_touched,
{
}

} // verus!
