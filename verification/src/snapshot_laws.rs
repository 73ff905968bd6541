//! What a snapshot records is what is on disk.
//!
//! The laws speak of what the functions are called with and of what they return.

use vstd::prelude::*;

use crate::backend::MergedTreeValue;
use crate::backend::TreeEntry;
use crate::file_state;
use crate::file_state::DiskFileKind;
use crate::file_state::DiskMetadata;
use crate::file_state::EpochOffset;
use crate::file_state::ExecBit;
use crate::file_state::ExecChangePolicy;
use crate::file_state::ExecChangeSetting;
use crate::file_state::FileState;
use crate::file_state::FileType;
use crate::file_state::MillisSinceEpoch;
use crate::file_state::MtimeOutOfRange;
use crate::file_states;
use crate::file_states::FileStates;
use crate::fs_path::FsPath;
use crate::matchers::SnapshotMatcher;
use crate::path_model;
use crate::platform::Platform;
use crate::proto::FileStateEntry;
use crate::repo_path;
use crate::repo_path::InvalidRepoPathError;
use crate::repo_path::RepoPath;
use crate::repo_path::RepoPathBuf;
use crate::reserved;
use crate::snapshot;
use crate::snapshot::DirEntryStart;
use crate::snapshot::DirFacts;
use crate::snapshot::DirStep;
use crate::snapshot::FileFacts;
use crate::snapshot::FileSnapshotter;
use crate::snapshot::FileStep;
use crate::snapshot::InspectedStep;
use crate::snapshot::PresentDirEntryKind;
use crate::snapshot::UntrackedReason;
use crate::snapshot_output;
use crate::snapshot_output::PresentDirEntries;
use crate::snapshot_output::SnapshotOutput;
use crate::stored_value;
use crate::stored_value::StorePlan;
use crate::stored_value::StoredContents;

verus! {

/// While executable bits are respected, a regular file is recorded with the bit that it has
/// on disk, whatever the tree had at the path before.
pub proof fn lemma_exec_bit_recorded(
    exec_bit: ExecBit,
    current: MergedTreeValue,
    id: Vec<u8>,
    value: MergedTreeValue,
)
    requires
        call_ensures(
            stored_value::value_after_store,
            (
                StorePlan::File { exec_bit },
                ExecChangePolicy::Respect,
                &current,
                StoredContents::File { id },
            ),
            value,
        ),
    ensures
        value@.len() == 1,
        value@[0] matches Some(TreeEntry::File { id: stored, executable, .. }) && stored == id@
            && executable == exec_bit.0,
{
}

/// While executable bits are ignored, a regular file keeps the bit that the tree has for it.
/// A file that is new to the tree is not executable.
pub proof fn lemma_exec_bit_kept(
    exec_bit: ExecBit,
    current: MergedTreeValue,
    id: Vec<u8>,
    value: MergedTreeValue,
)
    requires
        call_ensures(
            stored_value::value_after_store,
            (
                StorePlan::File { exec_bit },
                ExecChangePolicy::Ignore,
                &current,
                StoredContents::File { id },
            ),
            value,
        ),
    ensures
        value@.len() == 1,
        value@[0] matches Some(TreeEntry::File { id: stored, executable, .. }) && {
            &&& stored == id@
            &&& executable <==> current@.len() == 1 && (current@[0] matches Some(
                TreeEntry::File { executable: true, .. },
            ))
        },
{
}

/// A regular file keeps the copy id that the tree has for it. A file that is new to the tree
/// has none. What is on disk has no bearing on it.
pub proof fn lemma_copy_id_kept(
    exec_bit: ExecBit,
    exec_policy: ExecChangePolicy,
    current: MergedTreeValue,
    id: Vec<u8>,
    value: MergedTreeValue,
)
    requires
        call_ensures(
            stored_value::value_after_store,
            (
                StorePlan::File { exec_bit },
                exec_policy,
                &current,
                StoredContents::File { id },
            ),
            value,
        ),
    ensures
        value@[0] matches Some(TreeEntry::File { copy_id, .. }) && {
            &&& current@.len() == 1 && (current@[0] matches Some(
                TreeEntry::File { copy_id: before, .. },
            )) ==> copy_id == current@[0]->0->copy_id
            &&& !(current@.len() == 1 && (current@[0] matches Some(TreeEntry::File { .. })))
                ==> copy_id.len() == 0
        },
{
}

/// A file of which a conflict was settled is recorded as a file without conflict, with the
/// contents that it has now. While executable bits are respected, its bit is that on disk,
/// and otherwise the one that the sides of the conflict agree on.
pub proof fn lemma_settled_conflict_recorded(
    exec_bit: ExecBit,
    conflict_marker_len: usize,
    exec_policy: ExecChangePolicy,
    current: MergedTreeValue,
    file_ids: Vec<Option<Vec<u8>>>,
    id: Vec<u8>,
    copy_id: Option<Vec<u8>>,
    executable: Option<bool>,
    value: MergedTreeValue,
)
    requires
        file_ids@ == seq![Some(id)],
        call_ensures(
            stored_value::value_after_store,
            (
                StorePlan::Conflict { exec_bit, conflict_marker_len },
                exec_policy,
                &current,
                StoredContents::Conflict { file_ids, copy_id, executable },
            ),
            value,
        ),
    ensures
        value@.len() == 1,
        value@[0] matches Some(TreeEntry::File { id: stored, executable: bit, copy_id: copied }) && {
            &&& stored == id@
            &&& exec_policy == ExecChangePolicy::Respect ==> bit == exec_bit.0
            &&& exec_policy == ExecChangePolicy::Ignore ==> (bit <==> executable == Some(true))
            &&& copy_id matches Some(known) ==> copied == known@
            &&& copy_id is None ==> copied.len() == 0
        },
{
}

/// A file that is still a conflict of several sides keeps all of them: each side that is a
/// file gets its new contents, and keeps its executable bit and its copy id. Nothing is
/// added to the conflict, and nothing is lost from it.
pub proof fn lemma_open_conflict_recorded(
    exec_bit: ExecBit,
    conflict_marker_len: usize,
    exec_policy: ExecChangePolicy,
    current: MergedTreeValue,
    file_ids: Vec<Option<Vec<u8>>>,
    copy_id: Option<Vec<u8>>,
    executable: Option<bool>,
    value: MergedTreeValue,
    i: int,
)
    requires
        file_ids@.len() != 1,
        file_ids@.len() == current@.len(),
        0 <= i < current@.len(),
        call_ensures(
            stored_value::value_after_store,
            (
                StorePlan::Conflict { exec_bit, conflict_marker_len },
                exec_policy,
                &current,
                StoredContents::Conflict { file_ids, copy_id, executable },
            ),
            value,
        ),
    ensures
        value@.len() == current@.len(),
        current@[i] is None ==> value@[i] is None,
        (current@[i] matches Some(TreeEntry::File { .. })) && file_ids@[i] is Some ==> value@[i]
            == Some(
            TreeEntry::File {
                id: file_ids@[i]->0@,
                executable: current@[i]->0->executable,
                copy_id: current@[i]->0->copy_id,
            },
        ),
{
    assert(stored_value::id_views(file_ids@)[i] == stored_value::id_view(file_ids@[i]));
}

/// A symlink is recorded as a symlink with the stored target, and nothing else.
pub proof fn lemma_symlink_recorded(
    plan: StorePlan,
    exec_policy: ExecChangePolicy,
    current: MergedTreeValue,
    id: Vec<u8>,
    value: MergedTreeValue,
)
    requires
        call_ensures(
            stored_value::value_after_store,
            (plan, exec_policy, &current, StoredContents::Symlink { id }),
            value,
        ),
    ensures
        value@ == seq![Some(TreeEntry::Symlink(id@))],
{
}

/// Where nothing is stored, the tree keeps what it has.
pub proof fn lemma_nothing_stored(
    plan: StorePlan,
    exec_policy: ExecChangePolicy,
    current: MergedTreeValue,
    value: MergedTreeValue,
)
    requires
        call_ensures(
            stored_value::value_after_store,
            (plan, exec_policy, &current, StoredContents::Kept),
            value,
        ),
    ensures
        value@ == current@,
{
}

/// A file gets a new value exactly if that differs from what the tree has.
pub proof fn lemma_only_changes_recorded(
    current: MergedTreeValue,
    new: MergedTreeValue,
    r: Option<MergedTreeValue>,
)
    requires
        call_ensures(stored_value::changed_value, (&current, new), r),
    ensures
        r is None <==> new@ == current@,
        r is Some ==> r->0@ == new@,
{
}

/// A regular file is stored as a symlink exactly where there are no symlinks on disk and the
/// tree has one at the path. A symlink on disk always is.
pub proof fn lemma_stored_as_symlink(
    symlink_support: bool,
    new_state: FileState,
    current: MergedTreeValue,
    current_state: Option<FileState>,
    plan: StorePlan,
)
    requires
        !(new_state.file_type is GitSubmodule),
        call_ensures(
            stored_value::plan_store,
            (symlink_support, &new_state, &current, current_state),
            plan,
        ),
    ensures
        plan is Symlink <==> {
            ||| new_state.file_type is Symlink
            ||| !symlink_support && current@.len() == 1 && (current@[0] matches Some(
                TreeEntry::Symlink(_),
            ))
        },
{
}

/// A regular file is stored as such, with the executable bit that it has on disk, where the
/// tree has no conflict at the path.
pub proof fn lemma_stored_as_file(
    symlink_support: bool,
    new_state: FileState,
    current: MergedTreeValue,
    current_state: Option<FileState>,
    plan: StorePlan,
)
    requires
        !(new_state.file_type is GitSubmodule),
        call_ensures(
            stored_value::plan_store,
            (symlink_support, &new_state, &current, current_state),
            plan,
        ),
    ensures
        plan is File ==> new_state.file_type == (FileType::Normal { exec_bit: plan->File_exec_bit }),
        plan is File ==> current@.len() == 1,
        current@.len() == 1 && new_state.file_type is Normal && !(plan is Symlink) ==> plan is File,
{
}

/// A regular file in the place of a conflict is searched for conflict markers exactly if all
/// sides of the conflict are files. The markers have the length that was recorded when the
/// conflict was written, or that of the shortest ones if nothing was recorded. A conflict of
/// other things stays as it is.
pub proof fn lemma_stored_as_conflict(
    symlink_support: bool,
    new_state: FileState,
    current: MergedTreeValue,
    current_state: Option<FileState>,
    plan: StorePlan,
)
    requires
        new_state.file_type is Normal,
        current@.len() != 1,
        call_ensures(
            stored_value::plan_store,
            (symlink_support, &new_state, &current, current_state),
            plan,
        ),
    ensures
        plan is Conflict || plan is Keep,
        plan is Conflict <==> forall|i: int|
            0 <= i < current@.len() ==> (#[trigger] current@[i] is None || current@[i]->0 is File),
        plan matches StorePlan::Conflict { exec_bit, conflict_marker_len } ==> {
            &&& new_state.file_type == (FileType::Normal { exec_bit })
            &&& conflict_marker_len == match current_state {
                Some(state) => match state.materialized_conflict_data {
                    Some(data) => data.conflict_marker_len as int,
                    None => 7,
                },
                None => 7,
            }
        },
{
}

/// A file is known not to have changed exactly if it is tracked, its type, its modification
/// time and its size are those recorded, and it was last modified before the state was saved.
pub proof fn lemma_known_clean(
    current: Option<FileState>,
    new: FileState,
    own_mtime: MillisSinceEpoch,
    r: bool,
)
    requires
        call_ensures(stored_value::is_known_clean, (current, &new, own_mtime), r),
    ensures
        current is None ==> !r,
        current matches Some(old) ==> (r <==> {
            &&& old.file_type == new.file_type
            &&& old.mtime == new.mtime
            &&& old.size == new.size
            &&& old.mtime.0 < own_mtime.0
        }),
{
}

/// That a conflict was written to a file has no bearing on whether the file looks changed.
/// Looking changed goes both ways.
pub proof fn lemma_clean_both_ways(a: FileState, b: FileState, ab: bool, ba: bool)
    requires
        call_ensures(FileState::is_clean, (&a, &b), ab),
        call_ensures(FileState::is_clean, (&b, &a), ba),
    ensures
        ab == ba,
        ab <==> a.file_type == b.file_type && a.mtime == b.mtime && a.size == b.size,
{
}

/// A file on Unix is executable if its owner, its group or anybody else may execute it. No
/// file is on Windows.
pub proof fn lemma_executable_on_disk(platform: Platform, mode: u32, bit: ExecBit)
    requires
        call_ensures(ExecBit::new_from_disk, (platform, mode), bit),
    ensures
        platform == Platform::Windows ==> !bit.0,
        platform == Platform::Unix ==> (bit.0 <==> {
            ||| mode & 0o100 != 0
            ||| mode & 0o010 != 0
            ||| mode & 0o001 != 0
        }),
{
    assert(mode & 0o111 != 0 <==> (mode & 0o100 != 0 || mode & 0o010 != 0 || mode & 0o001 != 0))
        by (bit_vector);
}

/// A file that is written with an executable bit is found with it again.
pub proof fn lemma_written_bit_found(
    bit: ExecBit,
    mode: Option<u32>,
    found: ExecBit,
    windows_mode: Option<u32>,
)
    requires
        call_ensures(ExecBit::disk_mode, (bit, Platform::Unix), mode),
        mode is Some ==> call_ensures(ExecBit::new_from_disk, (Platform::Unix, mode->0), found),
        call_ensures(ExecBit::disk_mode, (bit, Platform::Windows), windows_mode),
    ensures
        mode is Some,
        found == bit,
        windows_mode is None,
{
    assert(0o755u32 & 0o111 != 0) by (bit_vector);
    assert(0o644u32 & 0o111 == 0) by (bit_vector);
}

/// The owner may read and write a file that was written. Group and others may read it.
pub proof fn lemma_written_permissions(bit: ExecBit, mode: Option<u32>)
    requires
        call_ensures(ExecBit::disk_mode, (bit, Platform::Unix), mode),
    ensures
        mode is Some,
        mode->0 & 0o666 == 0o644,
        bit.0 ==> mode->0 & 0o111 == 0o111,
        !bit.0 ==> mode->0 & 0o111 == 0,
        mode->0 <= 0o777,
{
    assert(0o755u32 & 0o666 == 0o644 && 0o644u32 & 0o666 == 0o644) by (bit_vector);
    assert(0o755u32 & 0o111 == 0o111 && 0o644u32 & 0o111 == 0) by (bit_vector);
}

/// Files and symlinks can be tracked. Directories, sockets and the like cannot.
pub proof fn lemma_tracked_kinds(
    platform: Platform,
    metadata: DiskMetadata,
    r: Result<Option<FileState>, MtimeOutOfRange>,
)
    requires
        call_ensures(file_state::file_state, (platform, &metadata), r),
    ensures
        metadata.kind == DiskFileKind::Dir || metadata.kind == DiskFileKind::Special ==> r == Ok::<
            Option<FileState>,
            MtimeOutOfRange,
        >(None),
        r matches Ok(Some(state)) ==> {
            &&& state.file_type is Symlink <==> metadata.kind == DiskFileKind::Symlink
            &&& state.file_type is Normal <==> metadata.kind == DiskFileKind::File
        },
        r matches Ok(None) ==> metadata.kind == DiskFileKind::Dir || metadata.kind
            == DiskFileKind::Special,
{
}

/// The state of a file or a symlink holds its size and when it was modified, to the
/// millisecond. It has no state only if that is further from the epoch than the largest
/// number that can be recorded.
pub proof fn lemma_recorded_metadata(
    platform: Platform,
    metadata: DiskMetadata,
    r: Result<Option<FileState>, MtimeOutOfRange>,
)
    requires
        metadata.kind == DiskFileKind::File || metadata.kind == DiskFileKind::Symlink,
        call_ensures(file_state::file_state, (platform, &metadata), r),
    ensures
        r is Err <==> match metadata.modified {
            EpochOffset::After(millis) => millis > 0x7fff_ffff_ffff_ffff,
            EpochOffset::Before(millis) => millis > 0x7fff_ffff_ffff_ffff,
        },
        r matches Ok(found) ==> {
            &&& found matches Some(state)
            &&& state.size == metadata.len
            &&& state.materialized_conflict_data is None
            &&& match metadata.modified {
                EpochOffset::After(millis) => state.mtime.0 as int == millis as int,
                EpochOffset::Before(millis) => state.mtime.0 as int == -(millis as int),
            }
        },
{
}

/// The state of a regular file has the executable bit of the file.
pub proof fn lemma_recorded_exec_bit(
    platform: Platform,
    metadata: DiskMetadata,
    bit: ExecBit,
    r: Result<Option<FileState>, MtimeOutOfRange>,
)
    requires
        metadata.kind == DiskFileKind::File,
        call_ensures(file_state::file_state, (platform, &metadata), r),
        call_ensures(ExecBit::new_from_disk, (platform, metadata.permissions), bit),
    ensures
        r matches Ok(Some(state)) ==> state.file_type == (FileType::Normal { exec_bit: bit }),
{
}

/// Of two points in time that can be recorded, the earlier one is recorded as earlier.
pub proof fn lemma_recorded_times_in_order(
    a: EpochOffset,
    b: EpochOffset,
    ra: Option<MillisSinceEpoch>,
    rb: Option<MillisSinceEpoch>,
)
    requires
        call_ensures(file_state::system_time_to_millis, (a,), ra),
        call_ensures(file_state::system_time_to_millis, (b,), rb),
        ra is Some,
        rb is Some,
    ensures
        ({
            let distance = |time: EpochOffset|
                match time {
                    EpochOffset::After(millis) => millis as int,
                    EpochOffset::Before(millis) => -(millis as int),
                };
            (ra->0).0 - (rb->0).0 == distance(a) - distance(b)
        }),
{
}

/// Executable bits are respected on Unix only, and never against the wish of the user. Left
/// to themselves, they are respected unless the filesystem is known not to have them. The
/// filesystem is asked exactly where the answer matters.
pub proof fn lemma_exec_policy(
    platform: Platform,
    setting: ExecChangeSetting,
    probed: Option<bool>,
    other: Option<bool>,
    policy: ExecChangePolicy,
    other_policy: ExecChangePolicy,
    needs_probe: bool,
)
    requires
        call_ensures(ExecChangePolicy::new, (platform, setting, probed), policy),
        call_ensures(ExecChangePolicy::new, (platform, setting, other), other_policy),
        call_ensures(ExecChangePolicy::needs_probe, (platform, setting), needs_probe),
    ensures
        platform == Platform::Windows ==> policy == ExecChangePolicy::Ignore,
        setting == ExecChangeSetting::Ignore ==> policy == ExecChangePolicy::Ignore,
        platform == Platform::Unix && setting == ExecChangeSetting::Respect ==> policy
            == ExecChangePolicy::Respect,
        platform == Platform::Unix && setting == ExecChangeSetting::Auto ==> (policy
            == ExecChangePolicy::Ignore <==> probed == Some(false)),
        !needs_probe ==> policy == other_policy,
        needs_probe && probed == Some(true) && other == Some(false) ==> policy != other_policy,
{
}

/// A file whose state has to be found out again is never taken for one that was looked at
/// when it was written, and a submodule is never looked at.
pub proof fn lemma_written_states(
    exec_bit: ExecBit,
    size: u64,
    metadata: DiskMetadata,
    file: Result<FileState, MtimeOutOfRange>,
    link: Result<FileState, MtimeOutOfRange>,
    submodule: FileState,
    placeholder: FileState,
    found: Result<Option<FileState>, MtimeOutOfRange>,
)
    requires
        call_ensures(FileState::for_file, (exec_bit, size, &metadata), file),
        call_ensures(FileState::for_symlink, (&metadata,), link),
        call_ensures(FileState::for_gitsubmodule, (), submodule),
        call_ensures(FileState::placeholder, (), placeholder),
        call_ensures(file_state::file_state, (Platform::Unix, &metadata), found),
    ensures
        // What was written looks unchanged to the next snapshot.
        metadata.kind == DiskFileKind::File && (found matches Ok(Some(state)) && state.file_type
            == (FileType::Normal { exec_bit }) && state.size == size) ==> file is Ok
            && found->Ok_0->0 == file->Ok_0,
        metadata.kind == DiskFileKind::Symlink && found is Ok ==> link is Ok && found->Ok_0->0
            == link->Ok_0,
        file is Ok <==> link is Ok,
        file is Ok ==> file->Ok_0.size == size && file->Ok_0.file_type == (FileType::Normal {
            exec_bit,
        }),
        submodule.file_type is GitSubmodule,
        placeholder.file_type == (FileType::Normal { exec_bit: ExecBit(false) }),
        placeholder.size == 0 && placeholder.mtime.0 == 0,
        placeholder.materialized_conflict_data is None,
        submodule.size == 0 && submodule.mtime.0 == 0,
        submodule.materialized_conflict_data is None,
{
}

/// A directory that is a repository of its own is left alone. Of one that is ignored as a
/// whole, only tracked files are looked at, unless files in it are to be tracked in any case.
/// Any other is visited exactly if files in it may be looked at.
pub proof fn lemma_directories_visited(
    snapshotter: FileSnapshotter<'_>,
    path: RepoPath<'_>,
    facts: DirFacts,
    visits: bool,
    step: DirStep,
)
    requires
        call_ensures(
            SnapshotMatcher::<'_>::visits,
            (&snapshotter.matcher, path, facts.is_forced),
            visits,
        ),
        call_ensures(FileSnapshotter::<'_>::process_dir, (&snapshotter, path, facts), step),
    ensures
        step is Skip <==> facts.is_nested_repo,
        step is VisitTracked <==> !facts.is_nested_repo && facts.is_ignored && !facts.is_forced,
        step is Visit <==> !facts.is_nested_repo && (!facts.is_ignored || facts.is_forced)
            && visits,
{
}

/// A tracked file is looked at whether or not it is ignored.
pub proof fn lemma_tracked_files_inspected(
    snapshotter: FileSnapshotter<'_>,
    path: RepoPath<'_>,
    current: FileState,
    facts: FileFacts,
    chosen: bool,
    step: FileStep,
)
    requires
        call_ensures(
            SnapshotMatcher::<'_>::matches,
            (&snapshotter.matcher, path, facts.is_forced),
            chosen,
        ),
        call_ensures(
            FileSnapshotter::<'_>::process_file,
            (&snapshotter, path, Some(current), facts),
            step,
        ),
    ensures
        step == if chosen {
            FileStep::Inspect
        } else {
            FileStep::Skip
        },
{
}

/// A file that is not tracked is passed over if it is ignored, unless it is to be tracked in
/// any case. If not, it is looked at exactly if it is to be tracked, and reported otherwise.
pub proof fn lemma_new_files_inspected(
    snapshotter: FileSnapshotter<'_>,
    path: RepoPath<'_>,
    facts: FileFacts,
    chosen: bool,
    step: FileStep,
)
    requires
        call_ensures(
            SnapshotMatcher::<'_>::matches,
            (&snapshotter.matcher, path, facts.is_forced),
            chosen,
        ),
        call_ensures(
            FileSnapshotter::<'_>::process_file,
            (&snapshotter, path, None, facts),
            step,
        ),
    ensures
        !chosen ==> step is Skip,
        facts.is_ignored && !facts.is_forced ==> step is Skip,
        chosen && (!facts.is_ignored || facts.is_forced) ==> {
            &&& facts.is_auto_tracked <==> step is Inspect
            &&& !facts.is_auto_tracked <==> step == FileStep::ReportUntracked(
                UntrackedReason::FileNotAutoTracked,
            )
        },
{
}

/// A file is left untracked for its size exactly if it is not tracked yet, is larger than
/// allowed, and is not to be tracked in any case. Its size and the limit are reported. A file
/// of just the allowed size is not too large.
pub proof fn lemma_large_files_untracked(
    snapshotter: FileSnapshotter<'_>,
    current: Option<FileState>,
    is_forced: bool,
    metadata: DiskMetadata,
    r: Result<InspectedStep, MtimeOutOfRange>,
)
    requires
        call_ensures(
            FileSnapshotter::<'_>::process_inspected,
            (&snapshotter, current, is_forced, &metadata),
            r,
        ),
    ensures
        (r matches Ok(InspectedStep::ReportUntracked(_))) <==> {
            &&& current is None
            &&& !is_forced
            &&& metadata.len > snapshotter.max_new_file_size
        },
        r matches Ok(InspectedStep::ReportUntracked(reason)) ==> reason
            == (UntrackedReason::FileTooLarge {
            size: metadata.len,
            max_size: snapshotter.max_new_file_size,
        }),
{
}

/// A file that is small enough, or tracked, or to be tracked in any case, is taken as it is
/// found on disk.
pub proof fn lemma_inspected_file_found(
    snapshotter: FileSnapshotter<'_>,
    current: Option<FileState>,
    is_forced: bool,
    metadata: DiskMetadata,
    found: Result<Option<FileState>, MtimeOutOfRange>,
    r: Result<InspectedStep, MtimeOutOfRange>,
)
    requires
        current is Some || is_forced || metadata.len <= snapshotter.max_new_file_size,
        call_ensures(file_state::file_state, (snapshotter.platform, &metadata), found),
        call_ensures(
            FileSnapshotter::<'_>::process_inspected,
            (&snapshotter, current, is_forced, &metadata),
            r,
        ),
    ensures
        r is Err <==> found is Err,
        (r matches Ok(InspectedStep::Skip)) <==> (found matches Ok(None)),
        found matches Ok(Some(state)) ==> r == Ok::<InspectedStep, MtimeOutOfRange>(
            InspectedStep::Present(state),
        ),
{
}

/// A tracked file in an ignored directory is there if there is a file or a symlink, and is
/// taken as it is found. It is gone if nothing is there, or something that cannot be tracked.
pub proof fn lemma_tracked_file_found(
    snapshotter: FileSnapshotter<'_>,
    metadata: DiskMetadata,
    found: Result<Option<FileState>, MtimeOutOfRange>,
    r: Result<Option<FileState>, MtimeOutOfRange>,
    missing: Result<Option<FileState>, MtimeOutOfRange>,
)
    requires
        call_ensures(file_state::file_state, (snapshotter.platform, &metadata), found),
        call_ensures(FileSnapshotter::<'_>::process_tracked, (&snapshotter, Some(metadata)), r),
        call_ensures(FileSnapshotter::<'_>::process_tracked, (&snapshotter, None), missing),
    ensures
        r == found,
        missing == Ok::<Option<FileState>, MtimeOutOfRange>(None),
{
}

/// Submodules are not looked at, and neither are files that are no part of the snapshot. All
/// others are looked for where the path leads from the working copy.
pub proof fn lemma_tracked_file_looked_for(
    snapshotter: FileSnapshotter<'_>,
    root: FsPath,
    path: RepoPath<'_>,
    state: FileState,
    is_forced: bool,
    chosen: bool,
    to_fs_path: Result<FsPath, InvalidRepoPathError>,
    r: Result<Option<FsPath>, InvalidRepoPathError>,
)
    requires
        call_ensures(
            SnapshotMatcher::<'_>::matches,
            (&snapshotter.matcher, path, is_forced),
            chosen,
        ),
        call_ensures(
            RepoPath::<'_>::to_fs_path_on,
            (&path, snapshotter.platform, &root),
            to_fs_path,
        ),
        call_ensures(
            FileSnapshotter::<'_>::tracked_file_path,
            (&snapshotter, &root, path, state, is_forced),
            r,
        ),
    ensures
        (r matches Ok(None)) <==> state.file_type is GitSubmodule || !chosen,
        r matches Ok(Some(disk_path)) ==> (to_fs_path matches Ok(expected) && disk_path@
            == expected@),
        r matches Err(err) ==> (to_fs_path matches Err(expected) && err.path@ == expected.path@
            && err.source.component@ == expected.source.component@),
{
}

/// The directories of version control itself are reserved, and nothing else is.
pub proof fn lemma_reserved_names(name: &str, r: bool)
    requires
        call_ensures(reserved::is_reserved_name, (name,), r),
    ensures
        r <==> name@ == ".git"@ || name@ == ".jj"@,
{
    let names = reserved::reserved_names();
    if name@ == ".git"@ {
        assert(names[0] == name@);
    }
    if name@ == ".jj"@ {
        assert(names[1] == name@);
    }
    if names.contains(name@) {
        let i = choose|i: int| 0 <= i < names.len() && names[i] == name@;
        assert(i == 0 || i == 1);
    }
}

/// Reserved entries and tracked submodules are passed over. A directory is descended into
/// with just the tracked files below it, and a file is looked at with its own state.
pub proof fn lemma_entries_started<'a>(
    dir: RepoPath<'_>,
    name: &str,
    is_dir: bool,
    files: FileStates<'a>,
    reserved: bool,
    state: Option<FileState>,
    start: DirEntryStart<'a>,
)
    requires
        call_ensures(reserved::is_reserved_name, (name,), reserved),
        state == file_states::lookup(files@, path_model::joined(dir@, name@)),
        call_ensures(snapshot::start_dir_entry, (dir, name, is_dir, files), start),
    ensures
        start is Skip <==> reserved || (state matches Some(known) && known.file_type
            is GitSubmodule),
        start is Directory ==> is_dir,
        start is File ==> !is_dir,
        start matches DirEntryStart::File { path, current } ==> {
            &&& path@ == path_model::joined(dir@, name@)
            &&& current == state
        },
        start matches DirEntryStart::Directory { path, file_states } ==> {
            &&& path@ == path_model::joined(dir@, name@)
            &&& forall|i: int|
                0 <= i < file_states@.len() ==> path_model::under(
                    path@,
                    (#[trigger] file_states@[i]).path@,
                )
        },
{
}

/// A file in a directory is missing from it unless the directory has a file of its name. A
/// file further below is missing unless the directory has a subdirectory that leads to it.
pub proof fn lemma_entry_that_leads_to(dir: Seq<char>, name: Seq<char>, below: Seq<char>)
    requires
        path_model::valid_path(dir),
        path_model::valid_name(name),
        path_model::valid_path(below),
        below.len() > 0,
    ensures
        snapshot_output::entry_of(dir, path_model::joined(dir, name)) == (
            PresentDirEntryKind::File,
            name,
        ),
        ({
            let subdir = path_model::joined(dir, name);
            snapshot_output::entry_of(dir, subdir + seq!['/'] + below)
        }) == (PresentDirEntryKind::Dir, name),
{
    let subdir = path_model::joined(dir, name);
    path_model::lemma_joined(dir, name);
    path_model::lemma_components_valid(subdir);
    path_model::lemma_components_valid(below);
    path_model::lemma_components_append(subdir, below);
}

/// The missing files of a directory are the tracked files in it, other than submodules, to
/// which no entry leads that is there.
pub proof fn lemma_missing_files<'a>(
    dir: RepoPath<'_>,
    files: FileStates<'a>,
    present: PresentDirEntries,
    missing: Vec<RepoPath<'a>>,
    path: Seq<char>,
)
    requires
        call_ensures(
            snapshot_output::missing_files,
            (dir, files, &present),
            missing,
        ),
    ensures
        (exists|i: int| 0 <= i < missing@.len() && (#[trigger] missing@[i])@ == path) <==> (exists|
            k: int,
        |
            0 <= k < files@.len() && {
                let entry = #[trigger] files@[k];
                let (kind, name) = snapshot_output::entry_of(dir@, path);
                &&& entry.path@ == path
                &&& !(file_states::entry_state(entry).file_type is GitSubmodule)
                &&& !present.has(kind, name)
            }),
{
    let pred = |entry: FileStateEntry| snapshot_output::is_missing(dir@, present, entry);
    let all = files@;
    let kept = all.filter(pred);
    let texts = repo_path::path_texts(missing@);
    assert(texts == snapshot_output::entry_paths(kept));
    assert(texts.len() == missing@.len());
    if exists|i: int| 0 <= i < missing@.len() && (#[trigger] missing@[i])@ == path {
        let i = choose|i: int| 0 <= i < missing@.len() && (#[trigger] missing@[i])@ == path;
        assert(texts[i] == path);
        assert(kept[i].path@ == path);
        assert(kept.contains(kept[i]));
        all.lemma_filter_contains_rev(pred, kept[i]);
        all.lemma_filter_pred(pred, i);
        let k = choose|k: int| 0 <= k < all.len() && all[k] == kept[i];
        assert(all[k].path@ == path);
    }
    if exists|k: int|
        0 <= k < files@.len() && {
            let entry = #[trigger] files@[k];
            let (kind, name) = snapshot_output::entry_of(dir@, path);
            &&& entry.path@ == path
            &&& !(file_states::entry_state(entry).file_type is GitSubmodule)
            &&& !present.has(kind, name)
        } {
        let k = choose|k: int|
            0 <= k < files@.len() && {
                let entry = #[trigger] files@[k];
                let (kind, name) = snapshot_output::entry_of(dir@, path);
                &&& entry.path@ == path
                &&& !(file_states::entry_state(entry).file_type is GitSubmodule)
                &&& !present.has(kind, name)
            };
        assert(pred(all[k]));
        all.lemma_filter_contains(pred, k);
        let i = choose|i: int| 0 <= i < kept.len() && kept[i] == all[k];
        assert(snapshot_output::entry_paths(kept)[i] == path);
        assert(missing@[i]@ == path);
    }
}

/// A file that is there gets a new state exactly if something about it has changed. The state
/// holds the type, the time and the size that were found. A normal file that is still in
/// conflict stays known as one, and any other is no longer.
pub proof fn lemma_present_state_recorded(
    before: SnapshotOutput,
    after: SnapshotOutput,
    path: Seq<char>,
    current: Option<FileState>,
    update: Option<MergedTreeValue>,
    new_state: FileState,
)
    requires
        snapshot_output::found_present(before, after, path, current, update, new_state),
    ensures
        after.file_states@.len() <= before.file_states@.len() + 1,
        after.file_states@.len() == before.file_states@.len() ==> {
            &&& after.file_states@ == before.file_states@
            &&& current is Some
            &&& current->0.file_type == new_state.file_type
            &&& current->0.mtime == new_state.mtime
            &&& current->0.size == new_state.size
        },
        after.file_states@.len() > before.file_states@.len() ==> {
            let (at, state) = after.file_states@.last();
            &&& after.file_states@.drop_last() == before.file_states@
            &&& at@ == path
            &&& state.file_type == new_state.file_type
            &&& state.mtime == new_state.mtime
            &&& state.size == new_state.size
            &&& current != Some(state)
            &&& !(new_state.file_type is Normal) ==> state.materialized_conflict_data
                == new_state.materialized_conflict_data
            &&& (update matches Some(value) && value@.len() == 1) ==> state.materialized_conflict_data
                == new_state.materialized_conflict_data
            &&& new_state.file_type is Normal && !(update matches Some(value) && value@.len() == 1)
                ==> state.materialized_conflict_data == match current {
                Some(known) => known.materialized_conflict_data,
                None => None,
            }
        },
{
}

/// A file that is there gets a new value in the tree exactly if one was found for it. It is
/// neither untracked nor gone.
pub proof fn lemma_present_value_recorded(
    before: SnapshotOutput,
    after: SnapshotOutput,
    path: Seq<char>,
    current: Option<FileState>,
    update: Option<MergedTreeValue>,
    new_state: FileState,
)
    requires
        snapshot_output::found_present(before, after, path, current, update, new_state),
    ensures
        update is None ==> after.tree_entries@ == before.tree_entries@,
        update matches Some(value) ==> {
            &&& after.tree_entries@.len() == before.tree_entries@.len() + 1
            &&& after.tree_entries@.drop_last() == before.tree_entries@
            &&& after.tree_entries@.last().0@ == path
            &&& after.tree_entries@.last().1 == value
        },
        after.untracked_paths@ == before.untracked_paths@,
        after.deleted_files@ == before.deleted_files@,
{
}

/// Of the missing files, those that are part of the snapshot are taken for gone, and no
/// others.
pub proof fn lemma_missing_files_gone(
    matcher: SnapshotMatcher<'_>,
    missing: Seq<RepoPath<'_>>,
    forced: Seq<bool>,
    i: int,
    chosen: bool,
)
    requires
        0 <= i < missing.len(),
        forall|k: int|
            0 <= k < missing.len() && k != i ==> (#[trigger] missing[k])@ != missing[i]@,
        call_ensures(SnapshotMatcher::<'_>::matches, (&matcher, missing[i], forced[i]), chosen),
    ensures
        snapshot_output::is_emitted(matcher, missing, forced, missing[i]@) <==> chosen,
        forall|path: Seq<char>| #[trigger]
            snapshot_output::is_emitted(matcher, missing, forced, path) ==> exists|k: int|
                0 <= k < missing.len() && (#[trigger] missing[k])@ == path,
{
}

/// What is taken over into the tree are the new values, and nothing at the paths of files
/// that are gone. Each comes once.
pub proof fn lemma_tree_changes(
    output: &mut SnapshotOutput,
    changes: Vec<(RepoPathBuf, MergedTreeValue)>,
    i: int,
)
    requires
        old(output).wf(),
        call_ensures(SnapshotOutput::take_tree_changes, (output,), changes),
    ensures
        changes@.len() == old(output).tree_entries@.len() + old(output).deleted_files@.len(),
        0 <= i < old(output).tree_entries@.len() ==> changes@[i] == old(output).tree_entries@[i],
        0 <= i < old(output).deleted_files@.len() ==> {
            let (path, value) = changes@[old(output).tree_entries@.len() + i];
            &&& path@ == old(output).deleted_files@[i]
            &&& value@ == seq![None::<TreeEntry>]
        },
        final(output).tree_entries@.len() == 0,
        final(output).file_states == old(output).file_states,
        final(output).deleted_files == old(output).deleted_files,
{
    let n = old(output).tree_entries@.len() as int;
    if 0 <= i < n {
        assert(changes@.take(n)[i] == changes@[i]);
    }
    if 0 <= i < old(output).deleted_files@.len() {
        assert(changes@[n + i].0@ == old(output).deleted_files@[i]);
    }
}

/// A present file is looked at unless it is known not to have changed since the state was
/// saved. It is stored, and its value found, by the rules of the working copy.
pub proof fn lemma_rules_of_snapshot(
    rules: FileSnapshotter<'_>,
    current: Option<FileState>,
    new_state: FileState,
    value: MergedTreeValue,
    contents: StoredContents,
    clean: bool,
    looked_at: bool,
    by_rules: StorePlan,
    plan: StorePlan,
    new_value: MergedTreeValue,
    changed: Option<MergedTreeValue>,
)
    requires
        call_ensures(
            stored_value::is_known_clean,
            (current, &new_state, rules.own_mtime),
            clean,
        ),
        call_ensures(
            FileSnapshotter::<'_>::may_have_changed,
            (&rules, current, &new_state),
            looked_at,
        ),
        call_ensures(
            stored_value::plan_store,
            (rules.symlink_support, &new_state, &value, current),
            plan,
        ),
        call_ensures(
            FileSnapshotter::<'_>::plan_store,
            (&rules, current, &new_state, &value),
            by_rules,
        ),
        call_ensures(
            stored_value::value_after_store,
            (plan, rules.exec_policy, &value, contents),
            new_value,
        ),
        call_ensures(
            FileSnapshotter::<'_>::get_updated_tree_value,
            (&rules, plan, &value, contents),
            changed,
        ),
    ensures
        looked_at <==> !clean,
        by_rules == plan,
        changed is Some <==> new_value@ != value@,
        changed is Some ==> changed->0@ == new_value@,
{
}

/// The executable bit to record is the one on disk while bits are respected. Otherwise it is
/// the one that the tree has, if it has the file.
pub proof fn lemma_bit_for_tree(
    bit: ExecBit,
    policy: ExecChangePolicy,
    prev_in_repo: Option<bool>,
    r: bool,
)
    requires
        call_ensures(ExecBit::for_tree_value, (bit, policy, prev_in_repo), r),
    ensures
        policy == ExecChangePolicy::Respect ==> r == bit.0,
        policy == ExecChangePolicy::Ignore && prev_in_repo is Some ==> r == prev_in_repo->0,
        policy == ExecChangePolicy::Ignore && prev_in_repo is None ==> !r,
{
}

/// The ids of the files of a conflict are listed in the order of its terms. A term that is no
/// file has none.
pub proof fn lemma_conflict_ids(value: MergedTreeValue, r: Vec<Option<Vec<u8>>>, i: int)
    requires
        call_ensures(stored_value::conflict_file_ids, (&value,), r),
    ensures
        r@.len() == value@.len(),
        0 <= i < r@.len() ==> match value@[i] {
            Some(TreeEntry::File { id, .. }) => r@[i] is Some && r@[i]->0@ == id,
            _ => r@[i] is None,
        },
{
    let ids = stored_value::id_views(r@);
    assert(ids.len() == r@.len());
    if 0 <= i < r@.len() {
        assert(ids[i] == stored_value::id_view(r@[i]));
        assert(ids[i] == stored_value::file_id(value@[i]));
    }
}

/// What was stored is what was planned: a file for a file, a symlink for a symlink, nothing
/// where nothing was to be stored. A conflict is settled on one file, or it has a file for
/// each of its terms that is there.
pub proof fn lemma_contents_fit(
    plan: StorePlan,
    value: MergedTreeValue,
    contents: StoredContents,
    r: bool,
)
    requires
        call_ensures(stored_value::contents_fit, (plan, &value, &contents), r),
    ensures
        contents is File ==> (r <==> plan is File),
        contents is Symlink ==> (r <==> plan is Symlink),
        contents is Kept ==> (r <==> plan is Keep),
        contents matches StoredContents::Conflict { file_ids, .. } ==> (r <==> {
            &&& plan is Conflict
            &&& file_ids@.len() == 1 ==> file_ids@[0] is Some
            &&& file_ids@.len() != 1 ==> file_ids@.len() == value@.len() && forall|i: int|
                0 <= i < value@.len() ==> (#[trigger] value@[i] is Some <==> file_ids@[i] is Some)
        }),
{
}

/// A file that is there gets the value that was found for it, if there is one, and the state
/// in which it was found, if that is not recorded. A file in conflict stays known as one as
/// long as the conflict is not settled.
pub proof fn lemma_present_file_processed(
    output: &mut SnapshotOutput,
    path: RepoPathBuf,
    current: Option<FileState>,
    update: Option<MergedTreeValue>,
    new_state: FileState,
)
    requires
        call_ensures(
            SnapshotOutput::process_present_file,
            (output, path, current, update, new_state),
            (),
        ),
    ensures
        update is None ==> final(output).tree_entries@ == old(output).tree_entries@,
        update matches Some(value) ==> {
            &&& final(output).tree_entries@.len() == old(output).tree_entries@.len() + 1
            &&& final(output).tree_entries@.drop_last() == old(output).tree_entries@
            &&& final(output).tree_entries@.last().0@ == path@
            &&& final(output).tree_entries@.last().1 == value
        },
        final(output).file_states@ == old(output).file_states@ ==> current is Some
            && current->0.file_type == new_state.file_type && current->0.mtime == new_state.mtime
            && current->0.size == new_state.size,
        final(output).file_states@ != old(output).file_states@ ==> {
            let (at, state) = final(output).file_states@.last();
            &&& final(output).file_states@.len() == old(output).file_states@.len() + 1
            &&& final(output).file_states@.drop_last() == old(output).file_states@
            &&& at@ == path@
            &&& state.file_type == new_state.file_type
            &&& state.mtime == new_state.mtime
            &&& state.size == new_state.size
            &&& current != Some(state)
            &&& new_state.file_type is Normal && update is None ==> state.materialized_conflict_data
                == match current {
                Some(known) => known.materialized_conflict_data,
                None => None,
            }
        },
        final(output).untracked_paths@ == old(output).untracked_paths@,
        final(output).deleted_files@ == old(output).deleted_files@,
{
    lemma_present_state_recorded(*old(output), *final(output), path@, current, update, new_state);
    lemma_present_value_recorded(*old(output), *final(output), path@, current, update, new_state);
}

/// A file that is not tracked is reported with the reason. A file that is gone is recorded as
/// such. Nothing else is.
pub proof fn lemma_files_reported(
    untracked: &mut SnapshotOutput,
    deleted: &mut SnapshotOutput,
    path: RepoPathBuf,
    reason: UntrackedReason,
    other: Seq<char>,
)
    requires
        call_ensures(SnapshotOutput::report_untracked, (untracked, path, reason), ()),
        call_ensures(SnapshotOutput::report_deleted, (deleted, path), ()),
    ensures
        final(untracked).untracked_paths@.len() == old(untracked).untracked_paths@.len() + 1,
        final(untracked).untracked_paths@.drop_last() == old(untracked).untracked_paths@,
        final(untracked).untracked_paths@.last().0@ == path@,
        final(untracked).untracked_paths@.last().1 == reason,
        final(untracked).tree_entries@ == old(untracked).tree_entries@,
        final(untracked).file_states@ == old(untracked).file_states@,
        final(untracked).deleted_files@ == old(untracked).deleted_files@,
        final(deleted).deleted_files@.contains(other) <==> old(deleted).deleted_files@.contains(
            other,
        ) || other == path@,
        final(deleted).tree_entries@ == old(deleted).tree_entries@,
        final(deleted).file_states@ == old(deleted).file_states@,
        final(deleted).untracked_paths@ == old(deleted).untracked_paths@,
{
}

/// Of the missing files, those that are part of the snapshot are recorded as gone, and no
/// others.
pub proof fn lemma_missing_files_recorded(
    output: &mut SnapshotOutput,
    matcher: SnapshotMatcher<'_>,
    missing: Vec<RepoPath<'_>>,
    forced: Vec<bool>,
    i: int,
    chosen: bool,
    other: Seq<char>,
)
    requires
        0 <= i < missing@.len(),
        forall|k: int|
            0 <= k < missing@.len() && k != i ==> (#[trigger] missing@[k])@ != missing@[i]@,
        call_ensures(SnapshotMatcher::<'_>::matches, (&matcher, missing@[i], forced@[i]), chosen),
        call_ensures(
            SnapshotOutput::emit_deleted_files,
            (output, &matcher, &missing, &forced),
            (),
        ),
        forall|k: int| 0 <= k < missing@.len() ==> (#[trigger] missing@[k])@ != other,
    ensures
        final(output).deleted_files@.contains(missing@[i]@) <==> old(
            output,
        ).deleted_files@.contains(missing@[i]@) || chosen,
        final(output).deleted_files@.contains(other) <==> old(output).deleted_files@.contains(other),
        final(output).tree_entries@ == old(output).tree_entries@,
        final(output).file_states@ == old(output).file_states@,
        final(output).untracked_paths@ == old(output).untracked_paths@,
{
    lemma_missing_files_gone(matcher, missing@, forced@, i, chosen);
}

/// What two parts of a walk have found is what both have found.
pub proof fn lemma_findings_put_together(
    output: &mut SnapshotOutput,
    more: SnapshotOutput,
    path: Seq<char>,
)
    requires
        call_ensures(SnapshotOutput::append, (output, more), ()),
    ensures
        final(output).tree_entries@ == old(output).tree_entries@ + more.tree_entries@,
        final(output).file_states@ == old(output).file_states@ + more.file_states@,
        final(output).untracked_paths@ == old(output).untracked_paths@ + more.untracked_paths@,
        final(output).deleted_files@.contains(path) <==> old(output).deleted_files@.contains(path)
            || more.deleted_files@.contains(path),
{
}

/// A walk starts with nothing found.
pub proof fn lemma_nothing_found_yet(output: SnapshotOutput, path: Seq<char>)
    requires
        call_ensures(SnapshotOutput::new, (), output),
    ensures
        output.tree_entries@.len() == 0,
        output.file_states@.len() == 0,
        output.untracked_paths@.len() == 0,
        !output.deleted_files@.contains(path),
{
}

/// An entry that was seen in a directory is there, and so is all that was seen before it. A
/// file is not taken for a directory of its name.
pub proof fn lemma_entries_seen(
    entries: &mut PresentDirEntries,
    kind: PresentDirEntryKind,
    name: String,
    other_kind: PresentDirEntryKind,
    other_name: &str,
    before: bool,
    after: bool,
)
    requires
        call_ensures(PresentDirEntries::insert, (entries, kind, name), ()),
        call_ensures(PresentDirEntries::contains, (&*old(entries), other_kind, other_name), before),
        call_ensures(PresentDirEntries::contains, (&*final(entries), other_kind, other_name), after),
    ensures
        after <==> before || other_kind == kind && other_name@ == name@,
{
    assert(final(entries).holds_one_more(*old(entries), kind, name@));
    assert(final(entries).has(other_kind, other_name@) == after);
}

} // verus!
