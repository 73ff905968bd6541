//! What the working copy remembers about one file on disk.

use vstd::prelude::*;

use crate::platform::Platform;
use crate::proto::FileStateProto;
use crate::proto::FileTypeProto;
use crate::proto::MaterializedConflictDataProto;

verus! {

/// How to propagate executable bit changes in file metadata to/from the repo.
///
/// On Windows, executable bits are always ignored, but on Unix they are
/// respected by default, but may be ignored by user settings or if we find
/// that the filesystem of the working copy doesn't support executable bits.
#[derive(Clone, Copy, Debug, PartialEq, Eq, Structural)]
pub enum ExecChangePolicy {
    Ignore,
    Respect,
}

/// The executable bit change setting as exposed to the user.
#[derive(Clone, Copy, Debug, PartialEq, Eq, Structural)]
pub enum ExecChangeSetting {
    Ignore,
    Respect,
    Auto,
}

impl Default for ExecChangeSetting {
    fn default() -> (r: ExecChangeSetting)
        ensures
            r == ExecChangeSetting::Auto,
    {
        ExecChangeSetting::Auto
    }
}

/// How executable bits are treated. `probed` tells whether the filesystem supports
/// them, if that is known.
pub open spec fn exec_policy(
    platform: Platform,
    exec_change_setting: ExecChangeSetting,
    probed: Option<bool>,
) -> ExecChangePolicy {
    if platform == Platform::Unix && (exec_change_setting == ExecChangeSetting::Respect || (
    exec_change_setting == ExecChangeSetting::Auto && probed != Some(false))) {
        ExecChangePolicy::Respect
    } else {
        ExecChangePolicy::Ignore
    }
}

impl ExecChangePolicy {
    /// Whether the policy depends on what the filesystem supports.
    pub fn needs_probe(platform: Platform, exec_change_setting: ExecChangeSetting) -> (r: bool)
        ensures
            r == (platform == Platform::Unix && exec_change_setting == ExecChangeSetting::Auto),
    {
        match (platform, exec_change_setting) {
            (Platform::Unix, ExecChangeSetting::Auto) => true,
            _ => false,
        }
    }

    /// Get the executable bit policy based on user settings and executable bit
    /// support in the working copy's state path.
    ///
    /// On Unix we check whether executable bits are supported in the working
    /// copy to determine respect/ignorance, but we default to respect. The
    /// check's outcome is `probed`, or `None` if it failed or was not made.
    pub fn new(
        platform: Platform,
        exec_change_setting: ExecChangeSetting,
        probed: Option<bool>,
    ) -> (r: ExecChangePolicy)
        ensures
            r == exec_policy(platform, exec_change_setting, probed),
    {
        match platform {
            Platform::Windows => ExecChangePolicy::Ignore,
            Platform::Unix => match exec_change_setting {
                ExecChangeSetting::Ignore => ExecChangePolicy::Ignore,
                ExecChangeSetting::Respect => ExecChangePolicy::Respect,
                ExecChangeSetting::Auto => match probed {
                    Some(false) => ExecChangePolicy::Ignore,
                    Some(true) | None => ExecChangePolicy::Respect,
                },
            },
        }
    }
}

/// On-disk state of file executable as cached in the file states. This does
/// *not* necessarily equal the executable field of a file in the tree: the
/// two are allowed to diverge if and only if we're ignoring executable bit
/// changes.
///
/// This will only ever be true on Windows if the repo is also being accessed
/// from a Unix machine, such as when accessed from WSL.
#[derive(Clone, Copy, Debug, Eq, PartialEq, Structural)]
pub struct ExecBit(pub bool);

impl ExecBit {
    /// Get the executable bit for a tree value to write to the repo store.
    ///
    /// If we're ignoring the executable bit, then we fallback to the previous
    /// in-repo executable bit if present.
    pub fn for_tree_value(self, exec_policy: ExecChangePolicy, prev_in_repo: Option<bool>) -> (r:
        bool)
        ensures
            r == match exec_policy {
                ExecChangePolicy::Ignore => prev_in_repo == Some(true),
                ExecChangePolicy::Respect => self.0,
            },
    {
        match exec_policy {
            ExecChangePolicy::Ignore => match prev_in_repo {
                Some(executable) => executable,
                None => false,
            },
            ExecChangePolicy::Respect => self.0,
        }
    }

    /// Set the on-disk executable bit to be written based on the in-repo bit or
    /// the previous on-disk executable bit.
    ///
    /// On Windows, we return `false` because when we later write files, we
    /// always create them anew, and the executable bit will be `false` even if
    /// shared with a Unix machine.
    pub fn new_from_repo(
        platform: Platform,
        in_repo: bool,
        exec_policy: ExecChangePolicy,
        prev_on_disk: Option<ExecBit>,
    ) -> (r: ExecBit)
        ensures
            r == exec_bit_from_repo(platform, in_repo, exec_policy, prev_on_disk),
    {
        match platform {
            Platform::Windows => ExecBit(false),
            Platform::Unix => match exec_policy {
                ExecChangePolicy::Ignore => match prev_on_disk {
                    Some(bit) => bit,
                    None => ExecBit(false),
                },
                ExecChangePolicy::Respect => ExecBit(in_repo),
            },
        }
    }

    /// Load the on-disk executable bit from the permission bits of a file.
    pub fn new_from_disk(platform: Platform, mode: u32) -> (r: ExecBit)
        ensures
            r.0 == (platform == Platform::Unix && mode & 0o111 != 0),
    {
        match platform {
            Platform::Unix => ExecBit(mode & 0o111 != 0),
            Platform::Windows => ExecBit(false),
        }
    }

    /// The permission bits to give to a newly written file, where the platform
    /// has them.
    pub fn disk_mode(self, platform: Platform) -> (r: Option<u32>)
        ensures
            r == match platform {
                Platform::Unix => Some(
                    if self.0 {
                        0o755u32
                    } else {
                        0o644u32
                    },
                ),
                Platform::Windows => None,
            },
    {
        match platform {
            Platform::Unix => if self.0 {
                Some(0o755u32)
            } else {
                Some(0o644u32)
            },
            Platform::Windows => None,
        }
    }
}

/// The executable bit that a file gets when it is written to disk.
pub open spec fn exec_bit_from_repo(
    platform: Platform,
    in_repo: bool,
    exec_policy: ExecChangePolicy,
    prev_on_disk: Option<ExecBit>,
) -> ExecBit {
    if platform == Platform::Windows {
        ExecBit(false)
    } else if exec_policy == ExecChangePolicy::Respect {
        ExecBit(in_repo)
    } else {
        match prev_on_disk {
            Some(bit) => bit,
            None => ExecBit(false),
        }
    }
}

/// While the executable bit is respected, what is written to disk with
/// permission bits is read back from them and recorded in the tree unchanged.
pub proof fn lemma_exec_bit_round_trip(in_repo: bool, prev: Option<ExecBit>)
    ensures
        ({
            let bit = exec_bit_from_repo(
                Platform::Unix,
                in_repo,
                ExecChangePolicy::Respect,
                prev,
            );
            let mode = if bit.0 {
                0o755u32
            } else {
                0o644u32
            };
            (mode & 0o111 != 0) == in_repo
        }),
{
    assert(0o755u32 & 0o111 != 0) by (bit_vector);
    assert(0o644u32 & 0o111 == 0) by (bit_vector);
}

/// Kind of a tracked file.
#[derive(Clone, Copy, Debug, PartialEq, Eq, Structural)]
pub enum FileType {
    Normal { exec_bit: ExecBit },
    Symlink,
    GitSubmodule,
}

/// Facts about a conflict that was written to a file.
#[derive(Clone, Copy, Debug, PartialEq, Eq, Structural)]
pub struct MaterializedConflictData {
    pub conflict_marker_len: u32,
}

/// Point in time, in milliseconds since the Unix epoch.
#[derive(Clone, Copy, Debug, PartialEq, Eq, Structural)]
pub struct MillisSinceEpoch(pub i64);

/// What was recorded about a file when it was last looked at.
#[derive(Clone, Copy, Debug, PartialEq, Eq, Structural)]
pub struct FileState {
    pub file_type: FileType,
    pub mtime: MillisSinceEpoch,
    pub size: u64,
    pub materialized_conflict_data: Option<MaterializedConflictData>,
}

/// Out-of-range file modification time.
#[derive(Clone, Copy, Debug, PartialEq, Eq, Structural)]
pub struct MtimeOutOfRange;

/// Distance of a point in time from the Unix epoch, in whole milliseconds.
#[derive(Clone, Copy, Debug, PartialEq, Eq, Structural)]
pub enum EpochOffset {
    /// At the epoch or so long after it.
    After(u128),
    /// So long before the epoch.
    Before(u128),
}

/// Kind of a directory entry on disk.
#[derive(Clone, Copy, Debug, PartialEq, Eq, Structural)]
pub enum DiskFileKind {
    Dir,
    Symlink,
    File,
    /// A socket, a device and the like.
    Special,
}

/// What the filesystem says about one of its entries, symlinks not followed.
#[derive(Clone, Copy, Debug, PartialEq, Eq, Structural)]
pub struct DiskMetadata {
    pub kind: DiskFileKind,
    pub permissions: u32,
    pub len: u64,
    pub modified: EpochOffset,
}

/// The recorded time for a distance from the epoch, where it can be recorded.
pub open spec fn recorded_millis(time: EpochOffset) -> Option<MillisSinceEpoch> {
    match time {
        EpochOffset::After(millis) => if millis <= i64::MAX {
            Some(MillisSinceEpoch(millis as i64))
        } else {
            None
        },
        // The smallest number could be recorded too, but nobody needs a
        // timestamp that old.
        EpochOffset::Before(millis) => if millis <= i64::MAX {
            Some(MillisSinceEpoch((-(millis as int)) as i64))
        } else {
            None
        },
    }
}

/// Converts a point in time to the recorded form, if it is in range.
pub fn system_time_to_millis(time: EpochOffset) -> (r: Option<MillisSinceEpoch>)
    ensures
        r == recorded_millis(time),
{
    let max: u128 = 0x7fff_ffff_ffff_ffff;
    match time {
        EpochOffset::After(millis) => if millis <= max {
            Some(MillisSinceEpoch(millis as i64))
        } else {
            None
        },
        EpochOffset::Before(millis) => if millis <= max {
            Some(MillisSinceEpoch(-(millis as i64)))
        } else {
            None
        },
    }
}

/// The modification time to record for a file.
pub fn mtime_from_metadata(metadata: &DiskMetadata) -> (r: Result<
    MillisSinceEpoch,
    MtimeOutOfRange,
>)
    ensures
        r == match recorded_millis(metadata.modified) {
            Some(mtime) => Ok::<MillisSinceEpoch, MtimeOutOfRange>(mtime),
            None => Err(MtimeOutOfRange),
        },
{
    match system_time_to_millis(metadata.modified) {
        Some(mtime) => Ok(mtime),
        None => Err(MtimeOutOfRange),
    }
}

/// The kind of tracked file that an entry on disk would be, if any.
pub open spec fn disk_file_type(platform: Platform, metadata: DiskMetadata) -> Option<FileType> {
    match metadata.kind {
        DiskFileKind::Symlink => Some(FileType::Symlink),
        DiskFileKind::File => Some(
            FileType::Normal {
                exec_bit: ExecBit(platform == Platform::Unix && metadata.permissions & 0o111 != 0),
            },
        ),
        DiskFileKind::Dir | DiskFileKind::Special => None,
    }
}

/// The state to record for an entry on disk: `Ok(None)` for what is never
/// tracked, an error if its modification time cannot be recorded.
pub open spec fn disk_file_state(platform: Platform, metadata: DiskMetadata) -> Result<
    Option<FileState>,
    MtimeOutOfRange,
> {
    match disk_file_type(platform, metadata) {
        None => Ok(None),
        Some(file_type) => match recorded_millis(metadata.modified) {
            None => Err(MtimeOutOfRange),
            Some(mtime) => Ok(
                Some(
                    FileState {
                        file_type,
                        mtime,
                        size: metadata.len,
                        materialized_conflict_data: None,
                    },
                ),
            ),
        },
    }
}

/// Create a new [`FileState`] from metadata.
pub fn file_state(platform: Platform, metadata: &DiskMetadata) -> (r: Result<
    Option<FileState>,
    MtimeOutOfRange,
>)
    ensures
        r == disk_file_state(platform, *metadata),
{
    let file_type = match metadata.kind {
        DiskFileKind::Dir => None,
        DiskFileKind::Symlink => Some(FileType::Symlink),
        DiskFileKind::File => Some(
            FileType::Normal { exec_bit: ExecBit::new_from_disk(platform, metadata.permissions) },
        ),
        DiskFileKind::Special => None,
    };
    match file_type {
        Some(file_type) => match mtime_from_metadata(metadata) {
            Ok(mtime) => Ok(
                Some(
                    FileState {
                        file_type,
                        mtime,
                        size: metadata.len,
                        materialized_conflict_data: None,
                    },
                ),
            ),
            Err(err) => Err(err),
        },
        None => Ok(None),
    }
}

impl FileState {
    /// Whether a file looks unchanged since `old` was recorded.
    pub open spec fn clean_since(self, old: FileState) -> bool {
        &&& self.file_type == old.file_type
        &&& self.mtime == old.mtime
        &&& self.size == old.size
    }

    /// Check whether a file state appears clean compared to a previous file
    /// state, ignoring materialized conflict data.
    pub fn is_clean(&self, old_file_state: &FileState) -> (r: bool)
        ensures
            r == self.clean_since(*old_file_state),
    {
        self.file_type == old_file_state.file_type && self.mtime == old_file_state.mtime
            && self.size == old_file_state.size
    }

    /// The state of a file that has to be looked at again.
    pub open spec fn unknown(file_type: FileType) -> FileState {
        FileState {
            file_type,
            mtime: MillisSinceEpoch(0),
            size: 0,
            materialized_conflict_data: None,
        }
    }

    /// Indicates that a file exists in the tree but that it needs to be
    /// re-stat'ed on the next snapshot.
    pub fn placeholder() -> (r: FileState)
        ensures
            r == FileState::unknown(FileType::Normal { exec_bit: ExecBit(false) }),
    {
        FileState {
            file_type: FileType::Normal { exec_bit: ExecBit(false) },
            mtime: MillisSinceEpoch(0),
            size: 0,
            materialized_conflict_data: None,
        }
    }

    /// The state of a regular file that was just written with `size` bytes.
    pub fn for_file(exec_bit: ExecBit, size: u64, metadata: &DiskMetadata) -> (r: Result<
        FileState,
        MtimeOutOfRange,
    >)
        ensures
            r == match recorded_millis(metadata.modified) {
                Some(mtime) => Ok::<FileState, MtimeOutOfRange>(
                    FileState {
                        file_type: FileType::Normal { exec_bit },
                        mtime,
                        size,
                        materialized_conflict_data: None,
                    },
                ),
                None => Err(MtimeOutOfRange),
            },
    {
        match mtime_from_metadata(metadata) {
            Ok(mtime) => Ok(
                FileState {
                    file_type: FileType::Normal { exec_bit },
                    mtime,
                    size,
                    materialized_conflict_data: None,
                },
            ),
            Err(err) => Err(err),
        }
    }

    /// The state of a symlink that was just created.
    ///
    /// When using fscrypt, the reported size is not the content size. So if
    /// we were to record the content size here (like we do for regular files),
    /// we would end up thinking the file has changed every time we snapshot.
    pub fn for_symlink(metadata: &DiskMetadata) -> (r: Result<FileState, MtimeOutOfRange>)
        ensures
            r == match recorded_millis(metadata.modified) {
                Some(mtime) => Ok::<FileState, MtimeOutOfRange>(
                    FileState {
                        file_type: FileType::Symlink,
                        mtime,
                        size: metadata.len,
                        materialized_conflict_data: None,
                    },
                ),
                None => Err(MtimeOutOfRange),
            },
    {
        match mtime_from_metadata(metadata) {
            Ok(mtime) => Ok(
                FileState {
                    file_type: FileType::Symlink,
                    mtime,
                    size: metadata.len,
                    materialized_conflict_data: None,
                },
            ),
            Err(err) => Err(err),
        }
    }

    /// The state of a Git submodule, which is never looked into.
    pub fn for_gitsubmodule() -> (r: FileState)
        ensures
            r == FileState::unknown(FileType::GitSubmodule),
    {
        FileState {
            file_type: FileType::GitSubmodule,
            mtime: MillisSinceEpoch(0),
            size: 0,
            materialized_conflict_data: None,
        }
    }
}

/// The state that a stored state stands for.
pub open spec fn decoded_state(proto: FileStateProto) -> FileState {
    FileState {
        file_type: match proto.file_type {
            FileTypeProto::Normal | FileTypeProto::Conflict => FileType::Normal {
                exec_bit: ExecBit(false),
            },
            FileTypeProto::Executable => FileType::Normal { exec_bit: ExecBit(true) },
            FileTypeProto::Symlink => FileType::Symlink,
            FileTypeProto::GitSubmodule => FileType::GitSubmodule,
        },
        mtime: MillisSinceEpoch(proto.mtime_millis_since_epoch),
        size: proto.size,
        materialized_conflict_data: match proto.materialized_conflict_data {
            Some(data) => Some(
                MaterializedConflictData { conflict_marker_len: data.conflict_marker_len },
            ),
            None => None,
        },
    }
}

/// The stored form of a state.
pub open spec fn encoded_state(state: FileState) -> FileStateProto {
    FileStateProto {
        file_type: match state.file_type {
            FileType::Normal { exec_bit } => if exec_bit.0 {
                FileTypeProto::Executable
            } else {
                FileTypeProto::Normal
            },
            FileType::Symlink => FileTypeProto::Symlink,
            FileType::GitSubmodule => FileTypeProto::GitSubmodule,
        },
        mtime_millis_since_epoch: state.mtime.0,
        size: state.size,
        materialized_conflict_data: match state.materialized_conflict_data {
            Some(data) => Some(
                MaterializedConflictDataProto { conflict_marker_len: data.conflict_marker_len },
            ),
            None => None,
        },
    }
}

/// A stored state is read back as it was written.
pub proof fn lemma_state_round_trip(state: FileState)
    ensures
        decoded_state(encoded_state(state)) == state,
{
}

/// Writing a state that was read changes nothing but the kind that is no longer
/// written.
pub proof fn lemma_stored_state_round_trip(proto: FileStateProto)
    requires
        proto.file_type != FileTypeProto::Conflict,
    ensures
        encoded_state(decoded_state(proto)) == proto,
{
}

pub fn file_state_from_proto(proto: &FileStateProto) -> (r: FileState)
    ensures
        r == decoded_state(*proto),
{
    let file_type = match proto.file_type {
        FileTypeProto::Normal => FileType::Normal { exec_bit: ExecBit(false) },
        // On Windows, `Executable` can exist if the repo is being shared with a
        // Unix machine, such as when accessed from WSL.
        FileTypeProto::Executable => FileType::Normal { exec_bit: ExecBit(true) },
        FileTypeProto::Symlink => FileType::Symlink,
        FileTypeProto::Conflict => FileType::Normal { exec_bit: ExecBit(false) },
        FileTypeProto::GitSubmodule => FileType::GitSubmodule,
    };
    FileState {
        file_type,
        mtime: MillisSinceEpoch(proto.mtime_millis_since_epoch),
        size: proto.size,
        materialized_conflict_data: match proto.materialized_conflict_data {
            Some(data) => Some(
                MaterializedConflictData { conflict_marker_len: data.conflict_marker_len },
            ),
            None => None,
        },
    }
}

pub fn file_state_to_proto(file_state: &FileState) -> (r: FileStateProto)
    ensures
        r == encoded_state(*file_state),
{
    let file_type = match file_state.file_type {
        FileType::Normal { exec_bit } => if exec_bit.0 {
            FileTypeProto::Executable
        } else {
            FileTypeProto::Normal
        },
        FileType::Symlink => FileTypeProto::Symlink,
        FileType::GitSubmodule => FileTypeProto::GitSubmodule,
    };
    FileStateProto {
        file_type,
        mtime_millis_since_epoch: file_state.mtime.0,
        size: file_state.size,
        materialized_conflict_data: match file_state.materialized_conflict_data {
            Some(data) => Some(
                MaterializedConflictDataProto { conflict_marker_len: data.conflict_marker_len },
            ),
            None => None,
        },
    }
}

} // verus!
