//! Updating the files of a working copy: what to do about each changed path, and
//! what to remember about it afterwards.

use vstd::prelude::*;

use crate::backend;
use crate::backend::MergedTreeValue;
use crate::backend::TreeEntry;
use crate::backend::TreeValue;
use crate::file_state;
use crate::file_state::ExecBit;
use crate::file_state::ExecChangePolicy;
use crate::file_state::FileState;
use crate::file_state::FileType;
use crate::file_state::MaterializedConflictData;
use crate::file_states;
use crate::file_states_map;
use crate::file_states_map::FileStatesMap;
use crate::file_states_map::KeyedByPath;
use crate::fs_path;
use crate::fs_path::FsPath;
use crate::path_model;
use crate::path_set::PathSet;
use crate::platform::Platform;
use crate::repo_path;
use crate::repo_path::InvalidRepoPathError;
use crate::repo_path::RepoPath;
use crate::repo_path::RepoPathBuf;
use crate::repo_path::RepoPathComponentsIter;
use crate::repo_path_fs;
use crate::tree_state;

verus! {

/// What an update did, counted in files.
#[derive(Clone, Copy, Debug, PartialEq, Eq, Structural)]
pub struct CheckoutStats {
    /// Includes files that were skipped.
    pub updated_files: u32,
    pub added_files: u32,
    pub removed_files: u32,
    /// Files that were not written because something else was in their place.
    pub skipped_files: u32,
}

impl CheckoutStats {
    pub open spec fn zero() -> CheckoutStats {
        CheckoutStats { updated_files: 0, added_files: 0, removed_files: 0, skipped_files: 0 }
    }

    /// The counters can be raised once more.
    pub open spec fn has_room(self) -> bool {
        &&& self.updated_files < u32::MAX
        &&& self.added_files < u32::MAX
        &&& self.removed_files < u32::MAX
        &&& self.skipped_files < u32::MAX
    }

    /// How many files were to be changed.
    pub open spec fn intended(self) -> int {
        self.updated_files + self.added_files + self.removed_files
    }
}

impl Default for CheckoutStats {
    fn default() -> (r: CheckoutStats)
        ensures
            r == CheckoutStats::zero(),
    {
        CheckoutStats { updated_files: 0, added_files: 0, removed_files: 0, skipped_files: 0 }
    }
}

/// What the new tree has at a path, in the form in which it is written to disk.
#[allow(inconsistent_fields)]
#[derive(Clone, Copy, Debug, PartialEq, Eq, Structural)]
pub enum MaterializedTreeValue {
    Absent,
    AccessDenied,
    File { executable: bool },
    Symlink,
    /// A conflict of files. Its markers have the given length.
    FileConflict { executable: Option<bool>, conflict_marker_len: usize },
    /// A conflict of other things than files.
    OtherConflict,
    GitSubmodule,
    Tree,
}

/// Whether the old tree has a submodule at a path.
pub open spec fn was_submodule(before: Seq<Option<TreeEntry>>) -> bool {
    backend::settled(before) matches Some(TreeEntry::GitSubmodule(_))
}

fn is_submodule(before: &MergedTreeValue) -> (r: bool)
    ensures
        r == was_submodule(before@),
{
    match before.as_normal() {
        Some(TreeValue::GitSubmodule(_)) => true,
        _ => false,
    }
}

/// Where to start with a path.
#[derive(Debug)]
pub enum EntryStart<'a> {
    /// A submodule stays as it is.
    Ignored,
    /// The directory of the path is known to exist.
    InPlace(FsPath),
    /// Directories have to be created in `base`, for the path `remainder`
    /// below it.
    CreateParents { base: FsPath, remainder: RepoPath<'a> },
}

/// The progress of an update.
pub struct TreeUpdate {
    pub stats: CheckoutStats,
    pub changed_file_states: Vec<(RepoPathBuf, FileState)>,
    pub deleted_files: PathSet,
    /// All paths that were started with.
    pub touched: PathSet,
    /// A directory that is known to exist and to be reached without symlinks.
    pub prev_created_path: RepoPathBuf,
}

/// The counters after one more path.
pub open spec fn counted(
    stats: CheckoutStats,
    before: Seq<Option<TreeEntry>>,
    after: MaterializedTreeValue,
) -> CheckoutStats {
    if after is Absent {
        CheckoutStats { removed_files: (stats.removed_files + 1) as u32, ..stats }
    } else if backend::absent(before) {
        CheckoutStats { added_files: (stats.added_files + 1) as u32, ..stats }
    } else {
        CheckoutStats { updated_files: (stats.updated_files + 1) as u32, ..stats }
    }
}

impl TreeUpdate {
    /// Whether it was settled what becomes of a path.
    pub open spec fn recorded(&self, path: Seq<char>) -> bool {
        ||| file_states_map::changes_path(self.changed_file_states@, path)
        ||| self.deleted_files@.contains(path)
    }

    /// Each path is recorded once, and only after it was started with. Nothing
    /// is recorded or skipped that was not counted.
    pub open spec fn wf(&self) -> bool {
        &&& self.deleted_files.wf()
        &&& self.touched.wf()
        &&& path_model::valid_path(self.prev_created_path@)
        &&& file_states_map::distinct_keys(self.changed_file_states@)
        &&& forall|i: int|
            0 <= i < self.changed_file_states@.len() ==> {
                &&& self.touched@.contains((#[trigger] self.changed_file_states@[i]).0@)
                &&& !self.deleted_files@.contains(self.changed_file_states@[i].0@)
            }
        &&& forall|path: Seq<char>| #[trigger]
            self.deleted_files@.contains(path) ==> self.touched@.contains(path)
        &&& self.stats.intended() == self.touched@.len()
        &&& self.stats.skipped_files <= self.changed_file_states@.len()
    }

    pub fn new() -> (r: TreeUpdate)
        ensures
            r.wf(),
            r.stats == CheckoutStats::zero(),
            r.changed_file_states@.len() == 0,
            r.deleted_files@.len() == 0,
            r.touched@.len() == 0,
            r.prev_created_path@.len() == 0,
    {
        TreeUpdate {
            stats: CheckoutStats::default(),
            changed_file_states: Vec::new(),
            deleted_files: PathSet::new(),
            touched: PathSet::new(),
            prev_created_path: RepoPathBuf::root(),
        }
    }

    /// Starts with the next path that differs between the trees. Fails if the
    /// path has no counterpart on disk.
    pub fn start_entry<'a>(
        &mut self,
        platform: Platform,
        working_copy_path: &FsPath,
        path: RepoPath<'a>,
        before: &MergedTreeValue,
        after: &MaterializedTreeValue,
    ) -> (r: Result<EntryStart<'a>, InvalidRepoPathError>)
        requires
            old(self).wf(),
            old(self).stats.has_room(),
            path_model::valid_path(path@),
            !old(self).touched@.contains(path@),
        ensures
            final(self).wf(),
            final(self).stats == counted(old(self).stats, before@, *after),
            final(self).touched@ == old(self).touched@.push(path@),
            final(self).changed_file_states == old(self).changed_file_states,
            final(self).deleted_files == old(self).deleted_files,
            final(self).prev_created_path == old(self).prev_created_path,
            !final(self).recorded(path@),
            ({
                let names = path_model::components(path@);
                let shared = repo_path::common_len(
                    names,
                    path_model::components(old(self).prev_created_path@),
                );
                let known = names.take(shared);
                match r {
                    Ok(EntryStart::Ignored) => was_submodule(before@) && *after is GitSubmodule,
                    Ok(EntryStart::InPlace(disk_path)) => {
                        &&& !(was_submodule(before@) && *after is GitSubmodule)
                        &&& shared == names.len()
                        &&& repo_path_fs::first_invalid(platform, names) is None
                        &&& disk_path@ == repo_path_fs::or_current(
                            working_copy_path@ + repo_path_fs::name_parts(names),
                        )
                    },
                    Ok(EntryStart::CreateParents { base, remainder }) => {
                        &&& !(was_submodule(before@) && *after is GitSubmodule)
                        &&& shared < names.len()
                        &&& repo_path_fs::first_invalid(platform, known) is None
                        &&& base@ == repo_path_fs::or_current(
                            working_copy_path@ + repo_path_fs::name_parts(known),
                        )
                        &&& path_model::valid_path(remainder@)
                        &&& remainder@ == path_model::join_names(names.skip(shared))
                        &&& path_model::components(remainder@) == names.skip(shared)
                    },
                    Err(err) => {
                        &&& !(was_submodule(before@) && *after is GitSubmodule)
                        &&& repo_path_fs::first_invalid(
                            platform,
                            if shared == names.len() {
                                names
                            } else {
                                known
                            },
                        ) == Some(err.source.component@)
                        &&& err.path@ == if shared == names.len() {
                            path@
                        } else {
                            path_model::join_names(known)
                        }
                    },
                }
            }),
    {
        proof {
            assert(!self.recorded(path@)) by {
                if file_states_map::changes_path(self.changed_file_states@, path@) {
                    let i = choose|i: int|
                        0 <= i < self.changed_file_states@.len() && (
                        #[trigger] self.changed_file_states@[i]).0@ == path@;
                    assert(self.touched@.contains(self.changed_file_states@[i].0@));
                }
            }
        }
        match after {
            MaterializedTreeValue::Absent => {
                self.stats.removed_files = self.stats.removed_files + 1;
            },
            _ => {
                if before.is_absent() {
                    self.stats.added_files = self.stats.added_files + 1;
                } else {
                    self.stats.updated_files = self.stats.updated_files + 1;
                }
            },
        }
        let ghost earlier = self.touched@;
        self.touched.insert(path.to_owned());
        proof {
            assert forall|p: Seq<char>| earlier.contains(p) implies #[trigger] self.touched@.contains(
                p,
            ) by {
                let i = choose|i: int| 0 <= i < earlier.len() && earlier[i] == p;
                assert(self.touched@[i] == p);
            }
        }
        // Existing Git submodule can be a non-empty directory on disk. We
        // shouldn't attempt to manage it as a tracked path.
        if is_submodule(before) {
            if let MaterializedTreeValue::GitSubmodule = after {
                // Not updating the file state as if there were no diffs. Leave
                // the state type as FileType::GitSubmodule if it was before.
                return Ok(EntryStart::Ignored);
            }
        }
        // This path and the previous one we did work for may have a common prefix. We
        // can adjust the "working copy" path to the parent directory which we know
        // is already created. If there is no common prefix, this will by default use
        // RepoPath::root() as the common prefix.

        let (common_prefix, adjusted_diff_file_path) = path.split_common_prefix(
            self.prev_created_path.as_ref(),
        );
        proof {
            let names = path_model::components(path@);
            let shared = repo_path::common_len(
                names,
                path_model::components(self.prev_created_path@),
            );
            repo_path::lemma_common_len(names, path_model::components(self.prev_created_path@));
            path_model::lemma_prefix_path(path@, shared);
            path_model::lemma_components_valid(adjusted_diff_file_path@);
        }
        if adjusted_diff_file_path.is_root() {
            // The path being "root" here implies that the entire path has already been
            // created, so that we _dont_ need to create its parent dirs either.
            match path.to_fs_path_on(platform, working_copy_path) {
                Ok(disk_path) => Ok(EntryStart::InPlace(disk_path)),
                Err(err) => Err(err),
            }
        } else {
            // Create parent directories no matter if after.is_present(). This
            // ensures that the path never traverses symlinks.
            match common_prefix.to_fs_path_on(platform, working_copy_path) {
                Ok(base) => Ok(
                    EntryStart::CreateParents { base, remainder: adjusted_diff_file_path },
                ),
                Err(err) => Err(err),
            }
        }
    }
}

/// The creation of the directories that lead to a path.
pub struct ParentDirs<'a> {
    /// The path that the directories are for.
    pub repo_path: RepoPath<'a>,
    /// The names of the directories that are still to be created.
    pub remaining: RepoPathComponentsIter<'a>,
    /// The directory that was created or found last.
    pub dir_path: FsPath,
}

/// What the creation of a directory gave.
#[derive(Clone, Copy, Debug, PartialEq, Eq, Structural)]
pub enum MkdirOutcome {
    Created,
    /// It failed, but there is an entry already.
    Existing { is_dir: bool },
    /// It failed, and there is no entry either.
    Failed,
}

/// What to do after the creation of a directory.
#[derive(Clone, Copy, Debug, PartialEq, Eq, Structural)]
pub enum ParentDirStep {
    /// Go on inside the directory.
    Descend,
    /// Leave the path alone: there is a file or a symlink where a directory
    /// should be.
    Skip,
    /// Give up: the directory could not be created.
    Fail,
    /// Give up: the directory is reserved. It was there before.
    Reject,
    /// Give up: the directory is reserved. Remove it, as it was just created.
    RemoveAndReject,
}

/// Decides how to go on after the creation of a directory. `is_reserved` tells
/// whether the directory turned out to be one of the reserved ones.
pub fn parent_dir_step(mkdir: MkdirOutcome, is_reserved: bool) -> (r: ParentDirStep)
    ensures
        r == match mkdir {
            MkdirOutcome::Failed => ParentDirStep::Fail,
            MkdirOutcome::Created => if is_reserved {
                ParentDirStep::RemoveAndReject
            } else {
                ParentDirStep::Descend
            },
            MkdirOutcome::Existing { is_dir } => if is_reserved {
                ParentDirStep::Reject
            } else if is_dir {
                ParentDirStep::Descend
            } else {
                ParentDirStep::Skip
            },
        },
{
    match mkdir {
        MkdirOutcome::Failed => ParentDirStep::Fail,
        MkdirOutcome::Created => if is_reserved {
            ParentDirStep::RemoveAndReject
        } else {
            ParentDirStep::Descend
        },
        MkdirOutcome::Existing { is_dir } => if is_reserved {
            ParentDirStep::Reject
        } else if is_dir {
            ParentDirStep::Descend
        } else {
            ParentDirStep::Skip
        },
    }
}

impl<'a> ParentDirs<'a> {
    /// The names of the directories that are still to be created.
    pub open spec fn names_left(&self) -> Seq<Seq<char>> {
        path_model::components(self.remaining@)
    }

    /// Starts in the directory `base`, for the path `repo_path` below it.
    pub fn new(base: FsPath, repo_path: RepoPath<'a>) -> (r: ParentDirs<'a>)
        requires
            path_model::valid_path(repo_path@),
            repo_path@.len() > 0,
        ensures
            r.repo_path == repo_path,
            r.dir_path == base,
            r.names_left() == path_model::components(repo_path@).drop_last(),
    {
        let parent = match repo_path.parent() {
            Some(parent) => parent,
            None => repo_path,
        };
        proof {
            path_model::lemma_split_last(repo_path@);
            let (dir, name) = repo_path::back_split(repo_path@);
            assert(path_model::components(dir).push(name).drop_last() =~= path_model::components(
                dir,
            ));
        }
        ParentDirs { repo_path, remaining: parent.components(), dir_path: base }
    }

    /// Enters the next directory, which is then to be created: true until all of
    /// them were entered. Fails if its name cannot be that of a directory.
    pub fn next_dir(&mut self, platform: Platform) -> (r: Result<bool, InvalidRepoPathError>)
        ensures
            final(self).repo_path == old(self).repo_path,
            match r {
                Ok(true) => {
                    &&& old(self).names_left().len() > 0
                    &&& repo_path_fs::valid_fs_name(platform, old(self).names_left()[0])
                    &&& final(self).names_left() == old(self).names_left().drop_first()
                    &&& final(self).dir_path@ == old(self).dir_path@.push(
                        fs_path::FsPart::Normal(old(self).names_left()[0]),
                    )
                    &&& final(self).remaining@.len() < old(self).remaining@.len()
                },
                Ok(false) => {
                    &&& old(self).names_left().len() == 0
                    &&& final(self).names_left().len() == 0
                    &&& final(self).dir_path == old(self).dir_path
                },
                Err(err) => {
                    &&& old(self).names_left().len() > 0
                    &&& !repo_path_fs::valid_fs_name(platform, old(self).names_left()[0])
                    &&& err.source.component@ == old(self).names_left()[0]
                    &&& err.path@ == old(self).repo_path@
                },
            },
    {
        let ghost names = self.names_left();
        match self.remaining.next() {
            Some(c) => {
                assert(names.drop_first() =~= self.names_left());
                // Ensure that the name is a normal entry of the current directory.
                match c.to_fs_name_on(platform) {
                    Ok(name) => {
                        self.dir_path.push_normal(name);
                        Ok(true)
                    },
                    Err(err) => Err(err.with_path(self.repo_path)),
                }
            },
            None => Ok(false),
        }
    }

    /// The path of the file itself in the directory that was entered last.
    pub fn file_path(&self, platform: Platform) -> (r: Result<FsPath, InvalidRepoPathError>)
        requires
            path_model::valid_path(self.repo_path@),
            self.repo_path@.len() > 0,
        ensures
            ({
                let name = path_model::components(self.repo_path@).last();
                match r {
                    Ok(path) => {
                        &&& repo_path_fs::valid_fs_name(platform, name)
                        &&& path@ == self.dir_path@.push(fs_path::FsPart::Normal(name))
                    },
                    Err(err) => {
                        &&& !repo_path_fs::valid_fs_name(platform, name)
                        &&& err.source.component@ == name
                        &&& err.path@ == self.repo_path@
                    },
                }
            }),
    {
        proof {
            path_model::lemma_split_last(self.repo_path@);
        }
        let mut components = self.repo_path.components();
        match components.next_back() {
            Some(basename) => match basename.to_fs_name_on(platform) {
                Ok(name) => {
                    let mut path = self.dir_path.duplicate();
                    path.push_normal(name);
                    Ok(path)
                },
                Err(err) => Err(err.with_path(self.repo_path)),
            },
            None => Ok(self.dir_path.duplicate()),
        }
    }
}

/// What to remove before a path is written.
#[derive(Clone, Copy, Debug, PartialEq, Eq, Structural)]
pub enum Removal {
    /// Nothing was there in the old tree.
    Nothing,
    /// The directory of a submodule, if it is empty.
    SubmoduleDir,
    /// A file or a symlink.
    File,
}

/// If the path was present, what to delete.
pub fn old_entry_removal(before: &MergedTreeValue) -> (r: Removal)
    ensures
        r == if backend::absent(before@) {
            Removal::Nothing
        } else if was_submodule(before@) {
            Removal::SubmoduleDir
        } else {
            Removal::File
        },
{
    if before.is_absent() {
        Removal::Nothing
    } else if is_submodule(before) {
        Removal::SubmoduleDir
    } else {
        Removal::File
    }
}

/// What the removal of a file or a directory gave.
#[derive(Clone, Copy, Debug, PartialEq, Eq, Structural)]
pub enum RemoveOutcome {
    Removed,
    NotFound,
    /// A directory that still has entries.
    NotEmpty,
    /// Anything else. `is_dir` tells whether there is a directory in its place.
    Failed { is_dir: bool },
}

/// Why a removal went wrong.
#[derive(Clone, Copy, Debug, PartialEq, Eq, Structural)]
pub struct RemoveFailed;

/// Whether an existing file was there and got removed, meaning that a new file
/// can be safely created.
pub fn remove_old_file(outcome: RemoveOutcome) -> (r: Result<bool, RemoveFailed>)
    ensures
        r == match outcome {
            RemoveOutcome::Removed => Ok::<bool, RemoveFailed>(true),
            RemoveOutcome::NotFound => Ok(false),
            RemoveOutcome::Failed { is_dir: true } => Ok(false),
            RemoveOutcome::NotEmpty | RemoveOutcome::Failed { is_dir: false } => Err(RemoveFailed),
        },
{
    match outcome {
        RemoveOutcome::Removed => Ok(true),
        RemoveOutcome::NotFound => Ok(false),
        RemoveOutcome::Failed { is_dir: true } => Ok(false),
        RemoveOutcome::NotEmpty | RemoveOutcome::Failed { is_dir: false } => Err(RemoveFailed),
    }
}

/// Whether an existing submodule directory was there and got removed, meaning
/// that a new file can be safely created.
///
/// The directory will not be removed if it is not empty, as it could contain
/// untracked or modified files. This is in line with Git's behavior.
pub fn remove_old_submodule_dir(outcome: RemoveOutcome) -> (r: Result<bool, RemoveFailed>)
    ensures
        r == match outcome {
            RemoveOutcome::Removed => Ok::<bool, RemoveFailed>(true),
            RemoveOutcome::NotFound | RemoveOutcome::NotEmpty => Ok(false),
            RemoveOutcome::Failed { .. } => Err(RemoveFailed),
        },
{
    match outcome {
        RemoveOutcome::Removed => Ok(true),
        RemoveOutcome::NotFound => Ok(false),
        RemoveOutcome::NotEmpty => Ok(false),
        RemoveOutcome::Failed { .. } => Err(RemoveFailed),
    }
}

/// What the creation of an empty file gave, with which a path is tried out.
#[derive(Clone, Copy, Debug, PartialEq, Eq, Structural)]
pub enum ProbeOutcome {
    Created,
    AlreadyExists,
    /// Anything else. `exists` tells whether there is an entry in its place.
    Failed { exists: bool },
}

/// What to do after a path was tried out.
#[derive(Clone, Copy, Debug, PartialEq, Eq, Structural)]
pub enum ProbeStep {
    /// Remove the empty file. A new file can be created in its place.
    RemoveAndProceed,
    /// Remove the empty file, and give up: it is reserved.
    RemoveAndReject,
    /// Leave what exists in its place alone.
    Skip,
    /// Give up: what exists in its place is reserved.
    Reject,
    /// Give up: nothing is known about the path.
    Fail,
}

/// Checks if new file or symlink can be created. `is_reserved` tells whether
/// the entry that is there then turned out to be a reserved one.
///
/// New file or symlink will be created by caller. If it were pointed to by
/// name ".git" or ".jj", other tools could be tricked to load configuration
/// from there. So we first test the path by creating an empty file.
pub fn can_create_new_file(probe: ProbeOutcome, is_reserved: bool) -> (r: ProbeStep)
    ensures
        r == match probe {
            ProbeOutcome::Created => if is_reserved {
                ProbeStep::RemoveAndReject
            } else {
                ProbeStep::RemoveAndProceed
            },
            ProbeOutcome::AlreadyExists | ProbeOutcome::Failed { exists: true } => if is_reserved {
                ProbeStep::Reject
            } else {
                ProbeStep::Skip
            },
            ProbeOutcome::Failed { exists: false } => ProbeStep::Fail,
        },
{
    match probe {
        ProbeOutcome::Created => if is_reserved {
            ProbeStep::RemoveAndReject
        } else {
            ProbeStep::RemoveAndProceed
        },
        ProbeOutcome::AlreadyExists | ProbeOutcome::Failed { exists: true } => if is_reserved {
            ProbeStep::Reject
        } else {
            ProbeStep::Skip
        },
        ProbeOutcome::Failed { exists: false } => ProbeStep::Fail,
    }
}

/// Whether a path is written (or removed for good), rather than skipped.
pub fn may_proceed(
    before: &MergedTreeValue,
    after: &MaterializedTreeValue,
    present_file_deleted: bool,
    can_create: bool,
    is_dir: bool,
) -> (r: bool)
    ensures
        r == {
            ||| present_file_deleted
            ||| can_create
            ||| *after is GitSubmodule && is_dir
            ||| was_submodule(before@) && *after is Absent
        },
{
    if present_file_deleted || can_create {
        return true;
    }
    match after {
        // Failing to materialize submodule, over a directory which
        // is presumably the submodule before it was added in a
        // commit, is not an error.
        MaterializedTreeValue::GitSubmodule => is_dir,
        // Failing to delete un-tracked submodule directory is not
        // an error, as the, possibly untracked, contents would
        // otherwise be lost.
        MaterializedTreeValue::Absent => is_submodule(before),
        _ => false,
    }
}

/// How a path is written.
#[derive(Clone, Copy, Debug, PartialEq, Eq, Structural)]
pub enum WriteAction {
    /// It is not: the file is gone. Remove the directories that became empty.
    RemoveEmptyParents,
    /// A regular file, with line endings converted.
    File { exec_bit: ExecBit },
    Symlink,
    /// A regular file with the target of a symlink as its contents, taken
    /// literally.
    SymlinkAsFile,
    /// A directory that is left empty.
    SubmoduleDir,
    /// A regular file that shows a conflict, with line endings converted.
    Conflict { exec_bit: ExecBit },
}

/// How a path is written, by what the new tree has there.
pub open spec fn write_action(
    after: MaterializedTreeValue,
    platform: Platform,
    exec_policy: ExecChangePolicy,
    symlink_support: bool,
    prev_exec: Option<ExecBit>,
) -> WriteAction {
    match after {
        MaterializedTreeValue::Absent
        | MaterializedTreeValue::AccessDenied
        | MaterializedTreeValue::Tree => WriteAction::RemoveEmptyParents,
        MaterializedTreeValue::File { executable } => WriteAction::File {
            exec_bit: file_state::exec_bit_from_repo(platform, executable, exec_policy, prev_exec),
        },
        MaterializedTreeValue::Symlink => if symlink_support {
            WriteAction::Symlink
        } else {
            WriteAction::SymlinkAsFile
        },
        MaterializedTreeValue::GitSubmodule => WriteAction::SubmoduleDir,
        MaterializedTreeValue::FileConflict { executable, .. } => WriteAction::Conflict {
            exec_bit: file_state::exec_bit_from_repo(
                platform,
                executable == Some(true),
                exec_policy,
                prev_exec,
            ),
        },
        // Since this is a dummy file, it shouldn't be executable.
        MaterializedTreeValue::OtherConflict => WriteAction::Conflict { exec_bit: ExecBit(false) },
    }
}

/// Decides how a path is written. `prev_exec` is the executable bit that is
/// recorded for the file on disk. A diff holds no trees.
pub fn plan_write(
    after: &MaterializedTreeValue,
    platform: Platform,
    exec_policy: ExecChangePolicy,
    symlink_support: bool,
    prev_exec: Option<ExecBit>,
) -> (r: WriteAction)
    requires
        !(*after is Tree),
    ensures
        r == write_action(*after, platform, exec_policy, symlink_support, prev_exec),
{
    match after {
        MaterializedTreeValue::Absent
        | MaterializedTreeValue::AccessDenied
        | MaterializedTreeValue::Tree => WriteAction::RemoveEmptyParents,
        MaterializedTreeValue::File { executable } => WriteAction::File {
            exec_bit: ExecBit::new_from_repo(platform, *executable, exec_policy, prev_exec),
        },
        MaterializedTreeValue::Symlink => if symlink_support {
            WriteAction::Symlink
        } else {
            WriteAction::SymlinkAsFile
        },
        MaterializedTreeValue::GitSubmodule => WriteAction::SubmoduleDir,
        MaterializedTreeValue::FileConflict { executable, .. } => {
            let in_repo = match executable {
                Some(executable) => *executable,
                None => false,
            };
            WriteAction::Conflict {
                exec_bit: ExecBit::new_from_repo(platform, in_repo, exec_policy, prev_exec),
            }
        },
        MaterializedTreeValue::OtherConflict => WriteAction::Conflict { exec_bit: ExecBit(false) },
    }
}

/// The state to record for a path: as it was found after writing, with the
/// length of the conflict markers if there are any.
pub open spec fn recorded_state(after: MaterializedTreeValue, written: FileState) -> FileState {
    match after {
        MaterializedTreeValue::FileConflict { conflict_marker_len, .. } => FileState {
            materialized_conflict_data: Some(
                MaterializedConflictData {
                    conflict_marker_len: if conflict_marker_len <= u32::MAX {
                        conflict_marker_len as u32
                    } else {
                        u32::MAX
                    },
                },
            ),
            ..written
        },
        _ => written,
    }
}

/// The state to record for a path that was written.
pub fn state_after_write(after: &MaterializedTreeValue, written: FileState) -> (r: FileState)
    ensures
        r == recorded_state(*after, written),
{
    match after {
        MaterializedTreeValue::FileConflict { conflict_marker_len, .. } => {
            let max: u32 = 0xffff_ffff;
            let conflict_marker_len: u32 = if *conflict_marker_len <= max as usize {
                *conflict_marker_len as u32
            } else {
                max
            };
            FileState {
                file_type: written.file_type,
                mtime: written.mtime,
                size: written.size,
                materialized_conflict_data: Some(
                    MaterializedConflictData { conflict_marker_len },
                ),
            }
        },
        _ => written,
    }
}

impl TreeUpdate {
    /// Remembers that the directory of a path exists.
    ///
    /// This must occur after the directories were created, to ensure that the
    /// path is only set when no symlinks are encountered.
    pub fn parents_created(&mut self, path: RepoPath<'_>)
        requires
            old(self).wf(),
            path_model::valid_path(path@),
            path@.len() > 0,
        ensures
            final(self).wf(),
            final(self).prev_created_path@ == repo_path::back_split(path@).0,
            final(self).stats == old(self).stats,
            final(self).changed_file_states == old(self).changed_file_states,
            final(self).deleted_files == old(self).deleted_files,
            final(self).touched == old(self).touched,
    {
        if let Some(parent) = path.parent() {
            self.prev_created_path = parent.to_owned();
        }
    }

    fn push_state(&mut self, path: RepoPathBuf, state: FileState)
        requires
            old(self).wf(),
            path_model::valid_path(path@),
            old(self).touched@.contains(path@),
            !old(self).recorded(path@),
        ensures
            final(self).wf(),
            final(self).stats == old(self).stats,
            final(self).changed_file_states@ == old(self).changed_file_states@.push((path, state)),
            final(self).deleted_files == old(self).deleted_files,
            final(self).touched == old(self).touched,
            final(self).prev_created_path == old(self).prev_created_path,
    {
        let ghost before = self.changed_file_states@;
        self.changed_file_states.push((path, state));
        proof {
            let after = self.changed_file_states@;
            let n = before.len() as int;
            assert(after[n].key() == path@);
            assert forall|i: int| 0 <= i < after.len() implies path_model::valid_path(
                (#[trigger] after[i]).key(),
            ) by {
                if i < n {
                    assert(after[i] == before[i]);
                    assert(path_model::valid_path(before[i].key()));
                }
            }
            assert forall|i: int, j: int|
                0 <= i < after.len() && 0 <= j < after.len() && i != j implies (
            #[trigger] after[i]).key() != (#[trigger] after[j]).key() by {
                if i < n && j < n {
                    assert(after[i] == before[i] && after[j] == before[j]);
                    assert(before[i].key() != before[j].key());
                } else if i < n {
                    assert(after[i] == before[i]);
                    assert(before[i].0@ != path@);
                } else {
                    assert(after[j] == before[j]);
                    assert(before[j].0@ != path@);
                }
            }
            assert forall|i: int| 0 <= i < after.len() implies self.touched@.contains(
                (#[trigger] after[i]).0@,
            ) && !self.deleted_files@.contains(after[i].0@) by {
                if i < n {
                    assert(after[i] == before[i]);
                }
            }
        }
    }

    /// Leaves a path alone because something else is in its place. The file is
    /// to be looked at again when the working copy is next snapshotted.
    pub fn skip_entry(&mut self, path: RepoPathBuf)
        requires
            old(self).wf(),
            old(self).stats.has_room(),
            path_model::valid_path(path@),
            old(self).touched@.contains(path@),
            !old(self).recorded(path@),
        ensures
            final(self).wf(),
            final(self).stats == (CheckoutStats {
                skipped_files: (old(self).stats.skipped_files + 1) as u32,
                ..old(self).stats
            }),
            final(self).changed_file_states@ == old(self).changed_file_states@.push(
                (
                    path,
                    FileState::unknown(FileType::Normal { exec_bit: ExecBit(false) }),
                ),
            ),
            final(self).deleted_files == old(self).deleted_files,
            final(self).touched == old(self).touched,
            final(self).prev_created_path == old(self).prev_created_path,
    {
        self.push_state(path, FileState::placeholder());
        self.stats.skipped_files = self.stats.skipped_files + 1;
    }

    /// Records that a path was removed.
    ///
    /// The directories above it may be gone too, so none is known to exist any
    /// more.
    pub fn finish_removed(&mut self, path: RepoPathBuf)
        requires
            old(self).wf(),
            path_model::valid_path(path@),
            old(self).touched@.contains(path@),
            !old(self).recorded(path@),
        ensures
            final(self).wf(),
            final(self).stats == old(self).stats,
            final(self).changed_file_states == old(self).changed_file_states,
            final(self).deleted_files@ == old(self).deleted_files@.push(path@),
            final(self).touched == old(self).touched,
            final(self).prev_created_path@.len() == 0,
    {
        let ghost before = self.deleted_files@;
        self.prev_created_path = RepoPathBuf::root();
        self.deleted_files.insert(path);
        proof {
            let after = self.deleted_files@;
            assert forall|p: Seq<char>| #[trigger] after.contains(p) implies before.contains(p) || p
                == path@ by {
                let i = choose|i: int| 0 <= i < after.len() && after[i] == p;
                if i < before.len() {
                    assert(before[i] == p);
                }
            }
            assert forall|i: int| 0 <= i < self.changed_file_states@.len() implies
                !after.contains((#[trigger] self.changed_file_states@[i]).0@) by {
                assert(self.changed_file_states@[i].0@ != path@);
            }
        }
    }

    /// Records the state of a path that was written.
    pub fn finish_written(
        &mut self,
        path: RepoPathBuf,
        after: &MaterializedTreeValue,
        written: FileState,
    )
        requires
            old(self).wf(),
            path_model::valid_path(path@),
            old(self).touched@.contains(path@),
            !old(self).recorded(path@),
        ensures
            final(self).wf(),
            final(self).stats == old(self).stats,
            final(self).changed_file_states@ == old(self).changed_file_states@.push(
                (path, recorded_state(*after, written)),
            ),
            final(self).deleted_files == old(self).deleted_files,
            final(self).touched == old(self).touched,
            final(self).prev_created_path == old(self).prev_created_path,
    {
        self.push_state(path, state_after_write(after, written));
    }

    /// Whether a path was started with already.
    pub fn is_touched(&self, path: RepoPath<'_>) -> (r: bool)
        requires
            self.wf(),
        ensures
            r == self.touched@.contains(path@),
    {
        self.touched.contains(path)
    }

    /// The conflicts that have to be written again although they did not change,
    /// because their labels did: those at paths that were not started with.
    pub fn conflicts_to_rematerialize(&self, conflicts: Vec<RepoPathBuf>) -> (r: Vec<RepoPathBuf>)
        requires
            self.wf(),
        ensures
            path_list(r@) == path_list(conflicts@).filter(
                |path: Seq<char>| !self.touched@.contains(path),
            ),
    {
        let ghost pred = |path: Seq<char>| !self.touched@.contains(path);
        let ghost all = path_list(conflicts@);
        let mut out: Vec<RepoPathBuf> = Vec::new();
        proof {
            reveal(Seq::filter);
            assert(all.take(0) =~= Seq::empty());
            assert(path_list(out@) =~= all.take(0).filter(pred));
        }
        let ghost list = conflicts@;
        for path in it: conflicts
            invariant
                self.wf(),
                it.seq() == list,
                all == path_list(list),
                pred == |path: Seq<char>| !self.touched@.contains(path),
                path_list(out@) == all.take(it.index() as int).filter(pred),
        {
            let ghost n = it.index() as int;
            let ghost before = out@;
            proof {
                reveal(Seq::filter);
                assert(all.take(n + 1).drop_last() =~= all.take(n));
                assert(all.take(n + 1).last() == path@);
            }
            if !self.touched.contains(path.as_ref()) {
                out.push(path);
                assert(path_list(out@) =~= path_list(before).push(path@));
            }
        }
        proof {
            assert(all.take(list.len() as int) =~= all);
        }
        out
    }

    /// Merges what was recorded into the file states. `resort` tells that paths
    /// were not visited in order.
    pub fn finish(self, file_states: &mut FileStatesMap, resort: bool) -> (r: CheckoutStats)
        requires
            self.wf(),
            old(file_states).wf(),
            resort || file_states_map::sorted_changes(self.changed_file_states@),
        ensures
            r == self.stats,
            final(file_states).wf(),
            forall|path: Seq<char>|
                file_states::lookup(final(file_states)@, path)
                    == #[trigger] file_states_map::merged_state(
                    old(file_states)@,
                    self.changed_file_states@,
                    self.deleted_files@,
                    path,
                ),
            tree_state::merged_files(
                old(file_states)@,
                final(file_states)@,
                self.changed_file_states@,
                self.deleted_files@,
            ),
    {
        let ghost recorded = self.changed_file_states@;
        let mut changed_file_states = self.changed_file_states;
        if resort {
            // We need to re-sort the changed file states since we may have inserted a
            // conflicted file out of order.
            file_states_map::sort_by_path(&mut changed_file_states);
        }
        proof {
            file_states_map::lemma_sorted_keys(changed_file_states@);
            assert forall|path: Seq<char>|
                file_states_map::merged_state(
                    file_states@,
                    changed_file_states@,
                    self.deleted_files@,
                    path,
                ) == #[trigger] file_states_map::merged_state(
                    file_states@,
                    recorded,
                    self.deleted_files@,
                    path,
                ) by {
                file_states_map::lemma_same_changes(recorded, changed_file_states@, path);
            }
        }
        let ghost before = file_states@;
        file_states.merge_in(changed_file_states, &self.deleted_files);
        proof {
            assert forall|path: Seq<char>|
                file_states::lookup(file_states@, path) == #[trigger] file_states_map::merged_state(
                    before,
                    recorded,
                    self.deleted_files@,
                    path,
                ) by {
                let same = file_states_map::merged_state(
                    before,
                    changed_file_states@,
                    self.deleted_files@,
                    path,
                );
            }
        }
        self.stats
    }
}

/// The texts of a list of owned paths.
pub open spec fn path_list(paths: Seq<RepoPathBuf>) -> Seq<Seq<char>> {
    paths.map_values(|path: RepoPathBuf| path@)
}

/// Whether conflicts have to be written again although they did not change: only
/// their labels did. Conflicts with different numbers of sides differ anyway.
pub fn labels_changed(old_tree: &backend::MergedTree, new_tree: &backend::MergedTree) -> (r: bool)
    requires
        old_tree.tree_ids@.len() % 2 == 1,
        new_tree.tree_ids@.len() % 2 == 1,
    ensures
        r == (old_tree.num_sides() == new_tree.num_sides() && old_tree@.labels
            != new_tree@.labels),
{
    old_tree.tree_ids.len() / 2 == new_tree.tree_ids.len() / 2 && !old_tree.same_labels(new_tree)
}

} // verus!
