//! One path of an update, from the first look at it to its recorded state.
//!
//! The disk is touched by the caller, who performs the action asked for and
//! reports what came of it.

use vstd::prelude::*;

use crate::backend;
use crate::backend::MergedTreeValue;
use crate::checkout;
use crate::checkout::CheckoutStats;
use crate::checkout::EntryStart;
use crate::checkout::MaterializedTreeValue;
use crate::checkout::MkdirOutcome;
use crate::checkout::ParentDirStep;
use crate::checkout::ParentDirs;
use crate::checkout::ProbeOutcome;
use crate::checkout::ProbeStep;
use crate::checkout::Removal;
use crate::checkout::RemoveOutcome;
use crate::checkout::TreeUpdate;
use crate::checkout::WriteAction;
use crate::file_state::ExecBit;
use crate::file_state::ExecChangePolicy;
use crate::file_state::FileState;
use crate::file_state::FileType;
use crate::fs_path::FsPart;
use crate::fs_path::FsPath;
use crate::path_model;
use crate::platform::Platform;
use crate::repo_path;
use crate::repo_path::InvalidRepoPathError;
use crate::repo_path::RepoPath;
use crate::repo_path_fs;

verus! {

/// What decides how files are written.
pub struct UpdateContext {
    pub platform: Platform,
    pub working_copy_path: FsPath,
    pub exec_policy: ExecChangePolicy,
    pub symlink_support: bool,
}

/// What is to be done on disk next, at the path that the run is at.
#[derive(Clone, Copy, Debug, PartialEq, Eq, Structural)]
pub enum DiskAction {
    /// Nothing more.
    Nothing,
    /// Create a directory, and see whether it is a reserved one.
    CreateDir,
    /// See whether there is a reserved file; if not, remove the file.
    RemoveFile,
    /// Remove the directory of a submodule, if it is empty.
    RemoveSubmoduleDir,
    /// Create an empty file, and see whether it is a reserved one.
    ProbeFile,
    /// Write the new value.
    Write(WriteAction),
}

/// Why an update cannot go on.
#[derive(Debug)]
pub enum EntryError {
    /// The path has no counterpart on disk.
    InvalidPath(InvalidRepoPathError),
    /// A directory that leads to the path could not be created.
    CannotCreateDir,
    /// The path leads to or through a reserved directory. What was just created
    /// there is to be removed again if `remove_created`.
    Reserved { remove_created: bool },
    /// The old file could not be removed.
    CannotRemove,
    /// Nothing could be found out about what is in place of the new file.
    CannotProbe,
}

/// How far a run has come.
pub enum EntryStage<'a> {
    /// The directory `dir_path` is being created.
    Parents(ParentDirs<'a>),
    /// The old file at the path is being removed.
    Removing(FsPath),
    /// The path is being tried out.
    Probing(FsPath),
    /// The path is being written.
    Writing(FsPath, WriteAction),
    /// What becomes of the path is settled.
    Finished,
}

/// One path of an update.
pub struct EntryRun<'a> {
    pub path: RepoPath<'a>,
    pub before: &'a MergedTreeValue,
    pub after: MaterializedTreeValue,
    /// The executable bit that is recorded for the file on disk.
    pub prev_exec: Option<ExecBit>,
    pub stage: EntryStage<'a>,
}

impl<'a> EntryRun<'a> {
    /// The path is being worked on in the update, and not settled yet.
    pub open spec fn active(&self, update: TreeUpdate) -> bool {
        &&& path_model::valid_path(self.path@)
        &&& self.path@.len() > 0
        &&& !(self.after is Tree)
        &&& update.touched@.contains(self.path@)
        &&& !update.recorded(self.path@)
        &&& self.stage matches EntryStage::Parents(dirs) ==> {
            &&& path_model::valid_path(dirs.repo_path@)
            &&& dirs.repo_path@.len() > 0
        }
    }

    /// What the run is about stays the same.
    pub open spec fn same_entry(&self, other: EntryRun<'a>) -> bool {
        &&& self.path == other.path
        &&& self.before == other.before
        &&& self.after == other.after
        &&& self.prev_exec == other.prev_exec
    }

    /// How the path is to be written.
    pub open spec fn plan(&self, context: UpdateContext) -> WriteAction {
        checkout::write_action(
            self.after,
            context.platform,
            context.exec_policy,
            context.symlink_support,
            self.prev_exec,
        )
    }

    /// Whether the run goes on at `disk_path`, whose directory exists: the old
    /// file is removed if there was one, or else the path is tried out.
    pub open spec fn located_at(
        &self,
        disk_path: Seq<FsPart>,
        action: DiskAction,
    ) -> bool {
        if backend::absent(self.before@) {
            &&& action == DiskAction::ProbeFile
            &&& self.stage matches EntryStage::Probing(path)
            &&& path@ == disk_path
        } else {
            &&& action == if checkout::was_submodule(self.before@) {
                DiskAction::RemoveSubmoduleDir
            } else {
                DiskAction::RemoveFile
            }
            &&& self.stage matches EntryStage::Removing(path)
            &&& path@ == disk_path
        }
    }

    /// Whether the run goes on to create the next of the directories `names`
    /// below `dir`, or has created all of them and goes on at the path itself.
    /// `remainder` is the path that the directories are for.
    pub open spec fn descended(
        &self,
        platform: Platform,
        dir: Seq<FsPart>,
        names: Seq<Seq<char>>,
        remainder: Seq<char>,
        result: Result<DiskAction, EntryError>,
    ) -> bool {
        let basename = path_model::components(remainder).last();
        if names.len() > 0 {
            if repo_path_fs::valid_fs_name(platform, names[0]) {
                &&& result == Ok::<DiskAction, EntryError>(DiskAction::CreateDir)
                &&& self.stage matches EntryStage::Parents(dirs)
                &&& dirs.dir_path@ == dir.push(FsPart::Normal(names[0]))
                &&& dirs.names_left() == names.drop_first()
                &&& dirs.repo_path@ == remainder
            } else {
                result matches Err(EntryError::InvalidPath(err)) && err.source.component@
                    == names[0] && err.path@ == remainder
            }
        } else if repo_path_fs::valid_fs_name(platform, basename) {
            &&& result matches Ok(action)
            &&& self.located_at(dir.push(FsPart::Normal(basename)), action)
        } else {
            result matches Err(EntryError::InvalidPath(err)) && err.source.component@ == basename
                && err.path@ == remainder
        }
    }

    fn locate(&mut self, disk_path: FsPath) -> (r: DiskAction)
        ensures
            final(self).same_entry(*old(self)),
            final(self).located_at(disk_path@, r),
            !(final(self).stage is Parents),
            !(final(self).stage is Finished),
    {
        match checkout::old_entry_removal(self.before) {
            Removal::Nothing => {
                self.stage = EntryStage::Probing(disk_path);
                DiskAction::ProbeFile
            },
            // If the path was present, check reserved path first and delete it.
            Removal::SubmoduleDir => {
                self.stage = EntryStage::Removing(disk_path);
                DiskAction::RemoveSubmoduleDir
            },
            Removal::File => {
                self.stage = EntryStage::Removing(disk_path);
                DiskAction::RemoveFile
            },
        }
    }

    fn descend(
        &mut self,
        update: &mut TreeUpdate,
        platform: Platform,
        dirs: ParentDirs<'a>,
    ) -> (r: Result<DiskAction, EntryError>)
        requires
            old(update).wf(),
            path_model::valid_path(old(self).path@),
            old(self).path@.len() > 0,
            path_model::valid_path(dirs.repo_path@),
            dirs.repo_path@.len() > 0,
            !(old(self).stage is Parents),
        ensures
            final(update).wf(),
            final(update).stats == old(update).stats,
            final(update).changed_file_states == old(update).changed_file_states,
            final(update).deleted_files == old(update).deleted_files,
            final(update).touched == old(update).touched,
            final(update).prev_created_path@ == if r is Ok && dirs.names_left().len() == 0 {
                repo_path::back_split(old(self).path@).0
            } else {
                old(update).prev_created_path@
            },
            final(self).same_entry(*old(self)),
            final(self).stage matches EntryStage::Parents(dirs) ==> {
                &&& path_model::valid_path(dirs.repo_path@)
                &&& dirs.repo_path@.len() > 0
            },
            final(self).descended(
                platform,
                dirs.dir_path@,
                dirs.names_left(),
                dirs.repo_path@,
                r,
            ),
    {
        let mut dirs = dirs;
        match dirs.next_dir(platform) {
            Ok(true) => {
                self.stage = EntryStage::Parents(dirs);
                Ok(DiskAction::CreateDir)
            },
            Ok(false) => match dirs.file_path(platform) {
                Ok(disk_path) => {
                    // Cache this path for the next one. This must occur after the directories
                    // were created, to ensure that the path is only set when no symlinks are
                    // encountered.
                    update.parents_created(self.path);
                    Ok(self.locate(disk_path))
                },
                Err(err) => Err(EntryError::InvalidPath(err)),
            },
            Err(err) => Err(EntryError::InvalidPath(err)),
        }
    }

    /// Starts with the next path that differs between the trees.
    pub fn begin(
        update: &mut TreeUpdate,
        context: &UpdateContext,
        path: RepoPath<'a>,
        before: &'a MergedTreeValue,
        after: MaterializedTreeValue,
        prev_exec: Option<ExecBit>,
    ) -> (r: Result<(EntryRun<'a>, DiskAction), EntryError>)
        requires
            old(update).wf(),
            old(update).stats.has_room(),
            path_model::valid_path(path@),
            path@.len() > 0,
            !(after is Tree),
            !old(update).touched@.contains(path@),
        ensures
            final(update).wf(),
            final(update).stats == checkout::counted(old(update).stats, before@, after),
            final(update).touched@ == old(update).touched@.push(path@),
            final(update).changed_file_states == old(update).changed_file_states,
            final(update).deleted_files == old(update).deleted_files,
            ({
                let names = path_model::components(path@);
                let shared = repo_path::common_len(
                    names,
                    path_model::components(old(update).prev_created_path@),
                );
                let known = names.take(shared);
                let kept = checkout::was_submodule(before@) && after is GitSubmodule;
                match r {
                    Ok((run, action)) => {
                        &&& run.active(*final(update))
                        &&& run.path == path && run.before == before && run.after == after
                            && run.prev_exec == prev_exec
                        &&& kept ==> run.stage is Finished && action == DiskAction::Nothing
                        &&& !kept && shared == names.len() ==> {
                            &&& repo_path_fs::first_invalid(context.platform, names) is None
                            &&& run.located_at(
                                repo_path_fs::or_current(
                                    context.working_copy_path@ + repo_path_fs::name_parts(names),
                                ),
                                action,
                            )
                        }
                        &&& !kept && shared < names.len() ==> {
                            &&& repo_path_fs::first_invalid(context.platform, known) is None
                            &&& run.descended(
                                context.platform,
                                repo_path_fs::or_current(
                                    context.working_copy_path@ + repo_path_fs::name_parts(known),
                                ),
                                names.skip(shared).drop_last(),
                                path_model::join_names(names.skip(shared)),
                                Ok(action),
                            )
                        }
                    },
                    Err(err) => {
                        &&& !kept
                        &&& err matches EntryError::InvalidPath(invalid)
                        &&& repo_path_fs::first_invalid(context.platform, names) == Some(
                            invalid.source.component@,
                        )
                        &&& invalid.path@ == if shared == names.len() {
                            path@
                        } else if repo_path_fs::first_invalid(context.platform, known) is Some {
                            path_model::join_names(known)
                        } else {
                            path_model::join_names(names.skip(shared))
                        }
                    },
                }
            }),
    {
        let start = update.start_entry(
            context.platform,
            &context.working_copy_path,
            path,
            before,
            &after,
        );
        let mut run = EntryRun { path, before, after, prev_exec, stage: EntryStage::Finished };
        proof {
            assert(update.touched@[update.touched@.len() - 1] == path@);
            let names = path_model::components(path@);
            let shared = repo_path::common_len(
                names,
                path_model::components(update.prev_created_path@),
            );
            repo_path::lemma_common_len(names, path_model::components(update.prev_created_path@));
            repo_path_fs::lemma_first_invalid_split(context.platform, names, shared);
            assert(names.take(names.len() as int) =~= names);
        }
        match start {
            Ok(EntryStart::Ignored) => Ok((run, DiskAction::Nothing)),
            Ok(EntryStart::InPlace(disk_path)) => {
                let action = run.locate(disk_path);
                Ok((run, action))
            },
            Ok(EntryStart::CreateParents { base, remainder }) => {
                proof {
                    path_model::lemma_components_valid(remainder@);
                    let names = path_model::components(path@);
                    let shared = repo_path::common_len(
                        names,
                        path_model::components(update.prev_created_path@),
                    );
                    assert(names.skip(shared).last() == names.last());
                }
                let dirs = ParentDirs::new(base, remainder);
                match run.descend(update, context.platform, dirs) {
                    Ok(action) => Ok((run, action)),
                    Err(err) => {
                        proof {
                            let left = path_model::components(remainder@);
                            if left.len() > 1 {
                                assert(left.drop_last()[0] == left[0]);
                            }
                            assert(left.last() == left[left.len() - 1]);
                        }
                        Err(err)
                    },
                }
            },
            Err(err) => Err(EntryError::InvalidPath(err)),
        }
    }
}

/// Whether two updates have recorded the same.
pub open spec fn same_records(a: TreeUpdate, b: TreeUpdate) -> bool {
    &&& a.stats == b.stats
    &&& a.changed_file_states == b.changed_file_states
    &&& a.deleted_files == b.deleted_files
    &&& a.touched == b.touched
}

/// Whether a path was skipped, and nothing else happened.
pub open spec fn skipped(before: TreeUpdate, after: TreeUpdate, path: Seq<char>) -> bool {
    &&& after.stats == (CheckoutStats {
        skipped_files: (before.stats.skipped_files + 1) as u32,
        ..before.stats
    })
    &&& after.changed_file_states@.len() == before.changed_file_states@.len() + 1
    &&& after.changed_file_states@.drop_last() == before.changed_file_states@
    &&& after.changed_file_states@.last().0@ == path
    &&& after.changed_file_states@.last().1 == FileState::unknown(
        FileType::Normal { exec_bit: ExecBit(false) },
    )
    &&& after.deleted_files == before.deleted_files
    &&& after.touched == before.touched
}

/// Whether it was recorded that a path was written, and nothing else happened.
/// `written` is the state that was found afterwards.
pub open spec fn wrote(
    before: TreeUpdate,
    after: TreeUpdate,
    path: Seq<char>,
    value: MaterializedTreeValue,
    action: WriteAction,
    written: FileState,
) -> bool {
    &&& after.stats == before.stats
    &&& after.touched == before.touched
    &&& if action is RemoveEmptyParents {
        &&& after.deleted_files@ == before.deleted_files@.push(path)
        &&& after.changed_file_states == before.changed_file_states
        &&& after.prev_created_path@.len() == 0
    } else {
        let state = if action is SubmoduleDir {
            FileState::unknown(FileType::GitSubmodule)
        } else {
            written
        };
        let changes = after.changed_file_states@;
        &&& after.deleted_files == before.deleted_files
        &&& changes.len() == before.changed_file_states@.len() + 1
        &&& changes.drop_last() == before.changed_file_states@
        &&& changes.last().0@ == path
        &&& changes.last().1 == checkout::recorded_state(value, state)
        &&& after.prev_created_path == before.prev_created_path
    }
}

impl<'a> EntryRun<'a> {
    fn skip(&mut self, update: &mut TreeUpdate) -> (r: DiskAction)
        requires
            old(update).wf(),
            old(update).stats.has_room(),
            path_model::valid_path(old(self).path@),
            old(update).touched@.contains(old(self).path@),
            !old(update).recorded(old(self).path@),
        ensures
            final(update).wf(),
            skipped(*old(update), *final(update), old(self).path@),
            final(update).prev_created_path == old(update).prev_created_path,
            final(self).same_entry(*old(self)),
            final(self).stage is Finished,
            r == DiskAction::Nothing,
    {
        let ghost before = update.changed_file_states@;
        update.skip_entry(self.path.to_owned());
        assert(update.changed_file_states@.drop_last() =~= before);
        self.stage = EntryStage::Finished;
        DiskAction::Nothing
    }

    fn go_write(&mut self, context: &UpdateContext, disk_path: FsPath) -> (r: DiskAction)
        requires
            !(old(self).after is Tree),
        ensures
            final(self).same_entry(*old(self)),
            final(self).stage == EntryStage::<'a>::Writing(disk_path, old(self).plan(*context)),
            r == DiskAction::Write(old(self).plan(*context)),
    {
        let action = checkout::plan_write(
            &self.after,
            context.platform,
            context.exec_policy,
            context.symlink_support,
            self.prev_exec,
        );
        self.stage = EntryStage::Writing(disk_path, action);
        DiskAction::Write(action)
    }

    /// The path that the next action is for.
    pub fn disk_path(&self) -> (r: Option<&FsPath>)
        ensures
            match self.stage {
                EntryStage::Parents(dirs) => r == Some(&dirs.dir_path),
                EntryStage::Removing(path) => r == Some(&path),
                EntryStage::Probing(path) => r == Some(&path),
                EntryStage::Writing(path, _) => r == Some(&path),
                EntryStage::Finished => r is None,
            },
    {
        match &self.stage {
            EntryStage::Parents(dirs) => Some(&dirs.dir_path),
            EntryStage::Removing(path) => Some(path),
            EntryStage::Probing(path) => Some(path),
            EntryStage::Writing(path, _) => Some(path),
            EntryStage::Finished => None,
        }
    }

    /// Goes on after the creation of a directory. `is_reserved` tells whether it
    /// turned out to be a reserved one.
    pub fn dir_created(
        &mut self,
        update: &mut TreeUpdate,
        context: &UpdateContext,
        mkdir: MkdirOutcome,
        is_reserved: bool,
    ) -> (r: Result<DiskAction, EntryError>)
        requires
            old(update).wf(),
            old(update).stats.has_room(),
            old(self).active(*old(update)),
            old(self).stage is Parents,
        ensures
            final(update).wf(),
            final(self).same_entry(*old(self)),
            match mkdir {
                MkdirOutcome::Failed => {
                    &&& r matches Err(EntryError::CannotCreateDir)
                    &&& *final(update) == *old(update)
                },
                MkdirOutcome::Created if is_reserved => {
                    &&& r matches Err(EntryError::Reserved { remove_created })
                    &&& remove_created
                    &&& *final(update) == *old(update)
                },
                MkdirOutcome::Existing { .. } if is_reserved => {
                    &&& r matches Err(EntryError::Reserved { remove_created })
                    &&& !remove_created
                    &&& *final(update) == *old(update)
                },
                // A file or symlink is in the way.
                MkdirOutcome::Existing { is_dir: false } => {
                    &&& r == Ok::<DiskAction, EntryError>(DiskAction::Nothing)
                    &&& final(self).stage is Finished
                    &&& skipped(*old(update), *final(update), old(self).path@)
                    &&& final(update).prev_created_path == old(update).prev_created_path
                },
                MkdirOutcome::Created | MkdirOutcome::Existing { is_dir: true } => {
                    let dirs = old(self).stage->Parents_0;
                    &&& same_records(*old(update), *final(update))
                    &&& final(self).descended(
                        context.platform,
                        dirs.dir_path@,
                        dirs.names_left(),
                        dirs.repo_path@,
                        r,
                    )
                    &&& r is Ok ==> final(self).active(*final(update))
                    &&& final(update).prev_created_path@ == if r is Ok && dirs.names_left().len()
                        == 0 {
                        repo_path::back_split(old(self).path@).0
                    } else {
                        old(update).prev_created_path@
                    }
                },
            },
    {
        let mut stage = EntryStage::Finished;
        std::mem::swap(&mut stage, &mut self.stage);
        match stage {
            EntryStage::Parents(dirs) => match checkout::parent_dir_step(mkdir, is_reserved) {
                ParentDirStep::Descend => self.descend(update, context.platform, dirs),
                ParentDirStep::Skip => Ok(self.skip(update)),
                ParentDirStep::Fail => Err(EntryError::CannotCreateDir),
                ParentDirStep::Reject => Err(EntryError::Reserved { remove_created: false }),
                ParentDirStep::RemoveAndReject => Err(
                    EntryError::Reserved { remove_created: true },
                ),
            },
            _ => Ok(DiskAction::Nothing),
        }
    }

    /// Goes on after the removal of the old file. `is_reserved` tells whether
    /// that is a reserved one, and so was not removed.
    pub fn removed(
        &mut self,
        context: &UpdateContext,
        outcome: RemoveOutcome,
        is_reserved: bool,
    ) -> (r: Result<DiskAction, EntryError>)
        requires
            old(self).stage is Removing,
            !(old(self).after is Tree),
        ensures
            final(self).same_entry(*old(self)),
            ({
                let submodule = checkout::was_submodule(old(self).before@);
                let disk_path = old(self).stage->Removing_0;
                if !submodule && is_reserved {
                    r matches Err(EntryError::Reserved { remove_created }) && !remove_created
                } else if outcome == RemoveOutcome::Removed {
                    &&& r == Ok::<DiskAction, EntryError>(
                        DiskAction::Write(old(self).plan(*context)),
                    )
                    &&& final(self).stage == EntryStage::<'a>::Writing(
                        disk_path,
                        old(self).plan(*context),
                    )
                } else if outcome == RemoveOutcome::NotFound || (submodule && outcome
                    == RemoveOutcome::NotEmpty) || (!submodule && outcome
                    == (RemoveOutcome::Failed { is_dir: true })) {
                    &&& r == Ok::<DiskAction, EntryError>(DiskAction::ProbeFile)
                    &&& final(self).stage == EntryStage::<'a>::Probing(disk_path)
                } else {
                    r matches Err(EntryError::CannotRemove)
                }
            }),
    {
        let submodule = match checkout::old_entry_removal(self.before) {
            Removal::SubmoduleDir => true,
            _ => false,
        };
        proof {
            // Nothing is never a submodule.
            if backend::absent(self.before@) {
                assert(backend::settled(self.before@) is None);
            }
        }
        if !submodule && is_reserved {
            return Err(EntryError::Reserved { remove_created: false });
        }
        let result = if submodule {
            checkout::remove_old_submodule_dir(outcome)
        } else {
            checkout::remove_old_file(outcome)
        };
        let mut stage = EntryStage::Finished;
        std::mem::swap(&mut stage, &mut self.stage);
        match stage {
            EntryStage::Removing(disk_path) => match result {
                Ok(true) => Ok(self.go_write(context, disk_path)),
                // If not, create temporary file to test the path validity.
                Ok(false) => {
                    self.stage = EntryStage::Probing(disk_path);
                    Ok(DiskAction::ProbeFile)
                },
                Err(_) => Err(EntryError::CannotRemove),
            },
            _ => Ok(DiskAction::Nothing),
        }
    }

    /// Goes on after the path was tried out. `is_reserved` tells whether the
    /// entry that is there turned out to be a reserved one, `is_dir` whether it
    /// is a directory.
    pub fn probed(
        &mut self,
        update: &mut TreeUpdate,
        context: &UpdateContext,
        probe: ProbeOutcome,
        is_reserved: bool,
        is_dir: bool,
    ) -> (r: Result<DiskAction, EntryError>)
        requires
            old(update).wf(),
            old(update).stats.has_room(),
            old(self).active(*old(update)),
            old(self).stage is Probing,
        ensures
            final(update).wf(),
            final(self).same_entry(*old(self)),
            ({
                let disk_path = old(self).stage->Probing_0;
                let in_the_way = probe != ProbeOutcome::Created;
                let tolerated = (old(self).after is GitSubmodule && is_dir) || (
                checkout::was_submodule(old(self).before@) && old(self).after is Absent);
                if probe == (ProbeOutcome::Failed { exists: false }) {
                    r matches Err(EntryError::CannotProbe) && *final(update) == *old(update)
                } else if is_reserved {
                    &&& r matches Err(EntryError::Reserved { remove_created })
                    &&& remove_created == !in_the_way
                    &&& *final(update) == *old(update)
                } else if in_the_way && !tolerated {
                    &&& r == Ok::<DiskAction, EntryError>(DiskAction::Nothing)
                    &&& final(self).stage is Finished
                    &&& skipped(*old(update), *final(update), old(self).path@)
                    &&& final(update).prev_created_path == old(update).prev_created_path
                } else {
                    &&& r == Ok::<DiskAction, EntryError>(
                        DiskAction::Write(old(self).plan(*context)),
                    )
                    &&& final(self).stage == EntryStage::<'a>::Writing(
                        disk_path,
                        old(self).plan(*context),
                    )
                    &&& *final(update) == *old(update)
                }
            }),
    {
        let mut stage = EntryStage::Finished;
        std::mem::swap(&mut stage, &mut self.stage);
        match stage {
            EntryStage::Probing(disk_path) => match checkout::can_create_new_file(
                probe,
                is_reserved,
            ) {
                ProbeStep::RemoveAndProceed => Ok(self.go_write(context, disk_path)),
                ProbeStep::Skip => {
                    if checkout::may_proceed(self.before, &self.after, false, false, is_dir) {
                        Ok(self.go_write(context, disk_path))
                    } else {
                        Ok(self.skip(update))
                    }
                },
                ProbeStep::RemoveAndReject => Err(EntryError::Reserved { remove_created: true }),
                ProbeStep::Reject => Err(EntryError::Reserved { remove_created: false }),
                ProbeStep::Fail => Err(EntryError::CannotProbe),
            },
            _ => Ok(DiskAction::Nothing),
        }
    }

    /// Records what was written: `written` is the state that was found
    /// afterwards, which is not needed where no file was written.
    pub fn written(&mut self, update: &mut TreeUpdate, written: FileState)
        requires
            old(update).wf(),
            old(self).active(*old(update)),
            old(self).stage is Writing,
        ensures
            final(update).wf(),
            final(self).same_entry(*old(self)),
            final(self).stage is Finished,
            wrote(
                *old(update),
                *final(update),
                old(self).path@,
                old(self).after,
                old(self).stage->Writing_1,
                written,
            ),
    {
        let ghost before = update.changed_file_states@;
        let mut stage = EntryStage::Finished;
        std::mem::swap(&mut stage, &mut self.stage);
        match stage {
            EntryStage::Writing(_, action) => match action {
                WriteAction::RemoveEmptyParents => {
                    update.finish_removed(self.path.to_owned());
                },
                WriteAction::SubmoduleDir => {
                    update.finish_written(
                        self.path.to_owned(),
                        &self.after,
                        FileState::for_gitsubmodule(),
                    );
                    assert(update.changed_file_states@.drop_last() =~= before);
                },
                _ => {
                    update.finish_written(self.path.to_owned(), &self.after, written);
                    assert(update.changed_file_states@.drop_last() =~= before);
                },
            },
            _ => {},
        }
    }
}

} // verus!
