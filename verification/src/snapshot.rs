//! Looking for changes of the files of a working copy.

use vstd::prelude::*;

use crate::backend::MergedTreeValue;
use crate::file_state;
use crate::file_state::DiskMetadata;
use crate::file_state::ExecChangePolicy;
use crate::file_state::FileState;
use crate::file_state::FileType;
use crate::file_state::MillisSinceEpoch;
use crate::file_state::MtimeOutOfRange;
use crate::file_states;
use crate::file_states::FileStates;
use crate::fs_path::FsPath;
use crate::matchers::SnapshotMatcher;
use crate::path_model;
use crate::platform::Platform;
use crate::repo_path::InvalidRepoPathError;
use crate::repo_path::RepoPath;
use crate::repo_path::RepoPathBuf;
use crate::repo_path::RepoPathComponent;
use crate::repo_path_fs;
use crate::reserved;
use crate::stored_value;
use crate::stored_value::StorePlan;
use crate::stored_value::StoredContents;

verus! {

/// Why a file is not tracked although it could be.
#[derive(Clone, Copy, Debug, PartialEq, Eq, Structural)]
pub enum UntrackedReason {
    /// File was larger than the specified maximum file size.
    FileTooLarge { size: u64, max_size: u64 },
    /// File does not match the paths that are tracked by themselves.
    FileNotAutoTracked,
}

/// Kind of a directory entry that is there.
#[derive(Clone, Copy, Debug, PartialEq, Eq, Structural)]
pub enum PresentDirEntryKind {
    Dir,
    File,
}

/// How to go on with a directory entry.
pub enum DirEntryStart<'a> {
    /// Leave it alone.
    Skip,
    /// Look at the directory, whose files have the given states.
    Directory { path: RepoPathBuf, file_states: FileStates<'a> },
    /// Look at the file, which has the given state if it is tracked.
    File { path: RepoPathBuf, current: Option<FileState> },
}

/// What is known of a directory.
#[derive(Clone, Copy, Debug, PartialEq, Eq, Structural)]
pub struct DirFacts {
    /// It has an entry with a reserved name.
    pub is_nested_repo: bool,
    /// It is ignored as a whole.
    pub is_ignored: bool,
    /// It may hold files that are to be tracked in any case.
    pub is_forced: bool,
}

/// What to do about a directory.
#[derive(Clone, Copy, Debug, PartialEq, Eq, Structural)]
pub enum DirStep {
    /// Leave it alone as if it were not there.
    Skip,
    /// Visit only files that are tracked already.
    VisitTracked,
    /// Visit its entries.
    Visit,
    /// It is there, but there is nothing to look at.
    Leave,
}

/// What is known of a file by its path.
#[derive(Clone, Copy, Debug, PartialEq, Eq, Structural)]
pub struct FileFacts {
    /// It is ignored.
    pub is_ignored: bool,
    /// It is to be tracked in any case.
    pub is_forced: bool,
    /// It is to be tracked unless it is ignored or too large.
    pub is_auto_tracked: bool,
}

/// What to do about a file.
#[derive(Clone, Copy, Debug, PartialEq, Eq, Structural)]
pub enum FileStep {
    /// Leave it alone as if it were not there.
    Skip,
    /// Report that it is not tracked.
    ReportUntracked(UntrackedReason),
    /// Look at its metadata.
    Inspect,
}

/// What to do about a file, by its metadata.
#[derive(Clone, Copy, Debug, PartialEq, Eq, Structural)]
pub enum InspectedStep {
    /// Special file is not considered present.
    Skip,
    /// Report that it is not tracked.
    ReportUntracked(UntrackedReason),
    /// Process the file, which has the given state now.
    Present(FileState),
}

/// Helper to scan local-disk directories and files.
pub struct FileSnapshotter<'a> {
    pub matcher: SnapshotMatcher<'a>,
    pub platform: Platform,
    pub exec_policy: ExecChangePolicy,
    pub symlink_support: bool,
    /// When the file states were last saved.
    pub own_mtime: MillisSinceEpoch,
    pub max_new_file_size: u64,
}

/// Whether the state of a path is that of a submodule.
pub open spec fn is_submodule_state(state: Option<FileState>) -> bool {
    state matches Some(state) && state.file_type is GitSubmodule
}

/// Starts with the entry `name` of the directory `dir`, whose files have the
/// given states.
pub fn start_dir_entry<'a>(
    dir: RepoPath<'_>,
    name: &str,
    is_dir: bool,
    file_states: FileStates<'a>,
) -> (r: DirEntryStart<'a>)
    requires
        path_model::valid_path(dir@),
        path_model::valid_name(name@),
        file_states.wf(),
        file_states::all_under(file_states@, dir@),
    ensures
        ({
            let entry_path = path_model::joined(dir@, name@);
            let state = file_states::lookup(file_states@, entry_path);
            let skipped = reserved::reserved_names().contains(name@) || is_submodule_state(state);
            match r {
                DirEntryStart::Skip => skipped,
                DirEntryStart::Directory { path, file_states: below } => {
                    &&& !skipped
                    &&& is_dir
                    &&& path@ == entry_path
                    &&& below.wf()
                    &&& below@ == file_states::entries_under(file_states@, entry_path)
                    &&& file_states::all_under(below@, entry_path)
                },
                DirEntryStart::File { path, current } => {
                    &&& !skipped
                    &&& !is_dir
                    &&& path@ == entry_path
                    &&& current == state
                },
            }
        }),
{
    if reserved::is_reserved_name(name) {
        return DirEntryStart::Skip;
    }
    let name = RepoPathComponent::new_unchecked(name);
    let path = dir.join(name);
    let current = file_states.get_at(dir, name);
    if let Some(state) = current {
        if let FileType::GitSubmodule = state.file_type {
            return DirEntryStart::Skip;
        }
    }
    if is_dir {
        let below = file_states.prefixed_at(dir, name);
        proof {
            file_states::lemma_entries_under(file_states@, path@);
        }
        DirEntryStart::Directory { path, file_states: below }
    } else {
        DirEntryStart::File { path, current }
    }
}

impl<'a> FileSnapshotter<'a> {
    /// What to do about a directory.
    pub open spec fn dir_step(&self, path: Seq<char>, facts: DirFacts) -> DirStep {
        if facts.is_nested_repo {
            DirStep::Skip
        } else if facts.is_ignored && !facts.is_forced {
            DirStep::VisitTracked
        } else if self.matcher.looks_into(path, facts.is_forced) {
            DirStep::Visit
        } else {
            DirStep::Leave
        }
    }

    /// What to do about a file.
    pub open spec fn file_step(
        &self,
        path: Seq<char>,
        current: Option<FileState>,
        facts: FileFacts,
    ) -> FileStep {
        if !self.matcher.looks_at(path, facts.is_forced) {
            FileStep::Skip
        } else if current is Some {
            FileStep::Inspect
        } else if facts.is_ignored && !facts.is_forced {
            FileStep::Skip
        } else if !facts.is_auto_tracked {
            FileStep::ReportUntracked(UntrackedReason::FileNotAutoTracked)
        } else {
            FileStep::Inspect
        }
    }

    /// Decides what to do about a directory.
    ///
    /// If a submodule was added in a commit, and another commit without it is
    /// checked out, then the submodule files stick around but it is no longer
    /// seen as a submodule. We need to ensure that it is not tracked as if it was
    /// added to the main repo. To solve this, we ignore all nested repos
    /// entirely.
    pub fn process_dir(&self, path: RepoPath<'_>, facts: DirFacts) -> (r: DirStep)
        requires
            self.matcher.wf(),
        ensures
            r == self.dir_step(path@, facts),
    {
        if facts.is_nested_repo {
            DirStep::Skip
        } else if facts.is_ignored && !facts.is_forced {
            // If the whole directory is ignored, visit only paths we're already
            // tracking. This is because ignore files in an ignored directory must
            // be ignored. It's also more efficient.
            DirStep::VisitTracked
        } else if self.matcher.visits(path, facts.is_forced) {
            DirStep::Visit
        } else {
            DirStep::Leave
        }
    }

    /// Decides what to do about a file, which has the state `current` if it is
    /// tracked.
    pub fn process_file(
        &self,
        path: RepoPath<'_>,
        current: Option<FileState>,
        facts: FileFacts,
    ) -> (r: FileStep)
        requires
            self.matcher.wf(),
        ensures
            r == self.file_step(path@, current, facts),
    {
        if !self.matcher.matches(path, facts.is_forced) {
            FileStep::Skip
        } else if current.is_some() {
            FileStep::Inspect
        } else if facts.is_ignored && !facts.is_forced {
            // If it wasn't already tracked and it matches the ignored paths, then
            // ignore it.
            FileStep::Skip
        } else if !facts.is_auto_tracked {
            // Leave the file untracked
            FileStep::ReportUntracked(UntrackedReason::FileNotAutoTracked)
        } else {
            FileStep::Inspect
        }
    }

    /// Decides what to do about a file by its metadata. Fails if its modification
    /// time cannot be stored.
    pub fn process_inspected(
        &self,
        current: Option<FileState>,
        is_forced: bool,
        metadata: &DiskMetadata,
    ) -> (r: Result<InspectedStep, MtimeOutOfRange>)
        ensures
            if current is None && metadata.len > self.max_new_file_size && !is_forced {
                r == Ok::<InspectedStep, MtimeOutOfRange>(
                    InspectedStep::ReportUntracked(
                        UntrackedReason::FileTooLarge {
                            size: metadata.len,
                            max_size: self.max_new_file_size,
                        },
                    ),
                )
            } else {
                r == match file_state::disk_file_state(self.platform, *metadata) {
                    Ok(Some(state)) => Ok(InspectedStep::Present(state)),
                    Ok(None) => Ok(InspectedStep::Skip),
                    Err(err) => Err::<InspectedStep, MtimeOutOfRange>(err),
                }
            },
    {
        if current.is_none() && metadata.len > self.max_new_file_size && !is_forced {
            // Leave the large file untracked
            let reason = UntrackedReason::FileTooLarge {
                size: metadata.len,
                max_size: self.max_new_file_size,
            };
            return Ok(InspectedStep::ReportUntracked(reason));
        }
        match file_state::file_state(self.platform, metadata) {
            Ok(Some(state)) => Ok(InspectedStep::Present(state)),
            Ok(None) => Ok(InspectedStep::Skip),
            Err(err) => Err(err),
        }
    }

    /// Where to look for a tracked file, if it is looked at. Submodules are not.
    /// Fails if the path has no counterpart on disk.
    pub fn tracked_file_path(
        &self,
        working_copy_path: &FsPath,
        path: RepoPath<'_>,
        state: FileState,
        is_forced: bool,
    ) -> (r: Result<Option<FsPath>, InvalidRepoPathError>)
        requires
            self.matcher.wf(),
        ensures
            ({
                let names = path_model::components(path@);
                let is_visited = !(state.file_type is GitSubmodule) && self.matcher.looks_at(
                    path@,
                    is_forced,
                );
                match r {
                    Ok(None) => !is_visited,
                    Ok(Some(disk_path)) => {
                        &&& is_visited
                        &&& repo_path_fs::first_invalid(self.platform, names) is None
                        &&& disk_path@ == repo_path_fs::or_current(
                            working_copy_path@ + repo_path_fs::name_parts(names),
                        )
                    },
                    Err(err) => {
                        &&& is_visited
                        &&& err.path@ == path@
                        &&& repo_path_fs::first_invalid(self.platform, names) == Some(
                            err.source.component@,
                        )
                    },
                }
            }),
    {
        if let FileType::GitSubmodule = state.file_type {
            return Ok(None);
        }
        if !self.matcher.matches(path, is_forced) {
            return Ok(None);
        }
        match path.to_fs_path_on(self.platform, working_copy_path) {
            Ok(disk_path) => Ok(Some(disk_path)),
            Err(err) => Err(err),
        }
    }

    /// The new state of a tracked file, if it is still there. Fails if its
    /// modification time cannot be stored.
    pub fn process_tracked(&self, metadata: Option<DiskMetadata>) -> (r: Result<
        Option<FileState>,
        MtimeOutOfRange,
    >)
        ensures
            r == match metadata {
                Some(metadata) => file_state::disk_file_state(self.platform, metadata),
                None => Ok::<Option<FileState>, MtimeOutOfRange>(None),
            },
    {
        match metadata {
            Some(metadata) => file_state::file_state(self.platform, &metadata),
            None => Ok(None),
        }
    }

    /// Whether the contents of a present file have to be looked at, because it may
    /// have changed since its state was recorded.
    pub fn may_have_changed(&self, current: Option<FileState>, new_state: &FileState) -> (r: bool)
        ensures
            r == !stored_value::known_clean(current, *new_state, self.own_mtime),
    {
        !stored_value::is_known_clean(current, new_state, self.own_mtime)
    }

    /// Decides how a present file is stored that may have changed. `current_value`
    /// is what the tree has at its path.
    pub fn plan_store(
        &self,
        current: Option<FileState>,
        new_state: &FileState,
        current_value: &MergedTreeValue,
    ) -> (r: StorePlan)
        requires
            !(new_state.file_type is GitSubmodule),
        ensures
            r == stored_value::store_plan(
                stored_value::stored_type(
                    self.symlink_support,
                    new_state.file_type,
                    current_value@,
                ),
                current_value@,
                stored_value::recorded_conflict(current),
            ),
    {
        stored_value::plan_store(self.symlink_support, new_state, current_value, current)
    }

    /// The new value in the tree of a file that was stored as planned, if it has
    /// changed.
    pub fn get_updated_tree_value(
        &self,
        plan: StorePlan,
        current_value: &MergedTreeValue,
        contents: StoredContents,
    ) -> (r: Option<MergedTreeValue>)
        requires
            stored_value::fits(plan, current_value@, contents),
        ensures
            ({
                let terms = stored_value::stored_terms(
                    plan,
                    self.exec_policy,
                    current_value@,
                    contents,
                );
                match r {
                    Some(value) => value@ == terms && terms != current_value@,
                    None => terms == current_value@,
                }
            }),
    {
        let new_value = stored_value::value_after_store(
            plan,
            self.exec_policy,
            current_value,
            contents,
        );
        stored_value::changed_value(current_value, new_value)
    }
}

} // verus!
