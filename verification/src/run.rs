//! Running a command across a set of revisions.

use vstd::prelude::*;
use vstd::string::StringExecFns;

use crate::backend::MergedTree;
use crate::eol::EolConversionMode;
use crate::eol::EolConversionSettings;
use crate::file_state::ExecChangeSetting;
use crate::fs_path;
use crate::fs_path::FsPath;
use crate::matchers::FsmonitorKind;
use crate::matchers::FsmonitorSettings;
use crate::repo_path;
use crate::repo_path::RepoPath;
use crate::settings::ConflictMarkerStyle;
use crate::settings::TreeStateSettings;
use crate::snapshot::UntrackedReason;
use crate::tree_state::SnapshotStats;

verus! {

/// What the user asks for.
///
/// Checks out each revision in an isolated working copy, runs the command, then
/// amends the revision with the resulting working copy. By default, descendants are
/// rebased on top of the amended revisions, propagating the diff.
#[derive(Clone, Debug, PartialEq, Eq)]
pub struct RunArgs {
    /// Command to run across all selected revisions
    pub command: String,
    /// Arguments to pass to the command
    pub args: Vec<String>,
    /// The revisions to change
    pub revisions: Vec<String>,
    /// A no-op option to match the interface of `git rebase -x`
    pub exec_flag: bool,
    /// How many processes should run in parallel
    ///
    /// Overrides the `run.jobs` config setting. Defaults to 1 if neither is set.
    pub jobs: Option<usize>,
    /// Run the command from the working-copy root in each commit instead of from the
    /// subdirectory that the user is in.
    pub root: bool,
    /// Delete each working copy before running the command
    pub clean: bool,
    /// Preserve the content (not the diff) when rebasing descendants
    pub restore_descendants: bool,
}

/// Where a wrong number comes from.
#[derive(Clone, Copy, Debug, PartialEq, Eq, Structural)]
pub enum JobCountOrigin {
    /// The command line.
    Cli,
    /// The configuration, where a count cannot be zero.
    Config,
    /// The configuration, with a number that is no count at all.
    User,
}

/// The number of jobs is not a positive integer.
#[derive(Clone, Copy, Debug, PartialEq, Eq, Structural)]
pub struct InvalidJobCount {
    pub origin: JobCountOrigin,
    pub value: i64,
}

/// How many jobs to run, by the command line and the configuration.
pub open spec fn job_count(jobs: Option<usize>, configured: Option<i64>) -> Result<
    usize,
    InvalidJobCount,
> {
    match jobs {
        Some(jobs) => if jobs == 0 {
            Err(InvalidJobCount { origin: JobCountOrigin::Cli, value: 0 })
        } else {
            Ok(jobs)
        },
        None => match configured {
            Some(size) => if size < 0 || size > usize::MAX {
                Err(InvalidJobCount { origin: JobCountOrigin::User, value: size })
            } else if size == 0 {
                Err(InvalidJobCount { origin: JobCountOrigin::Config, value: 0 })
            } else {
                Ok(size as usize)
            },
            None => Ok(1),
        },
    }
}

/// Precedence: the command line, the `run.jobs` config, 1.
pub fn resolve_jobs(jobs: Option<usize>, configured: Option<i64>) -> (r: Result<
    usize,
    InvalidJobCount,
>)
    ensures
        r == job_count(jobs, configured),
        r matches Ok(count) ==> count > 0,
{
    match jobs {
        Some(jobs) => if jobs == 0 {
            Err(InvalidJobCount { origin: JobCountOrigin::Cli, value: 0 })
        } else {
            Ok(jobs)
        },
        None => match configured {
            Some(size) => if size < 0 || size as u64 > usize::MAX as u64 {
                Err(InvalidJobCount { origin: JobCountOrigin::User, value: size })
            } else if size == 0 {
                Err(InvalidJobCount { origin: JobCountOrigin::Config, value: 0 })
            } else {
                Ok(size as usize)
            },
            None => Ok(1),
        },
    }
}

/// The settings of the workspaces that commands are run in.
pub fn default_tree_state_settings() -> (r: TreeStateSettings)
    ensures
        r.conflict_marker_style == ConflictMarkerStyle::Snapshot,
        r.eol_conversion_settings == (EolConversionSettings {
            use_git_attributes: false,
            default_eol_attributes: EolConversionMode::Disabled,
            eol_conversion_mode: EolConversionMode::Disabled,
        }),
        r.exec_change_setting == ExecChangeSetting::Auto,
        r.fsmonitor_settings@ == FsmonitorKind::Disabled,
{
    TreeStateSettings {
        conflict_marker_style: ConflictMarkerStyle::Snapshot,
        eol_conversion_settings: EolConversionSettings {
            use_git_attributes: false,
            default_eol_attributes: EolConversionMode::Disabled,
            eol_conversion_mode: EolConversionMode::Disabled,
        },
        exec_change_setting: ExecChangeSetting::Auto,
        fsmonitor_settings: FsmonitorSettings::Disabled,
    }
}

/// Whether the revisions are taken from the configuration.
pub fn uses_configured_revisions(args: &RunArgs) -> (r: bool)
    ensures
        r == (args.revisions@.len() == 0),
{
    args.revisions.len() == 0
}

/// A command, its arguments, and the workspace-relative directory it should run in.
#[derive(Debug)]
pub struct CommandSpec {
    pub program: String,
    pub args: Vec<String>,
    /// Working directory for the subprocess, relative to the workspace root. Empty
    /// means run from the workspace root.
    pub subdir: Option<FsPath>,
}

/// A program and its arguments in one line.
pub open spec fn command_line(program: Seq<char>, args: Seq<String>) -> Seq<char>
    decreases args.len(),
{
    if args.len() == 0 {
        program
    } else {
        command_line(program, args.drop_last()) + seq![' '] + args.last()@
    }
}

/// The directory to run commands in, relative to the workspace root: that from which
/// the user called, unless they asked for the root.
pub open spec fn subdir_parts(
    root: bool,
    cwd: Seq<fs_path::FsPart>,
    workspace_root: Seq<fs_path::FsPart>,
) -> Option<Seq<fs_path::FsPart>> {
    if root {
        None
    } else {
        match fs_path::parts_below(workspace_root, cwd) {
            Some(parts) => Some(parts),
            None => Some(Seq::empty()),
        }
    }
}

fn copy_texts(texts: &Vec<String>) -> (r: Vec<String>)
    ensures
        r@.len() == texts@.len(),
        forall|i: int| 0 <= i < r@.len() ==> (#[trigger] r@[i])@ == texts@[i]@,
{
    let mut out: Vec<String> = Vec::new();
    let mut i: usize = 0;
    while i < texts.len()
        invariant
            i <= texts@.len(),
            i == out@.len(),
            forall|j: int| 0 <= j < i ==> (#[trigger] out@[j])@ == texts@[j]@,
        decreases texts@.len() - i,
    {
        out.push(texts[i].clone());
        i += 1;
    }
    out
}

impl CommandSpec {
    /// The command that the user asks for, called from `cwd`.
    pub fn new(args: &RunArgs, cwd: &FsPath, workspace_root: &FsPath) -> (r: CommandSpec)
        ensures
            r.program@ == args.command@,
            r.args@.len() == args.args@.len(),
            forall|i: int| 0 <= i < r.args@.len() ==> (#[trigger] r.args@[i])@ == args.args@[i]@,
            match r.subdir {
                Some(path) => subdir_parts(args.root, cwd@, workspace_root@) == Some(path@),
                None => subdir_parts(args.root, cwd@, workspace_root@) is None,
            },
    {
        let subdir = if args.root {
            None
        } else {
            match cwd.strip_prefix(workspace_root) {
                Some(path) => Some(path),
                None => Some(FsPath::new()),
            }
        };
        CommandSpec { program: args.command.clone(), args: copy_texts(&args.args), subdir }
    }

    /// The program and its arguments in one line.
    pub fn to_text(&self) -> (r: String)
        ensures
            r@ == command_line(self.program@, self.args@),
    {
        let mut out = self.program.clone();
        let mut i: usize = 0;
        assert(self.args@.take(0) =~= Seq::empty());
        while i < self.args.len()
            invariant
                i <= self.args@.len(),
                out@ == command_line(self.program@, self.args@.take(i as int)),
            decreases self.args@.len() - i,
        {
            proof {
                assert(self.args@.take(i + 1).drop_last() =~= self.args@.take(i as int));
                assert(self.args@.take(i + 1).last() == self.args@[i as int]);
            }
            out.push(' ');
            out.append(self.args[i].as_str());
            assert(out@ =~= command_line(self.program@, self.args@.take(i + 1)));
            i += 1;
        }
        assert(self.args@.take(i as int) =~= self.args@);
        out
    }

    /// The directory in which the command runs, in the given working copy.
    pub fn exec_dir(&self, working_copy_dir: &FsPath) -> (r: FsPath)
        ensures
            r@ == match self.subdir {
                Some(subdir) => fs_path::path_joined(working_copy_dir@, subdir@),
                None => working_copy_dir@,
            },
    {
        match &self.subdir {
            Some(subdir) => working_copy_dir.join(subdir),
            None => working_copy_dir.duplicate(),
        }
    }

    /// Whether a commit is skipped because the directory does not exist in it.
    pub fn skips_commit(&self, exec_dir_exists: bool) -> (r: bool)
        ensures
            r == (self.subdir is Some && !exec_dir_exists),
    {
        self.subdir.is_some() && !exec_dir_exists
    }
}

/// How a command has ended, with the text by which it is reported.
#[derive(Debug)]
pub struct CommandStatus {
    pub success: bool,
    pub text: String,
}

/// The result of a single command invocation.
#[derive(Debug)]
pub struct RunJob {
    /// The old id of the commit.
    pub old_id: Vec<u8>,
    /// The original tree of the commit before the command ran.
    pub old_tree: MergedTree,
    /// The id of the new tree generated from the commit. `None` when the command
    /// wasn't run or has failed.
    pub new_tree: Option<Vec<u8>>,
    /// Was the tree even modified.
    pub dirty: bool,
    /// Bytes the subprocess wrote to its stdout, captured in full.
    pub stdout: Vec<u8>,
    /// Bytes the subprocess wrote to its stderr, captured in full.
    pub stderr: Vec<u8>,
    /// True if the command wasn't run because its directory didn't exist in this
    /// commit's tree.
    pub skipped: bool,
    /// How the command has ended, if it ran.
    pub status: Option<CommandStatus>,
}

impl RunJob {
    /// The command was not run.
    pub fn skipped(old_id: Vec<u8>, old_tree: MergedTree) -> (r: RunJob)
        ensures
            r.old_id == old_id,
            r.old_tree == old_tree,
            r.new_tree is None,
            !r.dirty,
            r.stdout@.len() == 0,
            r.stderr@.len() == 0,
            r.skipped,
            r.status is None,
    {
        RunJob {
            old_id,
            old_tree,
            new_tree: None,
            dirty: false,
            stdout: Vec::new(),
            stderr: Vec::new(),
            skipped: true,
            status: None,
        }
    }

    /// The command was run. `current_tree` is the tree of the working copy afterwards,
    /// which has no conflicts if the command has succeeded.
    pub fn finished(
        old_id: Vec<u8>,
        old_tree: MergedTree,
        current_tree: &MergedTree,
        dirty: bool,
        stdout: Vec<u8>,
        stderr: Vec<u8>,
        status: CommandStatus,
    ) -> (r: RunJob)
        requires
            status.success ==> current_tree@.tree_ids.len() == 1,
        ensures
            r.old_id == old_id,
            r.old_tree == old_tree,
            match r.new_tree {
                Some(id) => status.success && current_tree@.tree_ids == seq![id@],
                None => !status.success,
            },
            r.dirty == dirty,
            r.stdout == stdout,
            r.stderr == stderr,
            !r.skipped,
            r.status == Some(status),
    {
        let new_tree = if status.success {
            assert(current_tree.tree_ids@.len() == current_tree@.tree_ids.len());
            let id = fs_path::copy_bytes(&current_tree.tree_ids[0]);
            assert(current_tree@.tree_ids =~= seq![id@]);
            Some(id)
        } else {
            None
        };
        RunJob {
            old_id,
            old_tree,
            new_tree,
            dirty,
            stdout,
            stderr,
            skipped: false,
            status: Some(status),
        }
    }
}

/// The files to remove after a command was run: if it has failed, the untracked files
/// that it left. Ignored files survive for build-artifact reuse.
pub fn files_to_remove<'a>(success: bool, stats: &'a SnapshotStats) -> (r: Vec<RepoPath<'a>>)
    ensures
        repo_path::path_texts(r@) == if success {
            Seq::empty()
        } else {
            untracked_texts(stats.untracked_paths@)
        },
{
    let mut out: Vec<RepoPath<'a>> = Vec::new();
    let ghost texts = untracked_texts(stats.untracked_paths@);
    assert(repo_path::path_texts(out@) =~= texts.take(0));
    assert(repo_path::path_texts(out@) =~= Seq::empty());
    if !success {
        let mut i: usize = 0;
        while i < stats.untracked_paths.len()
            invariant
                i <= stats.untracked_paths@.len(),
                texts == untracked_texts(stats.untracked_paths@),
                repo_path::path_texts(out@) == texts.take(i as int),
            decreases stats.untracked_paths@.len() - i,
        {
            let ghost before = repo_path::path_texts(out@);
            let path = stats.untracked_paths[i].0.as_ref();
            out.push(path);
            assert(repo_path::path_texts(out@) =~= before.push(path@));
            assert(texts.take(i + 1) =~= texts.take(i as int).push(texts[i as int]));
            i += 1;
        }
        assert(texts.take(i as int) =~= texts);
    }
    out
}

/// The paths of untracked files.
pub open spec fn untracked_texts(
    untracked: Seq<(repo_path::RepoPathBuf, UntrackedReason)>,
) -> Seq<Seq<char>> {
    untracked.map_values(|entry: (repo_path::RepoPathBuf, UntrackedReason)| entry.0@)
}

} // verus!
