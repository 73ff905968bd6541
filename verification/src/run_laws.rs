//! What commands that are run across revisions find, leave behind and change.
//!
//! The laws speak of what the functions are called with and of what they return.

use vstd::prelude::*;

use crate::backend::MergedTree;
use crate::backend::TreeEntry;
use crate::checkout;
use crate::eol::EolConversionMode;
use crate::file_state::ExecChangeSetting;
use crate::fs_path;
use crate::fs_path::FsPart;
use crate::fs_path::FsPath;
use crate::matchers::FsmonitorSettings;
use crate::repo_path;
use crate::repo_path::RepoPath;
use crate::repo_path::RepoPathBuf;
use crate::repo_path_fs;
use crate::rewrites;
use crate::rewrites::JobReport;
use crate::rewrites::RewriteAction;
use crate::rewrites::RewriteRun;
use crate::rewrites::Rewrites;
use crate::rewrites::RewrittenCommit;
use crate::run;
use crate::run::CommandSpec;
use crate::run::CommandStatus;
use crate::run::InvalidJobCount;
use crate::run::JobCountOrigin;
use crate::run::RunArgs;
use crate::run::RunJob;
use crate::settings::ConflictMarkerStyle;
use crate::settings::TreeStateSettings;
use crate::text;
use crate::tree_state::SnapshotStats;
use crate::workspace_pool;
use crate::workspace_pool::DiffEntry;
use crate::workspace_pool::PrepareStep;
use crate::workspace_pool::SearchStep;
use crate::workspace_pool::SlotSearch;
use crate::workspace_pool::WorkspacePool;

verus! {

/// After a command has failed, each untracked file is removed, whatever the reason is for
/// which it is untracked, and no other. After one that has succeeded, none is.
pub proof fn lemma_files_removed<'a>(
    success: bool,
    stats: &'a SnapshotStats,
    r: Vec<RepoPath<'a>>,
)
    requires
        call_ensures(run::files_to_remove, (success, stats), r),
    ensures
        success ==> r@.len() == 0,
        !success ==> r@.len() == stats.untracked_paths@.len() && forall|i: int|
            0 <= i < r@.len() ==> (#[trigger] r@[i])@ == stats.untracked_paths@[i].0@,
{
    let texts = repo_path::path_texts(r@);
    assert(texts.len() == r@.len());
    if !success {
        let expected = run::untracked_texts(stats.untracked_paths@);
        assert(texts == expected);
        assert(expected.len() == stats.untracked_paths@.len());
        assert forall|i: int| 0 <= i < r@.len() implies (#[trigger] r@[i])@
            == stats.untracked_paths@[i].0@ by {
            assert(texts[i] == r@[i]@);
            assert(expected[i] == stats.untracked_paths@[i].0@);
        }
    }
}

/// A number on the command line is taken, whatever is configured, unless it is zero.
pub proof fn lemma_jobs_asked_for(
    jobs: usize,
    configured: Option<i64>,
    r: Result<usize, InvalidJobCount>,
)
    requires
        call_ensures(run::resolve_jobs, (Some(jobs), configured), r),
    ensures
        jobs > 0 ==> r == Ok::<usize, InvalidJobCount>(jobs),
        jobs == 0 ==> r == Err::<usize, InvalidJobCount>(
            InvalidJobCount { origin: JobCountOrigin::Cli, value: 0 },
        ),
{
}

/// Without a number on the command line the one that is configured is taken, which has to be
/// a count and not zero. Without any there is one job.
pub proof fn lemma_jobs_configured(configured: Option<i64>, r: Result<usize, InvalidJobCount>)
    requires
        call_ensures(run::resolve_jobs, (None::<usize>, configured), r),
    ensures
        configured is None ==> r == Ok::<usize, InvalidJobCount>(1),
        configured matches Some(size) ==> {
            &&& 0 < size <= usize::MAX ==> (r matches Ok(count) && count == size)
            &&& size == 0 ==> r == Err::<usize, InvalidJobCount>(
                InvalidJobCount { origin: JobCountOrigin::Config, value: 0 },
            )
            &&& size < 0 || size > usize::MAX ==> r == Err::<usize, InvalidJobCount>(
                InvalidJobCount { origin: JobCountOrigin::User, value: size },
            )
        },
{
}

/// What is configured for the user's own workspace has no effect on those of commands:
/// contents are not converted, nothing is monitored, and the executable bit is respected
/// where the filesystem has it.
pub proof fn lemma_isolated_settings(r: TreeStateSettings)
    requires
        call_ensures(run::default_tree_state_settings, (), r),
    ensures
        r.conflict_marker_style == ConflictMarkerStyle::Snapshot,
        !r.eol_conversion_settings.use_git_attributes,
        r.eol_conversion_settings.default_eol_attributes == EolConversionMode::Disabled,
        r.eol_conversion_settings.eol_conversion_mode == EolConversionMode::Disabled,
        r.exec_change_setting == ExecChangeSetting::Auto,
        r.fsmonitor_settings == FsmonitorSettings::Disabled,
{
}

/// The revisions are taken from the configuration exactly if none are named.
pub proof fn lemma_configured_revisions(args: RunArgs, r: bool)
    requires
        call_ensures(run::uses_configured_revisions, (&args,), r),
    ensures
        r <==> args.revisions@.len() == 0,
{
}

/// A command is written with its arguments in their order, each behind a space.
pub proof fn lemma_command_text(spec: CommandSpec, longer: CommandSpec, r: String, s: String)
    requires
        call_ensures(CommandSpec::to_text, (&spec,), r),
        call_ensures(CommandSpec::to_text, (&longer,), s),
    ensures
        spec.args@.len() == 0 ==> r@ == spec.program@,
        longer.program@ == spec.program@ && longer.args@.len() > 0 && longer.args@.drop_last()
            == spec.args@ ==> s@ == r@ + seq![' '] + longer.args@.last()@,
{
}

/// A path of names only is put behind any other as it is.
proof fn lemma_names_joined(dir: Seq<FsPart>, names: Seq<FsPart>)
    requires
        forall|i: int| 0 <= i < names.len() ==> #[trigger] names[i] is Normal,
    ensures
        fs_path::path_joined(dir, names) == dir + names,
{
    lemma_names_joined_verbatim(dir, names);
}

proof fn lemma_names_joined_verbatim(dir: Seq<FsPart>, names: Seq<FsPart>)
    requires
        forall|i: int| 0 <= i < names.len() ==> #[trigger] names[i] is Normal,
    ensures
        fs_path::verbatim_joined(dir, names) == dir + names,
    decreases names.len(),
{
    if names.len() == 0 {
        assert(dir + names =~= dir);
    } else {
        let before = names.drop_last();
        assert forall|i: int| 0 <= i < before.len() implies #[trigger] before[i] is Normal by {
            assert(before[i] == names[i]);
        }
        lemma_names_joined_verbatim(dir, before);
        assert(names[names.len() - 1] is Normal);
        assert((dir + before).push(names.last()) =~= dir + names);
    }
}

/// A command is the one that the user has given, with their arguments in order.
pub proof fn lemma_command_given(
    args: RunArgs,
    cwd: FsPath,
    workspace_root: FsPath,
    spec: CommandSpec,
)
    requires
        call_ensures(CommandSpec::new, (&args, &cwd, &workspace_root), spec),
    ensures
        spec.program@ == args.command@,
        spec.args@.len() == args.args@.len(),
        forall|i: int|
            0 <= i < args.args@.len() ==> (#[trigger] spec.args@[i])@ == args.args@[i]@,
{
}

/// A command that the user calls in a subdirectory of their workspace runs in the same
/// subdirectory of the working copy of each commit, and commits without it are skipped. One
/// for which they ask for the root runs there, in all commits.
pub proof fn lemma_command_dir(
    args: RunArgs,
    cwd: FsPath,
    workspace_root: FsPath,
    names: Seq<FsPart>,
    working_copy_dir: FsPath,
    exec_dir_exists: bool,
    spec: CommandSpec,
    dir: FsPath,
    is_skipped: bool,
)
    requires
        forall|i: int| 0 <= i < workspace_root@.len() ==> !(#[trigger] workspace_root@[i]
            is CurDir),
        forall|i: int| 0 <= i < names.len() ==> #[trigger] names[i] is Normal,
        cwd@ == workspace_root@ + names,
        call_ensures(CommandSpec::new, (&args, &cwd, &workspace_root), spec),
        call_ensures(CommandSpec::exec_dir, (&spec, &working_copy_dir), dir),
        call_ensures(CommandSpec::skips_commit, (&spec, exec_dir_exists), is_skipped),
    ensures
        args.root ==> dir@ == working_copy_dir@,
        !args.root ==> dir@ == working_copy_dir@ + names,
        is_skipped <==> !args.root && !exec_dir_exists,
{
    assert forall|i: int| 0 <= i < cwd@.len() implies !(#[trigger] cwd@[i] is CurDir) by {
        if i < workspace_root@.len() {
            assert(cwd@[i] == workspace_root@[i]);
        } else {
            assert(cwd@[i] == names[i - workspace_root@.len()]);
        }
    }
    repo_path_fs::lemma_all_significant(cwd@);
    repo_path_fs::lemma_all_significant(workspace_root@);
    assert(workspace_root@.is_prefix_of(cwd@)) by {
        assert(cwd@.subrange(0, workspace_root@.len() as int) =~= workspace_root@);
    }
    assert(cwd@.skip(workspace_root@.len() as int) =~= names);
    lemma_names_joined(working_copy_dir@, names);
}

/// A command that the user calls from outside their workspace runs at the root of each
/// working copy.
pub proof fn lemma_command_from_outside(
    args: RunArgs,
    cwd: FsPath,
    workspace_root: FsPath,
    working_copy_dir: FsPath,
    spec: CommandSpec,
    dir: FsPath,
)
    requires
        forall|i: int| 0 <= i < workspace_root@.len() ==> !(#[trigger] workspace_root@[i]
            is CurDir),
        forall|i: int| 0 <= i < cwd@.len() ==> !(#[trigger] cwd@[i] is CurDir),
        !workspace_root@.is_prefix_of(cwd@),
        call_ensures(CommandSpec::new, (&args, &cwd, &workspace_root), spec),
        call_ensures(CommandSpec::exec_dir, (&spec, &working_copy_dir), dir),
    ensures
        dir@ == working_copy_dir@,
{
    repo_path_fs::lemma_all_significant(cwd@);
    repo_path_fs::lemma_all_significant(workspace_root@);
    lemma_names_joined(working_copy_dir@, Seq::empty());
    assert(working_copy_dir@ + Seq::<FsPart>::empty() =~= working_copy_dir@);
}

/// A commit for which the command was not run stays as it is. That is reported, with the id
/// of the commit and the directory that it does not have.
pub proof fn lemma_skipped_job(
    old_id: Vec<u8>,
    old_tree: MergedTree,
    job: RunJob,
    spec: CommandSpec,
    separator: char,
    id_text: String,
    subdir_text: String,
    changes: &mut Rewrites,
    report: JobReport,
)
    requires
        spec.subdir is Some,
        call_ensures(RunJob::skipped, (old_id, old_tree), job),
        call_ensures(rewrites::hex_text, (&old_id,), id_text),
        call_ensures(FsPath::display, (&spec.subdir->0, separator), subdir_text),
        call_ensures(Rewrites::process_job, (changes, job, &spec, separator), report),
    ensures
        *final(changes) == *old(changes),
        report.failure is None,
        report.stdout@.len() == 0,
        report.stderr@.len() == 0,
        report.skip_message is Some,
        report.skip_message->0@ == "Skipped commit "@ + id_text@
            + ": directory does not exist: "@ + subdir_text@,
{
}

/// A commit for which the command has failed stays as it is. What the command wrote is
/// shown, and all work ends, with a message that names the command, how it has ended and the
/// commit.
pub proof fn lemma_failed_job(
    old_id: Vec<u8>,
    old_tree: MergedTree,
    current_tree: MergedTree,
    dirty: bool,
    stdout: Vec<u8>,
    stderr: Vec<u8>,
    status: CommandStatus,
    job: RunJob,
    spec: CommandSpec,
    separator: char,
    command_text: String,
    id_text: String,
    changes: &mut Rewrites,
    report: JobReport,
)
    requires
        !status.success,
        call_ensures(
            RunJob::finished,
            (old_id, old_tree, &current_tree, dirty, stdout, stderr, status),
            job,
        ),
        call_ensures(CommandSpec::to_text, (&spec,), command_text),
        call_ensures(rewrites::hex_text, (&old_id,), id_text),
        call_ensures(Rewrites::process_job, (changes, job, &spec, separator), report),
    ensures
        job.new_tree is None,
        !job.skipped,
        *final(changes) == *old(changes),
        report.skip_message is None,
        report.stdout@ == stdout@,
        report.stderr@ == stderr@,
        report.failure is Some,
        report.failure->0.message@ == "the command '"@ + command_text@ + "' failed with "@
            + status.text@ + " for commit "@ + id_text@,
{
}

/// A commit for which the command has succeeded gets the tree of the working copy exactly if
/// files have changed. What the command wrote is shown.
pub proof fn lemma_succeeded_job(
    old_id: Vec<u8>,
    old_tree: MergedTree,
    current_tree: MergedTree,
    dirty: bool,
    stdout: Vec<u8>,
    stderr: Vec<u8>,
    status: CommandStatus,
    job: RunJob,
    spec: CommandSpec,
    separator: char,
    changes: &mut Rewrites,
    report: JobReport,
)
    requires
        status.success,
        current_tree@.tree_ids.len() == 1,
        call_ensures(
            RunJob::finished,
            (old_id, old_tree, &current_tree, dirty, stdout, stderr, status),
            job,
        ),
        call_ensures(Rewrites::process_job, (changes, job, &spec, separator), report),
    ensures
        report.failure is None,
        report.skip_message is None,
        report.stdout@ == stdout@,
        report.stderr@ == stderr@,
        !dirty ==> *final(changes) == *old(changes),
        dirty ==> {
            let entries = final(changes).entries@;
            &&& entries.len() == old(changes).entries@.len() + 1
            &&& entries.drop_last() == old(changes).entries@
            &&& entries.last().old_id@ == old_id@
            &&& entries.last().old_tree == old_tree
            &&& entries.last().new_tree@ == current_tree@.tree_ids[0]
        },
{
    let entry = RewrittenCommit {
        old_id: job.old_id,
        old_tree: job.old_tree,
        new_tree: job.new_tree->0,
    };
    assert(dirty ==> final(changes).entries@ == old(changes).entries@.push(entry));
    assert(old(changes).entries@.push(entry).drop_last() =~= old(changes).entries@);
}

/// What is recorded last for a commit is what is found for it, and nothing is found for a
/// commit for which nothing was recorded.
pub proof fn lemma_recorded_commit(
    recorded: Rewrites,
    old_id: Vec<u8>,
    r: Option<&RewrittenCommit>,
)
    requires
        call_ensures(Rewrites::get, (&recorded, &old_id), r),
    ensures
        match r {
            Some(entry) => exists|i: int|
                0 <= i < recorded.entries@.len() && #[trigger] recorded.entries@[i] == *entry
                    && entry.old_id@ == old_id@ && forall|j: int|
                    i < j < recorded.entries@.len() ==> (#[trigger] recorded.entries@[j]).old_id@
                        != old_id@,
            None => forall|j: int|
                0 <= j < recorded.entries@.len() ==> (#[trigger] recorded.entries@[j]).old_id@
                    != old_id@,
        },
{
    lemma_recorded_last(recorded.entries@, old_id@);
}

proof fn lemma_recorded_last(entries: Seq<RewrittenCommit>, old_id: Seq<u8>)
    ensures
        match rewrites::recorded_for(entries, old_id) {
            Some(entry) => exists|i: int|
                0 <= i < entries.len() && #[trigger] entries[i] == entry && entry.old_id@ == old_id
                    && forall|j: int|
                    i < j < entries.len() ==> (#[trigger] entries[j]).old_id@ != old_id,
            None => forall|j: int|
                0 <= j < entries.len() ==> (#[trigger] entries[j]).old_id@ != old_id,
        },
    decreases entries.len(),
{
    if entries.len() > 0 {
        let before = entries.drop_last();
        let n = before.len() as int;
        lemma_recorded_last(before, old_id);
        assert(entries[n] == entries.last());
        if entries.last().old_id@ != old_id {
            match rewrites::recorded_for(before, old_id) {
                Some(entry) => {
                    let i = choose|i: int|
                        0 <= i < before.len() && #[trigger] before[i] == entry && entry.old_id@
                            == old_id && forall|j: int|
                            i < j < before.len() ==> (#[trigger] before[j]).old_id@ != old_id;
                    assert(entries[i] == entry);
                    assert forall|j: int| i < j < entries.len() implies (
                    #[trigger] entries[j]).old_id@ != old_id by {
                        if j < n {
                            assert(before[j] == entries[j]);
                        }
                    }
                },
                None => {
                    assert forall|j: int| 0 <= j < entries.len() implies (
                    #[trigger] entries[j]).old_id@ != old_id by {
                        if j < n {
                            assert(before[j] == entries[j]);
                        }
                    }
                },
            }
        }
    }
}

/// A commit that a command has changed is given the tree that the command made, and counts
/// as rewritten. If descendants keep their content, so does the tree; else what the command
/// did is merged into what the ancestors have become.
pub proof fn lemma_changed_commit_rewritten<'a>(
    state: &mut RewriteRun<'a>,
    old_id: Vec<u8>,
    entry: &RewrittenCommit,
    r: RewriteAction<'a>,
)
    requires
        call_ensures(Rewrites::get, (old(state).rewrites, &old_id), Some(entry)),
        call_ensures(RewriteRun::<'a>::next_commit, (state, &old_id), r),
    ensures
        old(state).restore_descendants ==> (r matches RewriteAction::ReplaceTree { new_tree }
            && new_tree@ == entry.new_tree@),
        !old(state).restore_descendants ==> (r matches RewriteAction::MergeChange {
            new_tree,
            old_tree,
        } && new_tree@ == entry.new_tree@ && *old_tree == entry.old_tree),
        final(state).count == old(state).count + 1,
        final(state).num_reparented == old(state).num_reparented,
        final(state).rewrites == old(state).rewrites,
        final(state).restore_descendants == old(state).restore_descendants,
{
}

/// A descendant that no command has changed keeps its content exactly if that is asked for,
/// and then counts as put on new parents. It never counts as rewritten.
pub proof fn lemma_other_commit_rebased<'a>(
    state: &mut RewriteRun<'a>,
    old_id: Vec<u8>,
    r: RewriteAction<'a>,
)
    requires
        call_ensures(Rewrites::get, (old(state).rewrites, &old_id), None::<&RewrittenCommit>),
        call_ensures(RewriteRun::<'a>::next_commit, (state, &old_id), r),
    ensures
        r is Reparent <==> old(state).restore_descendants,
        r is Rebase <==> !old(state).restore_descendants,
        final(state).count == old(state).count,
        final(state).num_reparented == if old(state).restore_descendants {
            old(state).num_reparented + 1
        } else {
            old(state).num_reparented as int
        },
        final(state).rewrites == old(state).rewrites,
        final(state).restore_descendants == old(state).restore_descendants,
{
}

/// Rewriting starts with nothing counted, and nothing is recorded before a command was run.
pub proof fn lemma_rewriting_starts<'a>(
    recorded: Rewrites,
    is_empty: bool,
    none: Rewrites,
    restore_descendants: bool,
    state: RewriteRun<'a>,
    changes: &'a Rewrites,
)
    requires
        call_ensures(Rewrites::new, (), none),
        call_ensures(Rewrites::is_empty, (&recorded,), is_empty),
        call_ensures(RewriteRun::<'a>::new, (changes, restore_descendants), state),
    ensures
        none.entries@.len() == 0,
        is_empty <==> recorded.entries@.len() == 0,
        state.count == 0,
        state.num_reparented == 0,
        *state.rewrites == *changes,
        state.restore_descendants == restore_descendants,
{
}

/// The messages at the end name the numbers that were counted.
pub proof fn lemma_closing_messages<'a>(
    state: RewriteRun<'a>,
    count: String,
    num_reparented: String,
    rewritten: String,
    reparented: Option<String>,
    description: String,
)
    requires
        call_ensures(text::decimal_text, (state.count as u64,), count),
        call_ensures(text::decimal_text, (state.num_reparented as u64,), num_reparented),
        call_ensures(RewriteRun::<'a>::rewritten_message, (&state,), rewritten),
        call_ensures(RewriteRun::<'a>::reparented_message, (&state,), reparented),
        call_ensures(RewriteRun::<'a>::description, (&state,), description),
    ensures
        rewritten@ == "Rewrote "@ + count@ + " commits"@,
        reparented is Some <==> state.restore_descendants && state.num_reparented > 0,
        reparented is Some ==> reparented->0@ == "Rebased "@ + num_reparented@
            + " descendant commits (while preserving their content)"@,
        state.rewrites.entries@.len() == 0 ==> description@ == "run: nothing changed"@,
        state.rewrites.entries@.len() > 0 ==> description@ == "run: rewrite "@ + count@
            + " commits"@,
{
}

/// The diff that a command introduced is applied by merging what it made with what there was
/// before as the base, and what the ancestors have become.
pub proof fn lemma_change_terms(
    new_tree: Vec<u8>,
    old_tree: MergedTree,
    rebased_tree: MergedTree,
    r: Vec<(MergedTree, String)>,
)
    requires
        call_ensures(rewrites::change_terms, (&new_tree, &old_tree, rebased_tree), r),
    ensures
        r@.len() == 3,
        r@[0].0@.tree_ids == seq![new_tree@],
        r@[0].0@.labels.len() == 0,
        r@[1].0@ == old_tree@,
        r@[2].0@ == rebased_tree@,
        r@[0].1@ == "command result"@,
        r@[1].1@ == "original commit"@,
        r@[2].1@ == "rebased"@,
{
    let labels = r@.map_values(|term: (MergedTree, String)| term.1@);
    assert(labels == rewrites::change_labels());
    assert(labels[0] == r@[0].1@);
    assert(labels[1] == r@[1].1@);
    assert(labels[2] == r@[2].1@);
}

/// An id is written with two digits for each byte, the higher half first.
pub proof fn lemma_hex_digits(bytes: Vec<u8>, r: String)
    requires
        call_ensures(rewrites::hex_text, (&bytes,), r),
    ensures
        r@.len() == 2 * bytes@.len(),
        forall|i: int|
            0 <= i < bytes@.len() ==> {
                let byte = #[trigger] bytes@[i];
                &&& r@[2 * i] == "0123456789abcdef"@[byte as int / 16]
                &&& r@[2 * i + 1] == "0123456789abcdef"@[byte as int % 16]
            },
{
    lemma_hex_at(bytes@);
}

proof fn lemma_hex_at(bytes: Seq<u8>)
    ensures
        rewrites::hex(bytes).len() == 2 * bytes.len(),
        forall|i: int|
            0 <= i < bytes.len() ==> {
                let byte = #[trigger] bytes[i];
                &&& rewrites::hex(bytes)[2 * i] == "0123456789abcdef"@[byte as int / 16]
                &&& rewrites::hex(bytes)[2 * i + 1] == "0123456789abcdef"@[byte as int % 16]
            },
    decreases bytes.len(),
{
    if bytes.len() > 0 {
        let before = bytes.drop_last();
        let n = before.len() as int;
        let (high, low) = ((bytes.last() / 16) as nat, (bytes.last() % 16) as nat);
        lemma_hex_at(before);
        lemma_hex_char(high);
        lemma_hex_char(low);
        assert(bytes[n] == bytes.last());
        assert(rewrites::hex(bytes) =~= rewrites::hex(before) + seq![
            rewrites::hex_digit(high),
            rewrites::hex_digit(low),
        ]);
        assert forall|i: int| 0 <= i < bytes.len() implies {
            let byte = #[trigger] bytes[i];
            &&& rewrites::hex(bytes)[2 * i] == "0123456789abcdef"@[byte as int / 16]
            &&& rewrites::hex(bytes)[2 * i + 1] == "0123456789abcdef"@[byte as int % 16]
        } by {
            if i < n {
                assert(before[i] == bytes[i]);
                assert(rewrites::hex(bytes)[2 * i] == rewrites::hex(before)[2 * i]);
                assert(rewrites::hex(bytes)[2 * i + 1] == rewrites::hex(before)[2 * i + 1]);
            }
        }
    }
}

proof fn lemma_hex_char(n: nat)
    requires
        n < 16,
    ensures
        rewrites::hex_digit(n) == "0123456789abcdef"@[n as int],
{
    reveal_strlit("0123456789abcdef");
    assert(rewrites::hex_digit(n) as int == if n < 10 {
        n + 48
    } else {
        n + 87
    });
}

/// A number is written with its last digit last, behind those of its tenth.
pub proof fn lemma_decimal_places(n: u64, tenth: String, r: String)
    requires
        call_ensures(text::decimal_text, (n / 10,), tenth),
        call_ensures(text::decimal_text, (n,), r),
    ensures
        r@.len() > 0,
        r@.last() == "0123456789"@[n as int % 10],
        n < 10 ==> r@.len() == 1,
        n >= 10 ==> r@.drop_last() == tenth@,
{
    reveal_strlit("0123456789");
    let k = (n as nat) % 10;
    assert(text::digit(k) as int == k + 48);
    if n >= 10 {
        assert(text::decimal(n as nat).drop_last() =~= text::decimal((n as nat) / 10));
    } else {
        assert(k == n);
    }
}

/// The pool lies next to the data of the repository, in `run/default`.
pub proof fn lemma_pool_place(
    dir: Seq<FsPart>,
    name: Seq<char>,
    repo_path: FsPath,
    size: usize,
    clean: bool,
    pool: WorkspacePool,
)
    requires
        forall|i: int| 0 <= i < dir.len() ==> !(#[trigger] dir[i] is CurDir),
        repo_path@ == dir.push(FsPart::Normal(name)),
        call_ensures(WorkspacePool::new, (&repo_path, size, clean), pool),
    ensures
        pool.base_path@ == dir + seq![FsPart::Normal("run"@), FsPart::Normal("default"@)],
        pool.size == size,
        pool.clean == clean,
{
    assert forall|i: int| 0 <= i < repo_path@.len() implies !(#[trigger] repo_path@[i]
        is CurDir) by {
        if i < dir.len() {
            assert(repo_path@[i] == dir[i]);
        }
    }
    repo_path_fs::lemma_all_significant(repo_path@);
    assert(repo_path@.drop_last() =~= dir);
    assert(pool.base_path@ =~= dir + seq![FsPart::Normal("run"@), FsPart::Normal("default"@)]);
}

/// A workspace lies in the directory of the pool under its number, and its lockfile beside
/// it.
pub proof fn lemma_slot_places(
    pool: WorkspacePool,
    index: usize,
    number: String,
    dir: FsPath,
    lock: FsPath,
)
    requires
        call_ensures(text::decimal_text, (index as u64,), number),
        call_ensures(WorkspacePool::slot_path, (&pool, index), dir),
        call_ensures(WorkspacePool::slot_lock_path, (&pool, index), lock),
    ensures
        dir@ == pool.base_path@ + seq![FsPart::Normal(number@)],
        lock@ == pool.base_path@ + seq![FsPart::Normal(number@ + ".lock"@)],
{
    assert(dir@ =~= pool.base_path@ + seq![FsPart::Normal(number@)]);
    assert(lock@ =~= pool.base_path@ + seq![FsPart::Normal(number@ + ".lock"@)]);
}

/// A search starts with the first workspace. A workspace whose lock is taken is the one that
/// is used; behind one that is held by another, the next is tried. After the last, the search
/// sleeps and starts over.
pub proof fn lemma_slot_search(
    size: usize,
    start: (SlotSearch, SearchStep),
    search: &mut SlotSearch,
    is_locked: bool,
    r: SearchStep,
    later: SearchStep,
)
    requires
        1 <= old(search).slot <= old(search).size,
        call_ensures(SlotSearch::new, (size,), start),
        call_ensures(SlotSearch::tried, (search, is_locked), r),
        call_ensures(SlotSearch::slept, (&*final(search),), later),
    ensures
        start.0.size == size,
        start.0.slot == 1,
        start.0.sleep_millis == 10,
        start.1 == (SearchStep::TryLock { slot: 1 }),
        final(search).size == old(search).size,
        is_locked ==> r == (SearchStep::Acquired { slot: old(search).slot }),
        !is_locked && old(search).slot < old(search).size ==> {
            &&& r matches SearchStep::TryLock { slot } && slot == old(search).slot + 1
            &&& final(search).slot == old(search).slot + 1
            &&& final(search).sleep_millis == old(search).sleep_millis
        },
        !is_locked && old(search).slot == old(search).size ==> {
            &&& r == (SearchStep::Sleep { millis: old(search).sleep_millis })
            &&& final(search).slot == 1
            &&& final(search).sleep_millis == if old(search).sleep_millis <= 125 {
                old(search).sleep_millis * 2
            } else {
                250
            }
            &&& later == (SearchStep::TryLock { slot: 1 })
        },
{
}

/// How a workspace is prepared. One with a saved tree state is reused unless a clean start is
/// asked for: its state is loaded, and is deleted before the commit is checked out. All
/// others start empty. If there was a saved state, files that the new commit does not ignore
/// are removed at the end.
pub proof fn lemma_workspace_prepared(pool: WorkspacePool, is_reused: bool, r: Vec<PrepareStep>)
    requires
        call_ensures(WorkspacePool::plan_workspace, (&pool, is_reused), r),
    ensures
        is_reused && !pool.clean ==> r@ == seq![
            PrepareStep::LoadTreeState,
            PrepareStep::RemoveTreeState { may_be_missing: false },
            PrepareStep::CheckOut,
            PrepareStep::CreateWorkingCopy,
            PrepareStep::RemoveNewFiles,
        ],
        !is_reused || pool.clean ==> r@.len() >= 8 && r@.take(8) == seq![
            PrepareStep::RemoveTreeState { may_be_missing: true },
            PrepareStep::RemoveWorkingCopy,
            PrepareStep::RemoveState,
            PrepareStep::CreateWorkingCopy,
            PrepareStep::CreateState,
            PrepareStep::InitTreeState,
            PrepareStep::CheckOut,
            PrepareStep::CreateWorkingCopy,
        ],
        is_reused && pool.clean ==> r@.len() == 9 && r@[8] == PrepareStep::RemoveNewFiles,
        !is_reused ==> r@.len() == 8,
{
}

/// Only the later of two trees has something at a path.
pub open spec fn only_later(entry: DiffEntry) -> bool {
    entry.before@ == seq![None::<TreeEntry>] && entry.after@ != seq![None::<TreeEntry>]
}

/// Only the later of two trees has something at the path, by their differences.
pub open spec fn only_later_at(diff: Seq<DiffEntry>, path: Seq<char>) -> bool {
    exists|i: int|
        0 <= i < diff.len() && only_later(#[trigger] diff[i]) && diff[i].path@ == path
}

/// The paths that are listed as new are those at which only the later tree has something.
pub proof fn lemma_added_paths(diff: Vec<DiffEntry>, r: Vec<RepoPathBuf>)
    requires
        call_ensures(workspace_pool::added_paths, (diff,), r),
    ensures
        forall|i: int|
            0 <= i < diff@.len() && only_later(#[trigger] diff@[i]) ==> exists|k: int|
                0 <= k < r@.len() && (#[trigger] r@[k])@ == diff@[i].path@,
        forall|k: int| 0 <= k < r@.len() ==> only_later_at(diff@, (#[trigger] r@[k])@),
{
    let pred = |entry: DiffEntry| workspace_pool::is_added(entry);
    let kept = diff@.filter(pred);
    let texts = checkout::path_list(r@);
    assert(texts == workspace_pool::diff_paths(kept));
    assert forall|i: int| 0 <= i < diff@.len() && only_later(#[trigger] diff@[i]) implies exists|
        k: int,
    |
        0 <= k < r@.len() && (#[trigger] r@[k])@ == diff@[i].path@ by {
        assert(pred(diff@[i]));
        diff@.lemma_filter_contains(pred, i);
        let k = choose|k: int| 0 <= k < kept.len() && kept[k] == diff@[i];
        assert(texts[k] == kept[k].path@);
        assert(r@[k]@ == diff@[i].path@);
    }
    assert forall|k: int| 0 <= k < r@.len() implies only_later_at(diff@, (#[trigger] r@[k])@) by {
        assert(texts[k] == r@[k]@);
        assert(texts.len() == kept.len());
        assert(texts[k] == kept[k].path@);
        diff@.lemma_filter_pred(pred, k);
        assert(kept.contains(kept[k]));
        diff@.lemma_filter_contains_rev(pred, kept[k]);
        let i = choose|i: int| 0 <= i < diff@.len() && diff@[i] == kept[k];
        assert(only_later(diff@[i]));
    }
}

} // verus!
