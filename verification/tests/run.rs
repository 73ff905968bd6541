use working_copy::backend::MergedTree;
use working_copy::backend::MergedTreeValue;
use working_copy::backend::TreeValue;
use working_copy::eol::EolConversionMode;
use working_copy::file_state::ExecChangeSetting;
use working_copy::fs_path::FsPath;
use working_copy::matchers::FsmonitorSettings;
use working_copy::repo_path::RepoPath;
use working_copy::rewrites::change_terms;
use working_copy::rewrites::hex_text;
use working_copy::rewrites::RewriteAction;
use working_copy::rewrites::RewriteRun;
use working_copy::rewrites::Rewrites;
use working_copy::run::default_tree_state_settings;
use working_copy::run::files_to_remove;
use working_copy::run::resolve_jobs;
use working_copy::run::uses_configured_revisions;
use working_copy::run::CommandSpec;
use working_copy::run::CommandStatus;
use working_copy::run::InvalidJobCount;
use working_copy::run::JobCountOrigin;
use working_copy::run::RunArgs;
use working_copy::run::RunJob;
use working_copy::settings::ConflictMarkerStyle;
use working_copy::snapshot::UntrackedReason;
use working_copy::tree_state::SnapshotStats;
use working_copy::workspace_pool::added_paths;
use working_copy::workspace_pool::DiffEntry;
use working_copy::workspace_pool::PrepareStep;
use working_copy::workspace_pool::SearchStep;
use working_copy::workspace_pool::SlotSearch;
use working_copy::workspace_pool::WorkspacePool;

fn repo_path(value: &str) -> RepoPath<'_> {
    RepoPath::from_internal_string(value).unwrap()
}

fn args(root: bool) -> RunArgs {
    RunArgs {
        command: "cargo".to_string(),
        args: vec!["build".to_string(), "--release".to_string()],
        revisions: vec![],
        exec_flag: false,
        jobs: None,
        root,
        clean: false,
        restore_descendants: false,
    }
}

fn tree(id: u8) -> MergedTree {
    MergedTree {
        tree_ids: vec![vec![id]],
        labels: vec![],
    }
}

#[test]
fn number_of_jobs() {
    let invalid = |origin: JobCountOrigin, value: i64| Err(InvalidJobCount { origin, value });
    assert_eq!(resolve_jobs(Some(4), Some(2)), Ok(4));
    assert_eq!(resolve_jobs(None, Some(2)), Ok(2));
    assert_eq!(resolve_jobs(None, None), Ok(1));
    assert_eq!(
        resolve_jobs(Some(0), Some(2)),
        invalid(JobCountOrigin::Cli, 0)
    );
    assert_eq!(
        resolve_jobs(None, Some(0)),
        invalid(JobCountOrigin::Config, 0)
    );
    assert_eq!(
        resolve_jobs(None, Some(-3)),
        invalid(JobCountOrigin::User, -3)
    );
}

#[test]
fn settings_of_workspaces() {
    let settings = default_tree_state_settings();
    assert_eq!(
        settings.conflict_marker_style,
        ConflictMarkerStyle::Snapshot
    );
    assert!(!settings.eol_conversion_settings.use_git_attributes);
    assert_eq!(
        settings.eol_conversion_settings.eol_conversion_mode,
        EolConversionMode::Disabled
    );
    assert_eq!(settings.exec_change_setting, ExecChangeSetting::Auto);
    assert!(matches!(
        settings.fsmonitor_settings,
        FsmonitorSettings::Disabled
    ));
}

#[test]
fn commands() {
    let workspace_root = FsPath::from_text("/repo");
    let spec = |root: bool, cwd: &str| {
        CommandSpec::new(&args(root), &FsPath::from_text(cwd), &workspace_root)
    };
    let exec_dir = |spec: &CommandSpec| spec.exec_dir(&FsPath::from_text("/wc")).display('/');
    let inside = spec(false, "/repo/a/b");
    assert_eq!(inside.to_text(), "cargo build --release");
    assert_eq!(exec_dir(&inside), "/wc/a/b");
    assert!(inside.skips_commit(false));
    assert!(!inside.skips_commit(true));
    assert_eq!(exec_dir(&spec(false, "/elsewhere")), "/wc");
    let at_root = spec(true, "/repo/a/b");
    assert!(at_root.subdir.is_none());
    assert_eq!(exec_dir(&at_root), "/wc");
    assert!(!at_root.skips_commit(false));
    assert!(uses_configured_revisions(&args(true)));
}

#[test]
fn slots() {
    let pool = WorkspacePool::new(&FsPath::from_text("/repo/.jj/repo"), 12, false);
    assert_eq!(pool.base_path.display('/'), "/repo/.jj/run/default");
    assert_eq!(pool.slot_path(10).display('/'), "/repo/.jj/run/default/10");
    assert_eq!(
        pool.slot_lock_path(10).display('/'),
        "/repo/.jj/run/default/10.lock"
    );
    let mut seen = vec![];
    for slot in 1..=12 {
        seen.push(pool.slot_path(slot).display('/'));
        seen.push(pool.slot_lock_path(slot).display('/'));
    }
    seen.sort();
    seen.dedup();
    assert_eq!(seen.len(), 24);
}

#[test]
fn search_for_free_slot() {
    let (mut search, step) = SlotSearch::new(2);
    assert_eq!(step, SearchStep::TryLock { slot: 1 });
    let mut sleeps = vec![];
    for _ in 0..7 {
        assert_eq!(search.tried(false), SearchStep::TryLock { slot: 2 });
        match search.tried(false) {
            SearchStep::Sleep { millis } => sleeps.push(millis),
            step => panic!("unexpected step {step:?}"),
        }
        assert_eq!(search.slept(), SearchStep::TryLock { slot: 1 });
    }
    assert_eq!(sleeps, vec![10, 20, 40, 80, 160, 250, 250]);
    assert_eq!(search.tried(false), SearchStep::TryLock { slot: 2 });
    assert_eq!(search.tried(true), SearchStep::Acquired { slot: 2 });
}

#[test]
fn prepared_workspaces() {
    let steps = |clean: bool, is_reused: bool| {
        WorkspacePool::new(&FsPath::from_text("/repo/.jj/repo"), 1, clean).plan_workspace(is_reused)
    };
    let wipe = [
        PrepareStep::RemoveTreeState {
            may_be_missing: true,
        },
        PrepareStep::RemoveWorkingCopy,
        PrepareStep::RemoveState,
        PrepareStep::CreateWorkingCopy,
        PrepareStep::CreateState,
        PrepareStep::InitTreeState,
        PrepareStep::CheckOut,
        PrepareStep::CreateWorkingCopy,
    ];
    assert_eq!(steps(false, false), wipe);
    assert_eq!(steps(true, false), wipe);
    assert_eq!(
        steps(false, true),
        vec![
            PrepareStep::LoadTreeState,
            PrepareStep::RemoveTreeState {
                may_be_missing: false,
            },
            PrepareStep::CheckOut,
            PrepareStep::CreateWorkingCopy,
            PrepareStep::RemoveNewFiles,
        ]
    );
    let mut wipe_reused = wipe.to_vec();
    wipe_reused.push(PrepareStep::RemoveNewFiles);
    assert_eq!(steps(true, true), wipe_reused);
}

#[test]
fn new_paths_in_diff() {
    let file = || MergedTreeValue::normal(TreeValue::Symlink(vec![1]));
    let entry = |path: &str, before: MergedTreeValue, after: MergedTreeValue| DiffEntry {
        path: repo_path(path).to_owned(),
        before,
        after,
    };
    assert_eq!(
        added_paths(vec![
            entry("added", MergedTreeValue::absent(), file()),
            entry("changed", file(), file()),
            entry("removed", file(), MergedTreeValue::absent()),
            entry("new", MergedTreeValue::absent(), file()),
        ]),
        ["added", "new"].map(|path| repo_path(path).to_owned()).to_vec()
    );
}

#[test]
fn files_left_by_failed_command() {
    let stats = SnapshotStats {
        untracked_paths: ["a", "b"]
            .map(|path| {
                (
                    repo_path(path).to_owned(),
                    UntrackedReason::FileNotAutoTracked,
                )
            })
            .to_vec(),
    };
    assert_eq!(
        files_to_remove(false, &stats),
        ["a", "b"].map(repo_path).to_vec()
    );
    assert!(files_to_remove(true, &stats).is_empty());
}

fn job(id: u8, new_tree: u8, dirty: bool, success: bool) -> RunJob {
    RunJob::finished(
        vec![id, 0xab],
        tree(1),
        &tree(new_tree),
        dirty,
        b"out".to_vec(),
        b"err".to_vec(),
        CommandStatus {
            success,
            text: "exit status: 3".to_string(),
        },
    )
}

fn spec() -> CommandSpec {
    CommandSpec::new(
        &args(false),
        &FsPath::from_text("/repo/dir"),
        &FsPath::from_text("/repo"),
    )
}

#[test]
fn jobs_are_recorded() {
    let mut rewrites = Rewrites::new();
    let report = rewrites.process_job(job(1, 2, true, true), &spec(), '/');
    assert!(report.skip_message.is_none() && report.failure.is_none());
    assert_eq!(report.stdout, b"out");
    assert_eq!(report.stderr, b"err");
    assert_eq!(rewrites.get(&vec![1, 0xab]).unwrap().new_tree, vec![2]);
    // Nothing changed
    rewrites.process_job(job(2, 2, false, true), &spec(), '/');
    assert!(rewrites.get(&vec![2, 0xab]).is_none());
    // Failed
    let report = rewrites.process_job(job(3, 2, true, false), &spec(), '/');
    assert_eq!(
        report.failure.unwrap().message,
        "the command 'cargo build --release' failed with exit status: 3 for commit 03ab"
    );
    assert_eq!(report.stdout, b"out");
    assert!(rewrites.get(&vec![3, 0xab]).is_none());
    // Skipped
    let skipped = RunJob::skipped(vec![4, 0xab], tree(1));
    let report = rewrites.process_job(skipped, &spec(), '/');
    assert_eq!(
        report.skip_message.unwrap(),
        "Skipped commit 04ab: directory does not exist: dir"
    );
    assert!(report.stdout.is_empty() && report.failure.is_none());
    assert_eq!(rewrites.entries.len(), 1);
}

#[test]
fn commits_are_rewritten() {
    let mut rewrites = Rewrites::new();
    assert_eq!(
        RewriteRun::new(&rewrites, false).description(),
        "run: nothing changed"
    );
    rewrites.process_job(job(1, 2, true, true), &spec(), '/');
    let (inside, outside) = (vec![1, 0xab], vec![2, 0xab]);

    let mut run = RewriteRun::new(&rewrites, false);
    assert!(matches!(
        run.next_commit(&inside),
        RewriteAction::MergeChange { new_tree, old_tree }
            if *new_tree == vec![2] && *old_tree == tree(1)
    ));
    assert!(matches!(run.next_commit(&outside), RewriteAction::Rebase));
    let terms = change_terms(&vec![2], &tree(1), tree(3));
    let labels = ["command result", "original commit", "rebased"];
    let trees = [MergedTree::resolved(vec![2]), tree(1), tree(3)];
    assert_eq!(terms.len(), 3);
    for (i, (tree, label)) in terms.iter().enumerate() {
        assert_eq!((tree, label.as_str()), (&trees[i], labels[i]));
    }
    assert_eq!(run.rewritten_message(), "Rewrote 1 commits");
    assert_eq!(run.reparented_message(), None);
    assert_eq!(run.description(), "run: rewrite 1 commits");

    let mut run = RewriteRun::new(&rewrites, true);
    assert!(matches!(
        run.next_commit(&inside),
        RewriteAction::ReplaceTree { new_tree } if *new_tree == vec![2]
    ));
    assert_eq!(run.reparented_message(), None);
    assert!(matches!(run.next_commit(&outside), RewriteAction::Reparent));
    assert_eq!(
        run.reparented_message().unwrap(),
        "Rebased 1 descendant commits (while preserving their content)"
    );
}

#[test]
fn hexadecimal_ids() {
    assert_eq!(hex_text(&vec![]), "");
    assert_eq!(hex_text(&vec![0, 9, 10, 255]), "00090aff");
}
