use working_copy::backend::MergedTree;
use working_copy::backend::MergedTreeValue;
use working_copy::backend::TreeValue;
use working_copy::checkout::labels_changed;
use working_copy::checkout::MaterializedTreeValue;
use working_copy::checkout::MkdirOutcome;
use working_copy::checkout::ProbeOutcome;
use working_copy::checkout::RemoveOutcome;
use working_copy::checkout::TreeUpdate;
use working_copy::checkout::WriteAction;
use working_copy::entry_run::DiskAction;
use working_copy::entry_run::EntryError;
use working_copy::entry_run::EntryRun;
use working_copy::entry_run::UpdateContext;
use working_copy::file_state::ExecBit;
use working_copy::file_state::ExecChangePolicy;
use working_copy::file_state::FileState;
use working_copy::file_state::FileType;
use working_copy::file_state::MaterializedConflictData;
use working_copy::file_state::MillisSinceEpoch;
use working_copy::file_states_map::FileStatesMap;
use working_copy::fs_path::FsPath;
use working_copy::path_set::PathSet;
use working_copy::platform::Platform;
use working_copy::repo_path::RepoPath;

fn repo_path(value: &str) -> RepoPath<'_> {
    RepoPath::from_internal_string(value).unwrap()
}

fn context() -> UpdateContext {
    UpdateContext {
        platform: Platform::Unix,
        working_copy_path: FsPath::from_text("/wc"),
        exec_policy: ExecChangePolicy::Respect,
        symlink_support: true,
    }
}

fn file_value() -> MergedTreeValue {
    MergedTreeValue::normal(TreeValue::File {
        id: vec![1],
        executable: false,
        copy_id: vec![],
    })
}

fn submodule_value() -> MergedTreeValue {
    MergedTreeValue::normal(TreeValue::GitSubmodule(vec![2]))
}

fn written_state() -> FileState {
    FileState {
        file_type: FileType::Normal {
            exec_bit: ExecBit(true),
        },
        mtime: MillisSinceEpoch(7),
        size: 8,
        materialized_conflict_data: None,
    }
}

const EXECUTABLE: MaterializedTreeValue = MaterializedTreeValue::File { executable: true };

fn disk_path(run: &EntryRun<'_>) -> Option<String> {
    run.disk_path().map(|path| path.display('/'))
}

#[test]
fn new_file_in_new_directories() {
    let context = context();
    let mut update = TreeUpdate::new();
    let before = MergedTreeValue::absent();
    let (mut run, action) = EntryRun::begin(
        &mut update,
        &context,
        repo_path("a/b/file"),
        &before,
        EXECUTABLE,
        None,
    )
    .unwrap();
    assert_eq!(action, DiskAction::CreateDir);
    assert_eq!(disk_path(&run), Some("/wc/a".to_string()));
    let action = run
        .dir_created(&mut update, &context, MkdirOutcome::Created, false)
        .unwrap();
    assert_eq!(action, DiskAction::CreateDir);
    assert_eq!(disk_path(&run), Some("/wc/a/b".to_string()));
    let action = run
        .dir_created(
            &mut update,
            &context,
            MkdirOutcome::Existing { is_dir: true },
            false,
        )
        .unwrap();
    assert_eq!(action, DiskAction::ProbeFile);
    assert_eq!(disk_path(&run), Some("/wc/a/b/file".to_string()));
    let action = run
        .probed(&mut update, &context, ProbeOutcome::Created, false, false)
        .unwrap();
    assert_eq!(
        action,
        DiskAction::Write(WriteAction::File {
            exec_bit: ExecBit(true)
        })
    );
    run.written(&mut update, written_state());
    assert_eq!(disk_path(&run), None);
    assert_eq!(update.stats.added_files, 1);
    assert_eq!(update.stats.skipped_files, 0);
    assert_eq!(update.prev_created_path.as_ref(), repo_path("a/b"));
    assert_eq!(
        update.changed_file_states,
        vec![(repo_path("a/b/file").to_owned(), written_state())]
    );

    // The directories are known to exist now.
    let (run, action) = EntryRun::begin(
        &mut update,
        &context,
        repo_path("a/b/other"),
        &before,
        EXECUTABLE,
        None,
    )
    .unwrap();
    assert_eq!(action, DiskAction::ProbeFile);
    assert_eq!(disk_path(&run), Some("/wc/a/b/other".to_string()));
}

#[test]
fn removed_file() {
    let context = context();
    let mut update = TreeUpdate::new();
    let before = file_value();
    let (mut run, action) = EntryRun::begin(
        &mut update,
        &context,
        repo_path("file"),
        &before,
        MaterializedTreeValue::Absent,
        None,
    )
    .unwrap();
    assert_eq!(action, DiskAction::RemoveFile);
    let action = run
        .removed(&context, RemoveOutcome::Removed, false)
        .unwrap();
    assert_eq!(action, DiskAction::Write(WriteAction::RemoveEmptyParents));
    run.written(&mut update, FileState::placeholder());
    assert_eq!(update.stats.removed_files, 1);
    assert!(update.deleted_files.contains(repo_path("file")));
    assert!(update.changed_file_states.is_empty());
}

#[test]
fn file_in_the_way_is_skipped() {
    let context = context();
    let before = MergedTreeValue::absent();
    // In place of a directory
    let mut update = TreeUpdate::new();
    let (mut run, _) = EntryRun::begin(
        &mut update,
        &context,
        repo_path("a/file"),
        &before,
        EXECUTABLE,
        None,
    )
    .unwrap();
    let action = run
        .dir_created(
            &mut update,
            &context,
            MkdirOutcome::Existing { is_dir: false },
            false,
        )
        .unwrap();
    assert_eq!(action, DiskAction::Nothing);
    assert_eq!(update.stats.skipped_files, 1);
    assert_eq!(
        update.changed_file_states,
        vec![(repo_path("a/file").to_owned(), FileState::placeholder())]
    );
    // In place of the file
    let mut update = TreeUpdate::new();
    let (mut run, _) = EntryRun::begin(
        &mut update,
        &context,
        repo_path("file"),
        &before,
        EXECUTABLE,
        None,
    )
    .unwrap();
    let action = run
        .probed(
            &mut update,
            &context,
            ProbeOutcome::AlreadyExists,
            false,
            false,
        )
        .unwrap();
    assert_eq!(action, DiskAction::Nothing);
    assert_eq!(update.stats.skipped_files, 1);
}

#[test]
fn submodules_stay() {
    let context = context();
    let mut update = TreeUpdate::new();
    let before = submodule_value();
    let (_, action) = EntryRun::begin(
        &mut update,
        &context,
        repo_path("sub"),
        &before,
        MaterializedTreeValue::GitSubmodule,
        None,
    )
    .unwrap();
    assert_eq!(action, DiskAction::Nothing);
    assert_eq!(update.stats.updated_files, 1);
    assert!(update.changed_file_states.is_empty());

    // A directory that is not empty is left alone.
    let mut update = TreeUpdate::new();
    let (mut run, action) = EntryRun::begin(
        &mut update,
        &context,
        repo_path("sub"),
        &before,
        MaterializedTreeValue::Absent,
        None,
    )
    .unwrap();
    assert_eq!(action, DiskAction::RemoveSubmoduleDir);
    let action = run
        .removed(&context, RemoveOutcome::NotEmpty, false)
        .unwrap();
    assert_eq!(action, DiskAction::ProbeFile);
    let action = run
        .probed(
            &mut update,
            &context,
            ProbeOutcome::AlreadyExists,
            false,
            true,
        )
        .unwrap();
    assert_eq!(action, DiskAction::Write(WriteAction::RemoveEmptyParents));

    // A new submodule in an existing directory
    let mut update = TreeUpdate::new();
    let absent = MergedTreeValue::absent();
    let (mut run, _) = EntryRun::begin(
        &mut update,
        &context,
        repo_path("sub"),
        &absent,
        MaterializedTreeValue::GitSubmodule,
        None,
    )
    .unwrap();
    let action = run
        .probed(
            &mut update,
            &context,
            ProbeOutcome::Failed { exists: true },
            false,
            true,
        )
        .unwrap();
    assert_eq!(action, DiskAction::Write(WriteAction::SubmoduleDir));
    run.written(&mut update, written_state());
    assert_eq!(
        update.changed_file_states,
        vec![(repo_path("sub").to_owned(), FileState::for_gitsubmodule())]
    );
}

#[test]
fn errors_of_an_update() {
    let context = context();
    let absent = MergedTreeValue::absent();
    let begin = |update: &mut TreeUpdate, path: &'static str| {
        let context = UpdateContext {
            working_copy_path: context.working_copy_path.clone(),
            ..context
        };
        EntryRun::begin(update, &context, repo_path(path), &absent, EXECUTABLE, None)
            .map(|(run, _)| run)
    };
    let mut update = TreeUpdate::new();
    let mut run = begin(&mut update, "a/../b").unwrap();
    assert!(matches!(
        run.dir_created(&mut update, &context, MkdirOutcome::Created, false),
        Err(EntryError::InvalidPath(err)) if err.source.component == ".."
    ));
    let mut update = TreeUpdate::new();
    assert!(matches!(
        begin(&mut update, "..").err(),
        Some(EntryError::InvalidPath(err)) if err.source.component == ".."
    ));
    let mut update = TreeUpdate::new();
    let mut run = begin(&mut update, "a/b").unwrap();
    assert!(matches!(
        run.dir_created(&mut update, &context, MkdirOutcome::Failed, false),
        Err(EntryError::CannotCreateDir)
    ));
    let mut update = TreeUpdate::new();
    let mut run = begin(&mut update, ".GIT/b").unwrap();
    assert!(matches!(
        run.dir_created(&mut update, &context, MkdirOutcome::Created, true),
        Err(EntryError::Reserved {
            remove_created: true
        })
    ));
    let mut update = TreeUpdate::new();
    let mut run = begin(&mut update, ".jj").unwrap();
    assert!(matches!(
        run.probed(
            &mut update,
            &context,
            ProbeOutcome::AlreadyExists,
            true,
            true
        ),
        Err(EntryError::Reserved {
            remove_created: false
        })
    ));
    let mut update = TreeUpdate::new();
    let mut run = begin(&mut update, "b").unwrap();
    assert!(matches!(
        run.probed(
            &mut update,
            &context,
            ProbeOutcome::Failed { exists: false },
            false,
            false
        ),
        Err(EntryError::CannotProbe)
    ));
    let before = file_value();
    let mut update = TreeUpdate::new();
    let (mut run, _) = EntryRun::begin(
        &mut update,
        &context,
        repo_path("file"),
        &before,
        EXECUTABLE,
        None,
    )
    .unwrap();
    assert!(matches!(
        run.removed(&context, RemoveOutcome::Failed { is_dir: false }, false),
        Err(EntryError::CannotRemove)
    ));
}

#[test]
fn conflict_remembers_marker_length() {
    let context = context();
    let mut update = TreeUpdate::new();
    let before = MergedTreeValue::absent();
    let (mut run, _) = EntryRun::begin(
        &mut update,
        &context,
        repo_path("file"),
        &before,
        MaterializedTreeValue::FileConflict {
            executable: Some(true),
            conflict_marker_len: 11,
        },
        None,
    )
    .unwrap();
    let action = run
        .probed(&mut update, &context, ProbeOutcome::Created, false, false)
        .unwrap();
    assert_eq!(
        action,
        DiskAction::Write(WriteAction::Conflict {
            exec_bit: ExecBit(true)
        })
    );
    run.written(&mut update, written_state());
    assert_eq!(
        update.changed_file_states[0].1.materialized_conflict_data,
        Some(MaterializedConflictData {
            conflict_marker_len: 11
        })
    );
}

#[test]
fn update_is_merged_into_file_states() {
    let mut file_states = FileStatesMap::new();
    file_states.merge_in(
        vec![
            (repo_path("a").to_owned(), FileState::placeholder()),
            (repo_path("c").to_owned(), FileState::placeholder()),
        ],
        &PathSet::new(),
    );
    let mut update = TreeUpdate::new();
    let before = file_value();
    for (path, after) in [("b", EXECUTABLE), ("a", MaterializedTreeValue::Absent)] {
        update
            .start_entry(
                Platform::Unix,
                &FsPath::from_text("/wc"),
                repo_path(path),
                &before,
                &after,
            )
            .unwrap();
    }
    update.finish_written(repo_path("b").to_owned(), &EXECUTABLE, written_state());
    update.finish_removed(repo_path("a").to_owned());
    assert!(update.is_touched(repo_path("a")));
    assert_eq!(
        update.conflicts_to_rematerialize(vec![
            repo_path("a").to_owned(),
            repo_path("d").to_owned()
        ]),
        vec![repo_path("d").to_owned()]
    );
    let stats = update.finish(&mut file_states, true);
    assert_eq!(stats.updated_files, 1);
    assert_eq!(stats.removed_files, 1);
    assert_eq!(
        file_states.all().iter(),
        vec![
            (repo_path("b"), written_state()),
            (repo_path("c"), FileState::placeholder()),
        ]
    );
}

#[test]
fn labels_of_conflicts() {
    let tree = |ids: usize, labels: &[&str]| MergedTree {
        tree_ids: (0..ids).map(|id| vec![id as u8]).collect(),
        labels: labels.iter().map(|label| label.to_string()).collect(),
    };
    assert!(labels_changed(&tree(3, &["x"]), &tree(3, &["y"])));
    assert!(!labels_changed(&tree(3, &["x"]), &tree(3, &["x"])));
    assert!(!labels_changed(&tree(1, &[]), &tree(3, &["y"])));
}

/// Performs an update in a working copy in which the given paths are taken.
fn update_files(
    entries: &[(&str, MergedTreeValue, MaterializedTreeValue)],
    in_the_way: &[&str],
) -> TreeUpdate {
    let context = context();
    let mut update = TreeUpdate::new();
    for (path, before, after) in entries {
        let (mut run, mut action) = EntryRun::begin(
            &mut update,
            &context,
            repo_path(path),
            before,
            *after,
            None,
        )
        .unwrap();
        let is_free = !in_the_way.contains(path);
        loop {
            action = match action {
                DiskAction::Nothing => break,
                DiskAction::CreateDir => run
                    .dir_created(&mut update, &context, MkdirOutcome::Created, false)
                    .unwrap(),
                DiskAction::RemoveFile | DiskAction::RemoveSubmoduleDir => {
                    let outcome = if is_free {
                        RemoveOutcome::Removed
                    } else {
                        RemoveOutcome::NotFound
                    };
                    run.removed(&context, outcome, false).unwrap()
                }
                DiskAction::ProbeFile => {
                    let probe = if is_free {
                        ProbeOutcome::Created
                    } else {
                        ProbeOutcome::AlreadyExists
                    };
                    run.probed(&mut update, &context, probe, false, false)
                        .unwrap()
                }
                DiskAction::Write(_) => {
                    run.written(&mut update, written_state());
                    break;
                }
            };
        }
    }
    update
}

fn tracked_paths(file_states: &FileStatesMap) -> Vec<String> {
    file_states
        .all()
        .paths()
        .iter()
        .map(|path| path.as_internal_file_string().to_string())
        .collect()
}

#[test]
fn tracked_files_are_those_of_the_tree() {
    let absent = MergedTreeValue::absent;
    let mut file_states = FileStatesMap::new();
    let update = update_files(
        &[
            ("a", absent(), EXECUTABLE),
            ("b/c", absent(), MaterializedTreeValue::Symlink),
            ("d", absent(), MaterializedTreeValue::GitSubmodule),
        ],
        &[],
    );
    assert_eq!(update.finish(&mut file_states, false).added_files, 3);
    assert_eq!(tracked_paths(&file_states), ["a", "b/c", "d"]);
    let update = update_files(
        &[
            ("a", file_value(), MaterializedTreeValue::Absent),
            ("d", submodule_value(), MaterializedTreeValue::GitSubmodule),
            ("e", absent(), MaterializedTreeValue::AccessDenied),
            ("f", absent(), MaterializedTreeValue::OtherConflict),
        ],
        &[],
    );
    update.finish(&mut file_states, false);
    assert_eq!(tracked_paths(&file_states), ["b/c", "d", "f"]);
}

#[test]
fn skipped_files_are_tracked_until_they_are_looked_at() {
    let mut file_states = FileStatesMap::new();
    let update = update_files(
        &[
            ("a", file_value(), MaterializedTreeValue::Absent),
            ("b", MergedTreeValue::absent(), EXECUTABLE),
        ],
        &["a", "b"],
    );
    assert_eq!(update.stats.skipped_files, 2);
    update.finish(&mut file_states, false);
    assert_eq!(tracked_paths(&file_states), ["a", "b"]);
    let state = file_states.all().get(repo_path("a")).unwrap();
    assert_eq!(state, FileState::placeholder());
}
