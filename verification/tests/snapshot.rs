use working_copy::backend::MergedTreeValue;
use working_copy::backend::TreeValue;
use working_copy::file_state::DiskFileKind;
use working_copy::file_state::DiskMetadata;
use working_copy::file_state::EpochOffset;
use working_copy::file_state::ExecBit;
use working_copy::file_state::ExecChangePolicy;
use working_copy::file_state::FileState;
use working_copy::file_state::FileType;
use working_copy::file_state::MaterializedConflictData;
use working_copy::file_state::MillisSinceEpoch;
use working_copy::file_state::MtimeOutOfRange;
use working_copy::file_states_map::FileStatesMap;
use working_copy::fs_path::FsPath;
use working_copy::matchers::make_fsmonitor_matcher;
use working_copy::matchers::FsmonitorMatcher;
use working_copy::matchers::FsmonitorSettings;
use working_copy::matchers::FsmonitorUnsupported;
use working_copy::matchers::SnapshotMatcher;
use working_copy::matchers::WatchmanReply;
use working_copy::path_set::PathSet;
use working_copy::platform::Platform;
use working_copy::proto::WatchmanClock;
use working_copy::repo_path::RepoPath;
use working_copy::repo_path::RepoPathBuf;
use working_copy::snapshot::start_dir_entry;
use working_copy::snapshot::DirEntryStart;
use working_copy::snapshot::DirFacts;
use working_copy::snapshot::DirStep;
use working_copy::snapshot::FileFacts;
use working_copy::snapshot::FileSnapshotter;
use working_copy::snapshot::FileStep;
use working_copy::snapshot::InspectedStep;
use working_copy::snapshot::PresentDirEntryKind;
use working_copy::snapshot::UntrackedReason;
use working_copy::snapshot_output::missing_files;
use working_copy::snapshot_output::PresentDirEntries;
use working_copy::snapshot_output::SnapshotOutput;
use working_copy::snapshot_walk::StoredFile;
use working_copy::snapshot_walk::WalkStep;
use working_copy::stored_value::conflict_file_ids;
use working_copy::stored_value::StorePlan;
use working_copy::stored_value::StoredContents;
use working_copy::stored_value::MIN_CONFLICT_MARKER_LEN;

fn repo_path(value: &str) -> RepoPath<'_> {
    RepoPath::from_internal_string(value).unwrap()
}

fn owned(value: &str) -> RepoPathBuf {
    repo_path(value).to_owned()
}

fn state(size: u64, mtime: i64) -> FileState {
    FileState {
        file_type: FileType::Normal {
            exec_bit: ExecBit(false),
        },
        mtime: MillisSinceEpoch(mtime),
        size,
        materialized_conflict_data: None,
    }
}

fn file_states(entries: &[(&str, FileState)]) -> FileStatesMap {
    let mut map = FileStatesMap::new();
    map.merge_in(
        entries
            .iter()
            .map(|(path, state)| (owned(path), *state))
            .collect(),
        &PathSet::new(),
    );
    map
}

fn snapshotter(sparse_patterns: &Vec<RepoPathBuf>) -> FileSnapshotter<'_> {
    FileSnapshotter {
        matcher: SnapshotMatcher {
            sparse_patterns,
            fsmonitor: None,
        },
        platform: Platform::Unix,
        exec_policy: ExecChangePolicy::Respect,
        symlink_support: true,
        own_mtime: MillisSinceEpoch(1000),
        max_new_file_size: 100,
    }
}

const NO_FACTS: FileFacts = FileFacts {
    is_ignored: false,
    is_forced: false,
    is_auto_tracked: true,
};

const NO_DIR_FACTS: DirFacts = DirFacts {
    is_nested_repo: false,
    is_ignored: false,
    is_forced: false,
};

#[test]
fn directory_entries() {
    let map = file_states(&[
        ("a/b", state(1, 1)),
        ("a/c/d", state(2, 1)),
        ("a/sub", FileState::for_gitsubmodule()),
    ]);
    let below = map.all().prefixed(repo_path("a"));
    let start = |name: &str, is_dir: bool| start_dir_entry(repo_path("a"), name, is_dir, below);
    assert!(matches!(start(".git", true), DirEntryStart::Skip));
    assert!(matches!(start(".jj", false), DirEntryStart::Skip));
    assert!(matches!(start("sub", true), DirEntryStart::Skip));
    assert!(matches!(
        start("b", false),
        DirEntryStart::File { path, current: Some(current) }
            if path.as_ref() == repo_path("a/b") && current == state(1, 1)
    ));
    assert!(matches!(
        start("x", false),
        DirEntryStart::File { current: None, .. }
    ));
    assert!(matches!(
        start("c", true),
        DirEntryStart::Directory { path, file_states }
            if path.as_ref() == repo_path("a/c")
                && file_states.paths() == vec![repo_path("a/c/d")]
    ));
}

#[test]
fn directories_to_visit() {
    let patterns = vec![owned("in")];
    let snapshotter = snapshotter(&patterns);
    let step = |path: &str, facts: DirFacts| snapshotter.process_dir(repo_path(path), facts);
    assert_eq!(step("in/a", NO_DIR_FACTS), DirStep::Visit);
    assert_eq!(step("", NO_DIR_FACTS), DirStep::Visit);
    assert_eq!(step("out", NO_DIR_FACTS), DirStep::Leave);
    let nested = DirFacts {
        is_nested_repo: true,
        ..NO_DIR_FACTS
    };
    assert_eq!(step("in/a", nested), DirStep::Skip);
    let ignored = DirFacts {
        is_ignored: true,
        ..NO_DIR_FACTS
    };
    assert_eq!(step("in/a", ignored), DirStep::VisitTracked);
    let forced = DirFacts {
        is_forced: true,
        ..ignored
    };
    assert_eq!(step("in/a", forced), DirStep::Visit);
}

#[test]
fn files_to_look_at() {
    let patterns = vec![owned("in")];
    let snapshotter = snapshotter(&patterns);
    let step = |path: &str, current: Option<FileState>, facts: FileFacts| {
        snapshotter.process_file(repo_path(path), current, facts)
    };
    assert_eq!(step("in/a", None, NO_FACTS), FileStep::Inspect);
    assert_eq!(step("out", None, NO_FACTS), FileStep::Skip);
    let ignored = FileFacts {
        is_ignored: true,
        ..NO_FACTS
    };
    assert_eq!(step("in/a", None, ignored), FileStep::Skip);
    assert_eq!(step("in/a", Some(state(1, 1)), ignored), FileStep::Inspect);
    let forced = FileFacts {
        is_forced: true,
        ..ignored
    };
    assert_eq!(step("in/a", None, forced), FileStep::Inspect);
    let manual = FileFacts {
        is_auto_tracked: false,
        ..NO_FACTS
    };
    assert_eq!(
        step("in/a", None, manual),
        FileStep::ReportUntracked(UntrackedReason::FileNotAutoTracked)
    );
}

#[test]
fn files_by_metadata() {
    let patterns = vec![RepoPathBuf::root()];
    let snapshotter = snapshotter(&patterns);
    let metadata = |kind: DiskFileKind, len: u64| DiskMetadata {
        kind,
        permissions: 0o644,
        len,
        modified: EpochOffset::After(5),
    };
    let large = metadata(DiskFileKind::File, 101);
    assert_eq!(
        snapshotter.process_inspected(None, false, &large),
        Ok(InspectedStep::ReportUntracked(
            UntrackedReason::FileTooLarge {
                size: 101,
                max_size: 100
            }
        ))
    );
    assert_eq!(
        snapshotter.process_inspected(None, true, &large),
        Ok(InspectedStep::Present(state(101, 5)))
    );
    assert_eq!(
        snapshotter.process_inspected(Some(state(1, 1)), false, &large),
        Ok(InspectedStep::Present(state(101, 5)))
    );
    assert_eq!(
        snapshotter.process_inspected(None, false, &metadata(DiskFileKind::Special, 0)),
        Ok(InspectedStep::Skip)
    );
    let out_of_range = DiskMetadata {
        modified: EpochOffset::After(1 << 80),
        ..metadata(DiskFileKind::File, 1)
    };
    assert_eq!(
        snapshotter.process_inspected(None, false, &out_of_range),
        Err(MtimeOutOfRange)
    );
    assert_eq!(
        snapshotter.process_tracked(Some(metadata(DiskFileKind::File, 1))),
        Ok(Some(state(1, 5)))
    );
    assert_eq!(snapshotter.process_tracked(None), Ok(None));
}

#[test]
fn tracked_files_in_ignored_directories() {
    let patterns = vec![owned("in")];
    let snapshotter = snapshotter(&patterns);
    let root = FsPath::from_text("/wc");
    let path_of = |path: &str, state: FileState| {
        snapshotter
            .tracked_file_path(&root, repo_path(path), state, false)
            .map(|path| path.map(|path| path.display('/')))
    };
    assert_eq!(
        path_of("in/a", state(1, 1)),
        Ok(Some("/wc/in/a".to_string()))
    );
    assert_eq!(path_of("out", state(1, 1)), Ok(None));
    assert_eq!(path_of("in/a", FileState::for_gitsubmodule()), Ok(None));
    assert!(path_of("in/..", state(1, 1)).is_err());
}

#[test]
fn files_known_to_be_clean() {
    let patterns = vec![RepoPathBuf::root()];
    let snapshotter = snapshotter(&patterns);
    let may_have_changed = |current: Option<FileState>, new: FileState| {
        snapshotter.may_have_changed(current, &new)
    };
    assert!(!may_have_changed(Some(state(1, 5)), state(1, 5)));
    assert!(may_have_changed(Some(state(1, 5)), state(2, 5)));
    assert!(may_have_changed(None, state(1, 5)));
    // Modified when the state was saved, or later
    assert!(may_have_changed(Some(state(1, 1000)), state(1, 1000)));
    assert!(may_have_changed(Some(state(1, 1001)), state(1, 1001)));
    // Of which only the type is known
    assert!(may_have_changed(
        Some(FileState::placeholder()),
        state(0, 5)
    ));
}

fn file(id: u8, executable: bool, copy_id: u8) -> Option<TreeValue> {
    Some(TreeValue::File {
        id: vec![id],
        executable,
        copy_id: vec![copy_id],
    })
}

#[test]
fn stored_files() {
    let patterns = vec![RepoPathBuf::root()];
    let mut snapshotter = snapshotter(&patterns);
    let new = FileState {
        file_type: FileType::Normal {
            exec_bit: ExecBit(true),
        },
        ..state(1, 5)
    };
    let current = MergedTreeValue::from_terms(vec![file(1, false, 9)]);
    let plan = snapshotter.plan_store(None, &new, &current);
    assert_eq!(
        plan,
        StorePlan::File {
            exec_bit: ExecBit(true)
        }
    );
    let stored = |snapshotter: &FileSnapshotter<'_>, id: u8| {
        snapshotter.get_updated_tree_value(plan, &current, StoredContents::File { id: vec![id] })
    };
    assert_eq!(
        stored(&snapshotter, 2),
        Some(MergedTreeValue::from_terms(vec![file(2, true, 9)]))
    );
    // Where the executable bit is ignored, it stays as it is in the tree.
    snapshotter.exec_policy = ExecChangePolicy::Ignore;
    assert_eq!(
        stored(&snapshotter, 2),
        Some(MergedTreeValue::from_terms(vec![file(2, false, 9)]))
    );
    assert_eq!(stored(&snapshotter, 1), None);
    // A new file
    let absent = MergedTreeValue::absent();
    let plan = snapshotter.plan_store(None, &state(1, 5), &absent);
    assert_eq!(
        snapshotter.get_updated_tree_value(plan, &absent, StoredContents::File { id: vec![3] }),
        Some(MergedTreeValue::normal(TreeValue::File {
            id: vec![3],
            executable: false,
            copy_id: vec![],
        }))
    );
}

#[test]
fn stored_conflicts() {
    let patterns = vec![RepoPathBuf::root()];
    let snapshotter = snapshotter(&patterns);
    let current = MergedTreeValue::from_terms(vec![file(1, true, 7), None, file(2, false, 8)]);
    assert_eq!(
        conflict_file_ids(&current),
        vec![Some(vec![1]), None, Some(vec![2])]
    );
    let plan = snapshotter.plan_store(None, &state(1, 5), &current);
    assert_eq!(
        plan,
        StorePlan::Conflict {
            exec_bit: ExecBit(false),
            conflict_marker_len: MIN_CONFLICT_MARKER_LEN,
        }
    );
    let with_data = FileState {
        materialized_conflict_data: Some(MaterializedConflictData {
            conflict_marker_len: 12,
        }),
        ..state(1, 1)
    };
    assert!(matches!(
        snapshotter.plan_store(Some(with_data), &state(1, 5), &current),
        StorePlan::Conflict {
            conflict_marker_len: 12,
            ..
        }
    ));
    let stored = |file_ids: Vec<Option<Vec<u8>>>| {
        snapshotter.get_updated_tree_value(
            plan,
            &current,
            StoredContents::Conflict {
                file_ids,
                copy_id: Some(vec![6]),
                executable: Some(true),
            },
        )
    };
    assert_eq!(stored(vec![Some(vec![1]), None, Some(vec![2])]), None);
    assert_eq!(
        stored(vec![Some(vec![3]), None, Some(vec![2])]),
        Some(MergedTreeValue::from_terms(vec![
            file(3, true, 7),
            None,
            file(2, false, 8)
        ]))
    );
    assert_eq!(
        stored(vec![Some(vec![4])]),
        Some(MergedTreeValue::from_terms(vec![file(4, false, 6)]))
    );
    // A conflict of other things than files stays as it is.
    let other = MergedTreeValue::from_terms(vec![
        file(1, true, 7),
        None,
        Some(TreeValue::Symlink(vec![2])),
    ]);
    let plan = snapshotter.plan_store(None, &state(1, 5), &other);
    assert_eq!(plan, StorePlan::Keep);
    assert_eq!(
        snapshotter.get_updated_tree_value(plan, &other, StoredContents::Kept),
        None
    );
}

#[test]
fn stored_symlinks() {
    let patterns = vec![RepoPathBuf::root()];
    let mut snapshotter = snapshotter(&patterns);
    let current = MergedTreeValue::normal(TreeValue::Symlink(vec![1]));
    let plan = snapshotter.plan_store(None, &state(1, 5), &current);
    assert!(matches!(plan, StorePlan::File { .. }));
    // Where there are no symlinks, a file stands for one.
    snapshotter.symlink_support = false;
    let plan = snapshotter.plan_store(None, &state(1, 5), &current);
    assert_eq!(plan, StorePlan::Symlink);
    assert_eq!(
        snapshotter.get_updated_tree_value(
            plan,
            &current,
            StoredContents::Symlink { id: vec![2] }
        ),
        Some(MergedTreeValue::normal(TreeValue::Symlink(vec![2])))
    );
}

#[test]
fn present_files() {
    let data = Some(MaterializedConflictData {
        conflict_marker_len: 9,
    });
    let current = FileState {
        materialized_conflict_data: data,
        ..state(1, 1)
    };
    let mut output = SnapshotOutput::new();
    // Not changed
    output.process_present_file(owned("same"), Some(state(1, 1)), None, state(1, 1));
    assert!(output.file_states.is_empty());
    // Still a conflict
    output.process_present_file(owned("conflict"), Some(current), None, state(2, 2));
    assert_eq!(output.file_states[0].1.materialized_conflict_data, data);
    // Resolved
    let value = MergedTreeValue::from_terms(vec![file(1, false, 0)]);
    output.process_present_file(owned("resolved"), Some(current), Some(value), state(2, 2));
    assert_eq!(output.file_states[1].1.materialized_conflict_data, None);
    assert_eq!(output.tree_entries.len(), 1);
    output.report_untracked(owned("new"), UntrackedReason::FileNotAutoTracked);
    output.report_deleted(owned("gone"));

    let mut other = SnapshotOutput::new();
    other.report_deleted(owned("gone"));
    other.report_deleted(owned("too"));
    output.append(other);
    assert_eq!(output.deleted_files.len(), 2);
    let changes = output.take_tree_changes();
    let paths: Vec<RepoPath> = changes.iter().map(|(path, _)| path.as_ref()).collect();
    assert_eq!(paths, ["resolved", "gone", "too"].map(repo_path).to_vec());
    assert!(!changes[0].1.is_absent());
    assert!(changes[1].1.is_absent() && changes[2].1.is_absent());
}

#[test]
fn deleted_files() {
    let map = file_states(&[
        // A file that has become a directory
        ("a", state(1, 1)),
        ("a/b", state(1, 1)),
        ("a/c/d", state(1, 1)),
        ("a/e/f", state(1, 1)),
        ("a/e/g", FileState::for_gitsubmodule()),
        ("a/h", state(1, 1)),
    ]);
    let below = map.all().prefixed(repo_path("a"));
    let mut present = PresentDirEntries::new();
    present.insert(PresentDirEntryKind::Dir, "c".to_string());
    // A directory that has become a file
    present.insert(PresentDirEntryKind::File, "e".to_string());
    present.insert(PresentDirEntryKind::File, "h".to_string());
    assert!(present.contains(PresentDirEntryKind::File, "h"));
    assert!(!present.contains(PresentDirEntryKind::Dir, "h"));
    let missing = missing_files(repo_path("a"), below, &present);
    assert_eq!(missing, ["a", "a/b", "a/e/f"].map(repo_path).to_vec());

    let patterns = vec![owned("a/b"), owned("a/e")];
    let matcher = SnapshotMatcher {
        sparse_patterns: &patterns,
        fsmonitor: None,
    };
    let mut output = SnapshotOutput::new();
    output.emit_deleted_files(&matcher, &missing, &vec![false; 3]);
    assert_eq!(output.deleted_files.len(), 2);
    assert!(output.deleted_files.contains(repo_path("a/b")));
    assert!(output.deleted_files.contains(repo_path("a/e/f")));
}

#[test]
fn changed_files() {
    let changed = ["a/b", ".", "../x", "c/.gitignore"]
        .map(FsPath::from_text)
        .to_vec();
    let matcher = FsmonitorMatcher::new(&changed);
    assert!(matcher.matches(repo_path("a/b")));
    assert!(!matcher.matches(repo_path("a/c")));
    assert!(matcher.matches(repo_path("c/d/e")));
    assert!(matcher.matches(repo_path("")));
    assert!(matcher.visits(repo_path("a")));
    assert!(!matcher.visits(repo_path("a/b")));
    assert!(matcher.visits(repo_path("c/d")));
    assert!(!matcher.visits(repo_path("x")));
    let patterns = vec![owned("c")];
    let matcher = SnapshotMatcher {
        sparse_patterns: &patterns,
        fsmonitor: Some(&matcher),
    };
    assert!(!matcher.matches(repo_path("a/b"), true));
    assert!(matcher.matches(repo_path("c/x"), false));
    assert!(matcher.visits(repo_path(""), false));
    assert!(!matcher.visits(repo_path("a"), true));
}

#[test]
fn filesystem_monitors() {
    let clock = || WatchmanClock {
        encoded: vec![1, 2],
    };
    let changes = || WatchmanReply::Changes {
        clock: clock(),
        changed_files: Some(vec![FsPath::from_text("a")]),
    };
    let watchman = FsmonitorSettings::Watchman {
        register_trigger: false,
    };
    let scan = make_fsmonitor_matcher(&watchman, changes()).unwrap();
    assert_eq!(scan.watchman_clock, Some(clock()));
    assert!(scan.matcher.unwrap().matches(repo_path("a")));
    let scan = make_fsmonitor_matcher(&watchman, WatchmanReply::Failed).unwrap();
    assert!(scan.watchman_clock.is_none() && scan.matcher.is_none());
    assert!(matches!(
        make_fsmonitor_matcher(&watchman, WatchmanReply::Unsupported),
        Err(FsmonitorUnsupported)
    ));
    let scan = make_fsmonitor_matcher(&FsmonitorSettings::Disabled, changes()).unwrap();
    assert!(scan.watchman_clock.is_none() && scan.matcher.is_none());
    let test = FsmonitorSettings::Test {
        changed_files: vec![FsPath::from_text("b")],
    };
    let scan = make_fsmonitor_matcher(&test, WatchmanReply::Unsupported).unwrap();
    assert!(scan.watchman_clock.is_none());
    assert!(scan.matcher.unwrap().matches(repo_path("b")));
}

fn present(path: &str, new_state: FileState, stored: Option<StoredFile>) -> WalkStep {
    WalkStep::Present {
        path: owned(path),
        new_state,
        stored,
    }
}

fn gone(path: &str) -> WalkStep {
    WalkStep::Gone { path: owned(path) }
}

fn untracked(path: &str) -> WalkStep {
    WalkStep::Untracked {
        path: owned(path),
        reason: UntrackedReason::FileNotAutoTracked,
    }
}

fn stored_file(current: Option<TreeValue>, contents: StoredContents) -> Option<StoredFile> {
    Some(StoredFile {
        current_value: MergedTreeValue::from_terms(vec![current]),
        contents,
    })
}

#[test]
fn files_of_a_walk_are_tracked() {
    let patterns = vec![owned("")];
    let snapshotter = snapshotter(&patterns);
    let tracked_before = ["changed", "clean", "gone", "missing/x", "same", "touched"];
    let states: Vec<(&str, FileState)> = tracked_before
        .iter()
        .map(|path| (*path, state(1, 1)))
        .collect();
    let mut map = file_states(&states);
    let steps = vec![
        untracked("untracked"),
        present(
            "changed",
            state(2, 5),
            stored_file(file(1, false, 0), StoredContents::File { id: vec![9] }),
        ),
        present("clean", state(1, 1), None),
        gone("gone"),
        WalkStep::Missing {
            paths: vec![owned("missing/x")],
            forced: vec![false],
        },
        present(
            "new",
            state(3, 5),
            stored_file(None, StoredContents::File { id: vec![8] }),
        ),
        // Stored again under the same id
        present(
            "touched",
            state(1, 5),
            stored_file(file(1, false, 0), StoredContents::File { id: vec![1] }),
        ),
    ];
    let mut output = snapshotter.record_walk(map.all(), steps).unwrap();
    let tree_paths: Vec<RepoPath> = output.tree_entries.iter().map(|e| e.0.as_ref()).collect();
    assert_eq!(tree_paths, ["changed", "new"].map(repo_path).to_vec());
    assert_eq!(
        output.tree_entries[0].1,
        MergedTreeValue::from_terms(vec![file(9, false, 0)])
    );
    assert_eq!(
        output.file_states,
        vec![
            (owned("changed"), state(2, 5)),
            (owned("new"), state(3, 5)),
            (owned("touched"), state(1, 5)),
        ]
    );
    assert_eq!(
        output.untracked_paths,
        vec![(owned("untracked"), UntrackedReason::FileNotAutoTracked)]
    );
    assert_eq!(output.deleted_files.len(), 2);
    assert!(output.deleted_files.contains(repo_path("missing/x")));

    let deleted = output.take_tree_changes();
    assert_eq!(deleted.len(), 4);
    map.merge_in(output.file_states, &output.deleted_files);
    assert_eq!(
        map.all().paths(),
        ["changed", "clean", "new", "same", "touched"].map(repo_path).to_vec()
    );
}

#[test]
fn missing_files_outside_the_walk_are_kept() {
    let patterns = vec![owned("in")];
    let snapshotter = snapshotter(&patterns);
    let map = file_states(&[("in/a", state(1, 1)), ("out/a", state(1, 1))]);
    let steps = vec![WalkStep::Missing {
        paths: vec![owned("in/a"), owned("out/a")],
        forced: vec![false, true],
    }];
    let output = snapshotter.record_walk(map.all(), steps).unwrap();
    assert_eq!(output.deleted_files.len(), 1);
    assert!(output.deleted_files.contains(repo_path("in/a")));
}

#[test]
fn conflicts_found_in_a_walk() {
    let patterns = vec![owned("")];
    let snapshotter = snapshotter(&patterns);
    let map = file_states(&[]);
    let terms = || MergedTreeValue::from_terms(vec![file(1, false, 0), None, file(2, false, 0)]);
    let conflict = |file_ids: Vec<Option<Vec<u8>>>| {
        let stored = StoredFile {
            current_value: terms(),
            contents: StoredContents::Conflict {
                file_ids,
                copy_id: None,
                executable: None,
            },
        };
        vec![present("a", state(1, 1), Some(stored))]
    };
    let output = snapshotter
        .record_walk(map.all(), conflict(vec![Some(vec![3]), None, Some(vec![2])]))
        .unwrap();
    assert_eq!(output.tree_entries[0].1.term(0), file(3, false, 0).as_ref());
    let output = snapshotter
        .record_walk(map.all(), conflict(vec![Some(vec![4])]))
        .unwrap();
    assert_eq!(output.tree_entries[0].1.len(), 1);
    // Ids that cannot be those of the conflict
    for file_ids in [
        vec![None],
        vec![Some(vec![3]), None],
        vec![Some(vec![3]), Some(vec![3]), Some(vec![2])],
    ] {
        assert!(snapshotter.record_walk(map.all(), conflict(file_ids)).is_none());
    }
}

#[test]
fn steps_that_make_up_no_walk() {
    let patterns = vec![owned("")];
    let snapshotter = snapshotter(&patterns);
    let map = file_states(&[("a", state(1, 1)), ("b", state(1, 1))]);
    let is_walk = |steps| snapshotter.record_walk(map.all(), steps).is_some();
    let clean = |path| present(path, state(1, 1), None);
    let new_file = || stored_file(None, StoredContents::File { id: vec![8] });
    assert!(is_walk(vec![]));
    assert!(is_walk(vec![clean("a"), clean("b")]));
    // Found twice
    assert!(!is_walk(vec![clean("a"), clean("a")]));
    assert!(!is_walk(vec![untracked("c"), untracked("c")]));
    // Found and gone
    assert!(!is_walk(vec![clean("a"), gone("a")]));
    assert!(!is_walk(vec![gone("a"), clean("a")]));
    let missing = |forced| WalkStep::Missing {
        paths: vec![owned("a")],
        forced,
    };
    assert!(is_walk(vec![clean("b"), missing(vec![false])]));
    assert!(!is_walk(vec![clean("a"), missing(vec![false])]));
    assert!(!is_walk(vec![missing(vec![])]));
    // Tracked
    assert!(!is_walk(vec![untracked("a")]));
    // Not known to be clean, and not stored
    assert!(!is_walk(vec![present("a", state(2, 2), None)]));
    assert!(!is_walk(vec![present("c", state(1, 1), None)]));
    // Known to be clean, and stored
    assert!(!is_walk(vec![present("a", state(1, 1), new_file())]));
    // Not stored as planned
    assert!(is_walk(vec![present("c", state(2, 2), new_file())]));
    let link = stored_file(None, StoredContents::Symlink { id: vec![8] });
    assert!(!is_walk(vec![present("c", state(2, 2), link)]));
    let submodule = FileState::for_gitsubmodule();
    let link = stored_file(None, StoredContents::Symlink { id: vec![8] });
    assert!(!is_walk(vec![present("c", submodule, link)]));
}
