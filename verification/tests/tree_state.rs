use working_copy::backend::MergedTree;
use working_copy::backend::MergedTreeValue;
use working_copy::backend::TreeValue;
use working_copy::checkout::MaterializedTreeValue;
use working_copy::checkout::TreeUpdate;
use working_copy::eol::EolConversionMode;
use working_copy::eol::EolConversionSettings;
use working_copy::eol::EolGitAttributes;
use working_copy::file_state::DiskFileKind;
use working_copy::file_state::DiskMetadata;
use working_copy::file_state::EpochOffset;
use working_copy::file_state::ExecBit;
use working_copy::file_state::ExecChangeSetting;
use working_copy::file_state::FileState;
use working_copy::file_state::FileType;
use working_copy::file_states::file_state_entry_to_proto;
use working_copy::fs_path::FsPath;
use working_copy::local_working_copy::CheckoutState;
use working_copy::local_working_copy::LocalWorkingCopy;
use working_copy::local_working_copy::LocalWorkingCopyFactory;
use working_copy::local_working_copy::LockedLocalWorkingCopy;
use working_copy::matchers::FsmonitorScan;
use working_copy::matchers::FsmonitorSettings;
use working_copy::platform::Platform;
use working_copy::proto::CheckoutProto;
use working_copy::proto::SparsePatternsProto;
use working_copy::proto::TreeStateProto;
use working_copy::proto::WatchmanClock;
use working_copy::repo_path::RepoPath;
use working_copy::repo_path::RepoPathBuf;
use working_copy::settings::ConfigFault;
use working_copy::settings::ConfigGetError;
use working_copy::settings::ConfigValue;
use working_copy::settings::ConflictMarkerStyle;
use working_copy::settings::TreeStateSettings;
use working_copy::settings::UserSettings;
use working_copy::snapshot::UntrackedReason;
use working_copy::snapshot_output::SnapshotOutput;
use working_copy::tree_state::is_readable;
use working_copy::tree_state::DiskSupport;
use working_copy::tree_state::SavedTreeState;
use working_copy::tree_state::TreeState;

fn repo_path(value: &str) -> RepoPath<'_> {
    RepoPath::from_internal_string(value).unwrap()
}

fn owned(value: &str) -> RepoPathBuf {
    repo_path(value).to_owned()
}

fn tree(id: u8) -> MergedTree {
    MergedTree {
        tree_ids: vec![vec![id]],
        labels: vec![],
    }
}

fn tree_state_settings(fsmonitor_settings: FsmonitorSettings) -> TreeStateSettings {
    TreeStateSettings {
        conflict_marker_style: ConflictMarkerStyle::Diff,
        eol_conversion_settings: EolConversionSettings {
            use_git_attributes: false,
            default_eol_attributes: EolConversionMode::Disabled,
            eol_conversion_mode: EolConversionMode::Input,
        },
        exec_change_setting: ExecChangeSetting::Auto,
        fsmonitor_settings,
    }
}

const SUPPORT: DiskSupport = DiskSupport {
    platform: Platform::Unix,
    symlinks: Some(true),
    exec_bits: None,
};

fn new_state() -> TreeState {
    TreeState::init_without_saving(
        tree(0),
        FsPath::from_text("/wc"),
        FsPath::from_text("/wc/.jj/working_copy"),
        &tree_state_settings(FsmonitorSettings::Disabled),
        SUPPORT,
    )
}

fn file_value(executable: bool) -> MergedTreeValue {
    MergedTreeValue::normal(TreeValue::File {
        id: vec![1],
        executable,
        copy_id: vec![],
    })
}

fn paths(state: &TreeState) -> Vec<RepoPath<'_>> {
    state.file_states().paths()
}

/// An update that adds or removes the given paths.
fn update(added: &[&str], removed: &[&str]) -> TreeUpdate {
    let mut update = TreeUpdate::new();
    let root = FsPath::from_text("/wc");
    for path in added {
        let after = MaterializedTreeValue::File { executable: false };
        let before = MergedTreeValue::absent();
        update
            .start_entry(Platform::Unix, &root, repo_path(path), &before, &after)
            .unwrap();
        update.finish_written(owned(path), &after, FileState::placeholder());
    }
    for path in removed {
        let after = MaterializedTreeValue::Absent;
        let before = file_value(false);
        update
            .start_entry(Platform::Unix, &root, repo_path(path), &before, &after)
            .unwrap();
        update.finish_removed(owned(path));
    }
    update
}

#[test]
fn new_working_copy() {
    let (state, proto) = TreeState::init(
        tree(0),
        FsPath::from_text("/wc"),
        FsPath::from_text("/state"),
        &tree_state_settings(FsmonitorSettings::Disabled),
        SUPPORT,
    );
    assert_eq!(state.working_copy_path().display('/'), "/wc");
    assert_eq!(state.state_path().display('/'), "/state");
    assert_eq!(*state.current_tree(), tree(0));
    assert!(state.file_states().is_empty());
    assert_eq!(*state.sparse_patterns(), vec![RepoPathBuf::root()]);
    assert_eq!(state.conflict_marker_style(), ConflictMarkerStyle::Diff);
    assert!(matches!(
        state.fsmonitor_settings(),
        FsmonitorSettings::Disabled
    ));
    assert!(state.watchman_clock().is_none());
    assert!(state.is_in_sparse_patterns(repo_path("any/path")));
    let context = state.update_context();
    assert!(context.symlink_support);
    assert_eq!(proto.tree_ids, vec![vec![0]]);
    assert!(proto.is_file_states_sorted);
    assert_eq!(
        proto.sparse_patterns,
        Some(SparsePatternsProto {
            prefixes: vec!["".to_string()]
        })
    );
}

#[test]
fn saved_state_round_trip() {
    let mut state = new_state();
    let conflict = MergedTree {
        tree_ids: vec![vec![1], vec![2], vec![3]],
        labels: vec!["x".to_string(), "y".to_string(), "z".to_string()],
    };
    state.check_out(&conflict, update(&["b", "a/c", "a#"], &[]), true);
    state.set_sparse_patterns(
        vec![owned("a"), owned("b")],
        TreeUpdate::new(),
        TreeUpdate::new(),
        false,
    );
    state.skip_snapshot(Some(WatchmanClock {
        encoded: vec![9, 9],
    }));
    let proto = state.to_proto();
    assert!(is_readable(&proto));
    let mut loaded = new_state();
    let metadata = DiskMetadata {
        kind: DiskFileKind::File,
        permissions: 0o644,
        len: 0,
        modified: EpochOffset::After(77),
    };
    loaded.read(proto.clone(), Some(metadata));
    assert_eq!(*loaded.current_tree(), conflict);
    assert_eq!(paths(&loaded), ["a/c", "a#", "b"].map(repo_path).to_vec());
    assert_eq!(*loaded.sparse_patterns(), vec![owned("a"), owned("b")]);
    assert_eq!(loaded.watchman_clock().unwrap().encoded, vec![9, 9]);
    assert_eq!(loaded.to_proto(), proto);
    loaded.reset_watchman();
    assert!(loaded.watchman_clock().is_none());
}

#[test]
fn saved_then_loaded() {
    let load = |saved: Option<SavedTreeState>| {
        TreeState::load(
            tree(0),
            FsPath::from_text("/wc"),
            FsPath::from_text("/wc/.jj/working_copy"),
            &tree_state_settings(FsmonitorSettings::Disabled),
            SUPPORT,
            saved,
        )
    };
    // There is nothing yet.
    let (mut state, proto) = load(None);
    assert_eq!(proto.unwrap(), state.to_proto());
    state.check_out(&tree(1), update(&["a", "b"], &[]), false);
    let proto = state.save(None);
    assert_eq!(proto, state.to_proto());
    let (loaded, nothing) = load(Some(SavedTreeState {
        proto,
        metadata: None,
    }));
    assert!(nothing.is_none());
    assert_eq!(*loaded.current_tree(), tree(1));
    assert_eq!(paths(&loaded), ["a", "b"].map(repo_path).to_vec());
}

#[test]
fn line_endings_by_settings() {
    let state = new_state();
    let strategy = state.target_eol_strategy();
    assert_eq!(
        strategy.convert_eol_for_snapshot(b"a\r\nb".to_vec(), EolGitAttributes::unspecified()),
        b"a\nb"
    );
    assert_eq!(
        strategy.convert_eol_for_update(b"a\nb".to_vec(), EolGitAttributes::unspecified()),
        b"a\nb"
    );
}

fn old_proto(entries: &[&str], is_file_states_sorted: bool) -> TreeStateProto {
    TreeStateProto {
        legacy_tree_id: vec![7],
        tree_ids: vec![],
        conflict_labels: vec![],
        file_states: entries
            .iter()
            .map(|path| file_state_entry_to_proto(owned(path), &FileState::placeholder()))
            .collect(),
        is_file_states_sorted,
        sparse_patterns: None,
        watchman_clock: None,
    }
}

#[test]
fn old_saved_state() {
    let proto = old_proto(&["b#", "b/c", "a"], false);
    assert!(is_readable(&proto));
    let mut state = new_state();
    state.read(proto, None);
    assert_eq!(*state.current_tree(), tree(7));
    assert_eq!(paths(&state), ["a", "b/c", "b#"].map(repo_path).to_vec());
    assert_eq!(*state.sparse_patterns(), vec![RepoPathBuf::root()]);
}

#[test]
fn broken_saved_state() {
    assert!(is_readable(&old_proto(&["a", "b"], true)));
    assert!(!is_readable(&old_proto(&["b", "a"], true)));
    assert!(!is_readable(&old_proto(&["b", "b"], false)));
    let mut proto = old_proto(&["a"], true);
    proto.file_states[0].path = "/a".to_string();
    assert!(!is_readable(&proto));
    let mut proto = old_proto(&["a"], true);
    proto.file_states[0].state = None;
    assert!(!is_readable(&proto));
    let mut proto = old_proto(&["a"], true);
    proto.tree_ids = vec![vec![1], vec![2]];
    assert!(!is_readable(&proto));
    let mut proto = old_proto(&["a"], true);
    proto.sparse_patterns = Some(SparsePatternsProto {
        prefixes: vec!["a//b".to_string()],
    });
    assert!(!is_readable(&proto));
}

#[test]
fn checked_out_tree() {
    let mut state = new_state();
    let stats = state.check_out(&tree(1), update(&["a", "b"], &[]), false);
    assert_eq!(stats.added_files, 2);
    assert_eq!(*state.current_tree(), tree(1));
    assert_eq!(paths(&state), ["a", "b"].map(repo_path).to_vec());
    let stats = state.check_out(&tree(2), update(&["c"], &["a"]), false);
    assert_eq!((stats.added_files, stats.removed_files), (1, 1));
    assert_eq!(paths(&state), ["b", "c"].map(repo_path).to_vec());
}

#[test]
fn replaced_sparse_patterns() {
    let mut state = new_state();
    state.check_out(&tree(1), update(&["a/x", "b/x"], &[]), false);
    let patterns = vec![owned("a"), owned("c")];
    assert!(!state.is_added_by(&patterns, repo_path("c/x")));
    assert!(state.is_removed_by(&patterns, repo_path("b/x")));
    assert!(!state.is_removed_by(&patterns, repo_path("a/x")));
    let removed = update(&[], &["b/x"]);
    let stats = state.set_sparse_patterns(patterns, update(&[], &[]), removed, false);
    assert_eq!((stats.added_files, stats.removed_files), (0, 1));
    assert_eq!(paths(&state), vec![repo_path("a/x")]);
    let patterns = vec![owned("b")];
    assert!(state.is_added_by(&patterns, repo_path("b/x")));
    // The new files are found in any order.
    let added = update(&["b/x", "b/a"], &[]);
    let stats = state.set_sparse_patterns(patterns, added, update(&[], &["a/x"]), true);
    assert_eq!((stats.added_files, stats.removed_files), (2, 1));
    assert_eq!(paths(&state), ["b/a", "b/x"].map(repo_path).to_vec());
    assert!(!state.is_in_sparse_patterns(repo_path("a/x")));
}

#[test]
fn reset_in_any_order() {
    let mut state = new_state();
    state.check_out(&tree(1), update(&["b", "d"], &[]), false);
    state.reset(
        &tree(2),
        vec![
            (owned("e"), file_value(false)),
            (owned("b"), MergedTreeValue::absent()),
            (owned("a"), file_value(false)),
            (owned("c"), file_value(false)),
        ],
    );
    assert_eq!(paths(&state), ["a", "c", "d", "e"].map(repo_path).to_vec());
}

#[test]
fn update_left_half_way() {
    let mut wc = locked();
    let before = wc.tree_state.current_tree().duplicate();
    wc.apply_update(update(&["x", "w"], &[]), true);
    assert_eq!(*wc.tree_state.current_tree(), before);
    assert!(wc.tree_state.file_states().contains_path(repo_path("w")));
    assert!(wc.tree_state.file_states().contains_path(repo_path("x")));
    assert!(!wc.finish(vec![1, 2]).save_tree_state);
}

#[test]
fn reset_to_tree() {
    let mut state = new_state();
    state.check_out(&tree(1), update(&["a", "b", "c"], &[]), false);
    let conflict = MergedTreeValue::from_terms(vec![None, None, None]);
    state.reset(
        &tree(2),
        vec![
            (owned("a"), MergedTreeValue::absent()),
            (owned("b"), file_value(true)),
            (
                owned("d"),
                MergedTreeValue::normal(TreeValue::Symlink(vec![])),
            ),
            (owned("e"), conflict),
            (
                owned("f"),
                MergedTreeValue::normal(TreeValue::GitSubmodule(vec![])),
            ),
        ],
    );
    assert_eq!(*state.current_tree(), tree(2));
    let file_type = |path: &str| {
        state
            .file_states()
            .get(repo_path(path))
            .map(|state| state.file_type)
    };
    assert_eq!(file_type("a"), None);
    assert_eq!(
        file_type("b"),
        Some(FileType::Normal {
            exec_bit: ExecBit(true)
        })
    );
    assert_eq!(
        file_type("c"),
        Some(FileType::Normal {
            exec_bit: ExecBit(false)
        })
    );
    assert_eq!(file_type("d"), Some(FileType::Symlink));
    assert_eq!(
        file_type("e"),
        Some(FileType::Normal {
            exec_bit: ExecBit(false)
        })
    );
    assert_eq!(file_type("f"), Some(FileType::GitSubmodule));
    // All files are forgotten first.
    state.recover(tree(0), &tree(3), vec![(owned("x"), file_value(false))]);
    assert_eq!(*state.current_tree(), tree(3));
    assert_eq!(paths(&state), vec![repo_path("x")]);
}

#[test]
fn finished_snapshot() {
    let mut state = new_state();
    state.check_out(&tree(1), update(&["a", "b"], &[]), false);
    // Nothing found
    let (is_dirty, stats) = state.finish_snapshot(SnapshotOutput::new(), tree(1), None);
    assert!(!is_dirty);
    assert!(stats.untracked_paths.is_empty());
    assert_eq!(paths(&state), ["a", "b"].map(repo_path).to_vec());
    // Files found in any order
    let mut output = SnapshotOutput::new();
    output.process_present_file(owned("d"), None, None, FileState::placeholder());
    output.process_present_file(owned("c"), None, None, FileState::placeholder());
    output.report_deleted(owned("a"));
    output.report_untracked(owned("z"), UntrackedReason::FileNotAutoTracked);
    output.report_untracked(owned("y"), UntrackedReason::FileNotAutoTracked);
    let clock = WatchmanClock { encoded: vec![1] };
    let (is_dirty, stats) = state.finish_snapshot(output, tree(2), Some(clock));
    assert!(is_dirty);
    let untracked: Vec<RepoPath> = stats
        .untracked_paths
        .iter()
        .map(|(path, _)| path.as_ref())
        .collect();
    assert_eq!(untracked, ["y", "z"].map(repo_path).to_vec());
    for path in untracked {
        assert!(!state.file_states().contains_path(path));
    }
    assert_eq!(paths(&state), ["b", "c", "d"].map(repo_path).to_vec());
    assert_eq!(*state.current_tree(), tree(2));
    // The clock is not taken over while there are untracked files.
    assert!(state.watchman_clock().is_none());
    let scan = FsmonitorScan {
        matcher: None,
        watchman_clock: None,
    };
    let snapshotter = state.snapshotter(&scan, 100);
    assert!(snapshotter.matcher.matches(repo_path("any"), false));
    assert_eq!(snapshotter.max_new_file_size, 100);
}

#[test]
fn snapshot_with_monitor_is_saved() {
    let settings = tree_state_settings(FsmonitorSettings::Watchman {
        register_trigger: true,
    });
    let (mut state, _) = TreeState::init(
        tree(0),
        FsPath::from_text("/wc"),
        FsPath::from_text("/state"),
        &settings,
        SUPPORT,
    );
    let clock = WatchmanClock { encoded: vec![1] };
    let (is_dirty, _) = state.skip_snapshot(Some(clock));
    assert!(is_dirty);
    assert_eq!(state.watchman_clock().unwrap().encoded, vec![1]);
}

fn locked() -> LockedLocalWorkingCopy {
    let factory = LocalWorkingCopyFactory {};
    let (mut wc, checkout, _) = factory.init_working_copy(
        tree(0),
        FsPath::from_text("/wc"),
        FsPath::from_text("/state"),
        vec![1, 2],
        "main".to_string(),
        tree_state_settings(FsmonitorSettings::Disabled),
        SUPPORT,
    );
    assert_eq!(checkout.operation_id, vec![1, 2]);
    assert_eq!(*wc.tree().unwrap(), tree(0));
    assert_eq!(*wc.sparse_patterns().unwrap(), vec![RepoPathBuf::root()]);
    assert!(wc.file_states().unwrap().is_empty());
    let tree_state = wc.tree_state.take().unwrap();
    LockedLocalWorkingCopy::start_mutation(wc, tree_state)
}

#[test]
fn unchanged_working_copy_is_not_saved() {
    let mut wc = locked();
    assert_eq!(*wc.old_operation_id(), vec![1, 2]);
    assert_eq!(*wc.old_tree(), tree(0));
    wc.finish_snapshot(SnapshotOutput::new(), tree(0), None);
    assert!(!wc.needs_check_out(&tree(0)));
    let finished = wc.finish(vec![1, 2]);
    assert!(!finished.save_tree_state);
    assert!(!finished.save_checkout);
    assert_eq!(finished.wc.workspace_name(), "main");
    assert_eq!(finished.wc.state_path().display('/'), "/state");
}

#[test]
fn changed_working_copy_is_saved() {
    let mut wc = locked();
    assert!(wc.needs_check_out(&tree(1)));
    wc.check_out(&tree(1), update(&["a"], &[]), false);
    wc.rename_workspace("other".to_string());
    let finished = wc.finish(vec![3]);
    assert!(finished.save_tree_state);
    assert!(finished.save_checkout);
    assert_eq!(finished.wc.workspace_name(), "other");
    assert_eq!(*finished.wc.operation_id(), vec![3]);

    let mut wc = locked();
    wc.finish_snapshot(SnapshotOutput::new(), tree(5), None);
    assert!(wc.finish(vec![1, 2]).save_tree_state);
    let mut wc = locked();
    wc.reset(&tree(5), vec![]);
    assert!(wc.finish(vec![1, 2]).save_tree_state);
    let mut wc = locked();
    wc.recover(tree(0), &tree(5), vec![]);
    assert!(wc.finish(vec![1, 2]).save_tree_state);
    let mut wc = locked();
    wc.set_sparse_patterns(vec![], TreeUpdate::new(), TreeUpdate::new(), false);
    assert!(wc.finish(vec![1, 2]).save_tree_state);
    let mut wc = locked();
    wc.reset_watchman();
    assert!(wc.finish(vec![1, 2]).save_tree_state);
    let mut wc = locked();
    wc.skip_snapshot(None);
    assert!(!wc.finish(vec![1, 2]).save_tree_state);
}

#[test]
fn stored_checkout() {
    assert_eq!(LocalWorkingCopy::name(), "local");
    let load = |workspace_name: &str| {
        LocalWorkingCopyFactory {}.load_working_copy(
            FsPath::from_text("/wc"),
            FsPath::from_text("/state"),
            CheckoutProto {
                operation_id: vec![4],
                workspace_name: workspace_name.to_string(),
            },
            tree_state_settings(FsmonitorSettings::Disabled),
        )
    };
    assert_eq!(load("main").workspace_name(), "main");
    assert!(load("main").tree().is_none());
    assert!(load("main").sparse_patterns().is_none());
    assert!(load("main").file_states().is_none());
    assert_eq!(load("").workspace_name(), "default");
    let checkout_state = CheckoutState {
        operation_id: vec![4],
        workspace_name: "main".to_string(),
    };
    let loaded = CheckoutState::from_proto(checkout_state.to_proto());
    assert_eq!(loaded.operation_id, vec![4]);
    assert_eq!(loaded.workspace_name, "main");
}

fn user_settings(changes: &[(&str, Option<ConfigValue>)]) -> UserSettings {
    let text = |value: &str| ConfigValue::Text(value.to_string());
    let mut entries = vec![];
    for (name, value) in changes {
        if let Some(value) = value {
            entries.push((name.to_string(), value.clone()));
        }
    }
    for (name, value) in [
        ("ui.conflict-marker-style", text("git")),
        (
            "working-copy.eol-conversion-use-gitattributes",
            ConfigValue::Bool(true),
        ),
        ("working-copy.gitattributes-default-eol", text("input")),
        ("working-copy.eol-conversion", text("input-output")),
        ("working-copy.exec-bit-change", text("ignore")),
    ] {
        if !changes.iter().any(|(changed, _)| *changed == name) {
            entries.push((name.to_string(), value));
        }
    }
    UserSettings { entries }
}

#[test]
fn settings_of_the_user() {
    let settings = TreeStateSettings::try_from_user_settings(
        &user_settings(&[]),
        Ok(FsmonitorSettings::Disabled),
    )
    .unwrap();
    assert_eq!(settings.conflict_marker_style, ConflictMarkerStyle::Git);
    assert_eq!(
        settings.eol_conversion_settings,
        EolConversionSettings {
            use_git_attributes: true,
            default_eol_attributes: EolConversionMode::Input,
            eol_conversion_mode: EolConversionMode::InputOutput,
        }
    );
    assert_eq!(settings.exec_change_setting, ExecChangeSetting::Ignore);

    let read = |name: &str, value: Option<ConfigValue>| {
        TreeStateSettings::try_from_user_settings(
            &user_settings(&[(name, value)]),
            Ok(FsmonitorSettings::Disabled),
        )
    };
    let error = |name: &str, fault: ConfigFault| ConfigGetError {
        name: name.to_string(),
        fault,
    };
    for name in [
        "ui.conflict-marker-style",
        "working-copy.eol-conversion-use-gitattributes",
        "working-copy.gitattributes-default-eol",
        "working-copy.eol-conversion",
        "working-copy.exec-bit-change",
    ] {
        assert_eq!(
            read(name, None).unwrap_err(),
            error(name, ConfigFault::NotFound)
        );
    }
    for name in [
        "ui.conflict-marker-style",
        "working-copy.eol-conversion",
        "working-copy.exec-bit-change",
    ] {
        let value = ConfigValue::Text("sometimes".to_string());
        assert_eq!(
            read(name, Some(value)).unwrap_err(),
            error(name, ConfigFault::WrongType)
        );
    }
    let none = ConfigValue::Text("none".to_string());
    assert_eq!(
        read("working-copy.eol-conversion", Some(none))
            .unwrap()
            .eol_conversion_settings
            .eol_conversion_mode,
        EolConversionMode::Disabled
    );
    for (value, expected) in [
        ("respect", ExecChangeSetting::Respect),
        ("auto", ExecChangeSetting::Auto),
    ] {
        let value = ConfigValue::Text(value.to_string());
        assert_eq!(
            read("working-copy.exec-bit-change", Some(value))
                .unwrap()
                .exec_change_setting,
            expected
        );
    }
    for (value, expected) in [
        ("diff", ConflictMarkerStyle::Diff),
        ("diff-experimental", ConflictMarkerStyle::DiffExperimental),
        ("snapshot", ConflictMarkerStyle::Snapshot),
        ("git", ConflictMarkerStyle::Git),
    ] {
        let value = ConfigValue::Text(value.to_string());
        assert_eq!(
            read("ui.conflict-marker-style", Some(value))
                .unwrap()
                .conflict_marker_style,
            expected
        );
    }
    let fault = error("fsmonitor.backend", ConfigFault::WrongType);
    assert_eq!(
        TreeStateSettings::try_from_user_settings(&user_settings(&[]), Err(fault.clone()))
            .unwrap_err(),
        fault
    );
}
