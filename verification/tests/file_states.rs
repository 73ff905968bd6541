use std::time::Duration;
use std::time::SystemTime;

use working_copy::file_state::system_time_to_millis;
use working_copy::file_state::EpochOffset;
use working_copy::file_state::ExecBit;
use working_copy::file_state::FileState;
use working_copy::file_state::FileType;
use working_copy::file_state::MillisSinceEpoch;
use working_copy::file_states::file_state_entry_to_proto;
use working_copy::file_states::FileStates;
use working_copy::file_states_map::FileStatesMap;
use working_copy::path_set::PathSet;
use working_copy::proto::FileStateProto;
use working_copy::proto::FileTypeProto;
use working_copy::repo_path::RepoPath;
use working_copy::repo_path::RepoPathComponent;

fn repo_path(value: &str) -> RepoPath<'_> {
    RepoPath::from_internal_string(value).unwrap()
}

fn repo_path_component(value: &str) -> RepoPathComponent<'_> {
    RepoPathComponent::new(value).unwrap()
}

fn new_state(size: u64) -> FileState {
    FileState {
        file_type: FileType::Normal {
            exec_bit: ExecBit(false),
        },
        mtime: MillisSinceEpoch(0),
        size,
        materialized_conflict_data: None,
    }
}

#[test]
fn test_file_states_merge() {
    let new_static_entry = |path: &'static str, size: u64| (repo_path(path), new_state(size));
    let new_owned_entry = |path: &str, size: u64| (repo_path(path).to_owned(), new_state(size));
    let new_proto_entry = |path: &str, size: u64| {
        file_state_entry_to_proto(repo_path(path).to_owned(), &new_state(size))
    };
    let data = vec![
        new_proto_entry("aa", 0),
        new_proto_entry("b#", 4), // '#' < '/'
        new_proto_entry("b/c", 1),
        new_proto_entry("b/d/e", 2),
        new_proto_entry("b/e", 3),
        new_proto_entry("bc", 5),
    ];
    let mut file_states = FileStatesMap::from_proto(data, false);

    let changed_file_states = vec![
        new_owned_entry("aa", 10),    // change
        new_owned_entry("b/d/f", 11), // add
        new_owned_entry("b/e", 12),   // change
        new_owned_entry("c", 13),     // add
    ];
    let mut deleted_files = PathSet::new();
    deleted_files.insert(repo_path("b/c").to_owned());
    deleted_files.insert(repo_path("b#").to_owned());
    file_states.merge_in(changed_file_states, &deleted_files);
    assert_eq!(
        file_states.all().iter(),
        vec![
            new_static_entry("aa", 10),
            new_static_entry("b/d/e", 2),
            new_static_entry("b/d/f", 11),
            new_static_entry("b/e", 12),
            new_static_entry("bc", 5),
            new_static_entry("c", 13),
        ],
    );
}

#[test]
fn merging_keeps_other_entries_as_they_are() {
    // Read as a normal file, but stored otherwise.
    let mut conflict = file_state_entry_to_proto(repo_path("b").to_owned(), &new_state(1));
    conflict.state = conflict.state.map(|state| FileStateProto {
        file_type: FileTypeProto::Conflict,
        ..state
    });
    let normal = file_state_entry_to_proto(repo_path("b").to_owned(), &new_state(1));
    let mut file_states = FileStatesMap::from_proto(vec![conflict.clone()], true);
    assert_eq!(file_states.all().get(repo_path("b")), Some(new_state(1)));
    let changes = vec![(repo_path("a").to_owned(), new_state(2))];
    file_states.merge_in(changes, &PathSet::new());
    let added = file_state_entry_to_proto(repo_path("a").to_owned(), &new_state(2));
    assert_eq!(file_states.to_proto(), vec![added, conflict]);
    let changes = vec![(repo_path("b").to_owned(), new_state(1))];
    file_states.merge_in(changes, &PathSet::new());
    assert_eq!(file_states.to_proto()[1], normal);
}

#[test]
fn test_file_states_lookup() {
    let new_proto_entry = |path: &str, size: u64| {
        file_state_entry_to_proto(repo_path(path).to_owned(), &new_state(size))
    };
    let data = vec![
        new_proto_entry("aa", 0),
        new_proto_entry("b/c", 1),
        new_proto_entry("b/d/e", 2),
        new_proto_entry("b/e", 3),
        new_proto_entry("b#", 4), // '#' < '/'
        new_proto_entry("bc", 5),
    ];
    let file_states = FileStates::from_sorted(&data);

    assert_eq!(
        file_states.prefixed(repo_path("")).paths(),
        ["aa", "b/c", "b/d/e", "b/e", "b#", "bc"].map(repo_path).to_vec()
    );
    assert!(file_states.prefixed(repo_path("a")).is_empty());
    assert_eq!(
        file_states.prefixed(repo_path("aa")).paths(),
        ["aa"].map(repo_path).to_vec()
    );
    assert_eq!(
        file_states.prefixed(repo_path("b")).paths(),
        ["b/c", "b/d/e", "b/e"].map(repo_path).to_vec()
    );
    assert_eq!(
        file_states.prefixed(repo_path("b/d")).paths(),
        ["b/d/e"].map(repo_path).to_vec()
    );
    assert_eq!(
        file_states.prefixed(repo_path("b#")).paths(),
        ["b#"].map(repo_path).to_vec()
    );
    assert_eq!(
        file_states.prefixed(repo_path("bc")).paths(),
        ["bc"].map(repo_path).to_vec()
    );
    assert!(file_states.prefixed(repo_path("z")).is_empty());

    assert!(!file_states.contains_path(repo_path("a")));
    assert!(file_states.contains_path(repo_path("aa")));
    assert!(file_states.contains_path(repo_path("b/d/e")));
    assert!(!file_states.contains_path(repo_path("b/d")));
    assert!(file_states.contains_path(repo_path("b#")));
    assert!(file_states.contains_path(repo_path("bc")));
    assert!(!file_states.contains_path(repo_path("z")));

    assert_eq!(file_states.get(repo_path("a")), None);
    assert_eq!(file_states.get(repo_path("aa")), Some(new_state(0)));
    assert_eq!(file_states.get(repo_path("b/d/e")), Some(new_state(2)));
    assert_eq!(file_states.get(repo_path("bc")), Some(new_state(5)));
    assert_eq!(file_states.get(repo_path("z")), None);
}

#[test]
fn test_file_states_lookup_at() {
    let new_proto_entry = |path: &str, size: u64| {
        file_state_entry_to_proto(repo_path(path).to_owned(), &new_state(size))
    };
    let data = vec![
        new_proto_entry("b/c", 0),
        new_proto_entry("b/d/e", 1),
        new_proto_entry("b/d#", 2), // '#' < '/'
        new_proto_entry("b/e", 3),
        new_proto_entry("b#", 4), // '#' < '/'
    ];
    let file_states = FileStates::from_sorted(&data);

    // At root
    assert_eq!(
        file_states.get_at(RepoPath::root(), repo_path_component("b")),
        None
    );
    assert_eq!(
        file_states.get_at(RepoPath::root(), repo_path_component("b#")),
        Some(new_state(4))
    );

    // At prefixed dir
    let prefixed_states = file_states.prefixed_at(RepoPath::root(), repo_path_component("b"));
    assert_eq!(
        prefixed_states.paths(),
        ["b/c", "b/d/e", "b/d#", "b/e"].map(repo_path).to_vec()
    );
    assert_eq!(
        prefixed_states.get_at(repo_path("b"), repo_path_component("c")),
        Some(new_state(0))
    );
    assert_eq!(
        prefixed_states.get_at(repo_path("b"), repo_path_component("d")),
        None
    );
    assert_eq!(
        prefixed_states.get_at(repo_path("b"), repo_path_component("d#")),
        Some(new_state(2))
    );

    // At nested prefixed dir
    let prefixed_states = prefixed_states.prefixed_at(repo_path("b"), repo_path_component("d"));
    assert_eq!(
        prefixed_states.paths(),
        ["b/d/e"].map(repo_path).to_vec()
    );
    assert_eq!(
        prefixed_states.get_at(repo_path("b/d"), repo_path_component("e")),
        Some(new_state(1))
    );
    assert_eq!(
        prefixed_states.get_at(repo_path("b/d"), repo_path_component("#")),
        None
    );

    // At prefixed file
    let prefixed_states = file_states.prefixed_at(RepoPath::root(), repo_path_component("b#"));
    assert_eq!(prefixed_states.paths(), ["b#"].map(repo_path).to_vec());
    assert_eq!(
        prefixed_states.get_at(repo_path("b#"), repo_path_component("#")),
        None
    );
}

fn epoch_offset(time: SystemTime) -> EpochOffset {
    match time.duration_since(SystemTime::UNIX_EPOCH) {
        Ok(duration) => EpochOffset::After(duration.as_millis()),
        Err(err) => EpochOffset::Before(err.duration().as_millis()),
    }
}

#[test]
fn test_system_time_to_millis() {
    let epoch = SystemTime::UNIX_EPOCH;
    assert_eq!(system_time_to_millis(epoch_offset(epoch)), Some(MillisSinceEpoch(0)));
    if let Some(time) = epoch.checked_add(Duration::from_millis(1)) {
        assert_eq!(system_time_to_millis(epoch_offset(time)), Some(MillisSinceEpoch(1)));
    }
    if let Some(time) = epoch.checked_sub(Duration::from_millis(1)) {
        assert_eq!(system_time_to_millis(epoch_offset(time)), Some(MillisSinceEpoch(-1)));
    }
    if let Some(time) = epoch.checked_add(Duration::from_millis(i64::MAX as u64)) {
        assert_eq!(
            system_time_to_millis(epoch_offset(time)),
            Some(MillisSinceEpoch(i64::MAX))
        );
    }
    if let Some(time) = epoch.checked_sub(Duration::from_millis(i64::MAX as u64)) {
        assert_eq!(
            system_time_to_millis(epoch_offset(time)),
            Some(MillisSinceEpoch(-i64::MAX))
        );
    }
    if let Some(time) = epoch.checked_sub(Duration::from_millis(i64::MAX as u64 + 1)) {
        // i64::MIN could be returned, but we don't care such old timestamp
        assert_eq!(system_time_to_millis(epoch_offset(time)), None);
    }
}
