use working_copy::file_state::file_state;
use working_copy::file_state::file_state_from_proto;
use working_copy::file_state::file_state_to_proto;
use working_copy::file_state::DiskFileKind;
use working_copy::file_state::DiskMetadata;
use working_copy::file_state::EpochOffset;
use working_copy::file_state::ExecBit;
use working_copy::file_state::ExecChangePolicy;
use working_copy::file_state::ExecChangeSetting;
use working_copy::file_state::FileState;
use working_copy::file_state::FileType;
use working_copy::file_state::MaterializedConflictData;
use working_copy::file_state::MillisSinceEpoch;
use working_copy::file_state::MtimeOutOfRange;
use working_copy::platform::Platform;
use working_copy::proto::FileStateProto;
use working_copy::proto::FileTypeProto;
use working_copy::reserved::is_reserved_name;
use working_copy::reserved::reject_reserved_existing_file_identity;
use working_copy::reserved::FileIdentity;
use working_copy::symlink::symlink_target_convert_to_disk;
use working_copy::symlink::symlink_target_convert_to_store;
use working_copy::symlink::symlink_target_of_file;

fn metadata(kind: DiskFileKind) -> DiskMetadata {
    DiskMetadata {
        kind,
        permissions: 0o755,
        len: 12,
        modified: EpochOffset::After(34),
    }
}

#[test]
fn states_of_disk_entries() {
    let state = |file_type: FileType| FileState {
        file_type,
        mtime: MillisSinceEpoch(34),
        size: 12,
        materialized_conflict_data: None,
    };
    let executable = FileType::Normal {
        exec_bit: ExecBit(true),
    };
    let plain = FileType::Normal {
        exec_bit: ExecBit(false),
    };
    let on = |platform: Platform, kind: DiskFileKind| file_state(platform, &metadata(kind));
    assert_eq!(
        on(Platform::Unix, DiskFileKind::File),
        Ok(Some(state(executable)))
    );
    assert_eq!(
        on(Platform::Windows, DiskFileKind::File),
        Ok(Some(state(plain)))
    );
    assert_eq!(
        on(Platform::Unix, DiskFileKind::Symlink),
        Ok(Some(state(FileType::Symlink)))
    );
    assert_eq!(on(Platform::Unix, DiskFileKind::Dir), Ok(None));
    assert_eq!(on(Platform::Unix, DiskFileKind::Special), Ok(None));
    let ancient = DiskMetadata {
        modified: EpochOffset::Before(1 << 64),
        ..metadata(DiskFileKind::File)
    };
    assert_eq!(file_state(Platform::Unix, &ancient), Err(MtimeOutOfRange));
}

#[test]
fn clean_ignores_conflict_data() {
    let old = FileState::for_file(ExecBit(true), 5, &metadata(DiskFileKind::File)).unwrap();
    let mut new = old;
    new.materialized_conflict_data = Some(MaterializedConflictData {
        conflict_marker_len: 7,
    });
    assert!(new.is_clean(&old));
    new.size = 6;
    assert!(!new.is_clean(&old));
}

#[test]
fn stored_state_round_trip() {
    let states = [
        FileState::placeholder(),
        FileState::for_gitsubmodule(),
        FileState::for_symlink(&metadata(DiskFileKind::Symlink)).unwrap(),
        FileState {
            materialized_conflict_data: Some(MaterializedConflictData {
                conflict_marker_len: 11,
            }),
            ..FileState::for_file(ExecBit(true), 5, &metadata(DiskFileKind::File)).unwrap()
        },
    ];
    for state in states {
        assert_eq!(file_state_from_proto(&file_state_to_proto(&state)), state);
    }
    // No longer written, but read as a normal file.
    let proto = FileStateProto {
        file_type: FileTypeProto::Conflict,
        ..file_state_to_proto(&FileState::placeholder())
    };
    assert_eq!(file_state_from_proto(&proto), FileState::placeholder());
}

#[test]
fn executable_bit_policy() {
    let policy = |platform: Platform, setting: ExecChangeSetting, probed: Option<bool>| {
        matches!(
            ExecChangePolicy::new(platform, setting, probed),
            ExecChangePolicy::Respect
        )
    };
    assert!(policy(Platform::Unix, ExecChangeSetting::default(), None));
    assert!(policy(Platform::Unix, ExecChangeSetting::Auto, Some(true)));
    assert!(!policy(Platform::Unix, ExecChangeSetting::Auto, Some(false)));
    assert!(policy(
        Platform::Unix,
        ExecChangeSetting::Respect,
        Some(false)
    ));
    assert!(!policy(Platform::Unix, ExecChangeSetting::Ignore, None));
    assert!(!policy(Platform::Windows, ExecChangeSetting::Respect, None));
}

#[test]
fn executable_bit_round_trip() {
    // What is written to disk comes back into the tree.
    for executable in [false, true] {
        let policy = ExecChangePolicy::Respect;
        let on_disk = ExecBit::new_from_repo(Platform::Unix, executable, policy, None);
        let mode = on_disk.disk_mode(Platform::Unix).unwrap();
        let seen = ExecBit::new_from_disk(Platform::Unix, mode);
        assert_eq!(seen.for_tree_value(policy, None), executable);
    }
    // An ignored bit stays as it is on either side.
    let policy = ExecChangePolicy::Ignore;
    assert_eq!(
        ExecBit::new_from_repo(Platform::Unix, true, policy, Some(ExecBit(false))),
        ExecBit(false)
    );
    assert!(ExecBit(false).for_tree_value(policy, Some(true)));
    assert!(!ExecBit(true).for_tree_value(policy, None));
}

#[test]
fn reserved_entries() {
    assert!(is_reserved_name(".git"));
    assert!(is_reserved_name(".jj"));
    assert!(!is_reserved_name(".Git"));
    let identity = |file: u64| FileIdentity { device: 1, file };
    let check = |reserved: Vec<Option<FileIdentity>>| {
        reject_reserved_existing_file_identity(identity(5), &reserved)
    };
    assert_eq!(check(vec![None, None]), None);
    assert_eq!(check(vec![Some(identity(5)), None]), Some(".git"));
    assert_eq!(check(vec![Some(identity(4)), Some(identity(5))]), Some(".jj"));
    assert_eq!(
        check(vec![Some(FileIdentity { device: 2, file: 5 }), None]),
        None
    );
}

#[test]
fn symlink_targets() {
    let to_store = |platform: Platform, target: &str| {
        symlink_target_convert_to_store(platform, target.as_bytes().to_vec())
    };
    assert_eq!(
        to_store(Platform::Windows, "a\\b"),
        Some("a/b".to_string())
    );
    assert_eq!(to_store(Platform::Unix, "a\\b"), Some("a\\b".to_string()));
    assert_eq!(
        symlink_target_convert_to_store(Platform::Unix, vec![b'a', 0xff]),
        None
    );
    assert_eq!(
        symlink_target_convert_to_disk(Platform::Windows, "../a/b"),
        "..\\a\\b"
    );
    assert_eq!(symlink_target_convert_to_disk(Platform::Unix, "a/b"), "a/b");
    for platform in [Platform::Unix, Platform::Windows] {
        let on_disk = symlink_target_convert_to_disk(platform, "../\u{e4}/b");
        assert_eq!(
            to_store(platform, &on_disk),
            Some("../\u{e4}/b".to_string())
        );
    }
    assert_eq!(
        symlink_target_of_file(b"a\\b".to_vec()),
        Some("a\\b".to_string())
    );
    assert_eq!(symlink_target_of_file(vec![0xc3]), None);
}

#[test]
fn executable_bits_are_tried_out_only_if_needed() {
    let needs_probe = ExecChangePolicy::needs_probe;
    assert!(needs_probe(Platform::Unix, ExecChangeSetting::Auto));
    assert!(!needs_probe(Platform::Unix, ExecChangeSetting::Respect));
    assert!(!needs_probe(Platform::Unix, ExecChangeSetting::Ignore));
    assert!(!needs_probe(Platform::Windows, ExecChangeSetting::Auto));
}
