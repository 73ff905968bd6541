use working_copy::fs_path::FsComponent;
use working_copy::fs_path::FsPath;
use working_copy::platform::Platform;
use working_copy::repo_path::RepoPath;
use working_copy::repo_path::RepoPathBuf;
use working_copy::repo_path::RepoPathComponent;
use working_copy::repo_path::RepoPathComponentBuf;
use working_copy::repo_path_fs::RelativePathParseError;
use working_copy::repo_path_tree::RepoPathTree;
use working_copy::text;
use working_copy::text::Order;
use working_copy::ui_path::collapse_copied_path;
use working_copy::ui_path::Diff;
use working_copy::ui_path::RepoPathUiConverter;
use working_copy::ui_path::UiPathParseError;

fn repo_path(value: &str) -> RepoPath<'_> {
    RepoPath::from_internal_string(value).unwrap()
}

fn name(value: &str) -> RepoPathComponent<'_> {
    RepoPathComponent::new(value).unwrap()
}

#[test]
fn component_without_separator() {
    assert!(RepoPathComponent::new("").is_err());
    assert!(RepoPathComponent::new("a/b").is_err());
    assert_eq!(name("a b").as_internal_str(), "a b");
    assert!(RepoPathComponentBuf::new("a/b".to_string()).is_err());
    let owned = RepoPathComponentBuf::new("ab".to_string()).unwrap();
    assert_eq!(owned.as_ref(), name("ab"));
    assert_eq!(
        RepoPathComponent::dot_gitattributes().as_internal_str(),
        ".gitattributes"
    );
}

#[test]
fn split_takes_back_join() {
    for dir in ["", "a", "a/b"] {
        let dir = repo_path(dir);
        let path = dir.join(name("x"));
        assert_eq!(path.as_ref().split(), Some((dir, name("x"))));
    }
}

#[test]
fn order_is_by_components() {
    // '-' is smaller than '/', and '\u{e4}' is larger than any ASCII character.
    let sorted = ["", "a", "a/b", "a/b/c", "a-", "a-/b", "b", "\u{e4}"];
    for (i, a) in sorted.iter().enumerate() {
        for (j, b) in sorted.iter().enumerate() {
            let (expected, flipped) = if i < j {
                (Order::Less, Order::Greater)
            } else if i == j {
                (Order::Equal, Order::Equal)
            } else {
                (Order::Greater, Order::Less)
            };
            assert_eq!(repo_path(a).compare(repo_path(b)), expected);
            assert_eq!(repo_path(b).compare(repo_path(a)), flipped);
        }
    }
}

#[test]
fn paths_in_a_directory_are_contiguous() {
    let mut paths = ["a#", "a", "a/c", "b", "a/b", "a0"].map(repo_path).to_vec();
    paths.sort_by(|a, b| a.partial_cmp(b).unwrap());
    assert_eq!(
        paths,
        ["a", "a/b", "a/c", "a#", "a0", "b"].map(repo_path).to_vec()
    );
}

#[test]
fn relative_path_round_trip() {
    for path in ["", "file", "some/deep/dir/file"] {
        let on_disk = repo_path(path).to_fs_path(&FsPath::from_text("")).unwrap();
        assert_eq!(
            RepoPathBuf::from_relative_path(&on_disk),
            Ok(repo_path(path).to_owned())
        );
    }
}

#[test]
fn fs_path_round_trip() {
    let base = FsPath::from_text("/home/user/repo");
    for path in ["", "file", "some/deep/dir/file"] {
        let on_disk = repo_path(path).to_fs_path(&base).unwrap();
        let cwd = FsPath::from_text("/elsewhere");
        assert_eq!(
            RepoPathBuf::parse_fs_path(&cwd, &base, &on_disk),
            Ok(repo_path(path).to_owned())
        );
    }
}

#[test]
fn relative_path_with_invalid_component() {
    assert!(matches!(
        RepoPathBuf::from_relative_path(&FsPath::from_text("a/../b")),
        Err(RelativePathParseError::InvalidComponent { component, .. }) if component == ".."
    ));
    assert!(matches!(
        RepoPathBuf::from_relative_path(&FsPath::from_text("/a")),
        Err(RelativePathParseError::InvalidComponent { component, .. })
            if component == std::path::MAIN_SEPARATOR_STR
    ));
    assert!(matches!(
        RepoPathBuf::from_relative_path_on(
            Platform::Windows,
            &FsPath::from_text_on(Platform::Windows, "\\a")
        ),
        Err(RelativePathParseError::InvalidComponent { component, .. }) if component == "\\"
    ));
    assert!(matches!(
        RepoPathBuf::from_relative_path_on(
            Platform::Windows,
            &FsPath::from_text_on(Platform::Windows, "c:a")
        ),
        Err(RelativePathParseError::InvalidComponent { component, .. }) if component == "C:"
    ));
    let path = FsPath::from_components(vec![FsComponent::NonUnicode {
        bytes: vec![0xff],
        shown: "\u{fffd}".to_string(),
    }]);
    assert!(matches!(
        RepoPathBuf::from_relative_path(&path),
        Err(RelativePathParseError::InvalidUtf8 { .. })
    ));
}

#[test]
fn invalid_fs_name_is_reported_with_path() {
    let err = repo_path("a/../b")
        .to_fs_path(&FsPath::from_text("base"))
        .unwrap_err();
    assert_eq!(err.path.as_ref(), repo_path("a/../b"));
    assert_eq!(err.source.component, "..");
    assert!(name("c:").to_fs_name_on(Platform::Windows).is_err());
    assert!(name("c:").to_fs_name_on(Platform::Unix).is_ok());
}

#[test]
fn fs_path_operations() {
    let path = FsPath::from_text("/a/./b/../c");
    assert_eq!(path.display('/'), "/a/./b/../c");
    assert_eq!(path.normalize().display('/'), "/a/c");
    assert_eq!(FsPath::from_text("a/..").normalize().display('/'), ".");
    assert_eq!(FsPath::from_text("..").normalize().display('/'), "..");
    assert!(path.same_path(&FsPath::from_text("/a/b/../c/.")));
    assert!(!path.same_path(&FsPath::from_text("a/b/../c")));
    let join = |a: &str, b: &str| FsPath::from_text(a).join(&FsPath::from_text(b)).display('/');
    assert_eq!(join("a", "b"), "a/b");
    assert_eq!(join("a", "/b"), "/b");
    let relative = |a: &str, b: &str| {
        FsPath::relative_path(&FsPath::from_text(a), &FsPath::from_text(b)).display('/')
    };
    assert_eq!(relative("/a/b", "/a/c/d"), "../c/d");
    assert_eq!(relative("/a", "/a"), ".");
    let parent = |a: &str| FsPath::from_text(a).parent().map(|path| path.display('/'));
    assert_eq!(parent("/a/b"), Some("/a".to_string()));
    assert_eq!(parent("a"), Some("".to_string()));
    assert_eq!(parent("/"), None);
    assert_eq!(parent(""), None);
    let below = |a: &str, b: &str| {
        FsPath::from_text(a)
            .strip_prefix(&FsPath::from_text(b))
            .map(|path| path.display('/'))
    };
    assert_eq!(below("/a/b/c", "/a"), Some("b/c".to_string()));
    assert_eq!(below("/a", "/a"), Some("".to_string()));
    assert_eq!(below("/ab", "/a"), None);
}

#[test]
fn non_unicode_name_is_shown_with_replacement() {
    let path = FsPath::from_components(vec![
        FsComponent::Normal("a".to_string()),
        FsComponent::NonUnicode {
            bytes: vec![b'b', 0xff],
            shown: "b\u{fffd}".to_string(),
        },
    ]);
    assert_eq!(path.display('/'), "a/b\u{fffd}");
    // A lone surrogate is three bytes long, and one character is shown for it.
    let path = FsPath::from_components(vec![FsComponent::NonUnicode {
        bytes: vec![0xed, 0xa0, 0x80],
        shown: "\u{fffd}".to_string(),
    }]);
    assert_eq!(path.display('\\'), "\u{fffd}");
}

#[test]
fn host_separator_is_that_of_the_platform() {
    assert_eq!(
        Platform::host().main_separator(),
        std::path::MAIN_SEPARATOR
    );
}

#[test]
fn separators_tell_the_platform() {
    for platform in [Platform::Unix, Platform::Windows] {
        assert_eq!(
            Platform::from_separator(platform.main_separator()),
            platform
        );
    }
    assert_eq!(Platform::from_separator('/'), Platform::Unix);
    assert_eq!(Platform::from_separator('\\'), Platform::Windows);
}

#[test]
fn ui_paths() {
    let ui = RepoPathUiConverter::Fs {
        cwd: FsPath::from_text("/repo/dir"),
        base: FsPath::from_text("/repo"),
    };
    assert_eq!(
        ui.format_file_path_on(Platform::Unix, repo_path("dir/file")),
        "file"
    );
    assert_eq!(
        ui.format_file_path_on(Platform::Unix, repo_path("other")),
        "../other"
    );
    assert_eq!(
        ui.format_file_path_on(Platform::Windows, repo_path("dir/sub/file")),
        "sub\\file"
    );
    assert_eq!(
        ui.parse_file_path("../other").ok(),
        Some(repo_path("other").to_owned())
    );
    assert!(matches!(
        ui.parse_file_path("../.."),
        Err(UiPathParseError::Fs(_))
    ));
}

#[test]
fn unchanged_path_is_not_collapsed() {
    let collapse = |before: &str, after: &str| collapse_copied_path(Diff::new(before, after), '/');
    assert_eq!(collapse("a/b", "a/b"), "a/b");
    assert_eq!(collapse("a/x/b", "a/y/b"), "a/{x => y}/b");
    // Front and back share the separator.
    assert_eq!(collapse("a/b", "a/x/b"), "a/{ => x}/b");
}

#[test]
fn tree_of_paths() {
    let mut tree: RepoPathTree<u32> = RepoPathTree::default();
    assert!(!tree.has_children());
    tree.add(repo_path("a/b")).set_value(2);
    tree.add(repo_path("a")).set_value(1);
    *tree.add(repo_path("c")).value_mut() += 3;
    assert_eq!(*tree.value(), 0);
    assert_eq!(*tree.get(repo_path("a")).unwrap().value(), 1);
    assert_eq!(*tree.get(repo_path("a/b")).unwrap().value(), 2);
    assert_eq!(*tree.get(repo_path("c")).unwrap().value(), 3);
    assert!(tree.get(repo_path("b")).is_none());
    tree.add(repo_path("b"));
    let children: Vec<&str> = tree
        .children()
        .iter()
        .map(|(name, _)| name.as_internal_str())
        .collect();
    assert_eq!(children, vec!["a", "b", "c"]);
    let walked: Vec<(u32, RepoPath)> = tree
        .walk_to(repo_path("a/x/y"))
        .iter()
        .map(|(sub, rest)| (*sub.value(), *rest))
        .collect();
    assert_eq!(walked, vec![(0, repo_path("a/x/y")), (1, repo_path("x/y"))]);
}

#[test]
fn trees_of_paths_are_compared_and_cloned() {
    let tree_with = |paths: &[&str]| {
        let mut tree: RepoPathTree<usize> = RepoPathTree::default();
        for path in paths {
            tree.add(repo_path(path)).set_value(path.len());
        }
        tree
    };
    let tree = tree_with(&["a/b", "c", "a"]);
    assert_eq!(tree, tree_with(&["c", "a", "a/b"]));
    assert_ne!(tree, tree_with(&["c", "a"]));
    let mut copy = tree.clone();
    assert_eq!(copy, tree);
    copy.add(repo_path("a/b")).set_value(7);
    assert_eq!(*copy.get(repo_path("a/b")).unwrap().value(), 7);
    assert_eq!(*tree.get(repo_path("a/b")).unwrap().value(), 3);
}

#[test]
fn decimal_numbers() {
    assert_eq!(text::decimal_text(0), "0");
    assert_eq!(text::decimal_text(9), "9");
    assert_eq!(text::decimal_text(10), "10");
    assert_eq!(text::decimal_text(u64::MAX), "18446744073709551615");
}

#[test]
fn shown_paths_lead_back() {
    for cwd in ["/repo", "/repo/dir/sub", "/", "/repo/dir/file", "/elsewhere"] {
        let converter = RepoPathUiConverter::Fs {
            cwd: FsPath::from_text(cwd),
            base: FsPath::from_text("/repo"),
        };
        for path in ["", "dir", "dir/file", "dir/sub/deep", "other"] {
            let path = RepoPath::from_internal_string(path).unwrap();
            for platform in [Platform::Unix, Platform::Windows] {
                let shown = converter.format_file_path_on(platform, path);
                let parsed = converter.parse_file_path_on(platform, &shown);
                assert_eq!(parsed.unwrap().as_ref(), path);
            }
            let shown = converter.format_file_path(path);
            assert_eq!(converter.parse_file_path(&shown).unwrap().as_ref(), path);
        }
    }
}

fn windows_path(text: &str) -> FsPath {
    FsPath::from_text_on(Platform::Windows, text)
}

#[test]
fn shown_paths_lead_back_between_drives() {
    for (cwd, expected) in [
        ("C:\\repo\\dir", "sub\\file"),
        ("C:\\other", "..\\repo\\dir\\sub\\file"),
        ("D:\\", "C:\\repo\\dir\\sub\\file"),
        ("\\\\server\\share\\x", "C:\\repo\\dir\\sub\\file"),
    ] {
        let converter = RepoPathUiConverter::Fs {
            cwd: windows_path(cwd),
            base: windows_path("C:\\repo"),
        };
        let path = repo_path("dir/sub/file");
        let shown = converter.format_file_path_on(Platform::Windows, path);
        assert_eq!(shown, expected);
        for shown in [shown.clone(), shown.replace('\\', "/"), shown.replace("C:", "c:")] {
            let parsed = converter.parse_file_path_on(Platform::Windows, &shown);
            assert_eq!(parsed.unwrap().as_ref(), path);
        }
    }
}

#[test]
fn shown_paths_lead_back_to_shares() {
    for cwd in ["\\\\server\\share\\x", "\\\\server\\other", "C:\\"] {
        let converter = RepoPathUiConverter::Fs {
            cwd: windows_path(cwd),
            base: windows_path("\\\\server\\share\\repo"),
        };
        let shown = converter.format_file_path_on(Platform::Windows, repo_path("dir/file"));
        let parsed = converter.parse_file_path_on(Platform::Windows, &shown);
        assert_eq!(parsed.unwrap().as_ref(), repo_path("dir/file"));
    }
}

#[test]
fn only_paths_below_the_base_are_parsed() {
    let converter = RepoPathUiConverter::Fs {
        cwd: windows_path("C:\\repo\\dir"),
        base: windows_path("C:\\repo"),
    };
    let parse = |input: &str| converter.parse_file_path_on(Platform::Windows, input).ok();
    assert_eq!(parse("C:\\repo"), Some(RepoPathBuf::root()));
    assert_eq!(parse("\\repo\\a"), Some(repo_path("a").to_owned()));
    assert_eq!(parse("..\\a"), Some(repo_path("a").to_owned()));
    assert_eq!(parse("C:\\"), None);
    assert_eq!(parse("C:\\repository"), None);
    assert_eq!(parse("D:\\repo\\a"), None);
    assert_eq!(parse("..\\..\\other"), None);
}

#[test]
fn unchecked_names_can_lead_elsewhere() {
    let base = windows_path("C:\\repo");
    let unchecked = |path: &'static str| {
        let path = repo_path(path).to_fs_path_unchecked_on(Platform::Windows, &base);
        path.display('\\')
    };
    assert_eq!(unchecked("a/b"), "C:\\repo\\a\\b");
    assert_eq!(unchecked("a/\\b"), "C:\\b");
    assert_eq!(unchecked("a/D:/c"), "D:c");
    assert_eq!(unchecked("a\\..\\b"), "C:\\repo\\a\\..\\b");
}

#[test]
fn paths_written_on_windows() {
    let drive = || FsComponent::Prefix("C:".to_string());
    let name = |text: &str| FsComponent::Normal(text.to_string());
    let path = |parts: Vec<FsComponent>| FsPath::from_components(parts);
    assert_eq!(
        windows_path("c:\\a/b"),
        path(vec![drive(), FsComponent::RootDir, name("a"), name("b")])
    );
    assert_eq!(windows_path("C:a"), path(vec![drive(), name("a")]));
    assert_eq!(windows_path("1:a"), path(vec![name("1:a")]));
    assert_eq!(
        windows_path("\\a\\..\\.\\"),
        path(vec![
            FsComponent::RootDir,
            name("a"),
            FsComponent::ParentDir,
            FsComponent::CurDir,
        ])
    );
    assert_eq!(
        FsPath::from_text_on(Platform::Unix, "c:\\a"),
        path(vec![name("c:\\a")])
    );
    assert_eq!(windows_path("C:\\a").display('\\'), "C:\\a");

    let share = || FsComponent::Prefix("\\\\server\\share".to_string());
    for text in ["\\\\server\\share\\a", "//server/share/a", "\\/server\\share//a/"] {
        assert_eq!(
            windows_path(text),
            path(vec![share(), FsComponent::RootDir, name("a")])
        );
    }
    assert_eq!(
        windows_path("\\\\server\\share"),
        path(vec![share(), FsComponent::RootDir])
    );
    assert_eq!(
        windows_path("\\\\server\\"),
        path(vec![FsComponent::RootDir, name("server")])
    );
}

#[test]
fn verbatim_paths_written_on_windows() {
    let name = |text: &str| FsComponent::Normal(text.to_string());
    let path = |prefix: &str, names: Vec<FsComponent>| {
        let mut parts = vec![FsComponent::Prefix(prefix.to_string()), FsComponent::RootDir];
        parts.extend(names);
        FsPath::from_components(parts)
    };
    assert_eq!(
        windows_path(r"\\?\UNC\server\share\dir\file"),
        path(r"\\?\UNC\server\share", vec![name("dir"), name("file")])
    );
    assert_eq!(
        windows_path(r"\\?\UNC\server\share"),
        path(r"\\?\UNC\server\share", vec![])
    );
    assert_eq!(windows_path(r"\\?\UNC\server\"), path(r"\\?\UNC\server", vec![]));
    assert_eq!(windows_path(r"\\?\c:\a"), path(r"\\?\C:", vec![name("a")]));
    assert_eq!(
        windows_path(r"\\?\Volume{1}\a"),
        path(r"\\?\Volume{1}", vec![name("a")])
    );
    // Only a drive with nothing behind it is a drive, and slashes separate nothing.
    assert_eq!(windows_path(r"\\?\c:x\a"), path(r"\\?\c:x", vec![name("a")]));
    assert_eq!(windows_path(r"\\?\C:\a/b"), path(r"\\?\C:", vec![name("a/b")]));
    // With slashes, it is the share of a server.
    assert_eq!(windows_path("//?/C:/a"), path("//?/C:", vec![name("a")]));
}

#[test]
fn verbatim_paths_are_resolved_when_joined() {
    let join = |dir: &str, path: &str| {
        windows_path(dir).join(&windows_path(path)).display('\\')
    };
    assert_eq!(join(r"\\?\C:\a", r"..\..\b"), r"\\?\C:\b");
    assert_eq!(join(r"\\?\C:\a", r".\b"), r"\\?\C:\a\b");
    assert_eq!(join(r"\\?\C:\a", r"\b"), r"\\?\C:\b");
    assert_eq!(join(r"\\?\C:\a", r"D:\b"), r"D:\b");
    assert_eq!(join(r"C:\a", r"..\b"), r"C:\a\..\b");
    assert_eq!(windows_path(r"\\?\C:\..\a").normalize().display('\\'), r"\\?\C:\a");
    assert_eq!(windows_path(r"C:\..\a").normalize().display('\\'), r"C:\..\a");
}

#[test]
fn shown_paths_lead_back_to_verbatim_roots() {
    for base in [
        r"\\?\UNC\server\share\repo",
        r"\\?\C:\repo",
        r"\\?\Volume{1}\repo",
        "//?/share/repo",
    ] {
        for cwd in [
            r"\\?\UNC\server\share\x",
            r"\\?\UNC\server\other",
            r"\\?\C:\repo\dir\x",
            r"\\?\Volume{1}\",
            r"C:\repo",
        ] {
            let converter = RepoPathUiConverter::Fs {
                cwd: windows_path(cwd),
                base: windows_path(base),
            };
            let shown = converter.format_file_path_on(Platform::Windows, repo_path("dir/file"));
            let parsed = converter.parse_file_path_on(Platform::Windows, &shown);
            assert_eq!(parsed.unwrap().as_ref(), repo_path("dir/file"));
        }
    }
    let converter = RepoPathUiConverter::Fs {
        cwd: windows_path(r"C:\repo"),
        base: windows_path(r"\\?\UNC\server\share\repo"),
    };
    assert_eq!(
        converter.format_file_path_on(Platform::Windows, repo_path("file")),
        r"\\?\UNC\server\share\repo\file"
    );
}
