use working_copy::fs_path::FsPath;
use working_copy::platform::Platform;
use working_copy::repo_path::RepoPath;
use working_copy::repo_path::RepoPathBuf;
use working_copy::repo_path::RepoPathComponent;
use working_copy::repo_path_fs::FsPathParseError;
use working_copy::repo_path_fs::RelativePathParseError;
use working_copy::ui_path::Diff;
use working_copy::ui_path::RepoPathUiConverter;

fn repo_path(value: &str) -> RepoPath<'_> {
    RepoPath::from_internal_string(value).unwrap()
}

fn repo_path_component(value: &str) -> RepoPathComponent<'_> {
    RepoPathComponent::new(value).unwrap()
}

fn assert_same_path(path: FsPath, expected: &str) {
    let expected = FsPath::from_text(expected);
    assert!(path.same_path(&expected), "{path:?} is not {expected:?}");
}

#[test]
fn test_is_root() {
    assert!(RepoPath::root().is_root());
    assert!(repo_path("").is_root());
    assert!(!repo_path("foo").is_root());
}

#[test]
fn test_from_internal_string() {
    let repo_path_buf = |value: &str| RepoPathBuf::from_internal_string(value.to_string());
    assert_eq!(repo_path_buf("").unwrap(), RepoPathBuf::root());
    assert!(repo_path_buf("/").is_err());
    assert!(repo_path_buf("/x").is_err());
    assert!(repo_path_buf("x/").is_err());
    assert!(repo_path_buf("x//y").is_err());

    assert_eq!(repo_path(""), RepoPath::root());
    assert!(RepoPath::from_internal_string("/").is_err());
    assert!(RepoPath::from_internal_string("/x").is_err());
    assert!(RepoPath::from_internal_string("x/").is_err());
    assert!(RepoPath::from_internal_string("x//y").is_err());
}

#[test]
fn test_as_internal_file_string() {
    assert_eq!(RepoPath::root().as_internal_file_string(), "");
    assert_eq!(repo_path("dir").as_internal_file_string(), "dir");
    assert_eq!(repo_path("dir/file").as_internal_file_string(), "dir/file");
}

#[test]
fn test_to_internal_dir_string() {
    assert_eq!(RepoPath::root().to_internal_dir_string(), "");
    assert_eq!(repo_path("dir").to_internal_dir_string(), "dir/");
    assert_eq!(repo_path("dir/file").to_internal_dir_string(), "dir/file/");
}

#[test]
fn test_starts_with() {
    assert!(repo_path("").starts_with(repo_path("")));
    assert!(repo_path("x").starts_with(repo_path("")));
    assert!(!repo_path("").starts_with(repo_path("x")));

    assert!(repo_path("x").starts_with(repo_path("x")));
    assert!(repo_path("x/y").starts_with(repo_path("x")));
    assert!(!repo_path("xy").starts_with(repo_path("x")));
    assert!(!repo_path("x/y").starts_with(repo_path("y")));

    assert!(repo_path("x/y").starts_with(repo_path("x/y")));
    assert!(repo_path("x/y/z").starts_with(repo_path("x/y")));
    assert!(!repo_path("x/yz").starts_with(repo_path("x/y")));
    assert!(!repo_path("x").starts_with(repo_path("x/y")));
    assert!(!repo_path("xy").starts_with(repo_path("x/y")));
}

#[test]
fn test_strip_prefix() {
    assert_eq!(
        repo_path("").strip_prefix(repo_path("")),
        Some(repo_path(""))
    );
    assert_eq!(
        repo_path("x").strip_prefix(repo_path("")),
        Some(repo_path("x"))
    );
    assert_eq!(repo_path("").strip_prefix(repo_path("x")), None);

    assert_eq!(
        repo_path("x").strip_prefix(repo_path("x")),
        Some(repo_path(""))
    );
    assert_eq!(
        repo_path("x/y").strip_prefix(repo_path("x")),
        Some(repo_path("y"))
    );
    assert_eq!(repo_path("xy").strip_prefix(repo_path("x")), None);
    assert_eq!(repo_path("x/y").strip_prefix(repo_path("y")), None);

    assert_eq!(
        repo_path("x/y").strip_prefix(repo_path("x/y")),
        Some(repo_path(""))
    );
    assert_eq!(
        repo_path("x/y/z").strip_prefix(repo_path("x/y")),
        Some(repo_path("z"))
    );
    assert_eq!(repo_path("x/yz").strip_prefix(repo_path("x/y")), None);
    assert_eq!(repo_path("x").strip_prefix(repo_path("x/y")), None);
    assert_eq!(repo_path("xy").strip_prefix(repo_path("x/y")), None);
}

#[test]
fn test_order() {
    assert!(RepoPath::root() < repo_path("dir"));
    assert!(repo_path("dir") < repo_path("dirx"));
    // '#' < '/', but ["dir", "sub"] < ["dir#"]
    assert!(repo_path("dir") < repo_path("dir#"));
    assert!(repo_path("dir") < repo_path("dir/sub"));
    assert!(repo_path("dir/sub") < repo_path("dir#"));

    assert!(repo_path("abc") < repo_path("dir/file"));
    assert!(repo_path("dir") < repo_path("dir/file"));
    assert!(repo_path("dis") > repo_path("dir/file"));
    assert!(repo_path("xyz") > repo_path("dir/file"));
    assert!(repo_path("dir1/xyz") < repo_path("dir2/abc"));
}

#[test]
fn test_join() {
    let root = RepoPath::root();
    let dir = root.join(repo_path_component("dir"));
    assert_eq!(dir.as_ref(), repo_path("dir"));
    let subdir = dir.as_ref().join(repo_path_component("subdir"));
    assert_eq!(subdir.as_ref(), repo_path("dir/subdir"));
    assert_eq!(
        subdir.as_ref().join(repo_path_component("file")).as_ref(),
        repo_path("dir/subdir/file")
    );
}

#[test]
fn test_extend() {
    let mut path = RepoPathBuf::root();
    path.extend(&vec![]);
    assert_eq!(path.as_ref(), RepoPath::root());
    path.extend(&vec![repo_path_component("dir")]);
    assert_eq!(path.as_ref(), repo_path("dir"));
    path.extend(&vec![repo_path_component("subdir"); 3]);
    assert_eq!(path.as_ref(), repo_path("dir/subdir/subdir/subdir"));
    path.extend(&vec![]);
    assert_eq!(path.as_ref(), repo_path("dir/subdir/subdir/subdir"));
}

#[test]
fn test_parent() {
    let root = RepoPath::root();
    let dir_component = repo_path_component("dir");
    let subdir_component = repo_path_component("subdir");

    let dir = root.join(dir_component);
    let subdir = dir.as_ref().join(subdir_component);

    assert_eq!(root.parent(), None);
    assert_eq!(dir.as_ref().parent(), Some(root));
    assert_eq!(subdir.as_ref().parent(), Some(dir.as_ref()));
}

#[test]
fn test_split() {
    let root = RepoPath::root();
    let dir_component = repo_path_component("dir");
    let file_component = repo_path_component("file");

    let dir = root.join(dir_component);
    let file = dir.as_ref().join(file_component);

    assert_eq!(root.split(), None);
    assert_eq!(dir.as_ref().split(), Some((root, dir_component)));
    assert_eq!(file.as_ref().split(), Some((dir.as_ref(), file_component)));
}

#[test]
fn test_components() {
    assert!(RepoPath::root().components().next().is_none());
    assert_eq!(
        repo_path("dir").components().collect_vec(),
        vec![repo_path_component("dir")]
    );
    assert_eq!(
        repo_path("dir/subdir").components().collect_vec(),
        vec![repo_path_component("dir"), repo_path_component("subdir")]
    );

    // Iterates from back
    assert!(RepoPath::root().components().next_back().is_none());
    assert_eq!(
        repo_path("dir").components().collect_rev(),
        vec![repo_path_component("dir")]
    );
    assert_eq!(
        repo_path("dir/subdir").components().collect_rev(),
        vec![repo_path_component("subdir"), repo_path_component("dir")]
    );
}

#[test]
fn test_ancestors() {
    assert_eq!(
        RepoPath::root().ancestors(),
        vec![RepoPath::root()]
    );
    assert_eq!(
        repo_path("dir").ancestors(),
        vec![repo_path("dir"), RepoPath::root()]
    );
    assert_eq!(
        repo_path("dir/subdir").ancestors(),
        vec![repo_path("dir/subdir"), repo_path("dir"), RepoPath::root()]
    );
}

#[test]
fn test_to_fs_path() {
    let to_fs_path = |path: &'static str, base: &str| {
        repo_path(path).to_fs_path(&FsPath::from_text(base)).unwrap()
    };
    assert_same_path(to_fs_path("", "base/dir"), "base/dir");
    assert_same_path(to_fs_path("", ""), ".");
    assert_same_path(to_fs_path("file", "base/dir"), "base/dir/file");
    assert_same_path(
        to_fs_path("some/deep/dir/file", "base/dir"),
        "base/dir/some/deep/dir/file",
    );
    assert_same_path(to_fs_path("dir/file", ""), "dir/file");

    // Current/parent dir component
    assert!(repo_path(".").to_fs_path(&FsPath::from_text("base")).is_err());
    assert!(repo_path("..").to_fs_path(&FsPath::from_text("base")).is_err());
    assert!(
        repo_path("dir/../file")
            .to_fs_path(&FsPath::from_text("base"))
            .is_err()
    );
    assert!(repo_path("./file").to_fs_path(&FsPath::from_text("base")).is_err());
    assert!(repo_path("file/.").to_fs_path(&FsPath::from_text("base")).is_err());
    assert!(repo_path("../file").to_fs_path(&FsPath::from_text("base")).is_err());
    assert!(repo_path("file/..").to_fs_path(&FsPath::from_text("base")).is_err());

    // Empty component (which is invalid as a repo path)
    assert!(
        RepoPath::from_internal_string_unchecked("/")
            .to_fs_path(&FsPath::from_text("base"))
            .is_err()
    );
    // Iterator omits empty component after "/", which is fine so long as
    // the returned path does not escape.
    assert_same_path(
        RepoPath::from_internal_string_unchecked("a/")
            .to_fs_path(&FsPath::from_text("base"))
            .unwrap(),
        "base/a",
    );
    assert!(
        RepoPath::from_internal_string_unchecked("/b")
            .to_fs_path(&FsPath::from_text("base"))
            .is_err()
    );
    assert!(
        RepoPath::from_internal_string_unchecked("a//b")
            .to_fs_path(&FsPath::from_text("base"))
            .is_err()
    );

    // Component containing slash (simulating Windows path separator)
    assert!(
        RepoPathComponent::new_unchecked("wind/ows")
            .to_fs_name()
            .is_err()
    );
    assert!(
        RepoPathComponent::new_unchecked("./file")
            .to_fs_name()
            .is_err()
    );
    assert!(
        RepoPathComponent::new_unchecked("file/.")
            .to_fs_name()
            .is_err()
    );
    assert!(RepoPathComponent::new_unchecked("/").to_fs_name().is_err());

    // Windows path separator and drive letter
    assert!(
        repo_path(r#"wind\ows"#)
            .to_fs_path_on(Platform::Windows, &FsPath::from_text("base"))
            .is_err()
    );
    assert!(
        repo_path(r#".\file"#)
            .to_fs_path_on(Platform::Windows, &FsPath::from_text("base"))
            .is_err()
    );
    assert!(
        repo_path(r#"file\."#)
            .to_fs_path_on(Platform::Windows, &FsPath::from_text("base"))
            .is_err()
    );
    assert!(
        repo_path(r#"c:/foo"#)
            .to_fs_path_on(Platform::Windows, &FsPath::from_text("base"))
            .is_err()
    );
}

#[test]
fn test_to_fs_path_unchecked() {
    let to_fs_path_unchecked = |path: &'static str, base: &str| {
        repo_path(path).to_fs_path_unchecked(&FsPath::from_text(base))
    };
    assert_same_path(to_fs_path_unchecked("", "base/dir"), "base/dir");
    assert_same_path(to_fs_path_unchecked("", ""), ".");
    assert_same_path(to_fs_path_unchecked("file", "base/dir"), "base/dir/file");
    assert_same_path(
        to_fs_path_unchecked("some/deep/dir/file", "base/dir"),
        "base/dir/some/deep/dir/file",
    );
    assert_same_path(to_fs_path_unchecked("dir/file", ""), "dir/file");
}

fn parse_fs_path(cwd: &str, base: &str, input: &str) -> Result<RepoPathBuf, FsPathParseError> {
    RepoPathBuf::parse_fs_path(
        &FsPath::from_text(cwd),
        &FsPath::from_text(base),
        &FsPath::from_text(input),
    )
}

#[test]
fn parse_fs_path_wc_in_cwd() {
    let cwd_path = "/home/user/repo";
    let wc_path = "/home/user/repo";

    assert_eq!(
        parse_fs_path(cwd_path, wc_path, ""),
        Ok(RepoPath::root().to_owned())
    );
    assert_eq!(
        parse_fs_path(cwd_path, wc_path, "."),
        Ok(RepoPath::root().to_owned())
    );
    assert_eq!(
        parse_fs_path(cwd_path, wc_path, "file"),
        Ok(repo_path("file").to_owned())
    );
    // Both slash and the platform's separator are allowed
    assert_eq!(
        parse_fs_path(
            cwd_path,
            wc_path,
            &format!("dir{}file", std::path::MAIN_SEPARATOR)
        )
        ,
        Ok(repo_path("dir/file").to_owned())
    );
    assert_eq!(
        parse_fs_path(cwd_path, wc_path, "dir/file"),
        Ok(repo_path("dir/file").to_owned())
    );
    assert!(matches!(
        parse_fs_path(cwd_path, wc_path, ".."),
        Err(FsPathParseError {
            source: RelativePathParseError::InvalidComponent { .. },
            ..
        })
    ));
    assert_eq!(
        parse_fs_path(cwd_path, cwd_path, "../repo"),
        Ok(RepoPath::root().to_owned())
    );
    assert_eq!(
        parse_fs_path(cwd_path, cwd_path, "../repo/file"),
        Ok(repo_path("file").to_owned())
    );
    // Input may be absolute path with ".."
    assert_eq!(
        parse_fs_path(
            cwd_path,
            cwd_path,
            "/home/user/repo/../repo"
        )
        ,
        Ok(RepoPath::root().to_owned())
    );
}

#[test]
fn parse_fs_path_wc_in_cwd_parent() {
    let cwd_path = "/home/user/dir";
    let wc_path = "/home/user";

    assert_eq!(
        parse_fs_path(cwd_path, wc_path, ""),
        Ok(repo_path("dir").to_owned())
    );
    assert_eq!(
        parse_fs_path(cwd_path, wc_path, "."),
        Ok(repo_path("dir").to_owned())
    );
    assert_eq!(
        parse_fs_path(cwd_path, wc_path, "file"),
        Ok(repo_path("dir/file").to_owned())
    );
    assert_eq!(
        parse_fs_path(cwd_path, wc_path, "subdir/file"),
        Ok(repo_path("dir/subdir/file").to_owned())
    );
    assert_eq!(
        parse_fs_path(cwd_path, wc_path, ".."),
        Ok(RepoPath::root().to_owned())
    );
    assert!(matches!(
        parse_fs_path(cwd_path, wc_path, "../.."),
        Err(FsPathParseError {
            source: RelativePathParseError::InvalidComponent { .. },
            ..
        })
    ));
    assert_eq!(
        parse_fs_path(cwd_path, wc_path, "../other-dir/file"),
        Ok(repo_path("other-dir/file").to_owned())
    );
}

#[test]
fn parse_fs_path_wc_in_cwd_child() {
    let cwd_path = "/home/user/cwd";
    let wc_path = "/home/user/cwd/repo";

    assert!(matches!(
        parse_fs_path(cwd_path, wc_path, ""),
        Err(FsPathParseError {
            source: RelativePathParseError::InvalidComponent { .. },
            ..
        })
    ));
    assert!(matches!(
        parse_fs_path(cwd_path, wc_path, "not-repo"),
        Err(FsPathParseError {
            source: RelativePathParseError::InvalidComponent { .. },
            ..
        })
    ));
    assert_eq!(
        parse_fs_path(cwd_path, wc_path, "repo"),
        Ok(RepoPath::root().to_owned())
    );
    assert_eq!(
        parse_fs_path(cwd_path, wc_path, "repo/file"),
        Ok(repo_path("file").to_owned())
    );
    assert_eq!(
        parse_fs_path(cwd_path, wc_path, "repo/dir/file"),
        Ok(repo_path("dir/file").to_owned())
    );
}

#[test]
fn test_format_copied_path() {
    let ui = RepoPathUiConverter::Fs {
        cwd: FsPath::from_text("."),
        base: FsPath::from_text("."),
    };

    let format = |before, after| {
        ui.format_copied_path(Diff::new(repo_path(before), repo_path(after)))
            .replace('\\', "/")
    };

    assert_eq!(format("one/two/three", "one/two/three"), "one/two/three");
    assert_eq!(format("one/two", "one/two/three"), "one/{two => two/three}");
    assert_eq!(format("one/two", "zero/one/two"), "{one => zero/one}/two");
    assert_eq!(format("one/two/three", "one/two"), "one/{two/three => two}");
    assert_eq!(format("zero/one/two", "one/two"), "{zero/one => one}/two");
    assert_eq!(
        format("one/two", "one/two/three/one/two"),
        "one/{ => two/three/one}/two"
    );

    assert_eq!(format("two/three", "four/three"), "{two => four}/three");
    assert_eq!(
        format("one/two/three", "one/four/three"),
        "one/{two => four}/three"
    );
    assert_eq!(format("one/two/three", "one/three"), "one/{two => }/three");
    assert_eq!(format("one/two", "one/four"), "one/{two => four}");
    assert_eq!(format("two", "four"), "{two => four}");
    assert_eq!(format("file1", "file2"), "{file1 => file2}");
    assert_eq!(format("file-1", "file-2"), "{file-1 => file-2}");
    assert_eq!(
        format("x/something/something/2to1.txt", "x/something/2to1.txt"),
        "x/something/{something => }/2to1.txt"
    );
    assert_eq!(
        format("x/something/1to2.txt", "x/something/something/1to2.txt"),
        "x/something/{ => something}/1to2.txt"
    );
}

#[test]
fn test_split_common_prefix() {
    assert_eq!(
        repo_path("foo/bar").split_common_prefix(repo_path("foo/bar/baz")),
        (repo_path("foo/bar"), repo_path(""))
    );

    assert_eq!(
        repo_path("foo/bar/baz").split_common_prefix(repo_path("foo/bar")),
        (repo_path("foo/bar"), repo_path("baz"))
    );

    assert_eq!(
        repo_path("foo/bar/bing").split_common_prefix(repo_path("foo/bar/baz")),
        (repo_path("foo/bar"), repo_path("bing"))
    );

    assert_eq!(
        repo_path("no/common/prefix").split_common_prefix(repo_path("foo/bar/baz")),
        (RepoPath::root(), repo_path("no/common/prefix"))
    );

    assert_eq!(
        repo_path("same/path").split_common_prefix(repo_path("same/path")),
        (repo_path("same/path"), RepoPath::root())
    );

    assert_eq!(
        RepoPath::root().split_common_prefix(repo_path("foo")),
        (RepoPath::root(), RepoPath::root())
    );

    assert_eq!(
        RepoPath::root().split_common_prefix(RepoPath::root()),
        (RepoPath::root(), RepoPath::root())
    );

    assert_eq!(
        repo_path("foo/bar").split_common_prefix(RepoPath::root()),
        (RepoPath::root(), repo_path("foo/bar"))
    );
}
