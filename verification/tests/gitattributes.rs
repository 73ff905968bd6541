use std::collections::HashMap;

use working_copy::attr_loaders::DiskFileLoader;
use working_copy::attr_loaders::ReadOutcome;
use working_copy::attr_loaders::StatOutcome;
use working_copy::attr_loaders::TreeFileLoader;
use working_copy::backend::MergedTree;
use working_copy::backend::MergedTreeValue;
use working_copy::backend::TreeValue;
use working_copy::eol::search_eol;
use working_copy::file_state::DiskFileKind;
use working_copy::fs_path::FsPath;
use working_copy::gitattributes::FileLoader;
use working_copy::gitattributes::GitAttributes;
use working_copy::gitattributes::GitAttributesError;
use working_copy::gitattributes::GitAttributesErrorSource;
use working_copy::gitattributes::LoadedFile;
use working_copy::gitattributes::State;
use working_copy::platform::Platform;
use working_copy::repo_path::RepoPath;
use working_copy::repo_path::RepoPathBuf;

struct FakeFileLoader {
    files: HashMap<String, Result<String, String>>,
}

impl FakeFileLoader {
    fn new(files: Vec<(&str, Result<&str, &str>)>) -> Self {
        FakeFileLoader {
            files: files
                .into_iter()
                .map(|(path, contents)| {
                    (
                        path.to_string(),
                        contents.map(str::to_string).map_err(str::to_string),
                    )
                })
                .collect(),
        }
    }
}

impl FileLoader for FakeFileLoader {
    fn load(&self, path: RepoPath<'_>) -> Result<LoadedFile, GitAttributesError> {
        match self.files.get(path.as_internal_file_string()) {
            None => Ok(LoadedFile::Missing),
            Some(Ok(contents)) => Ok(LoadedFile::Contents(contents.clone().into_bytes())),
            Some(Err(message)) => Err(GitAttributesError {
                message: message.clone(),
                source: GitAttributesErrorSource::Other(message.clone()),
            }),
        }
    }

    fn describe(&self) -> String {
        "fake".to_string()
    }
}

fn repo_path(value: &str) -> RepoPathBuf {
    RepoPathBuf::from_internal_string(value.to_string()).unwrap()
}

#[test]
fn test_gitattr_state_debug() {
    let check = |state: State, expected_substring: &str| {
        let debug_output = state.describe();
        assert!(
            debug_output.contains(expected_substring),
            "Expect string to contain {expected_substring:?}, but got: {debug_output:?}.",
        );
    };
    check(State::SetTrue, "Set");
    check(State::Unset, "Unset");
    check(State::Value(b"git-lfs".to_vec()), "git-lfs");
    check(State::Unspecified, "Unspecified");
}

#[test]
fn test_gitattr_disk_file_loader_invalid_query_path() {
    let file_loader = DiskFileLoader::new(FsPath::from_text("jj"));
    let path = repo_path("a\\b");
    // a\b is probably only an invalid path on Windows.
    assert!(
        file_loader
            .disk_path(path.as_ref(), Platform::Windows)
            .is_err(),
        "Expect DiskFileLoader to return an error with an invalid path."
    );
    assert!(file_loader.disk_path(path.as_ref(), Platform::Unix).is_ok());
}

#[test]
fn disk_file_loader_opens_files_only() {
    let is_to_be_opened = |stat: StatOutcome| DiskFileLoader::is_to_be_opened("a.txt", stat);
    assert!(is_to_be_opened(StatOutcome::Found(DiskFileKind::File)).unwrap());
    assert!(!is_to_be_opened(StatOutcome::Found(DiskFileKind::Symlink)).unwrap());
    assert!(!is_to_be_opened(StatOutcome::Found(DiskFileKind::Dir)).unwrap());
    assert!(!is_to_be_opened(StatOutcome::NotFound).unwrap());
    // There is nothing below a file.
    assert!(!is_to_be_opened(StatOutcome::ParentNotDirectory).unwrap());
    let err = is_to_be_opened(StatOutcome::Failed("denied".to_string())).unwrap_err();
    assert_eq!(err.message, "Failed to obtain the file metadata of a.txt");
    assert!(matches!(err.source, GitAttributesErrorSource::Other(reason) if reason == "denied"));
}

#[test]
fn disk_file_loader_reads_contents() {
    let loaded = |read: ReadOutcome| DiskFileLoader::loaded("a.txt", read);
    assert!(matches!(
        loaded(ReadOutcome::Contents(b"a.txt text\n".to_vec())).unwrap(),
        LoadedFile::Contents(contents) if contents == b"a.txt text\n"
    ));
    assert!(matches!(
        loaded(ReadOutcome::NotFound).unwrap(),
        LoadedFile::Missing
    ));
    assert!(loaded(ReadOutcome::CannotOpen("denied".to_string())).is_err());
    assert!(matches!(
        loaded(ReadOutcome::CannotRead("broken".to_string())).unwrap(),
        LoadedFile::Unreadable(_)
    ));
}

#[test]
fn test_gitattr_disk_file_loader_debug() {
    let path = "jj-test/path";
    let file_loader = DiskFileLoader::new(FsPath::from_text(path));
    let debug = file_loader.describe();
    assert!(
        debug.contains(path),
        "Expect string to contain {path:?}, but got: {debug:?}.",
    );
}

#[test]
fn test_gitattr_load_file_error() {
    // File load failure on parent node should cover more paths.
    let file_loader = FakeFileLoader::new(vec![(".gitattributes", Err("test error"))]);
    let mut git_attributes = GitAttributes::new(vec![file_loader]);
    git_attributes
        .search(repo_path("dir/a.txt").as_ref(), &vec!["text"])
        .err()
        .expect("search should fail");
}

fn fallback(contents: Vec<Option<&str>>) -> State {
    let file_loaders = contents
        .into_iter()
        .map(|content| {
            FakeFileLoader::new(
                content
                    .iter()
                    .map(|content| (".gitattributes", Ok(*content)))
                    .collect(),
            )
        })
        .collect();
    let mut git_attributes = GitAttributes::new(file_loaders);
    git_attributes
        .search(repo_path("a.txt").as_ref(), &vec!["text"])
        .unwrap()
        .get("text")
        .unwrap()
        .clone()
}

#[test]
fn test_gitattr_fallback() {
    // Exist in all sources
    assert_eq!(
        fallback(vec![Some("a.txt text\n"), Some("a.txt -text\n")]),
        State::SetTrue
    );
    // Missing in the primary source
    assert_eq!(fallback(vec![None, Some("a.txt -text\n")]), State::Unset);
    // Missing in the secondary source
    assert_eq!(fallback(vec![Some("a.txt -text\n"), None]), State::Unset);
    // Missing in both sources
    assert_eq!(fallback(vec![None, None]), State::Unspecified);
}

struct UnreadableFileLoader;

impl FileLoader for UnreadableFileLoader {
    fn load(&self, _: RepoPath<'_>) -> Result<LoadedFile, GitAttributesError> {
        Ok(LoadedFile::Unreadable(GitAttributesError {
            message: "test error".to_string(),
            source: GitAttributesErrorSource::Other("test error".to_string()),
        }))
    }

    fn describe(&self) -> String {
        "unreadable".to_string()
    }
}

#[test]
fn test_gitattr_file_read_fail() {
    let mut gitattributes = GitAttributes::new(vec![UnreadableFileLoader]);
    gitattributes
        .search(repo_path("a.txt").as_ref(), &vec!["text"])
        .err()
        .expect("search should fail");
}

#[test]
fn test_gitattr_invalid_path() {
    let file_loader = FakeFileLoader::new(vec![("a/./b/.gitattributes", Ok("a.txt text"))]);
    let mut gitattributes = GitAttributes::new(vec![file_loader]);
    gitattributes
        .search(repo_path("a/./b/a.txt").as_ref(), &vec!["text"])
        .err()
        .expect("search should fail");
}

struct SearchConfig {
    gitattributes_files: Vec<(&'static str, &'static str)>,
    expected_queries: Vec<(&'static str, Vec<(&'static str, State)>)>,
}

fn check_search(
    SearchConfig {
        gitattributes_files,
        expected_queries,
    }: SearchConfig,
) {
    let file_loader = FakeFileLoader::new(
        gitattributes_files
            .into_iter()
            .map(|(path, contents)| (path, Ok(contents)))
            .collect(),
    );
    let mut gitattributes = GitAttributes::new(vec![file_loader]);
    for (path, expected_states) in expected_queries {
        let attributes_names: Vec<&str> = expected_states.iter().map(|(name, _)| *name).collect();
        let states = gitattributes
            .search(repo_path(path).as_ref(), &attributes_names)
            .unwrap();
        for (name, state) in expected_states {
            let actual_state = states.get(name).unwrap().clone();
            assert_eq!(
                actual_state, state,
                "Expect the state of the {name} attribute of the {path} file matches {state:?}, \
                 but got: {actual_state:?}"
            );
        }
    }
}

#[test]
fn test_gitattr_search() {
    // Cached gitattributes file
    check_search(SearchConfig {
        gitattributes_files: vec![(
            ".gitattributes",
            "a.txt text\na.png -text\n",
        )],
        expected_queries: vec![
            ("a.txt", vec![("text", State::SetTrue)]),
            ("a.png", vec![("text", State::Unset)]),
        ],
    });
    // Macro defined in root
    check_search(SearchConfig {
        gitattributes_files: vec![(
            ".gitattributes",
            "[attr]test_macro text\na.txt test_macro\n",
        )],
        expected_queries: vec![("a.txt", vec![("text", State::SetTrue)])],
    });
    // Macro defined in subdirectory
    check_search(SearchConfig {
        gitattributes_files: vec![(
            "a/.gitattributes",
            "[attr]test_macro text\na.txt test_macro\n",
        )],
        expected_queries: vec![
            ("a/a.txt", vec![("text", State::Unspecified)])
        ],
    });
    // Gitattr in parent folder
    check_search(SearchConfig {
        gitattributes_files: vec![(".gitattributes", "a.txt text\n")],
        expected_queries: vec![("dir/a.txt", vec![("text", State::SetTrue)])],
    });
    // Builtin macro
    check_search(SearchConfig {
        gitattributes_files: vec![(".gitattributes", "a.out binary\n")],
        expected_queries: vec![(
            "a.out",
            vec![
                ("diff", State::Unset),
                ("merge", State::Unset),
                ("text", State::Unset),
            ]
        )],
    });
    // Pattern should match case
    check_search(SearchConfig {
        gitattributes_files: vec![(
            ".gitattributes",
            "a.txt text\nB.png -text\n",
        )],
        expected_queries: vec![
            ("a.txt", vec![("text", State::SetTrue)]),
            ("A.txt", vec![("text", State::Unspecified)]),
            ("b.png", vec![("text", State::Unspecified)]),
            ("B.png", vec![("text", State::Unset)]),
        ],
    });
    // Result should contain missing attributes
    check_search(SearchConfig {
        gitattributes_files: vec![],
        expected_queries: vec![
            ("a.txt", vec![("text", State::Unspecified)]),
        ],
    });
    // Attr is set
    check_search(SearchConfig {
        gitattributes_files: vec![(".gitattributes", "a.txt crlf\n")],
        expected_queries: vec![("a.txt", vec![("crlf", State::SetTrue)])],
    });
    // Attr is unset
    check_search(SearchConfig {
        gitattributes_files: vec![(".gitattributes", "a.txt -crlf\n")],
        expected_queries: vec![("a.txt", vec![("crlf", State::Unset)])],
    });
    // Attr is set to value
    check_search(SearchConfig {
        gitattributes_files: vec![(".gitattributes", "a.txt crlf=input\n")],
        expected_queries: vec![(
            "a.txt",
            vec![("crlf", State::Value(b"input".to_vec()))],
        )],
    });
    // Attr is unspecified
    check_search(SearchConfig {
        gitattributes_files: vec![(".gitattributes", "a.txt !crlf\n")],
        expected_queries: vec![
            ("a.txt", vec![("crlf", State::Unspecified)]),
        ],
    });
    // Modified gitattr doc example
    check_search(SearchConfig {
        gitattributes_files: vec![
            (".gitattributes", "abc foo bar baz\n"),
            (
                "t/.gitattributes",
                "ab* merge=filfre\nabc -foo -bar\n*.c frotz\n"
            ),
        ],
        expected_queries: vec![(
            "t/abc",
            vec![
                ("foo", State::Unset),
                ("bar", State::Unset),
                ("baz", State::SetTrue),
                ("merge", State::Value(b"filfre".to_vec())),
                ("frotz", State::Unspecified),
            ]
        )],
    });
    // Star pattern
    check_search(SearchConfig {
        gitattributes_files: vec![
            (".gitattributes", "hello.* text\n"),
            ("a/.gitattributes", "/hello.* -text\n"),
        ],
        expected_queries: vec![
            ("hello.txt", vec![("text", State::SetTrue)]),
            ("hello.c", vec![("text", State::SetTrue)]),
            ("a/hello.txt", vec![("text", State::Unset)]),
            ("a/hello.c", vec![("text", State::Unset)]),
            ("a/b/hello.txt", vec![("text", State::SetTrue)]),
            ("a/b/hello.c", vec![("text", State::SetTrue)]),
        ],
    });
    // Directory pattern
    check_search(SearchConfig {
        gitattributes_files: vec![(
            ".gitattributes",
            "path/ text\npath/** crlf\n",
        )],
        expected_queries: vec![(
            "path/hello.txt",
            vec![
                ("text", State::Unspecified),
                ("crlf", State::SetTrue),
            ]
        )],
    });
    // Irrelevant leading slash in pattern
    check_search(SearchConfig {
        gitattributes_files: vec![(
            ".gitattributes",
            "doc/frotz text\n/doc/frotz crlf\n",
        )],
        expected_queries: vec![
            (
                "doc/frotz",
                vec![
                    ("text", State::SetTrue),
                    ("crlf", State::SetTrue),
                ]
            ),
            (
                "a/doc/frotz",
                vec![
                    ("text", State::Unspecified),
                    ("crlf", State::Unspecified),
                ]
            ),
        ],
    });
    // Single asterisk won't match slash
    check_search(SearchConfig {
        gitattributes_files: vec![(".gitattributes", "foo/* text\n")],
        expected_queries: vec![
            ("foo/test.json", vec![("text", State::SetTrue)]),
            ("foo/bar", vec![("text", State::SetTrue)]),
            ("foo/bar/hello.c", vec![("text", State::Unspecified)]),
        ],
    });
}

#[test]
fn test_gitattr_search_long_path() {
    let dir = "a/".repeat(200);
    let path = format!("{dir}.gitattributes");
    let file_loader = FakeFileLoader::new(vec![(path.as_str(), Ok("a.txt text\n"))]);
    let mut gitattributes = GitAttributes::new(vec![file_loader]);
    let state = gitattributes
        .search(repo_path(&format!("{dir}a.txt")).as_ref(), &vec!["text"])
        .unwrap()
        .get("text")
        .unwrap()
        .clone();
    assert_eq!(state, State::SetTrue);
}

#[test]
fn tree_file_loader_resolves_conflicts() {
    let file = |id: u8| {
        Some(TreeValue::File {
            id: vec![id],
            executable: false,
            copy_id: vec![],
        })
    };
    let link = || Some(TreeValue::Symlink(vec![9]));
    let mixed = MergedTreeValue::from_terms(vec![link(), file(1), file(2)]);
    let links = MergedTreeValue::from_terms(vec![link(), None, link()]);
    let choose_file = TreeFileLoader::choose_file;
    // A merge that can be resolved
    assert_eq!(choose_file(Some(Some(vec![7])), &mixed), Some(vec![7]));
    assert_eq!(choose_file(Some(None), &mixed), None);
    // The first file, or none
    assert_eq!(choose_file(None, &mixed), Some(vec![1]));
    assert_eq!(choose_file(None, &links), None);

    let tree = MergedTree {
        tree_ids: vec![vec![1]],
        labels: vec![],
    };
    assert_eq!(*TreeFileLoader::new(tree.duplicate()).tree(), tree);
}

#[test]
fn attributes_that_decide_about_line_endings() {
    let loader = FakeFileLoader::new(vec![
        (".gitattributes", Ok("*.txt text eol=crlf\n*.bin -text\n")),
        ("dir/.gitattributes", Ok("a.txt crlf=input\n")),
    ]);
    let mut git_attributes = GitAttributes::new(vec![loader]);
    let mut search = |path: &str| search_eol(&mut git_attributes, repo_path(path).as_ref()).unwrap();
    let found = search("a.txt");
    assert_eq!(found.text, State::SetTrue);
    assert_eq!(found.eol, State::Value(b"crlf".to_vec()));
    assert_eq!(found.crlf, State::Unspecified);
    let found = search("dir/a.txt");
    assert_eq!(found.text, State::SetTrue);
    assert_eq!(found.crlf, State::Value(b"input".to_vec()));
    let found = search("dir/a.bin");
    assert_eq!(found.text, State::Unset);
    assert_eq!(found.eol, State::Unspecified);
}

fn cause(err: GitAttributesError) -> GitAttributesError {
    match err.source {
        GitAttributesErrorSource::Attributes(source) => *source,
        source => panic!("unexpected source {source:?}"),
    }
}

#[test]
fn failed_searches_tell_their_causes() {
    let first = FakeFileLoader::new(vec![]);
    let second = FakeFileLoader::new(vec![("sub/.gitattributes", Err("test error"))]);
    let mut gitattributes = GitAttributes::new(vec![first, second]);
    let err = gitattributes
        .search(repo_path("sub/deep/a.txt").as_ref(), &vec!["text"])
        .err()
        .expect("search should fail");
    assert_eq!(
        err.message,
        "Failed to retrieve the search and metadata objects when retrieving gitattributes \
         objects for sub/deep"
    );
    let err = cause(err);
    assert_eq!(err.message, "Failed to obtain the parent of sub/deep/");
    let err = cause(err);
    assert_eq!(
        err.message,
        "Failed to read the .gitattributes file from fake at sub/.gitattributes/"
    );
    let err = cause(err);
    assert_eq!(err.message, "test error");

    // The root is not concerned.
    let states = gitattributes
        .search(repo_path("a.txt").as_ref(), &vec!["text"])
        .unwrap();
    assert_eq!(states.get("text"), Some(&State::Unspecified));
}

#[test]
fn unreadable_files_tell_their_path() {
    let mut gitattributes = GitAttributes::new(vec![UnreadableFileLoader]);
    let err = gitattributes
        .search(repo_path("a.txt").as_ref(), &vec!["text"])
        .err()
        .expect("search should fail");
    let err = cause(err);
    assert_eq!(
        err.message,
        "Failed to read the contents of .gitattributes file at .gitattributes"
    );
    assert_eq!(cause(err).message, "test error");
}

#[test]
fn the_first_loader_counts() {
    let first = FakeFileLoader::new(vec![(".gitattributes", Ok("a.txt text"))]);
    let second = FakeFileLoader::new(vec![(".gitattributes", Err("test error"))]);
    let mut gitattributes = GitAttributes::new(vec![first, second]);
    let states = gitattributes
        .search(repo_path("a.txt").as_ref(), &vec!["text"])
        .unwrap();
    assert_eq!(states.get("text"), Some(&State::SetTrue));
}

#[test]
fn test_gitattr_tree_file_loader_debug() {
    let tree_file_loader = TreeFileLoader::new(MergedTree {
        tree_ids: vec![vec![1, 2, 3]],
        labels: vec![],
    });
    let debug = format!("{tree_file_loader:?}");
    assert!(
        debug.starts_with("TreeFileLoader"),
        "Expect the name of the loader, but got: {debug:?}."
    );
}
