//! Utilities to read the `gitattributes` files and match against them.
//!
//! [`GitAttributes`] provides the key functionality to cache, query the states
//! of gitattributes associated to a file, and read and parse the
//! `gitattributes` files lazily. [`GitAttributes::search`] is the query
//! interface.
//!
//! [`FileLoader`] a trait that encapsulates the implementation details on how
//! to read `gitattributes` files given paths, either from the store or from the
//! file system. [`FileLoader`]s are used to initialize [`GitAttributes`].

use vstd::hash_map::StringHashMap;
use vstd::prelude::*;
use vstd::string::StringExecFns;

use crate::attr_search;
use crate::attr_search::AttrSource;
use crate::fs_path;
use crate::fs_path::FsPath;
use crate::path_model;
use crate::platform::Platform;
use crate::repo_path;
use crate::repo_path::InvalidRepoPathError;
use crate::repo_path::RepoPath;
use crate::repo_path::RepoPathComponent;
use crate::repo_path_fs;

verus! {

/// The state of an attribute for a path.
#[derive(Debug, PartialEq, Eq, Clone)]
pub enum State {
    /// The attribute is listed without a value.
    SetTrue,
    /// The attribute is listed with a leading dash `-`.
    Unset,
    /// The attribute is set to the given value, as in `attribute=value`. The
    /// words `true` and `false` are values like any other.
    Value(Vec<u8>),
    /// The attribute isn't mentioned with a given path or explicitly set to
    /// `Unspecified` using the `!` sigil.
    Unspecified,
}

/// What a [`State`] stands for.
pub enum AttrState {
    SetTrue,
    Unset,
    Value(Seq<u8>),
    Unspecified,
}

impl View for State {
    type V = AttrState;

    open spec fn view(&self) -> AttrState {
        match *self {
            State::SetTrue => AttrState::SetTrue,
            State::Unset => AttrState::Unset,
            State::Value(value) => AttrState::Value(value@),
            State::Unspecified => AttrState::Unspecified,
        }
    }
}

/// What `BStr`'s `Debug` shows of bytes: a quoted byte string.
pub uninterp spec fn quoted_bytes(bytes: Seq<u8>) -> Seq<char>;

/// `Debug` of `bstr::BStr`: the bytes as a quoted text, escaped where need be.
#[verifier::external_body]
fn quoted_text(bytes: &Vec<u8>) -> (r: String)
    ensures
        r@ == quoted_bytes(bytes@),
{
    format!("{:?}", bstr::BStr::new(bytes))
}

impl State {
    /// This state in messages, with a value shown as a byte string instead of a list
    /// of numbers for readability.
    pub fn describe(&self) -> (r: String)
        ensures
            r@ == match *self {
                State::SetTrue => "State::Set"@,
                State::Unset => "State::Unset"@,
                State::Value(value) => "State::Value("@ + quoted_bytes(value@) + ")"@,
                State::Unspecified => "State::Unspecified"@,
            },
    {
        match self {
            State::SetTrue => "State::Set".to_owned(),
            State::Unset => "State::Unset".to_owned(),
            State::Value(value) => {
                let mut out = "State::Value(".to_owned();
                out.append(quoted_text(value).as_str());
                out.append(")");
                out
            },
            State::Unspecified => "State::Unspecified".to_owned(),
        }
    }

    /// Copies this state.
    pub fn duplicate(&self) -> (r: State)
        ensures
            r@ == self@,
    {
        match self {
            State::SetTrue => State::SetTrue,
            State::Unset => State::Unset,
            State::Value(value) => State::Value(fs_path::copy_bytes(value)),
            State::Unspecified => State::Unspecified,
        }
    }
}

/// The error type for `gitattributes` operations.
///
/// Errors mostly originate from reading from the store, reading from the file
/// system, and path conversion.
#[derive(Debug)]
pub struct GitAttributesError {
    pub message: String,
    pub source: GitAttributesErrorSource,
}

/// What a [`GitAttributesError`] comes from.
#[derive(Debug)]
pub enum GitAttributesErrorSource {
    /// Another operation on attributes failed.
    Attributes(Box<GitAttributesError>),
    /// A path has no counterpart on the file system.
    Path(InvalidRepoPathError),
    /// Something outside failed, for the given reason.
    Other(String),
}

/// What a [`FileLoader`] found at a path.
pub enum LoadedFile {
    /// There is no file at the path, or an entry that is not a file.
    Missing,
    /// The contents of the file.
    Contents(Vec<u8>),
    /// There is a file, but reading its contents failed.
    Unreadable(GitAttributesError),
}

/// An abstraction over the operation of reading the gitattributes file contents
/// from the store or from the file system.
pub trait FileLoader {
    /// Given a path to a `gitattributes` file, return the contents of that
    /// file.
    ///
    /// If the file doesn't exist or the path points to an entry that is not a
    /// file (e.g., a folder), this method must return
    /// [`LoadedFile::Missing`], so that the caller knows the file is missing
    /// instead of an IO error that can't be recovered. According to
    /// [the `gitattributes` document], the method should not follow symbolic
    /// links.
    ///
    /// If the underlying store operation or the file system IO fails, an error
    /// is returned. It is **not** considered an error if `path` points to
    /// nothing or doesn't point to a file.
    ///
    /// [the `gitattributes` document]: https://git-scm.com/docs/gitattributes#_notes
    fn load(&self, path: RepoPath<'_>) -> Result<LoadedFile, GitAttributesError>;

    /// How this loader is called in messages.
    fn describe(&self) -> String;
}

/// The attribute lines that count for the files in a directory.
pub struct GitAttributesNode {
    search: gix_attributes::Search,
    metadata_collection: gix_attributes::search::MetadataCollection,
}

impl View for GitAttributesNode {
    type V = Seq<AttrSource>;

    closed spec fn view(&self) -> Seq<AttrSource> {
        attr_search::search_sources(self.search)
    }
}

/// The path of the file with the attribute lines of a directory.
pub open spec fn attributes_path(dir: Seq<char>) -> Seq<char> {
    path_model::joined(dir, ".gitattributes"@)
}

/// The attribute lines that a directory adds to those of its parent. Macros are
/// allowed at the root only.
pub open spec fn dir_source(dir: Seq<char>, contents: Seq<u8>) -> AttrSource {
    (contents, attributes_path(dir), true, dir.len() == 0)
}

/// Whether a loader can give a result for the file at a path.
pub open spec fn may_load<L: FileLoader>(
    loader: L,
    path: Seq<char>,
    r: Result<LoadedFile, GitAttributesError>,
) -> bool {
    exists|p: RepoPath<'_>| #[trigger] call_ensures(L::load, (&loader, p), r) && p@ == path
}

/// Whether a loader can be called by a text in messages.
pub open spec fn may_describe<L: FileLoader>(loader: L, text: Seq<char>) -> bool {
    exists|r: String| #[trigger] call_ensures(L::describe, (&loader,), r) && r@ == text
}

/// Whether the first `n` loaders can find no file at a path.
pub open spec fn missing_in<L: FileLoader>(loaders: Seq<L>, path: Seq<char>, n: int) -> bool {
    forall|i: int|
        0 <= i < n ==> may_load(#[trigger] loaders[i], path, Ok(LoadedFile::Missing))
}

/// Whether asking one loader after the other, until there is a file, can end
/// with `file`. It can end without one only if the file is missing everywhere.
pub open spec fn finds<L: FileLoader>(loaders: Seq<L>, path: Seq<char>, file: LoadedFile) -> bool {
    match file {
        LoadedFile::Missing => missing_in(loaders, path, loaders.len() as int),
        _ => exists|n: int|
            0 <= n < loaders.len() && missing_in(loaders, path, n) && may_load(
                #[trigger] loaders[n],
                path,
                Ok(file),
            ),
    }
}

/// The path of a directory in messages.
pub open spec fn dir_text(path: Seq<char>) -> Seq<char> {
    if path.len() == 0 {
        path
    } else {
        path.push('/')
    }
}

/// Whether asking one loader after the other can fail with `err`: the file is
/// missing in those before the one that failed.
pub open spec fn fails_to_load<L: FileLoader>(
    loaders: Seq<L>,
    path: Seq<char>,
    err: GitAttributesError,
) -> bool {
    exists|n: int, text: Seq<char>|
        {
            &&& 0 <= n < loaders.len()
            &&& missing_in(loaders, path, n)
            &&& #[trigger] may_describe(loaders[n], text)
            &&& err.message@ == "Failed to read the .gitattributes file from "@ + text + " at "@
                + dir_text(path)
            &&& err.source matches GitAttributesErrorSource::Attributes(source)
            &&& may_load(loaders[n], path, Err(*source))
        }
}

/// Whether lists of attribute lines can be those that count in a directory: the
/// built-in one, then the files that the loaders give on the way from the root
/// to the directory.
pub open spec fn sources_for<L: FileLoader>(
    loaders: Seq<L>,
    sources: Seq<AttrSource>,
    dir: Seq<char>,
) -> bool
    decreases dir.len(),
{
    let inherited = |base: Seq<AttrSource>|
        if dir.len() == 0 || repo_path::back_split(dir).0.len() >= dir.len() {
            base == seq![attr_search::builtin_source()]
        } else {
            sources_for(loaders, base, repo_path::back_split(dir).0)
        };
    ||| inherited(sources) && finds(loaders, attributes_path(dir), LoadedFile::Missing)
    ||| exists|contents: Vec<u8>|
        {
            &&& #[trigger] finds(loaders, attributes_path(dir), LoadedFile::Contents(contents))
            &&& sources.len() > 0
            &&& inherited(sources.drop_last())
            &&& sources.last() == dir_source(dir, contents@)
        }
}

/// Whether finding out which attribute lines count in a directory can fail with
/// `err`: on the way from the root, a loader fails, a file cannot be read, or a
/// path has no counterpart on the file system.
pub open spec fn node_fails<L: FileLoader>(
    loaders: Seq<L>,
    dir: Seq<char>,
    err: GitAttributesError,
) -> bool
    decreases dir.len(),
{
    let path = attributes_path(dir);
    ||| {
        &&& dir.len() > 0
        &&& repo_path::back_split(dir).0.len() < dir.len()
        &&& err.message@ == "Failed to obtain the parent of "@ + dir_text(dir)
        &&& err.source matches GitAttributesErrorSource::Attributes(source)
        &&& node_fails(loaders, repo_path::back_split(dir).0, *source)
    }
    ||| fails_to_load(loaders, path, err)
    ||| exists|source: GitAttributesError|
        {
            &&& #[trigger] finds(loaders, path, LoadedFile::Unreadable(source))
            &&& unreadable(dir, source, err)
        }
    ||| exists|contents: Vec<u8>|
        {
            &&& #[trigger] finds(loaders, path, LoadedFile::Contents(contents))
            &&& not_on_disk(dir, err)
        }
}

/// Whether `err` says that the file of a directory could not be read because of
/// `source`.
pub open spec fn unreadable(
    dir: Seq<char>,
    source: GitAttributesError,
    err: GitAttributesError,
) -> bool {
    &&& err.message@ == "Failed to read the contents of .gitattributes file at "@ + attributes_path(
        dir,
    )
    &&& err.source matches GitAttributesErrorSource::Attributes(inner)
    &&& *inner == source
}

/// Whether `err` says that the file of a directory has no counterpart on the
/// file system.
pub open spec fn not_on_disk(dir: Seq<char>, err: GitAttributesError) -> bool {
    &&& err.message@ == "Failed to convert the gitattributes path from RepoPath to Path"@
    &&& err.source matches GitAttributesErrorSource::Path(source)
    &&& source.path@ == attributes_path(dir)
    &&& exists|platform: Platform| #[trigger]
        platform.is_host() && repo_path_fs::first_invalid(
            platform,
            path_model::components(attributes_path(dir)),
        ) == Some(source.source.component@)
}

/// Whether the file of a directory has a counterpart on the file system.
pub open spec fn on_disk(dir: Seq<char>) -> bool {
    attr_search::has_fs_name(attributes_path(dir))
}

/// If the first loader always has the file, its file counts, whatever the others
/// have.
pub proof fn lemma_first_loader_counts<L: FileLoader>(
    loaders: Seq<L>,
    path: Seq<char>,
    file: LoadedFile,
)
    requires
        loaders.len() > 0,
        !may_load(loaders[0], path, Ok(LoadedFile::Missing)),
        finds(loaders, path, file),
    ensures
        may_load(loaders[0], path, Ok(file)),
{
    let first = loaders[0];
    if file is Missing {
        assert(missing_in(loaders, path, loaders.len() as int));
    } else {
        let n = choose|n: int|
            0 <= n < loaders.len() && missing_in(loaders, path, n) && may_load(
                #[trigger] loaders[n],
                path,
                Ok(file),
            );
        assert(n == 0);
    }
}

/// If the file is missing in the first loader, the other loaders are the
/// fall-back.
pub proof fn lemma_missing_falls_back<L: FileLoader>(
    loaders: Seq<L>,
    path: Seq<char>,
    file: LoadedFile,
)
    requires
        loaders.len() > 0,
        may_load(loaders[0], path, Ok(LoadedFile::Missing)),
        forall|r: Result<LoadedFile, GitAttributesError>| #[trigger]
            may_load(loaders[0], path, r) ==> r == Ok::<LoadedFile, GitAttributesError>(
                LoadedFile::Missing,
            ),
    ensures
        finds(loaders, path, file) <==> finds(loaders.drop_first(), path, file),
{
    let rest = loaders.drop_first();
    assert forall|n: int| 0 <= n < loaders.len() implies missing_in(loaders, path, n + 1)
        == #[trigger] missing_in(rest, path, n) by {
        if missing_in(loaders, path, n + 1) {
            assert forall|i: int| 0 <= i < n implies may_load(
                #[trigger] rest[i],
                path,
                Ok(LoadedFile::Missing),
            ) by {
                assert(rest[i] == loaders[i + 1]);
            }
        }
        if missing_in(rest, path, n) {
            assert forall|i: int| 0 <= i < n + 1 implies may_load(
                #[trigger] loaders[i],
                path,
                Ok(LoadedFile::Missing),
            ) by {
                if i > 0 {
                    assert(rest[i - 1] == loaders[i]);
                }
            }
        }
    }
    if file is Missing {
        assert(missing_in(rest, path, rest.len() as int) == missing_in(
            loaders,
            path,
            loaders.len() as int,
        ));
    } else {
        if finds(loaders, path, file) {
            let n = choose|n: int|
                0 <= n < loaders.len() && missing_in(loaders, path, n) && may_load(
                    #[trigger] loaders[n],
                    path,
                    Ok(file),
                );
            assert(n > 0);
            assert(rest[n - 1] == loaders[n]);
            assert(missing_in(rest, path, n - 1));
        }
        if finds(rest, path, file) {
            let n = choose|n: int|
                0 <= n < rest.len() && missing_in(rest, path, n) && may_load(
                    #[trigger] rest[n],
                    path,
                    Ok(file),
                );
            assert(missing_in(loaders, path, n + 1));
            assert(rest[n] == loaders[n + 1]);
        }
    }
}

/// Without loaders, only the built-in attribute lines count.
pub proof fn lemma_no_loaders<L: FileLoader>(
    loaders: Seq<L>,
    sources: Seq<AttrSource>,
    dir: Seq<char>,
)
    requires
        loaders.len() == 0,
        sources_for(loaders, sources, dir),
    ensures
        sources == seq![attr_search::builtin_source()],
    decreases dir.len(),
{
    assert forall|contents: Vec<u8>|
        !#[trigger] finds(loaders, attributes_path(dir), LoadedFile::Contents(contents)) by {
    }
    if dir.len() > 0 && repo_path::back_split(dir).0.len() < dir.len() {
        lemma_no_loaders(loaders, sources, repo_path::back_split(dir).0);
    }
}

/// Without loaders, nothing fails.
pub proof fn lemma_no_loaders_no_failure<L: FileLoader>(
    loaders: Seq<L>,
    dir: Seq<char>,
    err: GitAttributesError,
)
    requires
        loaders.len() == 0,
    ensures
        !node_fails(loaders, dir, err),
    decreases dir.len(),
{
    if dir.len() > 0 && repo_path::back_split(dir).0.len() < dir.len() {
        if let GitAttributesErrorSource::Attributes(source) = err.source {
            lemma_no_loaders_no_failure(loaders, repo_path::back_split(dir).0, *source);
        }
    }
}

impl GitAttributesNode {
    /// The numbers were given to the attributes of these very lists.
    pub closed spec fn wf(&self) -> bool {
        attr_search::metadata_sources(self.metadata_collection) == attr_search::search_sources(
            self.search,
        )
    }

    /// The attribute lines that always count.
    pub fn builtin() -> (r: GitAttributesNode)
        ensures
            r.wf(),
            r@ == seq![attr_search::builtin_source()],
    {
        let mut search = attr_search::new_search();
        let mut metadata_collection = attr_search::new_metadata();
        let built_in: Vec<u8> = vec![
            91u8, 97u8, 116u8, 116u8, 114u8, 93u8, 98u8, 105u8, 110u8, 97u8, 114u8, 121u8, 32u8,
            45u8, 100u8, 105u8, 102u8, 102u8, 32u8, 45u8, 109u8, 101u8, 114u8, 103u8, 101u8, 32u8,
            45u8, 116u8, 101u8, 120u8, 116u8,
        ];
        assert(built_in@ =~= attr_search::builtin_text());
        proof {
            reveal_strlit("[builtin]");
        }
        attr_search::add_patterns_buffer(
            &mut search,
            &built_in,
            "[builtin]",
            false,
            &mut metadata_collection,
            true,
        );
        let r = GitAttributesNode { search, metadata_collection };
        assert(r@ =~= seq![attr_search::builtin_source()]);
        r
    }

    /// These attribute lines, and behind them those of the file `contents` in
    /// the directory `dir`.
    ///
    /// The name of the directory must be valid on the file system, as the
    /// pattern matcher takes filesystem paths.
    pub fn with_file(&self, dir: RepoPath<'_>, contents: &Vec<u8>) -> (r: Result<
        GitAttributesNode,
        GitAttributesError,
    >)
        requires
            self.wf(),
            path_model::valid_path(dir@),
        ensures
            match r {
                Ok(node) => {
                    &&& node.wf()
                    &&& node@ == self@.push(dir_source(dir@, contents@))
                    &&& on_disk(dir@)
                },
                Err(err) => not_on_disk(dir@, err),
            },
    {
        let gitattributes_path = attributes_path_of(dir);
        match gitattributes_path.as_ref().to_fs_path(&FsPath::new()) {
            Ok(_) => {},
            Err(source) => {
                return Err(
                    GitAttributesError {
                        message: "Failed to convert the gitattributes path from RepoPath to Path".to_owned(),
                        source: GitAttributesErrorSource::Path(source),
                    },
                );
            },
        }
        let mut search = attr_search::clone_search(&self.search);
        let mut metadata_collection = attr_search::clone_metadata(&self.metadata_collection);
        let is_root = dir.is_root();
        // The root parameter makes the lines apply below their own directory only.
        // Only allow macros for the root `gitattributes` file, because Git only allows
        // macro definition in limited files:
        //
        // > Custom macro attributes can be defined only in top-level gitattributes files
        // > (`$GIT_DIR/info/attributes`, the `.gitattributes` file at the top level of the
        // > working tree, or the global or system-wide gitattributes files), not in
        // > `.gitattributes` files in working tree subdirectories.
        attr_search::add_patterns_buffer(
            &mut search,
            contents,
            gitattributes_path.as_ref().as_internal_file_string(),
            true,
            &mut metadata_collection,
            is_root,
        );
        Ok(GitAttributesNode { search, metadata_collection })
    }

    /// The states of some attributes for a file.
    pub fn states(&self, path: RepoPath<'_>, attribute_names: &Vec<&str>) -> (r: Vec<State>)
        requires
            self.wf(),
            path_model::valid_path(path@),
        ensures
            r@.map_values(|state: State| state@) == attr_search::matched_states(
                self@,
                path@,
                attr_search::name_texts(attribute_names@),
            ),
            r@.len() == attribute_names@.len(),
            self@ == seq![attr_search::builtin_source()] ==> r@.map_values(|state: State| state@)
                == attr_search::all_unspecified(attribute_names@.len()),
    {
        let mut outcome = attr_search::outcome_for(&self.metadata_collection, attribute_names);
        attr_search::pattern_matching_relative_path(
            &self.search,
            path.as_internal_file_string(),
            &mut outcome,
        );
        let r = attr_search::selected_states(&outcome);
        assert(r@.map_values(|state: State| state@).len() == r@.len());
        r
    }
}

/// The path of the file with the attribute lines of a directory.
fn attributes_path_of(dir: RepoPath<'_>) -> (r: repo_path::RepoPathBuf)
    requires
        path_model::valid_path(dir@),
    ensures
        r@ == attributes_path(dir@),
        path_model::valid_path(r@),
        r@.len() > 0,
        r@[0] != '/',
{
    proof {
        lemma_file_name();
    }
    dir.join(RepoPathComponent::dot_gitattributes())
}

/// The name of the files with attribute lines is a valid one.
proof fn lemma_file_name()
    ensures
        path_model::valid_name(".gitattributes"@),
{
    reveal_strlit(".gitattributes");
}

/// The states of some attributes by their names.
pub struct AttributeStates {
    states: StringHashMap<State>,
}

impl View for AttributeStates {
    type V = Map<Seq<char>, AttrState>;

    closed spec fn view(&self) -> Map<Seq<char>, AttrState> {
        self.states@.map_values(|state: State| state@)
    }
}

/// Names with their states, filed by name. The last of equal names counts.
pub open spec fn states_by_name(names: Seq<Seq<char>>, states: Seq<AttrState>) -> Map<
    Seq<char>,
    AttrState,
>
    decreases names.len(),
{
    if names.len() == 0 || states.len() != names.len() {
        Map::empty()
    } else {
        states_by_name(names.drop_last(), states.drop_last()).insert(names.last(), states.last())
    }
}

impl AttributeStates {
    /// Files names with their states.
    pub fn from_lists(names: &Vec<&str>, states: Vec<State>) -> (r: AttributeStates)
        requires
            names@.len() == states@.len(),
        ensures
            r@ == states_by_name(
                attr_search::name_texts(names@),
                states@.map_values(|state: State| state@),
            ),
    {
        let ghost texts = attr_search::name_texts(names@);
        let ghost found = states@.map_values(|state: State| state@);
        let mut r = AttributeStates { states: StringHashMap::new() };
        let mut i: usize = 0;
        assert(r@ =~= Map::empty());
        while i < names.len()
            invariant
                i <= names@.len() == states@.len(),
                texts == attr_search::name_texts(names@),
                found == states@.map_values(|state: State| state@),
                r@ == states_by_name(texts.take(i as int), found.take(i as int)),
            decreases names@.len() - i,
        {
            let ghost before = r@;
            let ghost map_before = r.states@;
            let state = states[i].duplicate();
            r.states.insert(names[i].to_owned(), state);
            proof {
                assert(texts.take(i + 1).drop_last() =~= texts.take(i as int));
                assert(found.take(i + 1).drop_last() =~= found.take(i as int));
                assert(texts.take(i + 1).last() == names@[i as int]@);
                assert(found.take(i + 1).last() == states@[i as int]@);
                assert(r@ =~= before.insert(names@[i as int]@, states@[i as int]@));
            }
            i += 1;
        }
        assert(texts.take(i as int) =~= texts);
        assert(found.take(i as int) =~= found);
        r
    }

    /// The state of an attribute, if it was asked for.
    pub fn get(&self, name: &str) -> (r: Option<&State>)
        ensures
            match r {
                Some(state) => self@.contains_key(name@) && self@[name@] == state@,
                None => !self@.contains_key(name@),
            },
    {
        self.states.get(name)
    }

    /// The state of an attribute, which is unspecified unless it was asked for.
    pub fn state_or_unspecified(&self, name: &str) -> (r: State)
        ensures
            r@ == if self@.contains_key(name@) {
                self@[name@]
            } else {
                AttrState::Unspecified
            },
    {
        match self.get(name) {
            Some(state) => state.duplicate(),
            None => State::Unspecified,
        }
    }
}

/// Every name has a state.
pub proof fn lemma_states_by_name(names: Seq<Seq<char>>, states: Seq<AttrState>)
    requires
        names.len() == states.len(),
    ensures
        forall|name: Seq<char>| #[trigger]
            states_by_name(names, states).contains_key(name) <==> names.contains(name),
        forall|name: Seq<char>|
            names.contains(name) ==> states.contains(#[trigger] states_by_name(names, states)[name]),
    decreases names.len(),
{
    if names.len() > 0 {
        let n = names.len() - 1;
        lemma_states_by_name(names.drop_last(), states.drop_last());
        let before = states_by_name(names.drop_last(), states.drop_last());
        let map = states_by_name(names, states);
        assert forall|name: Seq<char>| #[trigger]
            map.contains_key(name) <==> names.contains(name) by {
            if names.contains(name) {
                let i = choose|i: int| 0 <= i < names.len() && names[i] == name;
                if i < n {
                    assert(names.drop_last()[i] == name);
                    assert(before.contains_key(name));
                }
            }
            if before.contains_key(name) {
                let i = choose|i: int|
                    0 <= i < names.drop_last().len() && names.drop_last()[i] == name;
                assert(names[i] == name);
            }
            assert(names[n] == names.last());
        }
        assert forall|name: Seq<char>| names.contains(name) implies states.contains(
            #[trigger] map[name],
        ) by {
            if name == names.last() {
                assert(states[n] == map[name]);
            } else {
                let i = choose|i: int| 0 <= i < names.len() && names[i] == name;
                assert(names.drop_last()[i] == name);
                assert(names.drop_last().contains(name));
                let value = before[name];
                assert(states.drop_last().contains(value));
                let j = choose|j: int|
                    0 <= j < states.drop_last().len() && states.drop_last()[j] == value;
                assert(states[j] == value);
            }
        }
    }
}

fn message_with(prefix: &str, text: &str) -> (r: String)
    ensures
        r@ == prefix@ + text@,
{
    let mut out = prefix.to_owned();
    out.append(text);
    out
}

fn caused_by(message: String, source: GitAttributesError) -> (r: GitAttributesError)
    ensures
        r.message@ == message@,
        r.source matches GitAttributesErrorSource::Attributes(inner) && *inner == source,
{
    GitAttributesError {
        message,
        source: GitAttributesErrorSource::Attributes(Box::new(source)),
    }
}

/// What is made of the file with the attribute lines of a directory: nothing
/// new if there is no file, else the lines so far and those of the file.
pub fn node_for_file(base: &GitAttributesNode, dir: RepoPath<'_>, file: LoadedFile) -> (r: Result<
    Option<GitAttributesNode>,
    GitAttributesError,
>)
    requires
        base.wf(),
        path_model::valid_path(dir@),
    ensures
        match file {
            LoadedFile::Missing => r matches Ok(None),
            LoadedFile::Contents(contents) => match r {
                Ok(Some(node)) => {
                    &&& node.wf()
                    &&& node@ == base@.push(dir_source(dir@, contents@))
                    &&& on_disk(dir@)
                },
                Ok(None) => false,
                Err(err) => not_on_disk(dir@, err),
            },
            LoadedFile::Unreadable(source) => r matches Err(err) && unreadable(dir@, source, err),
        },
{
    match file {
        LoadedFile::Missing => Ok(None),
        LoadedFile::Contents(contents) => match base.with_file(dir, &contents) {
            Ok(node) => Ok(Some(node)),
            Err(err) => Err(err),
        },
        LoadedFile::Unreadable(source) => {
            let path = attributes_path_of(dir);
            let message = message_with(
                "Failed to read the contents of .gitattributes file at ",
                path.as_ref().as_internal_file_string(),
            );
            Err(caused_by(message, source))
        },
    }
}

/// A cached, lazy query interface to query the states of given git attributes
/// associated to a file.
pub struct GitAttributes<L: FileLoader> {
    /// The attribute lines of all directories visited so far. Directories
    /// without a file of their own share those of their parent.
    nodes: Vec<GitAttributesNode>,
    /// The key is the path of a directory, the value says which of the nodes
    /// is for it.
    ///
    /// The node of a folder has direct influence on all the files under that
    /// folder, and indirect influence on files in its descendant folder. The
    /// attribute states of files under the same folder, e.g. `foo/bar1.txt`,
    /// `foo/bar2.txt`, are decided by the same node, and the cache key is the
    /// path to the folder, e.g., `foo`.
    node_cache: StringHashMap<usize>,
    file_loaders: Vec<L>,
}

impl<L: FileLoader> GitAttributes<L> {
    /// The attribute lines that are known to count in a directory.
    pub closed spec fn cached(&self, dir: Seq<char>) -> Option<Seq<AttrSource>> {
        if self.node_cache@.contains_key(dir) {
            Some(self.nodes@[self.node_cache@[dir] as int]@)
        } else {
            None
        }
    }

    /// What loads the files.
    pub closed spec fn loaders(&self) -> Seq<L> {
        self.file_loaders@
    }

    /// What is known of a directory is right.
    pub closed spec fn wf(&self) -> bool {
        &&& forall|dir: Seq<char>| #[trigger]
            self.node_cache@.contains_key(dir) ==> {
                &&& self.node_cache@[dir] < self.nodes@.len()
                &&& sources_for(
                    self.file_loaders@,
                    self.nodes@[self.node_cache@[dir] as int]@,
                    dir,
                )
            }
        &&& forall|i: int| 0 <= i < self.nodes@.len() ==> (#[trigger] self.nodes@[i]).wf()
    }

    /// Create a [`GitAttributes`] instance with the given sources of
    /// `gitattributes` files.
    ///
    /// [`GitAttributes`] uses [`FileLoader`]s in the `file_loaders` parameter
    /// to obtain the contents of the `gitattributes` files. If `file_loaders`
    /// is empty, [`Self::search`] will always return [`State::Unspecified`] for
    /// all attributes. If there are multiple [`FileLoader`]s, when the
    /// `gitattributes` file is missing in one [`FileLoader`], the next
    /// [`FileLoader`] will be used as the fall-back.
    pub fn new(file_loaders: Vec<L>) -> (r: GitAttributes<L>)
        ensures
            r.wf(),
            r.loaders() == file_loaders@,
            forall|dir: Seq<char>| #[trigger] r.cached(dir) is None,
    {
        GitAttributes { nodes: Vec::new(), node_cache: StringHashMap::new(), file_loaders }
    }

    /// Looks for the file at `path`, in one place after the other.
    fn load_first(&self, path: RepoPath<'_>) -> (r: Result<LoadedFile, GitAttributesError>)
        ensures
            match r {
                Ok(file) => finds(self.loaders(), path@, file),
                Err(err) => fails_to_load(self.loaders(), path@, err),
            },
    {
        let mut i: usize = 0;
        while i < self.file_loaders.len()
            invariant
                i <= self.file_loaders@.len(),
                missing_in(self.file_loaders@, path@, i as int),
            decreases self.file_loaders@.len() - i,
        {
            let file_loader = &self.file_loaders[i];
            let loaded = file_loader.load(path);
            assert(call_ensures(L::load, (file_loader, path), loaded));
            assert(may_load(self.file_loaders@[i as int], path@, loaded));
            match loaded {
                Ok(LoadedFile::Missing) => {},
                Ok(file) => {
                    return Ok(file);
                },
                Err(source) => {
                    let name = file_loader.describe();
                    assert(call_ensures(L::describe, (file_loader,), name));
                    assert(may_describe(self.file_loaders@[i as int], name@));
                    let mut message = message_with(
                        "Failed to read the .gitattributes file from ",
                        name.as_str(),
                    );
                    message.append(" at ");
                    message.append(path.to_internal_dir_string().as_str());
                    return Err(caused_by(message, source));
                },
            }
            i += 1;
        }
        Ok(LoadedFile::Missing)
    }

    fn initialize_node(&mut self, path: RepoPath<'_>) -> (r: Result<usize, GitAttributesError>)
        requires
            old(self).wf(),
            path_model::valid_path(path@),
            old(self).cached(path@) is None,
        ensures
            final(self).wf(),
            final(self).loaders() == old(self).loaders(),
            forall|dir: Seq<char>| #[trigger]
                old(self).cached(dir) is Some ==> final(self).cached(dir) == old(self).cached(dir),
            forall|dir: Seq<char>|
                dir.len() >= path@.len() ==> #[trigger] final(self).cached(dir) == old(self).cached(
                    dir,
                ),
            match r {
                Ok(i) => {
                    &&& i < final(self).nodes@.len()
                    &&& sources_for(final(self).loaders(), final(self).nodes@[i as int]@, path@)
                },
                Err(err) => node_fails(final(self).loaders(), path@, err),
            },
        decreases path@.len(), 0int,
    {
        let ghost before = *self;
        let base = match path.parent() {
            Some(parent_path) => {
                match self.get_node(parent_path) {
                    Ok(i) => i,
                    Err(source) => {
                        let message = message_with(
                            "Failed to obtain the parent of ",
                            path.to_internal_dir_string().as_str(),
                        );
                        return Err(caused_by(message, source));
                    },
                }
            },
            None => {
                // `path` points to the repository root.
                let n = self.nodes.len();
                self.nodes.push(GitAttributesNode::builtin());
                proof {
                    assert(self.nodes@.take(n as int) =~= before.nodes@);
                    assert forall|dir: Seq<char>| #[trigger]
                        before.node_cache@.contains_key(dir) implies self.nodes@[
                    before.node_cache@[dir] as int] == before.nodes@[before.node_cache@[dir] as int] by {
                    }
                }
                n
            },
        };
        let ghost middle = *self;
        let gitattributes_path = attributes_path_of(path);
        let file = match self.load_first(gitattributes_path.as_ref()) {
            Ok(file) => file,
            Err(err) => {
                return Err(err);
            },
        };
        let ghost found = file;
        let ghost inherited = self.nodes@[base as int]@;
        proof {
            if path@.len() == 0 {
                assert(inherited == seq![attr_search::builtin_source()]);
            } else {
                assert(sources_for(self.loaders(), inherited, repo_path::back_split(path@).0));
            }
        }
        match node_for_file(&self.nodes[base], path, file) {
            // If no `gitattributes` files exist for the current folder, we just use the
            // same lines as the parent.
            Ok(None) => {
                assert(sources_for(self.loaders(), inherited, path@));
                Ok(base)
            },
            Ok(Some(node)) => {
                let n = self.nodes.len();
                self.nodes.push(node);
                proof {
                    assert(node@.drop_last() =~= middle.nodes@[base as int]@);
                    assert(finds(self.loaders(), attributes_path(path@), found));
                    assert(node@.last() == dir_source(path@, found->Contents_0@));
                    assert(node@.drop_last() == inherited);
                    assert(sources_for(self.loaders(), node@, path@));
                    assert forall|dir: Seq<char>| #[trigger]
                        middle.node_cache@.contains_key(dir) implies self.nodes@[
                    middle.node_cache@[dir] as int] == middle.nodes@[middle.node_cache@[dir] as int] by {
                    }
                }
                Ok(n)
            },
            Err(err) => Err(err),
        }
    }

    /// The attribute lines that count in a directory: those that are known, or
    /// else those found now. What was found stays known; a failure does not.
    fn get_node(&mut self, path: RepoPath<'_>) -> (r: Result<usize, GitAttributesError>)
        requires
            old(self).wf(),
            path_model::valid_path(path@),
        ensures
            final(self).wf(),
            final(self).loaders() == old(self).loaders(),
            forall|dir: Seq<char>| #[trigger]
                old(self).cached(dir) is Some ==> final(self).cached(dir) == old(self).cached(dir),
            match r {
                Ok(i) => {
                    &&& i < final(self).nodes@.len()
                    &&& final(self).cached(path@) == Some(final(self).nodes@[i as int]@)
                },
                Err(err) => {
                    &&& final(self).cached(path@) is None
                    &&& node_fails(final(self).loaders(), path@, err)
                },
            },
            forall|dir: Seq<char>|
                dir.len() > path@.len() ==> #[trigger] final(self).cached(dir) == old(self).cached(
                    dir,
                ),
        decreases path@.len(), 1int,
    {
        if let Some(i) = self.node_cache.get(path.as_internal_file_string()) {
            return Ok(*i);
        }
        let node = match self.initialize_node(path) {
            Ok(i) => i,
            Err(err) => {
                return Err(err);
            },
        };
        let ghost before = *self;
        self.node_cache.insert(path.as_internal_file_string().to_owned(), node);
        proof {
            assert forall|dir: Seq<char>| #[trigger]
                before.cached(dir) is Some implies self.cached(dir) == before.cached(dir) by {
                assert(dir != path@);
            }
        }
        Ok(node)
    }

    /// The directory whose attribute lines count for a path: the parent, or the
    /// root for the root itself.
    pub open spec fn dir_of(path: Seq<char>) -> Seq<char> {
        if path.len() == 0 {
            path
        } else {
            repo_path::back_split(path).0
        }
    }

    /// Query the states of git attributes associated to the `path`.
    ///
    /// If the `gitattributes` file is missing in one folder from one source,
    /// other sources provided in [`Self::new`] as the `file_loaders` will be
    /// used as fallbacks.
    ///
    /// * `path`: the path to the file whose `gitattributes` states are of
    ///   interest. While passing in a root path won't panic, the return value
    ///   is also unspecified.
    /// * `attribute_names`: the names of the `gitattributes` of interest. The
    ///   return value will only include the states of `gitattributes` mentioned
    ///   in this list.
    ///
    /// Note that currently, the pattern match is performed in a case sensitive
    /// way.
    ///
    /// If the `path` doesn't match any pattern in the `gitattributes` files,
    /// the result still contains the attribute with the
    /// [`State::Unspecified`] value.
    ///
    /// If the related `gitattributes` files are not cached, and the underlying
    /// [`FileLoader`] fails to load the file, e.g., an I/O error, an error will
    /// be returned.
    pub fn search(&mut self, path: RepoPath<'_>, attribute_names: &Vec<&str>) -> (r: Result<
        AttributeStates,
        GitAttributesError,
    >)
        requires
            old(self).wf(),
            path_model::valid_path(path@),
        ensures
            final(self).wf(),
            final(self).loaders() == old(self).loaders(),
            forall|dir: Seq<char>| #[trigger]
                old(self).cached(dir) is Some ==> final(self).cached(dir) == old(self).cached(dir),
            match r {
                Ok(states) => {
                    &&& final(self).cached(Self::dir_of(path@)) matches Some(sources)
                    &&& sources_for(final(self).loaders(), sources, Self::dir_of(path@))
                    &&& states@ == states_by_name(
                        attr_search::name_texts(attribute_names@),
                        attr_search::matched_states(
                            sources,
                            path@,
                            attr_search::name_texts(attribute_names@),
                        ),
                    )
                    &&& attr_search::matched_states(
                        sources,
                        path@,
                        attr_search::name_texts(attribute_names@),
                    ).len() == attribute_names@.len()
                    &&& forall|name: Seq<char>| #[trigger]
                        states@.contains_key(name) <==> attr_search::name_texts(
                            attribute_names@,
                        ).contains(name)
                    &&& final(self).loaders().len() == 0 ==> forall|name: Seq<char>| #[trigger]
                        states@.contains_key(name) ==> states@[name] == AttrState::Unspecified
                },
                Err(err) => {
                    &&& old(self).cached(Self::dir_of(path@)) is None
                    &&& old(self).loaders().len() > 0
                    &&& err.message@
                        == "Failed to retrieve the search and metadata objects when retrieving gitattributes objects for "@
                        + Self::dir_of(path@)
                    &&& err.source matches GitAttributesErrorSource::Attributes(source)
                    &&& node_fails(old(self).loaders(), Self::dir_of(path@), *source)
                },
            },
    {
        // The cache key for the node that controls `path`, is the parent of `path`.
        let parent_path = match path.parent() {
            Some(parent_path) => parent_path,
            None => path,
        };
        let node = match self.get_node(parent_path) {
            Ok(i) => i,
            Err(source) => {
                proof {
                    if self.loaders().len() == 0 {
                        lemma_no_loaders_no_failure(self.loaders(), parent_path@, source);
                    }
                }
                let message = message_with(
                    "Failed to retrieve the search and metadata objects when retrieving gitattributes objects for ",
                    parent_path.as_internal_file_string(),
                );
                return Err(caused_by(message, source));
            },
        };
        let states = self.nodes[node].states(path, attribute_names);
        proof {
            let texts = attr_search::name_texts(attribute_names@);
            let found = states@.map_values(|state: State| state@);
            lemma_states_by_name(texts, found);
            if self.loaders().len() == 0 {
                lemma_no_loaders(
                    self.loaders(),
                    self.nodes@[node as int]@,
                    Self::dir_of(path@),
                );
                assert forall|name: Seq<char>| #[trigger]
                    states_by_name(texts, found).contains_key(name) implies states_by_name(
                    texts,
                    found,
                )[name] == AttrState::Unspecified by {
                    assert(texts.contains(name));
                    let value = states_by_name(texts, found)[name];
                    assert(found.contains(value));
                }
            }
        }
        Ok(AttributeStates::from_lists(attribute_names, states))
    }
}

} // verus!
