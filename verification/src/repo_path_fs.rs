//! Conversion between repository paths and filesystem paths.

use vstd::prelude::*;
use vstd::string::StringExecFns;

use crate::fs_path;
use crate::fs_path::FsComponent;
use crate::fs_path::FsPart;
use crate::fs_path::FsPath;
use crate::path_model;
use crate::platform::Platform;
use crate::repo_path;
use crate::repo_path::InvalidRepoPathComponentError;
use crate::repo_path::InvalidRepoPathError;
use crate::repo_path::RepoPath;
use crate::repo_path::RepoPathBuf;
use crate::repo_path::RepoPathComponent;
use crate::text;

verus! {

/// A path is not one that can be given relative to the repository root.
#[derive(Clone, Debug, Eq, PartialEq)]
pub enum RelativePathParseError {
    InvalidComponent { component: String, path: FsPath },
    InvalidUtf8 { path: FsPath },
}

/// A path is not in the repository.
#[derive(Clone, Debug, Eq, PartialEq)]
pub struct FsPathParseError {
    /// Repository or workspace root path relative to the `cwd`.
    pub base: FsPath,
    /// Input path without normalization.
    pub input: FsPath,
    /// Source error.
    pub source: RelativePathParseError,
}

/// Whether a name can be that of a directory entry, and of nothing else.
pub open spec fn valid_fs_name(platform: Platform, name: Seq<char>) -> bool {
    &&& path_model::valid_name(name)
    &&& name != seq!['.']
    &&& name != seq!['.', '.']
    &&& platform == Platform::Windows ==> {
        &&& !name.contains('\\')
        &&& !fs_path::starts_with_drive(name)
    }
}

/// The first name that is not valid for a directory entry.
pub open spec fn first_invalid(platform: Platform, names: Seq<Seq<char>>) -> Option<Seq<char>>
    decreases names.len(),
{
    if names.len() == 0 {
        None
    } else if !valid_fs_name(platform, names[0]) {
        Some(names[0])
    } else {
        first_invalid(platform, names.drop_first())
    }
}

/// Names as components of a filesystem path.
pub open spec fn name_parts(names: Seq<Seq<char>>) -> Seq<FsPart> {
    names.map_values(|name: Seq<char>| FsPart::Normal(name))
}

/// A path with names put behind it, each of them read as a path. A name that is not
/// one of a directory entry can lead elsewhere.
pub open spec fn unchecked_parts(
    platform: Platform,
    base: Seq<FsPart>,
    names: Seq<Seq<char>>,
) -> Seq<FsPart>
    decreases names.len(),
{
    if names.len() == 0 {
        base
    } else {
        fs_path::path_joined(
            unchecked_parts(platform, base, names.drop_last()),
            fs_path::text_parts(platform, names.last()),
        )
    }
}

/// A path that is never written as nothing.
pub open spec fn or_current(parts: Seq<FsPart>) -> Seq<FsPart> {
    if parts.len() == 0 {
        seq![FsPart::CurDir]
    } else {
        parts
    }
}

/// How a list of components is read as a repository path, if it can be.
pub enum RelativeReading {
    Path(Seq<char>),
    InvalidComponent(FsPart),
    InvalidUtf8,
}

/// The names before the first component that is not one, and that component.
pub open spec fn leading_names(parts: Seq<FsPart>) -> (Seq<Seq<char>>, Option<FsPart>)
    decreases parts.len(),
{
    if parts.len() == 0 {
        (Seq::empty(), None)
    } else {
        let (names, stop) = leading_names(parts.drop_last());
        match stop {
            Some(_) => (names, stop),
            None => match parts.last() {
                FsPart::Normal(name) => (names.push(name), None),
                part => (names, Some(part)),
            },
        }
    }
}

/// How the components of a path are read as a repository path.
pub open spec fn relative_reading(parts: Seq<FsPart>) -> RelativeReading {
    let shown = fs_path::significant(parts);
    if shown == seq![FsPart::CurDir] {
        RelativeReading::Path(Seq::empty())
    } else {
        match leading_names(shown).1 {
            None => RelativeReading::Path(path_model::join_names(leading_names(shown).0)),
            Some(FsPart::NonUnicode { .. }) => RelativeReading::InvalidUtf8,
            Some(part) => RelativeReading::InvalidComponent(part),
        }
    }
}

impl RelativePathParseError {
    /// Whether this is the error for a path that cannot be read, on a platform
    /// with the given separator.
    pub open spec fn reports(self, parts: Seq<FsPart>, separator: char) -> bool {
        match self {
            RelativePathParseError::InvalidComponent { component, path } => {
                &&& path@ == parts
                &&& relative_reading(parts) matches RelativeReading::InvalidComponent(part)
                    && component@ == fs_path::part_text(part, separator)
            },
            RelativePathParseError::InvalidUtf8 { path } => {
                &&& path@ == parts
                &&& relative_reading(parts) is InvalidUtf8
            },
        }
    }
}

/// What parsing an `input` path, which is relative to `cwd` or absolute, gives in
/// the repository at `base`: the path that leads to it from the `base`, or the
/// error for it.
pub open spec fn parse_result(
    platform: Platform,
    cwd: Seq<FsPart>,
    base: Seq<FsPart>,
    input: Seq<FsPart>,
    r: Result<RepoPathBuf, FsPathParseError>,
) -> bool {
    let way = fs_path::relative(base, fs_path::normalized(fs_path::path_joined(cwd, input)));
    match r {
        Ok(path) => relative_reading(way) == RelativeReading::Path(path@),
        Err(err) => {
            &&& err.base@ == fs_path::relative(cwd, base)
            &&& err.input@ == input
            &&& err.source.reports(way, platform.separator())
        },
    }
}

impl InvalidRepoPathComponentError {
    /// Attaches the `path` that caused the error.
    pub fn with_path(self, path: RepoPath<'_>) -> (r: InvalidRepoPathError)
        ensures
            r.path@ == path@,
            r.source == self,
    {
        InvalidRepoPathError { path: path.to_owned(), source: self }
    }
}

fn contains_char(chars: &Vec<char>, c: char) -> (r: bool)
    ensures
        r == chars@.contains(c),
{
    proof {
        text::lemma_first_index(chars@, c);
    }
    text::find_first(chars, c) < chars.len()
}

impl<'a> RepoPathComponent<'a> {
    /// Returns a normal filesystem entry name if this path component is valid
    /// as a file/directory name on this machine.
    pub fn to_fs_name(&self) -> (r: Result<&'a str, InvalidRepoPathComponentError>)
        ensures
            exists|platform: Platform| #[trigger]
                platform.is_host() && match r {
                    Ok(name) => name@ == self@ && valid_fs_name(platform, self@),
                    Err(err) => err.component@ == self@ && !valid_fs_name(platform, self@),
                },
    {
        self.to_fs_name_on(Platform::host())
    }

    /// Returns a normal filesystem entry name if this path component is valid
    /// as a file/directory name.
    pub fn to_fs_name_on(&self, platform: Platform) -> (r: Result<
        &'a str,
        InvalidRepoPathComponentError,
    >)
        ensures
            match r {
                Ok(name) => name@ == self@ && valid_fs_name(platform, self@),
                Err(err) => err.component@ == self@ && !valid_fs_name(platform, self@),
            },
    {
        let name = self.as_internal_str();
        let chars = text::chars_of(name);
        let n = chars.len();
        let invalid_everywhere = n == 0 || contains_char(&chars, '/') || (n == 1 && chars[0]
            == '.') || (n == 2 && chars[0] == '.' && chars[1] == '.');
        proof {
            if n == 1 && chars@[0] == '.' {
                assert(self@ =~= seq!['.']);
            }
            if n == 2 && chars@[0] == '.' && chars@[1] == '.' {
                assert(self@ =~= seq!['.', '.']);
            }
        }
        let invalid_here = match platform {
            Platform::Unix => false,
            Platform::Windows => contains_char(&chars, '\\') || (n >= 2 && chars[1] == ':' && ((
            'a' <= chars[0] && chars[0] <= 'z') || ('A' <= chars[0] && chars[0] <= 'Z'))),
        };
        if invalid_everywhere || invalid_here {
            Err(InvalidRepoPathComponentError { component: name.to_owned() })
        } else {
            Ok(name)
        }
    }
}

impl<'a> RepoPath<'a> {
    /// Converts repository path to filesystem path relative to the `base`.
    ///
    /// The returned path should never contain `..`, `C:` (on Windows), etc.
    /// However, it may contain reserved working-copy directories such as `.jj`.
    pub fn to_fs_path(&self, base: &FsPath) -> (r: Result<FsPath, InvalidRepoPathError>)
        ensures
            exists|platform: Platform| #[trigger]
                platform.is_host() && match r {
                    Ok(path) => {
                        &&& first_invalid(platform, path_model::components(self@)) is None
                        &&& path@ == or_current(base@ + name_parts(path_model::components(self@)))
                    },
                    Err(err) => {
                        &&& first_invalid(platform, path_model::components(self@)) == Some(
                            err.source.component@,
                        )
                        &&& err.path@ == self@
                    },
                },
    {
        self.to_fs_path_on(Platform::host(), base)
    }

    /// Converts repository path to filesystem path relative to the `base`.
    pub fn to_fs_path_on(&self, platform: Platform, base: &FsPath) -> (r: Result<
        FsPath,
        InvalidRepoPathError,
    >)
        ensures
            match r {
                Ok(path) => {
                    &&& first_invalid(platform, path_model::components(self@)) is None
                    &&& path@ == or_current(base@ + name_parts(path_model::components(self@)))
                },
                Err(err) => {
                    &&& first_invalid(platform, path_model::components(self@)) == Some(
                        err.source.component@,
                    )
                    &&& err.path@ == self@
                },
            },
    {
        let ghost names = path_model::components(self@);
        let mut result = base.duplicate();
        let mut components = self.components();
        let ghost mut done: int = 0;
        assert(names.skip(0) =~= names);
        assert(base@ + name_parts(names.take(0)) =~= base@);
        loop
            invariant
                names == path_model::components(self@),
                0 <= done <= names.len(),
                path_model::components(components@) == names.skip(done),
                first_invalid(platform, names) == first_invalid(platform, names.skip(done)),
                result@ == base@ + name_parts(names.take(done)),
            decreases components@.len(),
        {
            match components.next() {
                Some(c) => {
                    proof {
                        assert(names.skip(done)[0] == c@);
                        assert(names.skip(done).drop_first() =~= path_model::components(
                            components@,
                        ));
                        assert(names.skip(done).drop_first() =~= names.skip(done + 1));
                    }
                    match c.to_fs_name_on(platform) {
                        Ok(name) => {
                            result.push_normal(name);
                            proof {
                                assert(result@ =~= base@ + name_parts(names.take(done + 1)));
                                done = done + 1;
                            }
                        },
                        Err(err) => {
                            return Err(err.with_path(*self));
                        },
                    }
                },
                None => {
                    proof {
                        assert(names.take(done) =~= names);
                    }
                    if result.len() == 0 {
                        result.push_component(FsComponent::CurDir);
                        assert(result@ =~= seq![FsPart::CurDir]);
                    }
                    return Ok(result);
                },
            }
        }
    }

    /// Converts repository path to filesystem path relative to the `base`,
    /// without checking invalid path components.
    ///
    /// The returned path may point outside of the `base` directory. Use this
    /// function only for displaying or testing purposes.
    pub fn to_fs_path_unchecked(&self, base: &FsPath) -> (r: FsPath)
        ensures
            exists|platform: Platform| #[trigger]
                platform.is_host() && r@ == or_current(
                    unchecked_parts(platform, base@, path_model::components(self@)),
                ),
    {
        self.to_fs_path_unchecked_on(Platform::host(), base)
    }

    /// Converts repository path to filesystem path relative to the `base`, without
    /// checking whether components are valid on `platform`.
    pub fn to_fs_path_unchecked_on(&self, platform: Platform, base: &FsPath) -> (r: FsPath)
        ensures
            r@ == or_current(unchecked_parts(platform, base@, path_model::components(self@))),
    {
        let ghost names = path_model::components(self@);
        let mut result = base.duplicate();
        let list = self.components().collect_vec();
        let mut i: usize = 0;
        assert(names.take(0) =~= Seq::empty());
        while i < list.len()
            invariant
                i <= list@.len(),
                repo_path::component_texts(list@) == names,
                result@ == unchecked_parts(platform, base@, names.take(i as int)),
            decreases list@.len() - i,
        {
            proof {
                assert(names[i as int] == list@[i as int]@);
                assert(names.take(i + 1).drop_last() =~= names.take(i as int));
                assert(names.take(i + 1).last() == names[i as int]);
            }
            result = result.join(&FsPath::from_text_on(platform, list[i].as_internal_str()));
            i += 1;
        }
        assert(names.take(i as int) =~= names);
        if result.len() == 0 {
            result.push_component(FsComponent::CurDir);
            assert(result@ =~= seq![FsPart::CurDir]);
        }
        result
    }
}

/// The first name that is not valid is found in the front of a list, or else in the
/// rest.
pub proof fn lemma_first_invalid_split(platform: Platform, names: Seq<Seq<char>>, n: int)
    requires
        0 <= n <= names.len(),
    ensures
        first_invalid(platform, names) == match first_invalid(platform, names.take(n)) {
            Some(name) => Some(name),
            None => first_invalid(platform, names.skip(n)),
        },
    decreases n,
{
    if n == 0 {
        assert(names.skip(0) =~= names);
    } else {
        let rest = names.drop_first();
        lemma_first_invalid_split(platform, rest, n - 1);
        assert(names.take(n).drop_first() =~= rest.take(n - 1));
        assert(names.skip(n) =~= rest.skip(n - 1));
        assert(names.take(n)[0] == names[0]);
    }
}

/// What the first invalid name is: it stands in the list, is not valid, and if
/// there is none all names are valid. What is valid on Windows is valid on Unix.
pub proof fn lemma_first_invalid(platform: Platform, names: Seq<Seq<char>>)
    ensures
        match first_invalid(platform, names) {
            Some(name) => names.contains(name) && !valid_fs_name(platform, name),
            None => forall|i: int|
                0 <= i < names.len() ==> valid_fs_name(platform, #[trigger] names[i]),
        },
        first_invalid(Platform::Unix, names) is Some ==> first_invalid(
            Platform::Windows,
            names,
        ) is Some,
    decreases names.len(),
{
    if names.len() > 0 {
        let rest = names.drop_first();
        lemma_first_invalid(platform, rest);
        if valid_fs_name(platform, names[0]) {
            match first_invalid(platform, names) {
                Some(name) => {
                    let i = choose|i: int| 0 <= i < rest.len() && rest[i] == name;
                    assert(names[i + 1] == name);
                },
                None => {
                    assert forall|i: int| 0 <= i < names.len() implies valid_fs_name(
                        platform,
                        #[trigger] names[i],
                    ) by {
                        if i > 0 {
                            assert(rest[i - 1] == names[i]);
                        }
                    }
                },
            }
        }
    }
}

impl RepoPathBuf {
    /// Converts repo-relative path to `RepoPathBuf`.
    ///
    /// The input path should not contain redundant `.` or `..`.
    pub fn from_relative_path(relative_path: &FsPath) -> (r: Result<
        RepoPathBuf,
        RelativePathParseError,
    >)
        ensures
            match r {
                Ok(path) => relative_reading(relative_path@) == RelativeReading::Path(path@),
                Err(err) => exists|platform: Platform| #[trigger]
                    platform.is_host() && err.reports(relative_path@, platform.separator()),
            },
    {
        RepoPathBuf::from_relative_path_on(Platform::host(), relative_path)
    }

    /// Converts repo-relative path to `RepoPathBuf`. Errors show paths as they are
    /// written on `platform`.
    pub fn from_relative_path_on(platform: Platform, relative_path: &FsPath) -> (r: Result<
        RepoPathBuf,
        RelativePathParseError,
    >)
        ensures
            match r {
                Ok(path) => relative_reading(relative_path@) == RelativeReading::Path(path@),
                Err(err) => err.reports(relative_path@, platform.separator()),
            },
    {
        let shown = relative_path.to_significant();
        if shown.len() == 1 {
            if let FsComponent::CurDir = shown.component(0) {
                assert(shown@ =~= seq![FsPart::CurDir]);
                return Ok(RepoPathBuf::root());
            }
            assert(shown@ != seq![FsPart::CurDir]) by {
                assert(!(shown@[0] is CurDir));
            }
        }
        let ghost parts = shown@;
        let mut value = String::new();
        let mut i: usize = 0;
        assert(parts.take(0) =~= Seq::empty());
        while i < shown.len()
            invariant
                i <= parts.len(),
                parts == shown@,
                parts == fs_path::significant(relative_path@),
                parts != seq![FsPart::CurDir],
                leading_names(parts.take(i as int)).1 is None,
                leading_names(parts.take(i as int)).0.len() == i,
                value@ == path_model::join_names(leading_names(parts.take(i as int)).0),
            decreases parts.len() - i,
        {
            let ghost before = leading_names(parts.take(i as int)).0;
            proof {
                assert(parts.take(i + 1).drop_last() =~= parts.take(i as int));
                assert(parts.take(i + 1).last() == parts[i as int]);
            }
            match shown.component(i) {
                FsComponent::Normal(name) => {
                    if i > 0 {
                        value.push('/');
                    }
                    value.append(name.as_str());
                    proof {
                        let after = before.push(name@);
                        assert(after =~= before + seq![name@]);
                        if i > 0 {
                            path_model::lemma_join_append(before, seq![name@]);
                        } else {
                            assert(before =~= Seq::empty());
                        }
                        assert(path_model::join_names(seq![name@]) == name@);
                        assert(value@ =~= path_model::join_names(after));
                    }
                },
                FsComponent::NonUnicode { .. } => {
                    proof {
                        lemma_leading_stop(parts, i + 1);
                    }
                    return Err(
                        RelativePathParseError::InvalidUtf8 { path: relative_path.duplicate() },
                    );
                },
                part => {
                    proof {
                        lemma_leading_stop(parts, i + 1);
                    }
                    return Err(
                        RelativePathParseError::InvalidComponent {
                            component: part.text(platform.main_separator()),
                            path: relative_path.duplicate(),
                        },
                    );
                },
            }
            i += 1;
        }
        assert(parts.take(i as int) =~= parts);
        proof {
            let r = RelativeReading::Path(value@);
            assert(relative_reading(relative_path@) == r);
        }
        Ok(RepoPathBuf::from_joined_names(value))
    }

    /// Parses an `input` path into a `RepoPathBuf` relative to `base`.
    ///
    /// The `cwd` and `base` paths are supposed to be absolute and normalized in
    /// the same manner. The `input` path may be either relative to `cwd` or
    /// absolute.
    pub fn parse_fs_path(cwd: &FsPath, base: &FsPath, input: &FsPath) -> (r: Result<
        RepoPathBuf,
        FsPathParseError,
    >)
        ensures
            exists|platform: Platform| #[trigger]
                platform.is_host() && parse_result(platform, cwd@, base@, input@, r),
    {
        RepoPathBuf::parse_fs_path_on(Platform::host(), cwd, base, input)
    }

    /// Parses an `input` path into a `RepoPathBuf` relative to `base`. Errors show
    /// paths as they are written on `platform`.
    pub fn parse_fs_path_on(
        platform: Platform,
        cwd: &FsPath,
        base: &FsPath,
        input: &FsPath,
    ) -> (r: Result<RepoPathBuf, FsPathParseError>)
        ensures
            parse_result(platform, cwd@, base@, input@, r),
    {
        let abs_input_path = cwd.join(input).normalize();
        let repo_relative_path = FsPath::relative_path(base, &abs_input_path);
        match RepoPathBuf::from_relative_path_on(platform, &repo_relative_path) {
            Ok(path) => Ok(path),
            Err(source) => Err(
                FsPathParseError {
                    base: FsPath::relative_path(cwd, base),
                    input: input.duplicate(),
                    source,
                },
            ),
        }
    }
}

/// Once a component is not a name, what follows is not looked at.
pub(crate) proof fn lemma_leading_stop(parts: Seq<FsPart>, n: int)
    requires
        0 <= n <= parts.len(),
        leading_names(parts.take(n)).1 is Some,
    ensures
        leading_names(parts) == leading_names(parts.take(n)),
    decreases parts.len() - n,
{
    if n == parts.len() {
        assert(parts.take(n) =~= parts);
    } else {
        assert(parts.take(n + 1).drop_last() =~= parts.take(n));
        lemma_leading_stop(parts, n + 1);
    }
}

/// Components without any `.`.
pub(crate) open spec fn no_cur_dir(parts: Seq<FsPart>) -> bool {
    forall|i: int| 0 <= i < parts.len() ==> !((#[trigger] parts[i]) is CurDir)
}

/// Where there is no `.`, every component is significant.
pub(crate) proof fn lemma_all_significant(parts: Seq<FsPart>)
    requires
        no_cur_dir(parts),
    ensures
        fs_path::significant(parts) == parts,
        fs_path::trimmed_front(parts) == parts,
        fs_path::trimmed_back(parts) == parts,
    decreases parts.len(),
{
    if parts.len() > 0 {
        assert(parts.last() == parts[parts.len() - 1]);
        lemma_all_significant(parts.drop_last());
        assert(parts.drop_last().push(parts.last()) =~= parts);
    }
}

/// Names are read as they stand.
pub(crate) proof fn lemma_leading_names(names: Seq<Seq<char>>)
    ensures
        leading_names(name_parts(names)) == (names, None::<FsPart>),
    decreases names.len(),
{
    let parts = name_parts(names);
    if names.len() > 0 {
        lemma_leading_names(names.drop_last());
        assert(parts.drop_last() =~= name_parts(names.drop_last()));
        assert(parts.last() == FsPart::Normal(names.last()));
        assert(names.drop_last().push(names.last()) =~= names);
    } else {
        assert(parts =~= Seq::empty());
        assert(names =~= Seq::empty());
    }
}

/// What an absolute path starts with: the root, or a prefix and the root.
pub open spec fn is_anchor(anchor: Seq<FsPart>) -> bool {
    ||| anchor == seq![FsPart::RootDir]
    ||| anchor.len() == 2 && anchor[0] is Prefix && anchor[1] is RootDir
}

/// An absolute path.
pub open spec fn absolute(anchor: Seq<FsPart>, names: Seq<Seq<char>>) -> Seq<FsPart> {
    anchor + name_parts(names)
}

/// An absolute path made of names has nothing to resolve.
pub(crate) proof fn lemma_nothing_to_resolve(anchor: Seq<FsPart>, names: Seq<Seq<char>>)
    requires
        is_anchor(anchor),
    ensures
        fs_path::resolved(absolute(anchor, names)) == absolute(anchor, names),
    decreases names.len(),
{
    let parts = absolute(anchor, names);
    if names.len() > 0 {
        lemma_nothing_to_resolve(anchor, names.drop_last());
        assert(parts.drop_last() =~= absolute(anchor, names.drop_last()));
        assert(parts.last() == FsPart::Normal(names.last()));
        assert(parts.drop_last().push(parts.last()) =~= parts);
    } else {
        assert(parts =~= anchor);
        reveal_with_fuel(fs_path::resolved, 3);
        let first = seq![anchor[0]];
        assert(first.drop_last() =~= Seq::empty());
        assert(Seq::<FsPart>::empty().push(anchor[0]) =~= first);
        assert(fs_path::resolved(first) =~= first);
        if anchor.len() == 2 {
            assert(anchor.drop_last() =~= first);
            assert(first.push(anchor[1]) =~= anchor);
        } else {
            assert(anchor =~= first);
        }
    }
}

/// Behind as many components as `front` has comes what was put behind it.
pub(crate) proof fn lemma_rest_after(front: Seq<FsPart>, back: Seq<FsPart>)
    requires
        no_cur_dir(front),
        no_cur_dir(back),
    ensures
        fs_path::rest_after(front + back, front.len()) == back,
    decreases front.len(),
{
    let parts = front + back;
    if front.len() == 0 {
        assert(parts =~= back);
    } else {
        let rest = front.drop_first();
        assert(parts.drop_first() =~= rest + back);
        assert forall|i: int| 0 <= i < (rest + back).len() implies !((#[trigger] (rest
            + back)[i]) is CurDir) by {
            if i < rest.len() {
                assert((rest + back)[i] == front[i + 1]);
            } else {
                assert((rest + back)[i] == back[i - rest.len()]);
            }
        }
        lemma_all_significant(rest + back);
        assert forall|i: int| 0 <= i < rest.len() implies !((#[trigger] rest[i]) is CurDir) by {
            assert(rest[i] == front[i + 1]);
        }
        lemma_rest_after(rest, back);
    }
}

/// A repository path that was converted to a relative filesystem path is read
/// back from it.
pub proof fn lemma_relative_path_round_trip(s: Seq<char>)
    requires
        path_model::valid_path(s),
    ensures
        relative_reading(or_current(name_parts(path_model::components(s))))
            == RelativeReading::Path(s),
{
    let names = path_model::components(s);
    let parts = name_parts(names);
    path_model::lemma_components_valid(s);
    if names.len() == 0 {
        let here = or_current(parts);
        assert(here.drop_last() =~= Seq::empty());
        assert(fs_path::significant(Seq::empty()) =~= Seq::empty());
        assert(fs_path::significant(here) =~= seq![FsPart::CurDir]);
        assert(s =~= Seq::empty());
    } else {
        lemma_all_significant(parts);
        lemma_leading_names(names);
        assert(!(parts[0] is CurDir));
    }
}

/// A repository path that was converted to a filesystem path in an absolute
/// `base` is parsed back relative to that `base`, whatever the `cwd`. Where `base`
/// has no prefix, the `cwd` has none either.
pub proof fn lemma_fs_path_round_trip(
    cwd: Seq<FsPart>,
    anchor: Seq<FsPart>,
    base_names: Seq<Seq<char>>,
    s: Seq<char>,
)
    requires
        path_model::valid_path(s),
        is_anchor(anchor),
        cwd.len() > 0 && cwd[0] is Prefix ==> anchor[0] is Prefix,
    ensures
        ({
            let base = absolute(anchor, base_names);
            let path = or_current(base + name_parts(path_model::components(s)));
            relative_reading(
                fs_path::relative(base, fs_path::normalized(fs_path::path_joined(cwd, path))),
            ) == RelativeReading::Path(s)
        }),
{
    let names = path_model::components(s);
    let base = absolute(anchor, base_names);
    let tail = name_parts(names);
    let path = base + tail;
    assert(or_current(path) == path);
    assert(path[0] == anchor[0]);
    assert(fs_path::path_joined(cwd, path) == path);
    assert(path =~= absolute(anchor, base_names + names));
    lemma_nothing_to_resolve(anchor, base_names + names);
    assert(fs_path::normalized(path) == path);
    assert(no_cur_dir(base));
    assert(no_cur_dir(tail));
    assert(no_cur_dir(path));
    lemma_all_significant(path);
    lemma_all_significant(base);
    lemma_all_significant(tail);
    lemma_rest_after(base, tail);
    assert(base.is_prefix_of(path)) by {
        assert(base =~= path.subrange(0, base.len() as int));
    }
    lemma_relative_path_round_trip(s);
    assert(Seq::new(0nat, |i: int| FsPart::ParentDir) + tail =~= tail);
    if tail.len() > 0 {
        assert(tail[0] == FsPart::Normal(names[0]));
    }
    assert(fs_path::relative(base, path) == or_current(tail));
}

} // verus!
