//! Where `gitattributes` files are loaded from: the rules, without the reading.

use vstd::prelude::*;
use vstd::string::StringExecFns;

use crate::backend::MergedTree;
use crate::backend::MergedTreeValue;
use crate::backend::TreeEntry;
use crate::backend::TreeValue;
use crate::file_state::DiskFileKind;
use crate::fs_path;
use crate::fs_path::FsPath;
use crate::gitattributes::GitAttributesError;
use crate::gitattributes::GitAttributesErrorSource;
use crate::gitattributes::LoadedFile;
use crate::path_model;
use crate::platform::Platform;
use crate::repo_path::InvalidRepoPathError;
use crate::repo_path::RepoPath;
use crate::repo_path_fs;

verus! {

/// An abstraction over the operation of reading the gitattributes file contents
/// from the store.
#[derive(Debug)]
pub struct TreeFileLoader {
    tree: MergedTree,
}

/// The id of the first file among the terms of a merge.
pub open spec fn first_file(terms: Seq<Option<TreeEntry>>) -> Option<Seq<u8>>
    decreases terms.len(),
{
    if terms.len() == 0 {
        None
    } else {
        match terms[0] {
            Some(TreeEntry::File { id, .. }) => Some(id),
            _ => first_file(terms.drop_first()),
        }
    }
}

impl TreeFileLoader {
    pub closed spec fn spec_tree(&self) -> MergedTree {
        self.tree
    }

    /// Create a [`TreeFileLoader`] from a given [`MergedTree`].
    pub fn new(tree: MergedTree) -> (r: TreeFileLoader)
        ensures
            r.spec_tree() == tree,
    {
        TreeFileLoader { tree }
    }

    /// The tree to load files from.
    pub fn tree(&self) -> (r: &MergedTree)
        ensures
            *r == self.spec_tree(),
    {
        &self.tree
    }

    /// The id of the file to read, if there is one.
    ///
    /// `trivial` is what the file ids among `tree_values` resolve to trivially,
    /// if all of them are files and they do. If there are conflicts on the
    /// `gitattributes` file, we always resolve the conflict.
    pub fn choose_file(trivial: Option<Option<Vec<u8>>>, tree_values: &MergedTreeValue) -> (r:
        Option<Vec<u8>>)
        ensures
            match trivial {
                Some(resolved) => r == resolved,
                None => match r {
                    Some(id) => first_file(tree_values@) == Some(id@),
                    None => first_file(tree_values@) is None,
                },
            },
    {
        match trivial {
            // Trivially resolve to a file, or to an absent entry.
            Some(resolved) => resolved,
            // The rest case. The merge can be trivially resolved neither to a file nor an absent
            // entry. Particularly, we don't follow the symbolic link as required by the
            // `gitattributes` document.
            None => {
                // Let's just find the first file entry and use it for simplicity. We can
                // improve the conflict case better if needed.
                let mut i: usize = 0;
                assert(tree_values@.skip(0) =~= tree_values@);
                while i < tree_values.len()
                    invariant
                        i <= tree_values@.len(),
                        trivial is None,
                        first_file(tree_values@) == first_file(tree_values@.skip(i as int)),
                    decreases tree_values@.len() - i,
                {
                    let ghost rest = tree_values@.skip(i as int);
                    assert(rest[0] == tree_values@[i as int]);
                    assert(rest.drop_first() =~= tree_values@.skip(i + 1));
                    if let Some(TreeValue::File { id, .. }) = tree_values.term(i) {
                        return Some(fs_path::copy_bytes(id));
                    }
                    i += 1;
                }
                // None of the conflict sides are files.
                None
            },
        }
    }
}

/// An abstraction over the operation of reading the gitattributes file contents
/// from the file system.
#[derive(Debug)]
pub struct DiskFileLoader {
    repo_root: FsPath,
}

/// What asking for the metadata of a path gave.
pub enum StatOutcome {
    Found(DiskFileKind),
    NotFound,
    /// There is nothing at the path, since one of its parents is not a directory.
    ParentNotDirectory,
    /// It failed, for the given reason.
    Failed(String),
}

/// What opening and reading a file gave.
pub enum ReadOutcome {
    Contents(Vec<u8>),
    /// There is nothing at the path any more.
    NotFound,
    /// The file could not be opened, for the given reason.
    CannotOpen(String),
    /// The file was opened but could not be read, for the given reason.
    CannotRead(String),
}

fn error(message: &str, text: &str, reason: String) -> (r: GitAttributesError)
    ensures
        r.message@ == message@ + text@,
        r.source == GitAttributesErrorSource::Other(reason),
{
    let mut out = message.to_owned();
    out.append(text);
    GitAttributesError { message: out, source: GitAttributesErrorSource::Other(reason) }
}

impl DiskFileLoader {
    pub closed spec fn root(&self) -> Seq<fs_path::FsPart> {
        self.repo_root@
    }

    /// Create a [`DiskFileLoader`] from a given project root path.
    pub fn new(repo_root: FsPath) -> (r: DiskFileLoader)
        ensures
            r.root() == repo_root@,
    {
        DiskFileLoader { repo_root }
    }

    /// How this loader is called in messages.
    pub fn describe(&self) -> (r: String)
        ensures
            exists|platform: Platform| #[trigger]
                platform.is_host() && r@ == "DiskFileLoader("@ + fs_path::path_text(
                    self.root(),
                    platform.separator(),
                ) + ")"@,
    {
        let platform = Platform::host();
        let mut out = "DiskFileLoader(".to_owned();
        let path = self.repo_root.display(platform.main_separator());
        out.append(path.as_str());
        out.append(")");
        out
    }

    /// Where the file at `path` is to be looked for.
    pub fn disk_path(&self, path: RepoPath<'_>, platform: Platform) -> (r: Result<
        FsPath,
        GitAttributesError,
    >)
        ensures
            match r {
                Ok(disk_path) => {
                    &&& repo_path_fs::first_invalid(platform, path_model::components(path@)) is None
                    &&& disk_path@ == repo_path_fs::or_current(
                        self.root() + repo_path_fs::name_parts(path_model::components(path@)),
                    )
                },
                Err(err) => {
                    &&& err.source matches GitAttributesErrorSource::Path(source)
                    &&& repo_path_fs::first_invalid(platform, path_model::components(path@))
                        == Some(source.source.component@)
                    &&& err.message@ == "Failed to convert the input path("@ + path@
                        + ") to a filesystem path"@
                },
            },
    {
        match path.to_fs_path_on(platform, &self.repo_root) {
            Ok(disk_path) => Ok(disk_path),
            Err(source) => {
                let mut message = "Failed to convert the input path(".to_owned();
                message.append(path.as_internal_file_string());
                message.append(") to a filesystem path");
                Err(GitAttributesError { message, source: GitAttributesErrorSource::Path(source) })
            },
        }
    }

    /// Whether the entry at a path is to be opened.
    ///
    /// According to the `gitattributes` document, we shouldn't follow the
    /// symbolic link. It is no error if the path points to nothing.
    pub fn is_to_be_opened(disk_path: &str, stat: StatOutcome) -> (r: Result<
        bool,
        GitAttributesError,
    >)
        ensures
            match stat {
                StatOutcome::Found(kind) => r matches Ok(open) && open == (kind
                    == DiskFileKind::File),
                StatOutcome::NotFound | StatOutcome::ParentNotDirectory => r matches Ok(open)
                    && !open,
                StatOutcome::Failed(reason) => {
                    &&& r matches Err(err)
                    &&& err.message@ == "Failed to obtain the file metadata of "@ + disk_path@
                    &&& err.source == GitAttributesErrorSource::Other(reason)
                },
            },
    {
        match stat {
            StatOutcome::Found(DiskFileKind::File) => Ok(true),
            StatOutcome::Found(_) => Ok(false),
            StatOutcome::NotFound | StatOutcome::ParentNotDirectory => Ok(false),
            StatOutcome::Failed(reason) => Err(
                error("Failed to obtain the file metadata of ", disk_path, reason),
            ),
        }
    }

    /// What was loaded, once the file was opened and read.
    pub fn loaded(disk_path: &str, read: ReadOutcome) -> (r: Result<LoadedFile, GitAttributesError>)
        ensures
            match read {
                ReadOutcome::Contents(contents) => r == Ok::<LoadedFile, GitAttributesError>(
                    LoadedFile::Contents(contents),
                ),
                ReadOutcome::NotFound => r matches Ok(LoadedFile::Missing),
                ReadOutcome::CannotOpen(reason) => {
                    &&& r matches Err(err)
                    &&& err.message@ == "Failed to open the file at "@ + disk_path@
                    &&& err.source == GitAttributesErrorSource::Other(reason)
                },
                ReadOutcome::CannotRead(reason) => {
                    &&& r matches Ok(LoadedFile::Unreadable(err))
                    &&& err.message@ == "Failed to read the file at "@ + disk_path@
                    &&& err.source == GitAttributesErrorSource::Other(reason)
                },
            },
    {
        match read {
            ReadOutcome::Contents(contents) => Ok(LoadedFile::Contents(contents)),
            ReadOutcome::NotFound => Ok(LoadedFile::Missing),
            ReadOutcome::CannotOpen(reason) => Err(
                error("Failed to open the file at ", disk_path, reason),
            ),
            ReadOutcome::CannotRead(reason) => Ok(
                LoadedFile::Unreadable(error("Failed to read the file at ", disk_path, reason)),
            ),
        }
    }
}

/// What the ids of files resolve to is taken. If they do not, the first file among the terms
/// is, be the other terms what they may.
pub proof fn lemma_file_chosen(
    trivial: Option<Option<Vec<u8>>>,
    values: MergedTreeValue,
    i: int,
    r: Option<Vec<u8>>,
)
    requires
        0 <= i <= values@.len(),
        forall|j: int|
            0 <= j < i ==> !(#[trigger] values@[j] matches Some(TreeEntry::File { .. })),
        i < values@.len() ==> values@[i] matches Some(TreeEntry::File { .. }),
        call_ensures(TreeFileLoader::choose_file, (trivial, &values), r),
    ensures
        trivial is Some ==> r == trivial->0,
        trivial is None && i == values@.len() ==> r is None,
        trivial is None && i < values@.len() ==> r is Some && (values@[i] matches Some(
            TreeEntry::File { id, .. },
        ) && r->0@ == id),
{
    lemma_first_file(values@, i);
}

proof fn lemma_first_file(terms: Seq<Option<TreeEntry>>, i: int)
    requires
        0 <= i <= terms.len(),
        forall|j: int| 0 <= j < i ==> !(#[trigger] terms[j] matches Some(TreeEntry::File { .. })),
        i < terms.len() ==> terms[i] matches Some(TreeEntry::File { .. }),
    ensures
        i == terms.len() ==> first_file(terms) is None,
        i < terms.len() ==> (terms[i] matches Some(TreeEntry::File { id, .. }) && first_file(terms)
            == Some(id)),
    decreases i,
{
    if i > 0 {
        let rest = terms.drop_first();
        assert(!(terms[0] matches Some(TreeEntry::File { .. })));
        assert forall|j: int| 0 <= j < i - 1 implies !(#[trigger] rest[j] matches Some(
            TreeEntry::File { .. },
        )) by {
            assert(rest[j] == terms[j + 1]);
        }
        lemma_first_file(rest, i - 1);
    }
}

/// A file of attributes is opened exactly if it is a regular file: symlinks are not followed.
/// It is no error if there is nothing.
pub proof fn lemma_only_files_opened(
    disk_path: &str,
    stat: StatOutcome,
    r: Result<bool, GitAttributesError>,
)
    requires
        call_ensures(DiskFileLoader::is_to_be_opened, (disk_path, stat), r),
    ensures
        r matches Ok(open) ==> (open <==> stat == StatOutcome::Found(DiskFileKind::File)),
        r is Err <==> stat is Failed,
        r matches Err(err) ==> err.message@ == "Failed to obtain the file metadata of "@
            + disk_path@ && (stat matches StatOutcome::Failed(reason) && err.source
            == GitAttributesErrorSource::Other(reason)),
{
}

/// The contents of a file of attributes are loaded as they are. One that has vanished counts
/// as missing, and one that cannot be opened is an error.
pub proof fn lemma_contents_loaded(
    disk_path: &str,
    read: ReadOutcome,
    r: Result<LoadedFile, GitAttributesError>,
)
    requires
        call_ensures(DiskFileLoader::loaded, (disk_path, read), r),
    ensures
        read matches ReadOutcome::Contents(contents) ==> (r matches Ok(LoadedFile::Contents(found))
            && found@ == contents@),
        read is NotFound <==> (r matches Ok(LoadedFile::Missing)),
        read is CannotOpen <==> r is Err,
        read matches ReadOutcome::CannotOpen(reason) ==> (r matches Err(err) && err.message@
            == "Failed to open the file at "@ + disk_path@ && err.source
            == GitAttributesErrorSource::Other(reason)),
        read matches ReadOutcome::CannotRead(reason) ==> (r matches Ok(LoadedFile::Unreadable(err))
            && err.message@ == "Failed to read the file at "@ + disk_path@ && err.source
            == GitAttributesErrorSource::Other(reason)),
{
}

/// A file of attributes is looked for where its path leads from the root of the repository. A
/// path that has no place there is an error.
pub proof fn lemma_attributes_on_disk(
    root: FsPath,
    loader: DiskFileLoader,
    path: RepoPath<'_>,
    platform: Platform,
    place: Result<FsPath, InvalidRepoPathError>,
    r: Result<FsPath, GitAttributesError>,
)
    requires
        call_ensures(DiskFileLoader::new, (root,), loader),
        call_ensures(RepoPath::<'_>::to_fs_path_on, (&path, platform, &root), place),
        call_ensures(DiskFileLoader::disk_path, (&loader, path, platform), r),
    ensures
        r is Ok <==> place is Ok,
        r is Ok ==> r->Ok_0@ == place->Ok_0@,
        r is Err ==> r->Err_0.message@ == "Failed to convert the input path("@ + path@
            + ") to a filesystem path"@,
{
}

} // verus!
