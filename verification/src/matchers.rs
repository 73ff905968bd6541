//! Which paths a working copy covers, and which of them may have changed.

use vstd::prelude::*;

use crate::checkout;
use crate::fs_path;
use crate::fs_path::FsPath;
use crate::path_set::PathSet;
use crate::proto::WatchmanClock;
use crate::repo_path;
use crate::repo_path::RepoPath;
use crate::repo_path::RepoPathBuf;
use crate::repo_path_fs;
use crate::repo_path_fs::RelativeReading;
use crate::text;

verus! {

/// Whether `base` is `path` or one of its ancestors.
pub open spec fn covers(base: Seq<char>, path: Seq<char>) -> bool {
    repo_path::stripped(path, base) is Some
}

/// Whether a path lies under one of the given directories, or is one.
pub open spec fn in_prefixes(prefixes: Seq<Seq<char>>, path: Seq<char>) -> bool {
    exists|i: int| 0 <= i < prefixes.len() && covers(#[trigger] prefixes[i], path)
}

/// Whether a directory holds paths that lie under one of the given directories.
pub open spec fn meets_prefixes(prefixes: Seq<Seq<char>>, dir: Seq<char>) -> bool {
    exists|i: int|
        0 <= i < prefixes.len() && (covers(#[trigger] prefixes[i], dir) || covers(
            dir,
            prefixes[i],
        ))
}

/// Whether a directory holds one of the given files.
pub open spec fn holds_file(files: Seq<Seq<char>>, dir: Seq<char>) -> bool {
    exists|i: int| 0 <= i < files.len() && covers(dir, #[trigger] files[i]) && files[i] != dir
}

/// Returns true if the path lies under one of the prefixes.
pub fn matches_prefixes(prefixes: &Vec<RepoPathBuf>, path: RepoPath<'_>) -> (r: bool)
    ensures
        r == in_prefixes(checkout::path_list(prefixes@), path@),
{
    let ghost texts = checkout::path_list(prefixes@);
    let mut i: usize = 0;
    while i < prefixes.len()
        invariant
            i <= prefixes@.len(),
            texts == checkout::path_list(prefixes@),
            forall|j: int| 0 <= j < i ==> !covers(#[trigger] texts[j], path@),
        decreases prefixes@.len() - i,
    {
        if path.starts_with(prefixes[i].as_ref()) {
            assert(covers(texts[i as int], path@));
            return true;
        }
        i += 1;
    }
    false
}

/// Returns true unless nothing in the directory can lie under one of the
/// prefixes.
pub fn visits_prefixes(prefixes: &Vec<RepoPathBuf>, dir: RepoPath<'_>) -> (r: bool)
    ensures
        r == meets_prefixes(checkout::path_list(prefixes@), dir@),
{
    let ghost texts = checkout::path_list(prefixes@);
    let mut i: usize = 0;
    while i < prefixes.len()
        invariant
            i <= prefixes@.len(),
            texts == checkout::path_list(prefixes@),
            forall|j: int|
                0 <= j < i ==> !covers(#[trigger] texts[j], dir@) && !covers(dir@, texts[j]),
        decreases prefixes@.len() - i,
    {
        let prefix = prefixes[i].as_ref();
        assert(prefix@ == texts[i as int]);
        if dir.starts_with(prefix) || prefix.starts_with(dir) {
            return true;
        }
        i += 1;
    }
    false
}

/// The repository paths of changed files. Those that cannot be repository paths
/// are left out.
pub open spec fn changed_paths(changed: Seq<Seq<fs_path::FsPart>>) -> Seq<Seq<char>>
    decreases changed.len(),
{
    if changed.len() == 0 {
        Seq::empty()
    } else {
        let rest = changed_paths(changed.drop_last());
        match repo_path_fs::relative_reading(changed.last()) {
            RelativeReading::Path(path) => rest.push(path),
            _ => rest,
        }
    }
}

/// The directories whose `.gitignore` is among the given files.
pub open spec fn gitignore_dirs(paths: Seq<Seq<char>>) -> Seq<Seq<char>>
    decreases paths.len(),
{
    if paths.len() == 0 {
        Seq::empty()
    } else {
        let rest = gitignore_dirs(paths.drop_last());
        let (dir, name) = repo_path::back_split(paths.last());
        if paths.last().len() > 0 && name == ".gitignore"@ {
            rest.push(dir)
        } else {
            rest
        }
    }
}

/// Matches the files that a filesystem monitor has reported as changed.
pub struct FsmonitorMatcher {
    files: PathSet,
    prefixes: Vec<RepoPathBuf>,
}

/// The texts of a list of filesystem paths.
pub open spec fn part_lists(paths: Seq<FsPath>) -> Seq<Seq<fs_path::FsPart>> {
    paths.map_values(|path: FsPath| path@)
}

/// Whether the files reported as changed include a path, or a `.gitignore` that
/// may bear on it.
pub open spec fn reported(changed: Seq<Seq<fs_path::FsPart>>, path: Seq<char>) -> bool {
    ||| changed_paths(changed).contains(path)
    ||| in_prefixes(gitignore_dirs(changed_paths(changed)), path)
}

/// Whether a directory holds paths that [`reported`] includes.
pub open spec fn reported_in(changed: Seq<Seq<fs_path::FsPart>>, dir: Seq<char>) -> bool {
    ||| holds_file(changed_paths(changed), dir)
    ||| meets_prefixes(gitignore_dirs(changed_paths(changed)), dir)
}

impl FsmonitorMatcher {
    pub closed spec fn files(&self) -> Seq<Seq<char>> {
        self.files@
    }

    pub closed spec fn prefixes(&self) -> Seq<Seq<char>> {
        checkout::path_list(self.prefixes@)
    }

    /// The matcher stands for the given changed files.
    pub open spec fn stands_for(&self, changed: Seq<Seq<fs_path::FsPart>>) -> bool {
        &&& self.wf()
        &&& forall|path: Seq<char>|
            self.files().contains(path) <==> #[trigger] changed_paths(changed).contains(path)
        &&& self.prefixes() == gitignore_dirs(changed_paths(changed))
    }

    pub closed spec fn wf(&self) -> bool {
        self.files.wf()
    }

    /// Matches the given files, and everything next to and below those that are
    /// named `.gitignore`: changes of these require rescanning parent directories
    /// to pick up newly unignored files.
    pub fn new(changed_files: &Vec<FsPath>) -> (r: FsmonitorMatcher)
        ensures
            r.stands_for(part_lists(changed_files@)),
    {
        let ghost changed = part_lists(changed_files@);
        let mut files = PathSet::new();
        let mut prefixes: Vec<RepoPathBuf> = Vec::new();
        let mut i: usize = 0;
        proof {
            assert(changed.take(0) =~= Seq::empty());
            assert(checkout::path_list(prefixes@) =~= Seq::empty());
        }
        while i < changed_files.len()
            invariant
                i <= changed_files@.len(),
                changed == part_lists(changed_files@),
                files.wf(),
                forall|path: Seq<char>|
                    files@.contains(path) <==> #[trigger] changed_paths(
                        changed.take(i as int),
                    ).contains(path),
                checkout::path_list(prefixes@) == gitignore_dirs(
                    changed_paths(changed.take(i as int)),
                ),
            decreases changed_files@.len() - i,
        {
            let ghost known = changed_paths(changed.take(i as int));
            let ghost earlier = files@;
            proof {
                assert(changed.take(i + 1).drop_last() =~= changed.take(i as int));
                assert(changed.take(i + 1).last() == changed_files@[i as int]@);
            }
            if let Ok(path) = RepoPathBuf::from_relative_path(&changed_files[i]) {
                let ghost now = changed_paths(changed.take(i + 1));
                proof {
                    assert(now == known.push(path@));
                    assert(now.drop_last() =~= known);
                }
                if let Some((parent, basename)) = path.as_ref().split() {
                    if text::str_eq(basename.as_internal_str(), ".gitignore") {
                        let ghost before = prefixes@;
                        prefixes.push(parent.to_owned());
                        assert(checkout::path_list(prefixes@) =~= checkout::path_list(before).push(
                            parent@,
                        ));
                    }
                }
                files.insert(path);
                proof {
                    assert forall|p: Seq<char>|
                        files@.contains(p) <==> #[trigger] now.contains(p) by {
                        if known.contains(p) {
                            let k = choose|k: int| 0 <= k < known.len() && known[k] == p;
                            assert(now[k] == p);
                            let m = choose|m: int| 0 <= m < earlier.len() && earlier[m] == p;
                            assert(files@[m] == p);
                        }
                        if p == path@ {
                            assert(now[known.len() as int] == p);
                            if !earlier.contains(p) {
                                assert(files@[earlier.len() as int] == p);
                            }
                        }
                        if files@.contains(p) {
                            let m = choose|m: int| 0 <= m < files@.len() && files@[m] == p;
                            if m < earlier.len() {
                                assert(earlier[m] == p);
                                assert(known.contains(p));
                            }
                        }
                        if now.contains(p) {
                            let k = choose|k: int| 0 <= k < now.len() && now[k] == p;
                            if k < known.len() {
                                assert(known[k] == p);
                            }
                        }
                    }
                }
            }
            i += 1;
        }
        assert(changed.take(i as int) =~= changed);
        FsmonitorMatcher { files, prefixes }
    }

    /// Returns true if the path may have changed.
    pub fn matches(&self, path: RepoPath<'_>) -> (r: bool)
        requires
            self.wf(),
        ensures
            r == (self.files().contains(path@) || in_prefixes(self.prefixes(), path@)),
            forall|changed: Seq<Seq<fs_path::FsPart>>| #[trigger]
                self.stands_for(changed) ==> r == reported(changed, path@),
    {
        let r = self.files.contains(path) || matches_prefixes(&self.prefixes, path);
        proof {
            assert forall|changed: Seq<Seq<fs_path::FsPart>>| #[trigger]
                self.stands_for(changed) implies r == reported(changed, path@) by {
                assert(self.files().contains(path@) == changed_paths(changed).contains(path@));
            }
        }
        r
    }

    /// Returns true unless nothing in the directory can have changed.
    pub fn visits(&self, dir: RepoPath<'_>) -> (r: bool)
        requires
            self.wf(),
        ensures
            r == (holds_file(self.files(), dir@) || meets_prefixes(self.prefixes(), dir@)),
            forall|changed: Seq<Seq<fs_path::FsPart>>| #[trigger]
                self.stands_for(changed) ==> r == reported_in(changed, dir@),
    {
        let mut found = false;
        let mut i: usize = 0;
        while i < self.files.len()
            invariant
                i <= self.files@.len(),
                self.wf(),
                found == holds_file(self.files@.take(i as int), dir@),
            decreases self.files@.len() - i,
        {
            let ghost seen = self.files@.take(i as int);
            let ghost next = self.files@.take(i + 1);
            let file = self.files.path(i);
            proof {
                lemma_holds_file_more(seen, next, file@, dir@);
            }
            if file.starts_with(dir) && file != dir {
                found = true;
            }
            i += 1;
        }
        assert(self.files@.take(i as int) =~= self.files@);
        let r = found || visits_prefixes(&self.prefixes, dir);
        proof {
            assert forall|changed: Seq<Seq<fs_path::FsPart>>| #[trigger]
                self.stands_for(changed) implies r == reported_in(changed, dir@) by {
                lemma_holds_file_same(self.files(), changed_paths(changed), dir@);
            }
        }
        r
    }
}

/// One more file.
proof fn lemma_holds_file_more(
    seen: Seq<Seq<char>>,
    next: Seq<Seq<char>>,
    file: Seq<char>,
    dir: Seq<char>,
)
    requires
        next =~= seen.push(file),
    ensures
        holds_file(next, dir) == (holds_file(seen, dir) || (covers(dir, file) && file != dir)),
{
    if holds_file(seen, dir) {
        let k = choose|k: int|
            0 <= k < seen.len() && covers(dir, #[trigger] seen[k]) && seen[k] != dir;
        assert(next[k] == seen[k]);
    }
    if covers(dir, file) && file != dir {
        assert(next[seen.len() as int] == file);
    }
    if holds_file(next, dir) {
        let k = choose|k: int|
            0 <= k < next.len() && covers(dir, #[trigger] next[k]) && next[k] != dir;
        if k < seen.len() {
            assert(seen[k] == next[k]);
        }
    }
}

/// What a directory holds does not depend on the order of the files.
proof fn lemma_holds_file_same(a: Seq<Seq<char>>, b: Seq<Seq<char>>, dir: Seq<char>)
    requires
        forall|path: Seq<char>| a.contains(path) <==> #[trigger] b.contains(path),
    ensures
        holds_file(a, dir) == holds_file(b, dir),
{
    if holds_file(a, dir) {
        let k = choose|k: int| 0 <= k < a.len() && covers(dir, #[trigger] a[k]) && a[k] != dir;
        assert(a.contains(a[k]));
        assert(b.contains(a[k]));
        let m = choose|m: int| 0 <= m < b.len() && b[m] == a[k];
        assert(covers(dir, b[m]));
    }
    if holds_file(b, dir) {
        let k = choose|k: int| 0 <= k < b.len() && covers(dir, #[trigger] b[k]) && b[k] != dir;
        assert(b.contains(b[k]));
        let m = choose|m: int| 0 <= m < a.len() && a[m] == b[k];
        assert(covers(dir, a[m]));
    }
}

/// Of two ancestors of a path, one is an ancestor of the other.
proof fn lemma_ancestors_comparable(a: Seq<char>, b: Seq<char>, path: Seq<char>)
    requires
        covers(a, path),
        covers(b, path),
    ensures
        covers(a, b) || covers(b, a),
{
    let (short, long) = if a.len() <= b.len() {
        (a, b)
    } else {
        (b, a)
    };
    if short.len() > 0 {
        assert(path.subrange(0, short.len() as int) == short);
        assert(path.subrange(0, long.len() as int) == long);
        assert(long.subrange(0, short.len() as int) =~= short);
        let below = path.subrange(short.len() as int, path.len() as int);
        let tail = long.subrange(short.len() as int, long.len() as int);
        if tail.len() > 0 {
            assert(tail[0] == long[short.len() as int]);
            assert(long[short.len() as int] == path.subrange(0, long.len() as int)[short.len() as int]);
            assert(below[0] == path[short.len() as int]);
        }
    }
}

/// A directory is visited if a path in it, or the directory itself, lies under
/// one of the prefixes.
pub proof fn lemma_prefixes_visited(prefixes: Seq<Seq<char>>, dir: Seq<char>, path: Seq<char>)
    requires
        covers(dir, path),
        in_prefixes(prefixes, path),
    ensures
        meets_prefixes(prefixes, dir),
{
    let i = choose|i: int| 0 <= i < prefixes.len() && covers(#[trigger] prefixes[i], path);
    lemma_ancestors_comparable(dir, prefixes[i], path);
}

/// The fsmonitor (e.g. Watchman) to use, if any.
#[derive(Debug)]
pub enum FsmonitorSettings {
    /// Each file is looked at.
    Disabled,
    /// Pretends that the given files have changed.
    Test { changed_files: Vec<FsPath> },
    /// Asks Watchman, which may also be told to trigger snapshots.
    Watchman { register_trigger: bool },
}

/// What [`FsmonitorSettings`] stand for.
pub enum FsmonitorKind {
    Disabled,
    Test(Seq<Seq<fs_path::FsPart>>),
    Watchman(bool),
}

impl View for FsmonitorSettings {
    type V = FsmonitorKind;

    open spec fn view(&self) -> FsmonitorKind {
        match *self {
            FsmonitorSettings::Disabled => FsmonitorKind::Disabled,
            FsmonitorSettings::Test { changed_files } => FsmonitorKind::Test(
                part_lists(changed_files@),
            ),
            FsmonitorSettings::Watchman { register_trigger } => FsmonitorKind::Watchman(
                register_trigger,
            ),
        }
    }
}

impl FsmonitorSettings {
    /// Copies these settings.
    pub fn duplicate(&self) -> (r: FsmonitorSettings)
        ensures
            r@ == self@,
    {
        match self {
            FsmonitorSettings::Disabled => FsmonitorSettings::Disabled,
            FsmonitorSettings::Test { changed_files } => {
                let mut copy: Vec<FsPath> = Vec::new();
                let mut i: usize = 0;
                while i < changed_files.len()
                    invariant
                        i <= changed_files@.len(),
                        part_lists(copy@) == part_lists(changed_files@).take(i as int),
                    decreases changed_files@.len() - i,
                {
                    let ghost before = part_lists(copy@);
                    copy.push(changed_files[i].duplicate());
                    assert(part_lists(copy@) =~= before.push(changed_files@[i as int]@));
                    assert(part_lists(changed_files@).take(i + 1) =~= part_lists(
                        changed_files@,
                    ).take(i as int).push(changed_files@[i as int]@));
                    i += 1;
                }
                assert(part_lists(copy@) =~= part_lists(changed_files@));
                FsmonitorSettings::Test { changed_files: copy }
            },
            FsmonitorSettings::Watchman { register_trigger } => FsmonitorSettings::Watchman {
                register_trigger: *register_trigger,
            },
        }
    }
}

/// What came of asking Watchman for changes.
#[derive(Debug)]
pub enum WatchmanReply {
    /// The changed files, unless any file may have changed.
    Changes { clock: WatchmanClock, changed_files: Option<Vec<FsPath>> },
    /// Watchman could not be asked.
    Failed,
    /// The program was built without support for Watchman.
    Unsupported,
}

/// The files to look at, unless it is all of them, and the point in time that
/// they are known for.
pub struct FsmonitorScan {
    pub matcher: Option<FsmonitorMatcher>,
    pub watchman_clock: Option<WatchmanClock>,
}

/// Watchman is to be used, but the program was built without it.
#[derive(Clone, Copy, Debug, PartialEq, Eq, Structural)]
pub struct FsmonitorUnsupported;

/// The files that are known to have changed, unless any may have.
pub open spec fn known_changes(settings: FsmonitorKind, reply: WatchmanReply) -> Option<
    Seq<Seq<fs_path::FsPart>>,
> {
    match settings {
        FsmonitorKind::Disabled => None,
        FsmonitorKind::Test(changed) => Some(changed),
        FsmonitorKind::Watchman(_) => match reply {
            WatchmanReply::Changes { changed_files: Some(changed_files), .. } => Some(
                part_lists(changed_files@),
            ),
            _ => None,
        },
    }
}

/// Decides which files to look at. `reply` is what came of asking Watchman, which
/// is only done where the settings say so.
pub fn make_fsmonitor_matcher(settings: &FsmonitorSettings, reply: WatchmanReply) -> (r: Result<
    FsmonitorScan,
    FsmonitorUnsupported,
>)
    ensures
        r is Err <==> *settings is Watchman && reply is Unsupported,
        r matches Ok(scan) ==> {
            &&& match known_changes(settings@, reply) {
                Some(changed) => scan.matcher matches Some(matcher) && matcher.stands_for(changed),
                None => scan.matcher is None,
            }
            &&& scan.watchman_clock == match reply {
                WatchmanReply::Changes { clock, .. } if *settings is Watchman => Some(clock),
                _ => None,
            }
        },
{
    match settings {
        FsmonitorSettings::Disabled => Ok(FsmonitorScan { matcher: None, watchman_clock: None }),
        FsmonitorSettings::Test { changed_files } => Ok(
            FsmonitorScan {
                matcher: Some(FsmonitorMatcher::new(changed_files)),
                watchman_clock: None,
            },
        ),
        FsmonitorSettings::Watchman { .. } => match reply {
            WatchmanReply::Changes { clock, changed_files } => {
                let matcher = match changed_files {
                    Some(changed_files) => Some(FsmonitorMatcher::new(&changed_files)),
                    None => None,
                };
                Ok(FsmonitorScan { matcher, watchman_clock: Some(clock) })
            },
            WatchmanReply::Failed => Ok(FsmonitorScan { matcher: None, watchman_clock: None }),
            WatchmanReply::Unsupported => Err(FsmonitorUnsupported),
        },
    }
}

/// Matches the files that a snapshot looks at: those that the sparse patterns
/// cover and that may have changed. `None` stands for any file.
pub struct SnapshotMatcher<'a> {
    pub sparse_patterns: &'a Vec<RepoPathBuf>,
    pub fsmonitor: Option<&'a FsmonitorMatcher>,
}

impl<'a> SnapshotMatcher<'a> {
    pub open spec fn wf(&self) -> bool {
        self.fsmonitor matches Some(fsmonitor) ==> fsmonitor.wf()
    }

    /// Whether a file is looked at.
    pub open spec fn looks_at(&self, path: Seq<char>, forced: bool) -> bool {
        &&& in_prefixes(checkout::path_list(self.sparse_patterns@), path)
        &&& match self.fsmonitor {
            None => true,
            Some(fsmonitor) => {
                ||| fsmonitor.files().contains(path)
                ||| in_prefixes(fsmonitor.prefixes(), path)
                ||| forced
            },
        }
    }

    /// Whether files in a directory may be looked at.
    pub open spec fn looks_into(&self, dir: Seq<char>, forced: bool) -> bool {
        &&& meets_prefixes(checkout::path_list(self.sparse_patterns@), dir)
        &&& match self.fsmonitor {
            None => true,
            Some(fsmonitor) => {
                ||| holds_file(fsmonitor.files(), dir)
                ||| meets_prefixes(fsmonitor.prefixes(), dir)
                ||| forced
            },
        }
    }

    /// Returns true if the file is to be looked at. `forced` tells whether it is
    /// to be tracked in any case.
    pub fn matches(&self, path: RepoPath<'_>, forced: bool) -> (r: bool)
        requires
            self.wf(),
        ensures
            r == self.looks_at(path@, forced),
    {
        matches_prefixes(self.sparse_patterns, path) && match self.fsmonitor {
            None => true,
            Some(fsmonitor) => fsmonitor.matches(path) || forced,
        }
    }

    /// Returns true unless no file in the directory is to be looked at. `forced`
    /// tells whether it may hold files that are to be tracked in any case.
    pub fn visits(&self, dir: RepoPath<'_>, forced: bool) -> (r: bool)
        requires
            self.wf(),
        ensures
            r == self.looks_into(dir@, forced),
    {
        visits_prefixes(self.sparse_patterns, dir) && match self.fsmonitor {
            None => true,
            Some(fsmonitor) => fsmonitor.visits(dir) || forced,
        }
    }

    /// No file is missed: a directory is visited if a file in it is to be looked
    /// at.
    pub proof fn lemma_visited(&self, dir: Seq<char>, path: Seq<char>, forced: bool)
        requires
            covers(dir, path),
            path != dir,
            self.looks_at(path, forced),
        ensures
            self.looks_into(dir, forced),
    {
        lemma_prefixes_visited(checkout::path_list(self.sparse_patterns@), dir, path);
        if let Some(fsmonitor) = self.fsmonitor {
            if in_prefixes(fsmonitor.prefixes(), path) {
                lemma_prefixes_visited(fsmonitor.prefixes(), dir, path);
            }
            if fsmonitor.files().contains(path) {
                let files = fsmonitor.files();
                let i = choose|i: int| 0 <= i < files.len() && files[i] == path;
                assert(covers(dir, files[i]));
            }
        }
    }
}

} // verus!
