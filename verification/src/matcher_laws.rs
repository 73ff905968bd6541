//! Which files a snapshot looks at, by the sparse patterns and what a filesystem monitor has
//! reported.
//!
//! The laws speak of what the functions are called with and of what they return.

use vstd::prelude::*;

use crate::checkout;
use crate::fs_path;
use crate::fs_path::FsPath;
use crate::matchers;
use crate::matchers::FsmonitorMatcher;
use crate::matchers::FsmonitorScan;
use crate::matchers::FsmonitorSettings;
use crate::matchers::FsmonitorUnsupported;
use crate::matchers::SnapshotMatcher;
use crate::matchers::WatchmanReply;
use crate::path_model;
use crate::platform::Platform;
use crate::proto::WatchmanClock;
use crate::repo_path;
use crate::repo_path::RepoPath;
use crate::repo_path::RepoPathBuf;
use crate::repo_path_fs;
use crate::repo_path_fs::RelativePathParseError;
use crate::repo_path_fs::RelativeReading;
use crate::text;
use crate::tree_state;
use crate::tree_state::TreeState;

verus! {

/// A path is a directory, or continues the path of the directory behind a separator. All
/// paths continue that of the root.
pub open spec fn at_or_below(dir: Seq<char>, path: Seq<char>) -> bool {
    ||| dir.len() == 0
    ||| path == dir
    ||| path.len() > dir.len() && path.take(dir.len() as int) == dir && path[dir.len() as int]
        == '/'
}

/// What covers a path.
pub proof fn lemma_covers(dir: Seq<char>, path: Seq<char>)
    ensures
        matchers::covers(dir, path) <==> at_or_below(dir, path),
{
    let n = dir.len() as int;
    if n > 0 {
        if n <= path.len() {
            assert(path.subrange(0, n) =~= path.take(n));
        }
        if path == dir {
            assert(path.subrange(0, n) =~= dir);
            assert(path.subrange(n, n) =~= Seq::empty());
        } else if n < path.len() {
            let tail = path.subrange(n, path.len() as int);
            assert(tail[0] == path[n]);
        } else if n == path.len() {
            assert(path.take(n) =~= path);
        }
    }
}

/// All paths are covered by the root.
pub proof fn lemma_root_covers(path: Seq<char>)
    ensures
        matchers::covers(Seq::empty(), path),
{
    lemma_covers(Seq::empty(), path);
}

/// A path starts with another exactly if it is the other or lies below it.
pub proof fn lemma_starts_with(path: RepoPath<'_>, base: RepoPath<'_>, r: bool)
    requires
        call_ensures(RepoPath::<'_>::starts_with, (&path, base), r),
    ensures
        r <==> at_or_below(base@, path@),
{
    lemma_covers(base@, path@);
}

/// A path is covered by prefixes exactly if it lies at or below one of them. A directory is
/// visited for them exactly if it lies at or below one of them, or above one.
pub proof fn lemma_prefixes(
    prefixes: Vec<RepoPathBuf>,
    path: RepoPath<'_>,
    covered: bool,
    visited: bool,
)
    requires
        call_ensures(matchers::matches_prefixes, (&prefixes, path), covered),
        call_ensures(matchers::visits_prefixes, (&prefixes, path), visited),
    ensures
        covered <==> exists|i: int|
            0 <= i < prefixes@.len() && at_or_below((#[trigger] prefixes@[i])@, path@),
        visited <==> exists|i: int|
            0 <= i < prefixes@.len() && (at_or_below((#[trigger] prefixes@[i])@, path@)
                || at_or_below(path@, prefixes@[i]@)),
{
    let texts = checkout::path_list(prefixes@);
    assert forall|i: int| 0 <= i < texts.len() implies matchers::covers(
        #[trigger] texts[i],
        path@,
    ) == at_or_below(prefixes@[i]@, path@) && matchers::covers(path@, texts[i]) == at_or_below(
        path@,
        prefixes@[i]@,
    ) by {
        lemma_covers(texts[i], path@);
        lemma_covers(path@, texts[i]);
    }
    if matchers::in_prefixes(texts, path@) {
        let i = choose|i: int|
            0 <= i < texts.len() && matchers::covers(#[trigger] texts[i], path@);
        assert(at_or_below(prefixes@[i]@, path@));
    }
    if matchers::meets_prefixes(texts, path@) {
        let i = choose|i: int|
            0 <= i < texts.len() && (matchers::covers(#[trigger] texts[i], path@)
                || matchers::covers(path@, texts[i]));
        assert(at_or_below(prefixes@[i]@, path@) || at_or_below(path@, prefixes@[i]@));
    }
    if exists|i: int|
        0 <= i < prefixes@.len() && at_or_below((#[trigger] prefixes@[i])@, path@) {
        let i = choose|i: int|
            0 <= i < prefixes@.len() && at_or_below((#[trigger] prefixes@[i])@, path@);
        assert(matchers::covers(texts[i], path@));
    }
    if exists|i: int|
        0 <= i < prefixes@.len() && (at_or_below((#[trigger] prefixes@[i])@, path@) || at_or_below(
            path@,
            prefixes@[i]@,
        )) {
        let i = choose|i: int|
            0 <= i < prefixes@.len() && (at_or_below((#[trigger] prefixes@[i])@, path@)
                || at_or_below(path@, prefixes@[i]@));
        assert(matchers::covers(texts[i], path@) || matchers::covers(path@, texts[i]));
    }
}

/// A reported file is among the changed paths.
proof fn lemma_reported_is_changed(
    changed: Seq<Seq<fs_path::FsPart>>,
    i: int,
    path: Seq<char>,
)
    requires
        0 <= i < changed.len(),
        repo_path_fs::relative_reading(changed[i]) == RelativeReading::Path(path),
    ensures
        matchers::changed_paths(changed).contains(path),
    decreases changed.len(),
{
    let before = changed.drop_last();
    let all = matchers::changed_paths(changed);
    if i < before.len() {
        lemma_reported_is_changed(before, i, path);
        let rest = matchers::changed_paths(before);
        let k = choose|k: int| 0 <= k < rest.len() && rest[k] == path;
        assert(all[k] == path);
    } else {
        assert(all[all.len() - 1] == path);
    }
}

/// Each changed path was reported.
proof fn lemma_changed_is_reported(changed: Seq<Seq<fs_path::FsPart>>, path: Seq<char>)
    requires
        matchers::changed_paths(changed).contains(path),
    ensures
        exists|i: int|
            0 <= i < changed.len() && repo_path_fs::relative_reading(#[trigger] changed[i])
                == RelativeReading::Path(path),
    decreases changed.len(),
{
    if changed.len() > 0 {
        let before = changed.drop_last();
        let rest = matchers::changed_paths(before);
        let all = matchers::changed_paths(changed);
        let k = choose|k: int| 0 <= k < all.len() && all[k] == path;
        if k < rest.len() {
            assert(rest[k] == path);
            lemma_changed_is_reported(before, path);
            let i = choose|i: int|
                0 <= i < before.len() && repo_path_fs::relative_reading(#[trigger] before[i])
                    == RelativeReading::Path(path);
            assert(changed[i] == before[i]);
        } else {
            assert(changed[changed.len() - 1] == changed.last());
        }
    }
}

/// The `.gitignore` of a directory.
pub open spec fn gitignore_of(dir: Seq<char>) -> Seq<char> {
    if dir.len() == 0 {
        ".gitignore"@
    } else {
        dir + "/.gitignore"@
    }
}

proof fn lemma_gitignore_split(dir: Seq<char>)
    ensures
        repo_path::back_split(gitignore_of(dir)) == (dir, ".gitignore"@),
        gitignore_of(dir).len() > 0,
{
    reveal_strlit(".gitignore");
    reveal_strlit("/.gitignore");
    let s = gitignore_of(dir);
    let name = ".gitignore"@;
    assert(name.len() == 10);
    assert("/.gitignore"@ =~= seq!['/'] + name);
    text::lemma_last_index(s, '/');
    if dir.len() == 0 {
        assert forall|i: int| 0 <= i < s.len() implies s[i] != '/' by {}
        text::lemma_last_index_unique(s, '/', -1);
        assert(dir =~= Seq::empty());
    } else {
        let n = dir.len() as int;
        assert(s[n] == '/');
        assert forall|i: int| n < i < s.len() implies s[i] != '/' by {
            assert(s[i] == name[i - n - 1]);
        }
        text::lemma_last_index_unique(s, '/', n);
        assert(s.subrange(0, n) =~= dir);
        assert(s.subrange(n + 1, s.len() as int) =~= name);
    }
}

/// The directory of a changed `.gitignore` is one to rescan.
proof fn lemma_gitignore_dir(paths: Seq<Seq<char>>, dir: Seq<char>)
    requires
        paths.contains(gitignore_of(dir)),
    ensures
        matchers::gitignore_dirs(paths).contains(dir),
    decreases paths.len(),
{
    let before = paths.drop_last();
    let all = matchers::gitignore_dirs(paths);
    lemma_gitignore_split(dir);
    let i = choose|i: int| 0 <= i < paths.len() && paths[i] == gitignore_of(dir);
    if i < before.len() {
        assert(before[i] == gitignore_of(dir));
        lemma_gitignore_dir(before, dir);
        let rest = matchers::gitignore_dirs(before);
        let k = choose|k: int| 0 <= k < rest.len() && rest[k] == dir;
        assert(all[k] == dir);
    } else {
        assert(all[all.len() - 1] == dir);
    }
}

/// Each directory to rescan has a changed `.gitignore`.
proof fn lemma_gitignore_of_dir(paths: Seq<Seq<char>>, dir: Seq<char>)
    requires
        matchers::gitignore_dirs(paths).contains(dir),
    ensures
        exists|i: int|
            0 <= i < paths.len() && (#[trigger] paths[i]).len() > 0 && repo_path::back_split(
                paths[i],
            ) == (dir, ".gitignore"@),
    decreases paths.len(),
{
    if paths.len() > 0 {
        let before = paths.drop_last();
        let rest = matchers::gitignore_dirs(before);
        let all = matchers::gitignore_dirs(paths);
        let k = choose|k: int| 0 <= k < all.len() && all[k] == dir;
        if k < rest.len() {
            assert(rest[k] == dir);
            lemma_gitignore_of_dir(before, dir);
            let i = choose|i: int|
                0 <= i < before.len() && (#[trigger] before[i]).len() > 0 && repo_path::back_split(
                    before[i],
                ) == (dir, ".gitignore"@);
            assert(paths[i] == before[i]);
        } else {
            assert(paths[paths.len() - 1] == paths.last());
        }
    }
}

/// A file that the monitor reports is looked at. So is each directory above it.
pub proof fn lemma_reported_file_matched(
    changed_files: Vec<FsPath>,
    matcher: FsmonitorMatcher,
    platform: Platform,
    i: int,
    read: Result<RepoPathBuf, RelativePathParseError>,
    file: RepoPath<'_>,
    dir: RepoPath<'_>,
    is_matched: bool,
    is_visited: bool,
)
    requires
        call_ensures(FsmonitorMatcher::new, (&changed_files,), matcher),
        0 <= i < changed_files@.len(),
        call_ensures(
            RepoPathBuf::from_relative_path_on,
            (platform, &changed_files@[i]),
            read,
        ),
        read matches Ok(path) && path@ == file@,
        at_or_below(dir@, file@),
        dir@ != file@,
        call_ensures(FsmonitorMatcher::matches, (&matcher, file), is_matched),
        call_ensures(FsmonitorMatcher::visits, (&matcher, dir), is_visited),
    ensures
        is_matched,
        is_visited,
{
    let changed = matchers::part_lists(changed_files@);
    assert(changed[i] == changed_files@[i]@);
    lemma_reported_is_changed(changed, i, file@);
    let paths = matchers::changed_paths(changed);
    lemma_covers(dir@, file@);
    let k = choose|k: int| 0 <= k < paths.len() && paths[k] == file@;
    assert(matchers::covers(dir@, paths[k]));
    assert(matcher.stands_for(changed));
    assert(matchers::holds_file(paths, dir@));
}

/// If a `.gitignore` is reported, be it the one at the root, each path at or below its
/// directory is looked at, and each directory there is visited. So are those above.
pub proof fn lemma_gitignore_rescans(
    changed_files: Vec<FsPath>,
    matcher: FsmonitorMatcher,
    platform: Platform,
    i: int,
    read: Result<RepoPathBuf, RelativePathParseError>,
    dir: Seq<char>,
    path: RepoPath<'_>,
    above: RepoPath<'_>,
    is_matched: bool,
    is_visited: bool,
    above_visited: bool,
)
    requires
        call_ensures(FsmonitorMatcher::new, (&changed_files,), matcher),
        0 <= i < changed_files@.len(),
        call_ensures(
            RepoPathBuf::from_relative_path_on,
            (platform, &changed_files@[i]),
            read,
        ),
        read matches Ok(file) && file@ == gitignore_of(dir),
        at_or_below(dir, path@),
        at_or_below(above@, dir),
        call_ensures(FsmonitorMatcher::matches, (&matcher, path), is_matched),
        call_ensures(FsmonitorMatcher::visits, (&matcher, path), is_visited),
        call_ensures(FsmonitorMatcher::visits, (&matcher, above), above_visited),
    ensures
        is_matched,
        is_visited,
        above_visited,
{
    let changed = matchers::part_lists(changed_files@);
    assert(changed[i] == changed_files@[i]@);
    lemma_reported_is_changed(changed, i, gitignore_of(dir));
    let paths = matchers::changed_paths(changed);
    lemma_gitignore_dir(paths, dir);
    let dirs = matchers::gitignore_dirs(paths);
    let k = choose|k: int| 0 <= k < dirs.len() && dirs[k] == dir;
    lemma_covers(dir, path@);
    lemma_covers(above@, dir);
    assert(matchers::covers(dirs[k], path@));
    assert(matchers::covers(above@, dirs[k]));
    assert(matcher.stands_for(changed));
    assert(matchers::in_prefixes(dirs, path@));
    assert(matchers::meets_prefixes(dirs, path@));
    assert(matchers::meets_prefixes(dirs, above@));
}

/// Nothing is looked at but what the monitor reports, and what lies below a directory whose
/// `.gitignore` it reports.
pub proof fn lemma_only_reported_matched(
    changed_files: Vec<FsPath>,
    matcher: FsmonitorMatcher,
    path: RepoPath<'_>,
    is_matched: bool,
)
    requires
        call_ensures(FsmonitorMatcher::new, (&changed_files,), matcher),
        call_ensures(FsmonitorMatcher::matches, (&matcher, path), is_matched),
        is_matched,
    ensures
        exists|i: int|
            0 <= i < changed_files@.len() && (repo_path_fs::relative_reading(
                (#[trigger] changed_files@[i])@,
            ) matches RelativeReading::Path(file) && {
                ||| file == path@
                ||| exists|dir: Seq<char>|
                    #![trigger gitignore_of(dir)]
                    at_or_below(dir, path@) && (file == gitignore_of(dir) || file
                        == "/.gitignore"@ && dir.len() == 0)
            }),
{
    let changed = matchers::part_lists(changed_files@);
    let paths = matchers::changed_paths(changed);
    assert(matcher.stands_for(changed));
    assert(matchers::reported(changed, path@));
    if paths.contains(path@) {
        lemma_changed_is_reported(changed, path@);
        let i = choose|i: int|
            0 <= i < changed.len() && repo_path_fs::relative_reading(#[trigger] changed[i])
                == RelativeReading::Path(path@);
        assert(changed[i] == changed_files@[i]@);
    } else {
        let dirs = matchers::gitignore_dirs(paths);
        let k = choose|k: int|
            0 <= k < dirs.len() && matchers::covers(#[trigger] dirs[k], path@);
        let dir = dirs[k];
        assert(dirs.contains(dir));
        lemma_gitignore_of_dir(paths, dir);
        let m = choose|m: int|
            0 <= m < paths.len() && (#[trigger] paths[m]).len() > 0 && repo_path::back_split(
                paths[m],
            ) == (dir, ".gitignore"@);
        let file = paths[m];
        assert(paths.contains(file));
        lemma_changed_is_reported(changed, file);
        let i = choose|i: int|
            0 <= i < changed.len() && repo_path_fs::relative_reading(#[trigger] changed[i])
                == RelativeReading::Path(file);
        assert(changed[i] == changed_files@[i]@);
        lemma_covers(dir, path@);
        reveal_strlit(".gitignore");
        reveal_strlit("/.gitignore");
        text::lemma_last_index(file, '/');
        let n = text::last_index(file, '/');
        assert("/.gitignore"@ =~= seq!['/'] + ".gitignore"@);
        if 0 <= n < file.len() {
            assert(file =~= file.subrange(0, n) + seq!['/'] + file.subrange(
                n + 1,
                file.len() as int,
            ));
            assert(file =~= dir + "/.gitignore"@);
            if n == 0 {
                assert(file =~= "/.gitignore"@);
            }
        } else {
            assert(file == gitignore_of(dir));
        }
        assert(at_or_below(dir, path@) && (file == gitignore_of(dir) || file == "/.gitignore"@
            && dir.len() == 0));
    }
}

/// A directory is visited only if a path at or below it is looked at.
pub proof fn lemma_visited_for_a_reason(
    changed_files: Vec<FsPath>,
    matcher: FsmonitorMatcher,
    dir: RepoPath<'_>,
    is_visited: bool,
)
    requires
        call_ensures(FsmonitorMatcher::new, (&changed_files,), matcher),
        call_ensures(FsmonitorMatcher::visits, (&matcher, dir), is_visited),
        is_visited,
    ensures
        exists|path: Seq<char>|
            at_or_below(dir@, path) && #[trigger] matchers::reported(
                matchers::part_lists(changed_files@),
                path,
            ),
{
    let changed = matchers::part_lists(changed_files@);
    let paths = matchers::changed_paths(changed);
    let dirs = matchers::gitignore_dirs(paths);
    assert(matcher.stands_for(changed));
    if matchers::holds_file(paths, dir@) {
        let k = choose|k: int|
            0 <= k < paths.len() && matchers::covers(dir@, #[trigger] paths[k]) && paths[k] != dir@;
        lemma_covers(dir@, paths[k]);
        assert(paths.contains(paths[k]));
        assert(matchers::reported(changed, paths[k]));
    } else {
        let k = choose|k: int|
            0 <= k < dirs.len() && (matchers::covers(#[trigger] dirs[k], dir@) || matchers::covers(
                dir@,
                dirs[k],
            ));
        lemma_covers(dirs[k], dir@);
        lemma_covers(dir@, dirs[k]);
        lemma_covers(dirs[k], dirs[k]);
        lemma_covers(dir@, dir@);
        if matchers::covers(dirs[k], dir@) {
            assert(matchers::in_prefixes(dirs, dir@));
            assert(matchers::reported(changed, dir@));
        } else {
            assert(matchers::in_prefixes(dirs, dirs[k]));
            assert(matchers::reported(changed, dirs[k]));
        }
    }
}

/// Without a monitor, or if it could not be asked or does not know, all files are looked at.
/// The clock is that of the reply, and is only taken over from Watchman. If Watchman is to be
/// used and cannot be, that is an error.
pub proof fn lemma_monitor_used(
    settings: FsmonitorSettings,
    reply: WatchmanReply,
    r: Result<FsmonitorScan, FsmonitorUnsupported>,
)
    requires
        call_ensures(matchers::make_fsmonitor_matcher, (&settings, reply), r),
    ensures
        settings is Disabled || settings is Test ==> r is Ok && r->Ok_0.watchman_clock is None,
        settings is Disabled ==> r->Ok_0.matcher is None,
        settings is Test ==> r->Ok_0.matcher is Some,
        settings is Watchman ==> {
            &&& r is Err <==> reply is Unsupported
            &&& reply is Failed ==> r->Ok_0.matcher is None && r->Ok_0.watchman_clock is None
            &&& reply matches WatchmanReply::Changes { clock, changed_files } ==> {
                &&& r->Ok_0.watchman_clock == Some(clock)
                &&& r->Ok_0.matcher is None <==> changed_files is None
            }
        },
{
}

/// The files that are given to a test, or reported by Watchman, are those that are looked at.
pub proof fn lemma_monitored_files(
    settings: FsmonitorSettings,
    reply: WatchmanReply,
    changed_files: Vec<FsPath>,
    r: Result<FsmonitorScan, FsmonitorUnsupported>,
    expected: FsmonitorMatcher,
    path: RepoPath<'_>,
    is_matched: bool,
    is_expected: bool,
)
    requires
        (settings matches FsmonitorSettings::Test { changed_files: files } && files
            == changed_files) || settings is Watchman && (reply matches WatchmanReply::Changes {
            changed_files: Some(files),
            ..
        } && files == changed_files),
        call_ensures(matchers::make_fsmonitor_matcher, (&settings, reply), r),
        call_ensures(FsmonitorMatcher::new, (&changed_files,), expected),
        r matches Ok(scan) && scan.matcher is Some ==> call_ensures(
            FsmonitorMatcher::matches,
            (&r->Ok_0.matcher->0, path),
            is_matched,
        ),
        call_ensures(FsmonitorMatcher::matches, (&expected, path), is_expected),
    ensures
        r is Ok && r->Ok_0.matcher is Some,
        is_matched == is_expected,
{
    let changed = matchers::part_lists(changed_files@);
    assert(expected.stands_for(changed));
    assert(r->Ok_0.matcher->0.stands_for(changed));
}

/// A file is looked at exactly if it lies at or below one of the sparse patterns, and the
/// monitor tells of it, or there is no monitor, or the file is to be tracked in any case.
pub proof fn lemma_snapshot_matches(
    matcher: SnapshotMatcher<'_>,
    path: RepoPath<'_>,
    forced: bool,
    by_monitor: bool,
    r: bool,
)
    requires
        matcher.fsmonitor is Some ==> call_ensures(
            FsmonitorMatcher::matches,
            (matcher.fsmonitor->0, path),
            by_monitor,
        ),
        call_ensures(SnapshotMatcher::<'_>::matches, (&matcher, path, forced), r),
    ensures
        r <==> {
            &&& exists|i: int|
                0 <= i < matcher.sparse_patterns@.len() && at_or_below(
                    (#[trigger] matcher.sparse_patterns@[i])@,
                    path@,
                )
            &&& matcher.fsmonitor is None || by_monitor || forced
        },
{
    lemma_prefix_texts(*matcher.sparse_patterns, path@);
}

/// Files in a directory are looked for exactly if some may lie at or below one of the sparse
/// patterns, and the monitor tells of some, or there is no monitor, or files in it are to be
/// tracked in any case.
pub proof fn lemma_snapshot_visits(
    matcher: SnapshotMatcher<'_>,
    dir: RepoPath<'_>,
    forced: bool,
    by_monitor: bool,
    r: bool,
)
    requires
        matcher.fsmonitor is Some ==> call_ensures(
            FsmonitorMatcher::visits,
            (matcher.fsmonitor->0, dir),
            by_monitor,
        ),
        call_ensures(SnapshotMatcher::<'_>::visits, (&matcher, dir, forced), r),
    ensures
        r <==> {
            &&& exists|i: int|
                0 <= i < matcher.sparse_patterns@.len() && (at_or_below(
                    (#[trigger] matcher.sparse_patterns@[i])@,
                    dir@,
                ) || at_or_below(dir@, matcher.sparse_patterns@[i]@))
            &&& matcher.fsmonitor is None || by_monitor || forced
        },
{
    lemma_prefix_texts(*matcher.sparse_patterns, dir@);
}

proof fn lemma_prefix_texts(prefixes: Vec<RepoPathBuf>, path: Seq<char>)
    ensures
        matchers::in_prefixes(checkout::path_list(prefixes@), path) <==> exists|i: int|
            0 <= i < prefixes@.len() && at_or_below((#[trigger] prefixes@[i])@, path),
        matchers::meets_prefixes(checkout::path_list(prefixes@), path) <==> exists|i: int|
            0 <= i < prefixes@.len() && (at_or_below((#[trigger] prefixes@[i])@, path)
                || at_or_below(path, prefixes@[i]@)),
{
    let texts = checkout::path_list(prefixes@);
    assert forall|i: int| 0 <= i < texts.len() implies matchers::covers(
        #[trigger] texts[i],
        path,
    ) == at_or_below(prefixes@[i]@, path) && matchers::covers(path, texts[i]) == at_or_below(
        path,
        prefixes@[i]@,
    ) by {
        lemma_covers(texts[i], path);
        lemma_covers(path, texts[i]);
    }
    assert forall|i: int| 0 <= i < prefixes@.len() implies texts[i] == (#[trigger] prefixes@[i])@ by {}
}

/// When the sparse patterns are replaced, a path is written exactly if only the new ones cover
/// it, and removed exactly if only the old ones do.
pub proof fn lemma_sparse_paths(
    state: TreeState,
    patterns: Vec<RepoPathBuf>,
    path: RepoPath<'_>,
    was_covered: bool,
    is_covered: bool,
    is_added: bool,
    is_removed: bool,
)
    requires
        call_ensures(TreeState::is_in_sparse_patterns, (&state, path), was_covered),
        call_ensures(matchers::matches_prefixes, (&patterns, path), is_covered),
        call_ensures(TreeState::is_added_by, (&state, &patterns, path), is_added),
        call_ensures(TreeState::is_removed_by, (&state, &patterns, path), is_removed),
    ensures
        is_added <==> is_covered && !was_covered,
        is_removed <==> was_covered && !is_covered,
{
}

} // verus!
