//! How repository paths are found on disk, shown to users and read from them.
//!
//! The laws speak of what the functions are called with and of what they return.

use vstd::prelude::*;

use crate::fs_path;
use crate::fs_path::FsComponent;
use crate::fs_path::FsPart;
use crate::fs_path::FsPath;
use crate::path_model;
use crate::platform::Platform;
use crate::repo_path;
use crate::repo_path::InvalidRepoPathComponentError;
use crate::repo_path::InvalidRepoPathError;
use crate::repo_path::RepoPath;
use crate::repo_path::RepoPathBuf;
use crate::repo_path::RepoPathComponent;
use crate::repo_path_fs;
use crate::repo_path_fs::FsPathParseError;
use crate::repo_path_fs::RelativePathParseError;
use crate::repo_path_fs::RelativeReading;
use crate::text;
use crate::ui_path;
use crate::ui_path::Diff;
use crate::ui_path::RepoPathUiConverter;
use crate::ui_path::UiPathParseError;
use crate::ui_round_trip;

verus! {

/// Names are separated by `/` on Unix and by `\` on Windows.
pub proof fn lemma_separators(platform: Platform, separator: char, found: Platform)
    requires
        call_ensures(Platform::main_separator, (platform,), separator),
        call_ensures(Platform::from_separator, (separator,), found),
    ensures
        platform == Platform::Unix <==> separator == '/',
        platform == Platform::Windows <==> separator == '\\',
        found == platform,
{
}

/// A name can be that of a file exactly if it is a name, neither `.` nor `..`, and on Windows
/// has no `\` in it and no drive in front. It is not changed.
pub proof fn lemma_names_on_disk(
    platform: Platform,
    name: RepoPathComponent<'_>,
    r: Result<&str, InvalidRepoPathComponentError>,
)
    requires
        call_ensures(RepoPathComponent::<'_>::to_fs_name_on, (&name, platform), r),
    ensures
        r is Ok <==> {
            &&& name@.len() > 0
            &&& forall|i: int| 0 <= i < name@.len() ==> #[trigger] name@[i] != '/'
            &&& !(name@.len() == 1 && name@[0] == '.')
            &&& !(name@.len() == 2 && name@[0] == '.' && name@[1] == '.')
            &&& platform == Platform::Windows ==> {
                &&& forall|i: int| 0 <= i < name@.len() ==> #[trigger] name@[i] != '\\'
                &&& !(name@.len() >= 2 && name@[1] == ':' && ('a' <= name@[0] <= 'z' || 'A'
                    <= name@[0] <= 'Z'))
            }
        },
        r is Ok ==> r->Ok_0@ == name@,
        r is Err ==> r->Err_0.component@ == name@,
{
    let s = name@;
    lemma_holds(s, '/');
    lemma_holds(s, '\\');
    if s.len() == 1 && s[0] == '.' {
        assert(s =~= seq!['.']);
    }
    if s.len() == 2 && s[0] == '.' && s[1] == '.' {
        assert(s =~= seq!['.', '.']);
    }
}

/// What it means that a text holds a character.
proof fn lemma_holds(s: Seq<char>, c: char)
    ensures
        !s.contains(c) <==> forall|i: int| 0 <= i < s.len() ==> #[trigger] s[i] != c,
{
    if s.contains(c) {
        let i = choose|i: int| 0 <= i < s.len() && s[i] == c;
        assert(s[i] == c);
    } else {
        assert forall|i: int| 0 <= i < s.len() implies #[trigger] s[i] != c by {
            assert(s.contains(s[i]));
        }
    }
}

/// An entry of a directory is found on disk in the directory under its name. It has a place
/// there exactly if the directory has one and the name can be that of a file; if not, the
/// first name that cannot is told.
pub proof fn lemma_entry_on_disk(
    platform: Platform,
    base: FsPath,
    dir: RepoPath<'_>,
    name: RepoPathComponent<'_>,
    joined: RepoPathBuf,
    path: RepoPath<'_>,
    dir_place: Result<FsPath, InvalidRepoPathError>,
    fs_name: Result<&str, InvalidRepoPathComponentError>,
    place: Result<FsPath, InvalidRepoPathError>,
)
    requires
        base@.len() > 0,
        path_model::valid_path(dir@),
        path_model::valid_name(name@),
        call_ensures(RepoPath::<'_>::join, (&dir, name), joined),
        path@ == joined@,
        call_ensures(RepoPath::<'_>::to_fs_path_on, (&dir, platform, &base), dir_place),
        call_ensures(RepoPathComponent::<'_>::to_fs_name_on, (&name, platform), fs_name),
        call_ensures(RepoPath::<'_>::to_fs_path_on, (&path, platform, &base), place),
    ensures
        place is Ok <==> dir_place is Ok && fs_name is Ok,
        place is Ok ==> place->Ok_0@ == dir_place->Ok_0@ + seq![FsPart::Normal(name@)],
        place is Err ==> {
            &&& place->Err_0.path@ == path@
            &&& place->Err_0.source.component@ == if dir_place is Err {
                dir_place->Err_0.source.component@
            } else {
                name@
            }
        },
        dir@.len() == 0 ==> (dir_place matches Ok(at) && at@ == base@),
{
    let names = path_model::components(dir@);
    let all = path_model::components(path@);
    let n = names.len() as int;
    assert(all == names.push(name@));
    assert(all.take(n) =~= names);
    assert(all.skip(n) =~= seq![name@]);
    repo_path_fs::lemma_first_invalid_split(platform, all, n);
    assert(seq![name@].drop_first() =~= Seq::<Seq<char>>::empty());
    assert(repo_path_fs::first_invalid(platform, Seq::<Seq<char>>::empty()) is None);
    assert(repo_path_fs::name_parts(all) =~= repo_path_fs::name_parts(names).push(
        FsPart::Normal(name@),
    ));
    assert(base@ + repo_path_fs::name_parts(all) =~= (base@ + repo_path_fs::name_parts(names))
        + seq![FsPart::Normal(name@)]);
    if dir@.len() == 0 {
        assert(names =~= Seq::<Seq<char>>::empty());
        assert(base@ + repo_path_fs::name_parts(names) =~= base@);
    }
}

/// Where nothing else is written, the current directory is.
pub proof fn lemma_root_on_disk(
    platform: Platform,
    base: FsPath,
    root: RepoPath<'_>,
    place: Result<FsPath, InvalidRepoPathError>,
)
    requires
        root@.len() == 0,
        base@.len() == 0,
        call_ensures(RepoPath::<'_>::to_fs_path_on, (&root, platform, &base), place),
    ensures
        place matches Ok(at) && at@ == seq![FsPart::CurDir],
{
    let names = path_model::components(root@);
    assert(names =~= Seq::<Seq<char>>::empty());
    assert(base@ + repo_path_fs::name_parts(names) =~= Seq::<FsPart>::empty());
}

/// A path that was converted to a relative one on disk is read back from it.
pub proof fn lemma_relative_path_read_back(
    platform: Platform,
    base: FsPath,
    path: RepoPath<'_>,
    place: Result<FsPath, InvalidRepoPathError>,
    r: Result<RepoPathBuf, RelativePathParseError>,
)
    requires
        path_model::valid_path(path@),
        base@.len() == 0,
        call_ensures(RepoPath::<'_>::to_fs_path_on, (&path, platform, &base), place),
        place is Ok,
        call_ensures(RepoPathBuf::from_relative_path_on, (platform, &place->Ok_0), r),
    ensures
        r is Ok && r->Ok_0@ == path@,
{
    let names = path_model::components(path@);
    assert(base@ + repo_path_fs::name_parts(names) =~= repo_path_fs::name_parts(names));
    repo_path_fs::lemma_relative_path_round_trip(path@);
}

/// A relative path is that of a file in the repository exactly if it is made of names. One
/// more name leads to the entry of that name. Any other component is refused and told.
pub proof fn lemma_relative_path_read(
    platform: Platform,
    dir: FsPath,
    name: Seq<char>,
    longer: FsPath,
    r: Result<RepoPathBuf, RelativePathParseError>,
    s: Result<RepoPathBuf, RelativePathParseError>,
)
    requires
        forall|i: int| 0 <= i < dir@.len() ==> !(#[trigger] dir@[i] is CurDir),
        longer@ == dir@.push(FsPart::Normal(name)),
        call_ensures(RepoPathBuf::from_relative_path_on, (platform, &dir), r),
        call_ensures(RepoPathBuf::from_relative_path_on, (platform, &longer), s),
    ensures
        r is Ok <==> forall|i: int| 0 <= i < dir@.len() ==> #[trigger] dir@[i] is Normal,
        s is Ok <==> r is Ok,
        r is Ok && dir@.len() == 0 ==> r->Ok_0@.len() == 0,
        r is Ok ==> s->Ok_0@ == if dir@.len() == 0 {
            name
        } else {
            r->Ok_0@ + seq!['/'] + name
        },
{
    assert forall|i: int| 0 <= i < longer@.len() implies !(#[trigger] longer@[i] is CurDir) by {
        if i < dir@.len() {
            assert(longer@[i] == dir@[i]);
        }
    }
    repo_path_fs::lemma_all_significant(dir@);
    repo_path_fs::lemma_all_significant(longer@);
    assert(dir@ != seq![FsPart::CurDir]) by {
        if dir@ == seq![FsPart::CurDir] {
            assert(dir@[0] is CurDir);
        }
    }
    assert(longer@ != seq![FsPart::CurDir]) by {
        if longer@ == seq![FsPart::CurDir] {
            assert(longer@[0] is CurDir);
        }
    }
    assert(longer@.drop_last() =~= dir@);
    lemma_leading_all(dir@);
    lemma_leading_all(longer@);
    let names = repo_path_fs::leading_names(dir@).0;
    if r is Ok {
        assert(repo_path_fs::leading_names(longer@).0 =~= names + seq![name]);
        assert(path_model::join_names(seq![name]) == name);
        if dir@.len() > 0 {
            path_model::lemma_join_append(names, seq![name]);
        } else {
            assert(names =~= Seq::<Seq<char>>::empty());
            assert(names + seq![name] =~= seq![name]);
        }
    }
}

proof fn lemma_leading_all(parts: Seq<FsPart>)
    ensures
        repo_path_fs::leading_names(parts).1 is None <==> forall|i: int|
            0 <= i < parts.len() ==> #[trigger] parts[i] is Normal,
        repo_path_fs::leading_names(parts).1 is None ==> repo_path_fs::leading_names(parts).0.len()
            == parts.len(),
        repo_path_fs::leading_names(parts).1 matches Some(part) ==> !(part is Normal),
    decreases parts.len(),
{
    if parts.len() > 0 {
        let before = parts.drop_last();
        lemma_leading_all(before);
        if forall|i: int| 0 <= i < parts.len() ==> #[trigger] parts[i] is Normal {
            assert forall|i: int| 0 <= i < before.len() implies #[trigger] before[i] is Normal by {
                assert(before[i] == parts[i]);
            }
            assert(parts[parts.len() - 1] is Normal);
        }
        if repo_path_fs::leading_names(parts).1 is None {
            assert forall|i: int| 0 <= i < parts.len() implies #[trigger] parts[i] is Normal by {
                if i < before.len() {
                    assert(before[i] == parts[i]);
                }
            }
        }
    }
}

/// Names behind a path stay as they are when it is normalized.
proof fn lemma_resolved_names(parts: Seq<FsPart>, names: Seq<Seq<char>>)
    ensures
        fs_path::resolved(parts + repo_path_fs::name_parts(names)) == fs_path::resolved(parts)
            + repo_path_fs::name_parts(names),
    decreases names.len(),
{
    let all = parts + repo_path_fs::name_parts(names);
    if names.len() == 0 {
        assert(all =~= parts);
        assert(fs_path::resolved(parts) + repo_path_fs::name_parts(names) =~= fs_path::resolved(
            parts,
        ));
    } else {
        let before = names.drop_last();
        lemma_resolved_names(parts, before);
        assert(all.drop_last() =~= parts + repo_path_fs::name_parts(before));
        assert(all.last() == FsPart::Normal(names.last()));
        assert(fs_path::resolved(parts) + repo_path_fs::name_parts(names) =~= (fs_path::resolved(
            parts,
        ) + repo_path_fs::name_parts(before)).push(FsPart::Normal(names.last())));
    }
}

/// A normalized path leads to where the path did: a `.` leads nowhere, and a `..` takes back
/// the name before it.
pub proof fn lemma_normalized_path(
    anchor: Seq<FsPart>,
    dir: Seq<Seq<char>>,
    name: Seq<char>,
    names: Seq<Seq<char>>,
    here: FsPath,
    back: FsPath,
    plain: FsPath,
    r_here: FsPath,
    r_back: FsPath,
    r_plain: FsPath,
)
    requires
        repo_path_fs::is_anchor(anchor),
        plain@ == repo_path_fs::absolute(anchor, dir + names),
        here@ == repo_path_fs::absolute(anchor, dir) + seq![FsPart::CurDir]
            + repo_path_fs::name_parts(names),
        back@ == repo_path_fs::absolute(anchor, dir.push(name)) + seq![FsPart::ParentDir]
            + repo_path_fs::name_parts(names),
        call_ensures(FsPath::normalize, (&plain,), r_plain),
        call_ensures(FsPath::normalize, (&here,), r_here),
        call_ensures(FsPath::normalize, (&back,), r_back),
    ensures
        r_plain@ == plain@,
        r_here@ == plain@,
        r_back@ == plain@,
{
    let abs_dir = repo_path_fs::absolute(anchor, dir);
    let abs_name = repo_path_fs::absolute(anchor, dir.push(name));
    repo_path_fs::lemma_nothing_to_resolve(anchor, dir + names);
    repo_path_fs::lemma_nothing_to_resolve(anchor, dir);
    repo_path_fs::lemma_nothing_to_resolve(anchor, dir.push(name));
    let x = abs_dir + seq![FsPart::CurDir];
    let y = abs_name + seq![FsPart::ParentDir];
    assert(x.drop_last() =~= abs_dir);
    assert(y.drop_last() =~= abs_name);
    assert(fs_path::resolved(x) == abs_dir);
    assert(abs_name.last() == FsPart::Normal(name));
    assert(abs_name.drop_last() =~= abs_dir);
    assert(fs_path::resolved(y) == abs_dir);
    lemma_resolved_names(x, names);
    lemma_resolved_names(y, names);
    assert(abs_dir + repo_path_fs::name_parts(names) =~= plain@);
}

/// A path that a user gives in a directory of the repository is that of the file to which it
/// leads: names lead below the directory, and `..` one level up.
pub proof fn lemma_path_given_in_directory(
    platform: Platform,
    anchor: Seq<FsPart>,
    base_names: Seq<Seq<char>>,
    dir: Seq<Seq<char>>,
    name: Seq<char>,
    names: Seq<Seq<char>>,
    base: FsPath,
    cwd: FsPath,
    sub_cwd: FsPath,
    below: FsPath,
    beside: FsPath,
    r: Result<RepoPathBuf, FsPathParseError>,
    s: Result<RepoPathBuf, FsPathParseError>,
)
    requires
        repo_path_fs::is_anchor(anchor),
        !fs_path::has_verbatim_prefix(anchor),
        base@ == repo_path_fs::absolute(anchor, base_names),
        cwd@ == repo_path_fs::absolute(anchor, base_names + dir),
        sub_cwd@ == repo_path_fs::absolute(anchor, (base_names + dir).push(name)),
        below@ == repo_path_fs::name_parts(names),
        beside@ == seq![FsPart::ParentDir] + repo_path_fs::name_parts(names),
        call_ensures(RepoPathBuf::parse_fs_path_on, (platform, &cwd, &base, &below), r),
        call_ensures(RepoPathBuf::parse_fs_path_on, (platform, &sub_cwd, &base, &beside), s),
    ensures
        r is Ok && r->Ok_0@ == path_model::join_names(dir + names),
        s is Ok && s->Ok_0@ == path_model::join_names(dir + names),
{
    let all = base_names + dir + names;
    let target = repo_path_fs::absolute(anchor, all);
    assert(all =~= base_names + (dir + names));
    assert(all.skip(base_names.len() as int) =~= dir + names);
    assert(base_names.is_prefix_of(all)) by {
        assert(all.subrange(0, base_names.len() as int) =~= base_names);
    }
    ui_round_trip::lemma_parsed_under_base(anchor, base_names, all);
    // below
    if names.len() > 0 {
        assert(below@[0] == FsPart::Normal(names[0]));
    }
    assert(cwd@[0] == anchor[0] && sub_cwd@[0] == anchor[0]);
    assert(fs_path::path_joined(cwd@, below@) =~= cwd@ + below@);
    assert(cwd@ + below@ =~= target);
    repo_path_fs::lemma_nothing_to_resolve(anchor, all);
    // beside
    assert(beside@[0] is ParentDir);
    assert(fs_path::path_joined(sub_cwd@, beside@) =~= sub_cwd@ + beside@);
    let x = sub_cwd@ + seq![FsPart::ParentDir];
    repo_path_fs::lemma_nothing_to_resolve(anchor, (base_names + dir).push(name));
    assert(x.drop_last() =~= sub_cwd@);
    assert(sub_cwd@.last() == FsPart::Normal(name));
    assert(sub_cwd@.drop_last() =~= cwd@);
    assert(fs_path::resolved(x) == cwd@);
    lemma_resolved_names(x, names);
    assert(sub_cwd@ + beside@ =~= x + repo_path_fs::name_parts(names));
    assert(fs_path::resolved(sub_cwd@ + beside@) =~= target);
}

/// A path that a user gives is refused exactly if it leads out of the repository.
pub proof fn lemma_path_given_outside(
    platform: Platform,
    anchor: Seq<FsPart>,
    base_names: Seq<Seq<char>>,
    names: Seq<Seq<char>>,
    cwd: FsPath,
    base: FsPath,
    input: FsPath,
    r: Result<RepoPathBuf, FsPathParseError>,
)
    requires
        repo_path_fs::is_anchor(anchor),
        cwd@.len() > 0 && cwd@[0] is Prefix ==> anchor[0] is Prefix,
        base@ == repo_path_fs::absolute(anchor, base_names),
        input@ == repo_path_fs::absolute(anchor, names),
        call_ensures(RepoPathBuf::parse_fs_path_on, (platform, &cwd, &base, &input), r),
    ensures
        r is Ok <==> base_names.is_prefix_of(names),
        r is Ok ==> r->Ok_0@ == path_model::join_names(names.skip(base_names.len() as int)),
        r is Err ==> r->Err_0.input@ == input@,
{
    assert(input@[0] == anchor[0]);
    assert(fs_path::path_joined(cwd@, input@) == input@);
    repo_path_fs::lemma_nothing_to_resolve(anchor, names);
    ui_round_trip::lemma_parsed_under_base(anchor, base_names, names);
}

/// A path on disk in a repository is read back as the path in the repository.
pub proof fn lemma_disk_path_read_back(
    platform: Platform,
    anchor: Seq<FsPart>,
    base_names: Seq<Seq<char>>,
    cwd: FsPath,
    base: FsPath,
    path: RepoPath<'_>,
    place: Result<FsPath, InvalidRepoPathError>,
    r: Result<RepoPathBuf, FsPathParseError>,
)
    requires
        path_model::valid_path(path@),
        repo_path_fs::is_anchor(anchor),
        cwd@.len() > 0 && cwd@[0] is Prefix ==> anchor[0] is Prefix,
        base@ == repo_path_fs::absolute(anchor, base_names),
        call_ensures(RepoPath::<'_>::to_fs_path_on, (&path, platform, &base), place),
        place is Ok,
        call_ensures(
            RepoPathBuf::parse_fs_path_on,
            (platform, &cwd, &base, &place->Ok_0),
            r,
        ),
    ensures
        r is Ok && r->Ok_0@ == path@,
{
    repo_path_fs::lemma_fs_path_round_trip(cwd@, anchor, base_names, path@);
}

/// What is shown of a file leads back to it when it is typed in at the same place.
pub proof fn lemma_shown_path_read_back(
    platform: Platform,
    converter: RepoPathUiConverter,
    cwd_anchor: Seq<FsPart>,
    cwd_names: Seq<Seq<char>>,
    base_anchor: Seq<FsPart>,
    base_names: Seq<Seq<char>>,
    file: RepoPath<'_>,
    shown: String,
    input: &str,
    r: Result<RepoPathBuf, UiPathParseError>,
)
    requires
        match converter {
            RepoPathUiConverter::Fs { cwd, base } => {
                &&& cwd@ == repo_path_fs::absolute(cwd_anchor, cwd_names)
                &&& base@ == repo_path_fs::absolute(base_anchor, base_names)
            },
        },
        repo_path_fs::is_anchor(cwd_anchor),
        repo_path_fs::is_anchor(base_anchor),
        cwd_anchor == base_anchor || platform == Platform::Windows && (ui_round_trip::is_drive_root(
            base_anchor,
        ) || ui_round_trip::is_share_root(base_anchor) || ui_round_trip::is_verbatim_root(
            base_anchor,
        )),
        ui_round_trip::entry_names(platform, base_names),
        path_model::valid_path(file@),
        ui_round_trip::entry_names(platform, path_model::components(file@)),
        call_ensures(
            RepoPathUiConverter::format_file_path_on,
            (&converter, platform, file),
            shown,
        ),
        input@ == shown@,
        call_ensures(
            RepoPathUiConverter::parse_file_path_on,
            (&converter, platform, input),
            r,
        ),
    ensures
        r is Ok && r->Ok_0@ == file@,
{
    ui_round_trip::lemma_shown_path_round_trip(
        platform,
        converter,
        cwd_anchor,
        cwd_names,
        base_anchor,
        base_names,
        file@,
    );
}

/// What two paths share in front are whole components with the separators behind them.
proof fn lemma_front_of_components(before: Seq<char>, after: Seq<char>, separator: char)
    ensures
        ({
            let n = ui_path::shared_front(before, after, separator);
            &&& 0 <= n <= before.len()
            &&& n <= after.len()
            &&& n == 0 || after[n - 1] == separator || before == after
        }),
    decreases before.len(),
{
    ui_path::lemma_shared_front(before, after, separator);
    if before.len() > 0 && after.len() > 0 {
        text::lemma_first_index(before, separator);
        text::lemma_first_index(after, separator);
        let ib = text::first_index(before, separator);
        let ia = text::first_index(after, separator);
        let pb = ui_path::cut_behind(before, separator);
        let pa = ui_path::cut_behind(after, separator);
        if pb[0] == pa[0] {
            if ib < before.len() {
                let rb = before.subrange(ib + 1, before.len() as int);
                assert(pb[0].len() == ib + 1);
                assert(pb[0][ib] == separator);
                if ia < after.len() {
                    let ra = after.subrange(ia + 1, after.len() as int);
                    assert(pa[0].len() == ia + 1);
                    lemma_front_of_components(rb, ra, separator);
                    assert(pb.drop_first() =~= ui_path::cut_behind(rb, separator));
                    assert(pa.drop_first() =~= ui_path::cut_behind(ra, separator));
                    let m = ui_path::shared_front(rb, ra, separator);
                    assert(ui_path::shared_front(before, after, separator) == ib + 1 + m);
                    if m == 0 {
                        assert(after[ia] == separator);
                    } else if rb == ra {
                        assert(before =~= pb[0] + rb);
                        assert(after =~= pa[0] + ra);
                    } else {
                        assert(after[ib + 1 + m - 1] == ra[m - 1]);
                    }
                } else {
                    assert(pa[0] == after);
                    assert(after[ib] == separator);
                }
            } else {
                assert(pb[0] == before);
                if ia < after.len() {
                    assert(pa[0][ia] == separator);
                    assert(before[ia] == separator);
                } else {
                    assert(pa[0] == after);
                }
            }
        }
    }
}

/// A copy is shown with what the paths share written once, in front and behind, and what
/// differs between braces. What is shared in front are whole components, and nothing is lost
/// of either path. A path that did not change is shown as it is.
pub proof fn lemma_copy_shown(before: &str, after: &str, separator: char, r: String)
    requires
        call_ensures(
            ui_path::collapse_copied_path,
            (Diff { before, after }, separator),
            r,
        ),
    ensures
        before@ == after@ ==> r@ == after@,
        before@ != after@ ==> exists|head: Seq<char>, old_part: Seq<char>, new_part: Seq<char>, tail: Seq<char>|
            #![trigger shown_parts(head, old_part, new_part, tail)]
            {
                &&& r@ == shown_parts(head, old_part, new_part, tail)
                &&& head.len() == 0 || head.last() == separator
                &&& before@ == head + old_part + tail || tail.len() > 0 && old_part.len() == 0
                    && before@ == head + tail.drop_first()
                &&& after@ == head + new_part + tail || tail.len() > 0 && new_part.len() == 0
                    && after@ == head + tail.drop_first()
            },
{
    let (b, a) = (before@, after@);
    ui_path::lemma_collapsed_same(a, separator);
    if b != a {
        let front = ui_path::shared_front(b, a, separator);
        let back = ui_path::shared_back(b, a, separator);
        lemma_front_of_components(b, a, separator);
        ui_path::lemma_collapsed_parts(b, a, separator);
        ui_path::lemma_shared_front(b, a, separator);
        let head = a.subrange(0, front);
        let tail = a.subrange(a.len() - back, a.len() as int);
        let old_part = ui_path::middle(b, front, back);
        let new_part = ui_path::middle(a, front, back);
        if b.len() == front && a.len() == front {
            assert(b.subrange(0, front) =~= b);
            assert(a.subrange(0, front) =~= a);
        }
        reveal_strlit("{");
        reveal_strlit(" => ");
        reveal_strlit("}");
        assert("{"@ =~= seq!['{'] && "}"@ =~= seq!['}']);
        assert(" => "@ =~= seq![' ', '=', '>', ' ']);
        assert(r@ =~= shown_parts(head, old_part, new_part, tail));
    }
}

/// Two paths in one text: what they share in front, what each has of its own, and what they
/// share behind.
pub open spec fn shown_parts(
    head: Seq<char>,
    old_part: Seq<char>,
    new_part: Seq<char>,
    tail: Seq<char>,
) -> Seq<char> {
    head + "{"@ + old_part + " => "@ + new_part + "}"@ + tail
}

/// A copy is shown as the two paths are shown.
pub proof fn lemma_copied_paths_shown(
    platform: Platform,
    converter: RepoPathUiConverter,
    before: RepoPath<'_>,
    after: RepoPath<'_>,
    shown_before: String,
    shown_after: String,
    text_before: &str,
    text_after: &str,
    separator: char,
    joint: String,
    r: String,
)
    requires
        call_ensures(
            RepoPathUiConverter::format_file_path_on,
            (&converter, platform, before),
            shown_before,
        ),
        call_ensures(
            RepoPathUiConverter::format_file_path_on,
            (&converter, platform, after),
            shown_after,
        ),
        text_before@ == shown_before@,
        text_after@ == shown_after@,
        call_ensures(Platform::main_separator, (platform,), separator),
        call_ensures(
            ui_path::collapse_copied_path,
            (Diff { before: text_before, after: text_after }, separator),
            joint,
        ),
        call_ensures(
            RepoPathUiConverter::format_copied_path_on,
            (&converter, platform, Diff { before, after }),
            r,
        ),
    ensures
        r@ == joint@,
{
}

/// A path behind another one leads on from it, if it starts with a name. If it starts at the
/// root, it stands for itself.
pub proof fn lemma_paths_put_together(
    dir: FsPath,
    names: Seq<Seq<char>>,
    below: FsPath,
    elsewhere: FsPath,
    r_below: FsPath,
    r_elsewhere: FsPath,
)
    requires
        below@ == repo_path_fs::name_parts(names),
        elsewhere@.len() > 0,
        elsewhere@[0] is RootDir,
        !(dir@.len() > 0 && dir@[0] is Prefix),
        call_ensures(FsPath::join, (&dir, &below), r_below),
        call_ensures(FsPath::join, (&dir, &elsewhere), r_elsewhere),
    ensures
        r_below@ == dir@ + below@,
        r_elsewhere@ == elsewhere@,
{
    if names.len() > 0 {
        assert(below@[0] == FsPart::Normal(names[0]));
    }
}

/// The parent of an entry is its directory. Below one of its directories, a path has what
/// leads on from there.
pub proof fn lemma_paths_taken_apart(
    dir: FsPath,
    name: Seq<char>,
    names: Seq<Seq<char>>,
    entry: FsPath,
    below: FsPath,
    parent: Option<FsPath>,
    rest: Option<FsPath>,
    other: FsPath,
    other_rest: Option<FsPath>,
)
    requires
        forall|i: int| 0 <= i < dir@.len() ==> !(#[trigger] dir@[i] is CurDir),
        forall|i: int| 0 <= i < other@.len() ==> !(#[trigger] other@[i] is CurDir),
        entry@ == dir@.push(FsPart::Normal(name)),
        below@ == dir@ + repo_path_fs::name_parts(names),
        !other@.is_prefix_of(below@),
        call_ensures(FsPath::parent, (&entry,), parent),
        call_ensures(FsPath::strip_prefix, (&below, &dir), rest),
        call_ensures(FsPath::strip_prefix, (&below, &other), other_rest),
    ensures
        parent is Some && parent->0@ == dir@,
        rest is Some && rest->0@ == repo_path_fs::name_parts(names),
        other_rest is None,
{
    assert forall|i: int| 0 <= i < entry@.len() implies !(#[trigger] entry@[i] is CurDir) by {
        if i < dir@.len() {
            assert(entry@[i] == dir@[i]);
        }
    }
    assert forall|i: int| 0 <= i < below@.len() implies !(#[trigger] below@[i] is CurDir) by {
        if i < dir@.len() {
            assert(below@[i] == dir@[i]);
        } else {
            assert(below@[i] == FsPart::Normal(names[i - dir@.len()]));
        }
    }
    repo_path_fs::lemma_all_significant(entry@);
    repo_path_fs::lemma_all_significant(below@);
    repo_path_fs::lemma_all_significant(dir@);
    repo_path_fs::lemma_all_significant(other@);
    assert(entry@.drop_last() =~= dir@);
    assert(dir@.is_prefix_of(below@)) by {
        assert(below@.subrange(0, dir@.len() as int) =~= dir@);
    }
    assert(below@.skip(dir@.len() as int) =~= repo_path_fs::name_parts(names));
}

/// A path is shown with its components in order, with a separator between two names. None is
/// doubled behind the root.
pub proof fn lemma_path_shown(
    dir: FsPath,
    last: FsPart,
    path: FsPath,
    separator: char,
    shown_dir: String,
    shown: String,
)
    requires
        path@ == dir@.push(last),
        call_ensures(FsPath::display, (&dir, separator), shown_dir),
        call_ensures(FsPath::display, (&path, separator), shown),
    ensures
        ({
            let end = match last {
                FsPart::Prefix(text) => text,
                FsPart::RootDir => seq![separator],
                FsPart::CurDir => "."@,
                FsPart::ParentDir => ".."@,
                FsPart::Normal(name) => name,
                FsPart::NonUnicode { shown, .. } => shown,
            };
            shown@ == if dir@.len() == 0 || dir@.last() is Prefix || dir@.last() is RootDir {
                shown_dir@ + end
            } else {
                shown_dir@ + seq![separator] + end
            }
        }),
        dir@.len() == 0 ==> shown_dir@.len() == 0,
{
    reveal_strlit(".");
    reveal_strlit("..");
    assert("."@ =~= seq!['.']);
    assert(".."@ =~= seq!['.', '.']);
    assert(path@.drop_last() =~= dir@);
    if dir@.len() > 0 {
        assert(path@[path@.len() - 2] == dir@.last());
    }
}

/// A `.` behind other components has no bearing on which path it is. Any other component has.
pub proof fn lemma_same_paths(
    dir: FsPath,
    here: FsPath,
    entry: FsPath,
    name: Seq<char>,
    same_here: bool,
    same_entry: bool,
)
    requires
        dir@.len() > 0,
        here@ == dir@.push(FsPart::CurDir),
        entry@ == dir@.push(FsPart::Normal(name)),
        call_ensures(FsPath::same_path, (&dir, &here), same_here),
        call_ensures(FsPath::same_path, (&dir, &entry), same_entry),
    ensures
        same_here,
        !same_entry,
{
    assert(here@.drop_last() =~= dir@);
    assert(entry@.drop_last() =~= dir@);
    assert(fs_path::significant(entry@).len() == fs_path::significant(dir@).len() + 1);
}

/// What a name in a path stands for.
pub open spec fn meant_by(name: Seq<char>) -> FsPart {
    if name == "."@ {
        FsPart::CurDir
    } else if name == ".."@ {
        FsPart::ParentDir
    } else {
        FsPart::Normal(name)
    }
}

proof fn lemma_names_meant(names: Seq<Seq<char>>, i: int)
    requires
        path_model::valid_names(names),
    ensures
        fs_path::later_parts(names).len() == names.len(),
        0 <= i < names.len() ==> fs_path::later_parts(names)[i] == meant_by(names[i]),
    decreases names.len(),
{
    if names.len() > 0 {
        let before = names.drop_last();
        assert forall|k: int| 0 <= k < before.len() implies path_model::valid_name(
            #[trigger] before[k],
        ) by {
            assert(before[k] == names[k]);
        }
        lemma_names_meant(before, i);
        let last = names[names.len() - 1];
        assert(path_model::valid_name(last));
        reveal_strlit(".");
        reveal_strlit("..");
        assert("."@ =~= seq!['.']);
        assert(".."@ =~= seq!['.', '.']);
        assert(fs_path::later_part(last) == Some(meant_by(last)));
        if 0 <= i < before.len() {
            assert(before[i] == names[i]);
        }
    }
}

/// An empty name in front stands for nothing.
proof fn lemma_empty_name_first(names: Seq<Seq<char>>)
    ensures
        fs_path::later_parts(seq![Seq::<char>::empty()] + names) == fs_path::later_parts(names),
    decreases names.len(),
{
    let all = seq![Seq::<char>::empty()] + names;
    if names.len() == 0 {
        assert(all.drop_last() =~= Seq::<Seq<char>>::empty());
        assert(all.last().len() == 0);
        assert(names =~= Seq::<Seq<char>>::empty());
    } else {
        lemma_empty_name_first(names.drop_last());
        assert(all.drop_last() =~= seq![Seq::<char>::empty()] + names.drop_last());
        assert(all.last() == names.last());
    }
}

/// A path on Unix is read name by name, with `.` and `..` for what they stand for. One that
/// starts with a separator starts at the root.
pub proof fn lemma_unix_path_read(
    names: Seq<Seq<char>>,
    text: &str,
    rooted: &str,
    r: FsPath,
    s: FsPath,
    i: int,
)
    requires
        path_model::valid_names(names),
        text@ == path_model::join_names(names),
        rooted@ == seq!['/'] + text@,
        call_ensures(FsPath::from_text_on, (Platform::Unix, text), r),
        call_ensures(FsPath::from_text_on, (Platform::Unix, rooted), s),
    ensures
        r@.len() == names.len(),
        0 <= i < names.len() ==> r@[i] == meant_by(names[i]),
        s@ == seq![FsPart::RootDir] + r@,
{
    path_model::lemma_components_of_join(names);
    lemma_names_meant(names, i);
    let t = text@;
    if names.len() > 0 {
        assert(path_model::valid_name(names[0]));
        assert(t[0] == names[0][0]);
        assert(names[0].contains(names[0][0]));
    }
    assert(r@ == fs_path::later_parts(names));
    let u = rooted@;
    assert(u[0] == '/');
    text::lemma_first_index_unique(u, '/', 0);
    assert(u.subrange(0, 0) =~= Seq::<char>::empty());
    assert(u.subrange(1, u.len() as int) =~= t);
    assert(path_model::components(u) =~= seq![Seq::<char>::empty()] + names);
    lemma_empty_name_first(names);
}

/// On Windows a path may start with a drive, whose letter counts in either case. All else is
/// read as on Unix, with either separator, unless two separators stand in front.
pub proof fn lemma_windows_path_read(
    letter: char,
    rest: &str,
    with_slashes: &str,
    on_drive: &str,
    r_rest: FsPath,
    r_slashes: FsPath,
    r_drive: FsPath,
)
    requires
        'a' <= letter <= 'z' || 'A' <= letter <= 'Z',
        on_drive@ == seq![letter, ':'] + rest@,
        with_slashes@.len() == rest@.len(),
        forall|i: int|
            0 <= i < rest@.len() ==> #[trigger] with_slashes@[i] == if rest@[i] == '\\' {
                '/'
            } else {
                rest@[i]
            },
        !(with_slashes@.len() >= 2 && with_slashes@[0] == '/' && with_slashes@[1] == '/'),
        !(rest@.len() >= 2 && rest@[1] == ':' && ('a' <= rest@[0] <= 'z' || 'A' <= rest@[0]
            <= 'Z')),
        call_ensures(FsPath::from_text_on, (Platform::Windows, rest), r_rest),
        call_ensures(FsPath::from_text_on, (Platform::Unix, with_slashes), r_slashes),
        call_ensures(FsPath::from_text_on, (Platform::Windows, on_drive), r_drive),
    ensures
        r_rest@ == r_slashes@,
        r_drive@.len() == r_slashes@.len() + 1,
        r_drive@.drop_first() == r_slashes@,
        r_drive@[0] matches FsPart::Prefix(drive) && {
            &&& drive.len() == 2
            &&& drive[1] == ':'
            &&& drive[0] as int == if 'a' <= letter <= 'z' {
                letter as int - 32
            } else {
                letter as int
            }
        },
{
    assert(with_slashes@ =~= fs_path::with_slashes(rest@));
    let d = on_drive@;
    assert(d[0] == letter && d[1] == ':');
    assert(d.skip(2) =~= rest@);
    assert(r_drive@.drop_first() =~= r_slashes@);
    let t = fs_path::with_slashes(rest@);
    if rest@.len() >= 2 {
        assert(t[0] == with_slashes@[0] && t[1] == with_slashes@[1]);
    }
}

/// Components are put at the end of a path as they are.
pub proof fn lemma_component_put_behind(
    path: &mut FsPath,
    part: FsComponent,
    named: &mut FsPath,
    name: &str,
    len: usize,
)
    requires
        call_ensures(FsPath::push_component, (path, part), ()),
        call_ensures(FsPath::push_normal, (named, name), ()),
        call_ensures(FsPath::len, (&*final(named),), len),
    ensures
        final(path)@ == old(path)@ + seq![part@],
        final(named)@ == old(named)@ + seq![FsPart::Normal(name@)],
        len == old(named)@.len() + 1,
{
    assert(old(path)@.push(part@) =~= old(path)@ + seq![part@]);
    assert(old(named)@.push(FsPart::Normal(name@)) =~= old(named)@ + seq![FsPart::Normal(name@)]);
}

/// A way up.
pub open spec fn ways_up(n: nat) -> Seq<FsPart> {
    Seq::new(n, |i: int| FsPart::ParentDir)
}

proof fn lemma_ways_up_stay(n: nat)
    ensures
        fs_path::resolved(ways_up(n)) == ways_up(n),
    decreases n,
{
    if n > 0 {
        let before = ways_up((n - 1) as nat);
        lemma_ways_up_stay((n - 1) as nat);
        assert(ways_up(n).drop_last() =~= before);
        assert(ways_up(n).last() is ParentDir);
        if n > 1 {
            assert(before.last() is ParentDir);
        }
        assert(before.push(FsPart::ParentDir) =~= ways_up(n));
    } else {
        assert(ways_up(n) =~= Seq::<FsPart>::empty());
    }
}

/// A normalized path leads as far up as the path did. One that leads nowhere is `.`.
pub proof fn lemma_normalized_way(
    n: nat,
    names: Seq<Seq<char>>,
    path: FsPath,
    r: FsPath,
    nothing: FsPath,
    r_nothing: FsPath,
)
    requires
        path@ == ways_up(n) + repo_path_fs::name_parts(names),
        nothing@.len() == 0,
        call_ensures(FsPath::normalize, (&path,), r),
        call_ensures(FsPath::normalize, (&nothing,), r_nothing),
    ensures
        path@.len() > 0 ==> r@ == path@,
        r_nothing@ == seq![FsPart::CurDir],
{
    lemma_ways_up_stay(n);
    lemma_resolved_names(ways_up(n), names);
    assert(nothing@ =~= Seq::<FsPart>::empty());
}

/// A path that starts at the root leads to the root of the drive on which it is given. One
/// that names a drive stands for itself.
pub proof fn lemma_paths_on_drive(
    dir: FsPath,
    rooted: FsPath,
    on_drive: FsPath,
    r_rooted: FsPath,
    r_drive: FsPath,
)
    requires
        dir@.len() > 0,
        dir@[0] is Prefix,
        !fs_path::is_verbatim(dir@[0]->Prefix_0),
        rooted@.len() > 0,
        rooted@[0] is RootDir,
        on_drive@.len() > 0,
        on_drive@[0] is Prefix,
        call_ensures(FsPath::join, (&dir, &rooted), r_rooted),
        call_ensures(FsPath::join, (&dir, &on_drive), r_drive),
    ensures
        r_rooted@.len() == rooted@.len() + 1,
        r_rooted@[0] == dir@[0],
        r_rooted@.drop_first() == rooted@,
        r_drive@ == on_drive@,
{
    assert(r_rooted@.drop_first() =~= rooted@);
}

/// Behind a verbatim prefix, paths are put together by where they lead: `..` takes back a
/// name but never the root, `.` leads nowhere, and the root is that of the prefix.
pub proof fn lemma_verbatim_paths(
    text: Seq<char>,
    root: FsPath,
    name: Seq<char>,
    dir: FsPath,
    up: FsPath,
    here: FsPath,
    top: FsPath,
    r_up: FsPath,
    r_root_up: FsPath,
    r_here: FsPath,
    r_top: FsPath,
)
    requires
        text.len() >= 4,
        text[0] == '\\' && text[1] == '\\' && text[2] == '?' && text[3] == '\\',
        root@ == seq![FsPart::Prefix(text), FsPart::RootDir],
        dir@ == root@.push(FsPart::Normal(name)),
        up@ == seq![FsPart::ParentDir],
        here@ == seq![FsPart::CurDir],
        top@ == seq![FsPart::RootDir],
        call_ensures(FsPath::join, (&dir, &up), r_up),
        call_ensures(FsPath::join, (&root, &up), r_root_up),
        call_ensures(FsPath::join, (&dir, &here), r_here),
        call_ensures(FsPath::join, (&dir, &top), r_top),
    ensures
        r_up@ == root@,
        r_root_up@ == root@,
        r_here@ == dir@,
        r_top@ == root@,
{
    assert(fs_path::is_verbatim(text));
    let none = Seq::<FsPart>::empty();
    assert(up@.drop_last() =~= none && here@.drop_last() =~= none && top@.drop_last() =~= none);
    assert(fs_path::verbatim_joined(dir@, none) == dir@);
    assert(fs_path::verbatim_joined(root@, none) == root@);
    assert(dir@.drop_last() =~= root@);
    assert(seq![dir@[0], FsPart::RootDir] =~= root@);
}

/// The letter of a drive counts in either case behind `\\?\` too.
pub proof fn lemma_verbatim_drive_read(
    lower: char,
    upper: char,
    rest: Seq<char>,
    small: &str,
    large: &str,
    r: FsPath,
    s: FsPath,
)
    requires
        'a' <= lower <= 'z',
        upper as int == lower as int - 32,
        rest.len() > 0 ==> rest[0] == '\\',
        small@ == seq!['\\', '\\', '?', '\\', lower, ':'] + rest,
        large@ == seq!['\\', '\\', '?', '\\', upper, ':'] + rest,
        call_ensures(FsPath::from_text_on, (Platform::Windows, small), r),
        call_ensures(FsPath::from_text_on, (Platform::Windows, large), s),
    ensures
        r@ == s@,
        s@.len() >= 2,
        s@[0] == FsPart::Prefix(seq!['\\', '\\', '?', '\\', upper, ':']),
        s@[1] is RootDir,
{
    let a = small@;
    let b = large@;
    assert(a.skip(4) =~= seq![lower, ':'] + rest);
    assert(b.skip(4) =~= seq![upper, ':'] + rest);
    text::lemma_first_index(a.skip(4), '\\');
    text::lemma_first_index(b.skip(4), '\\');
    if rest.len() > 0 {
        text::lemma_first_index_unique(a.skip(4), '\\', 2);
        text::lemma_first_index_unique(b.skip(4), '\\', 2);
    }
    assert(fs_path::verbatim_len(a) == 6);
    assert(fs_path::verbatim_len(b) == 6);
    assert(a.skip(6) =~= rest);
    assert(b.skip(6) =~= rest);
    assert(a.take(4) + fs_path::drive(a[4]) =~= seq!['\\', '\\', '?', '\\', upper, ':']);
    assert(b.take(4) + fs_path::drive(b[4]) =~= seq!['\\', '\\', '?', '\\', upper, ':']);
}

/// Where a path that a user gives is refused, they are told the way from where they are to
/// the repository.
pub proof fn lemma_refused_path_told(
    platform: Platform,
    cwd: FsPath,
    base: FsPath,
    input: FsPath,
    way: FsPath,
    r: Result<RepoPathBuf, FsPathParseError>,
)
    requires
        call_ensures(FsPath::relative_path, (&cwd, &base), way),
        call_ensures(RepoPathBuf::parse_fs_path_on, (platform, &cwd, &base, &input), r),
    ensures
        r is Err ==> r->Err_0.base@ == way@ && r->Err_0.input@ == input@,
{
}

/// A `.` in a path leads nowhere and is left out, except at its start. All else stays.
pub proof fn lemma_current_directory_left_out(
    front: FsPath,
    part: FsPart,
    with_dot: FsPath,
    longer: FsPath,
    r_front: FsPath,
    r_dot: FsPath,
    r_longer: FsPath,
)
    requires
        front@.len() > 0,
        !(part is CurDir),
        with_dot@ == front@.push(FsPart::CurDir),
        longer@ == front@.push(part),
        call_ensures(FsPath::to_significant, (&front,), r_front),
        call_ensures(FsPath::to_significant, (&with_dot,), r_dot),
        call_ensures(FsPath::to_significant, (&longer,), r_longer),
    ensures
        r_dot@ == r_front@,
        r_longer@ == r_front@.push(part),
        front@.len() == 1 ==> r_front@ == front@,
{
    assert(with_dot@.drop_last() =~= front@);
    assert(longer@.drop_last() =~= front@);
    if front@.len() == 1 {
        assert(front@.drop_last() =~= Seq::<FsPart>::empty());
        assert(fs_path::significant(front@.drop_last()) =~= Seq::<FsPart>::empty());
        assert(Seq::<FsPart>::empty().push(front@[0]) =~= front@);
    }
}

/// A name put at the end of a path is a component for what it means. An empty one is none.
pub proof fn lemma_name_put_behind(path: &mut FsPath, name: &str)
    requires
        call_ensures(FsPath::push_name, (path, name), ()),
    ensures
        name@.len() == 0 ==> final(path)@ == old(path)@,
        name@.len() > 0 ==> final(path)@ == old(path)@.push(meant_by(name@)),
{
    reveal_strlit(".");
    reveal_strlit("..");
    assert("."@ =~= seq!['.']);
    assert(".."@ =~= seq!['.', '.']);
}

} // verus!
