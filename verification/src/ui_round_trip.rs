//! A path that is shown to the user leads back to its file when the user types it in.

use vstd::prelude::*;

use crate::fs_path;
use crate::fs_path::FsPart;
use crate::fs_path::FsPath;
use crate::path_model;
use crate::platform::Platform;
use crate::repo_path;
use crate::repo_path_fs;
use crate::repo_path_fs::RelativeReading;
use crate::text;
use crate::ui_path::RepoPathUiConverter;

verus! {

/// So many times `..`.
spec fn ups(n: nat) -> Seq<FsPart> {
    Seq::new(n, |i: int| FsPart::ParentDir)
}

/// What is written for so many times `..` with names behind.
spec fn way_texts(n: nat, names: Seq<Seq<char>>) -> Seq<Seq<char>> {
    Seq::new(n, |i: int| seq!['.', '.']) + names
}

/// The way between two absolute paths.
spec fn way(from: Seq<Seq<char>>, to: Seq<Seq<char>>) -> Seq<FsPart> {
    let shared = repo_path::common_len(from, to);
    if shared == from.len() && shared == to.len() {
        seq![FsPart::CurDir]
    } else {
        ups((from.len() - shared) as nat) + repo_path_fs::name_parts(to.skip(shared))
    }
}

/// All names are those of directory entries on a platform.
pub open spec fn entry_names(platform: Platform, names: Seq<Seq<char>>) -> bool {
    forall|i: int|
        0 <= i < names.len() ==> repo_path_fs::valid_fs_name(platform, #[trigger] names[i])
}

/// A text that can name a server or one of its shares.
pub open spec fn is_share_name(name: Seq<char>) -> bool {
    name.len() > 0 && !name.contains('/') && !name.contains('\\')
}

/// How a share of a server is written. A server `?` is written with slashes, since
/// the prefix is verbatim otherwise.
pub open spec fn share_text(server: Seq<char>, share: Seq<char>) -> Seq<char> {
    if server == seq!['?'] {
        seq!['/', '/'] + server + seq!['/'] + share
    } else {
        seq!['\\', '\\'] + server + seq!['\\'] + share
    }
}

/// The root of a share of a server.
pub open spec fn is_share_root(anchor: Seq<FsPart>) -> bool {
    exists|server: Seq<char>, share: Seq<char>| #[trigger]
        is_share_name(server) && #[trigger] is_share_name(share) && anchor == seq![
            FsPart::Prefix(share_text(server, share)),
            FsPart::RootDir,
        ]
}

/// A name that can stand behind `\\?\`. A drive is in upper case.
pub open spec fn is_verbatim_name(name: Seq<char>) -> bool {
    &&& !name.contains('\\')
    &&& name != seq!['U', 'N', 'C']
    &&& name.len() == 2 && fs_path::starts_with_drive(name) ==> name == fs_path::drive(name[0])
}

/// How a verbatim prefix is written.
pub open spec fn verbatim_text(name: Seq<char>) -> Seq<char> {
    seq!['\\', '\\', '?', '\\'] + name
}

/// How a share of a server is written in a verbatim prefix.
pub open spec fn verbatim_share(server: Seq<char>, share: Seq<char>) -> Seq<char> {
    seq!['U', 'N', 'C', '\\'] + server + seq!['\\'] + share
}

/// The root of a verbatim path on a drive, or on what another name stands for.
pub open spec fn is_verbatim_name_root(anchor: Seq<FsPart>) -> bool {
    exists|name: Seq<char>| #[trigger]
        is_verbatim_name(name) && anchor == seq![
            FsPart::Prefix(verbatim_text(name)),
            FsPart::RootDir,
        ]
}

/// The root of a verbatim path on a share of a server.
pub open spec fn is_verbatim_share_root(anchor: Seq<FsPart>) -> bool {
    exists|server: Seq<char>, share: Seq<char>| #[trigger]
        is_share_name(server) && #[trigger] is_share_name(share) && anchor == seq![
            FsPart::Prefix(verbatim_text(verbatim_share(server, share))),
            FsPart::RootDir,
        ]
}

/// The root of a verbatim path.
pub open spec fn is_verbatim_root(anchor: Seq<FsPart>) -> bool {
    is_verbatim_name_root(anchor) || is_verbatim_share_root(anchor)
}

/// The root of a drive.
pub open spec fn is_drive_root(anchor: Seq<FsPart>) -> bool {
    exists|letter: char| #[trigger]
        fs_path::is_drive_letter(letter) && anchor == seq![
            FsPart::Prefix(fs_path::drive(letter)),
            FsPart::RootDir,
        ]
}

proof fn lemma_absolute_significant(anchor: Seq<FsPart>, names: Seq<Seq<char>>)
    requires
        repo_path_fs::is_anchor(anchor),
    ensures
        fs_path::significant(repo_path_fs::absolute(anchor, names)) == repo_path_fs::absolute(
            anchor,
            names,
        ),
        fs_path::trimmed_back(repo_path_fs::name_parts(names)) == repo_path_fs::name_parts(names),
{
    let parts = repo_path_fs::name_parts(names);
    assert(repo_path_fs::no_cur_dir(parts));
    assert(repo_path_fs::no_cur_dir(repo_path_fs::absolute(anchor, names)));
    repo_path_fs::lemma_all_significant(repo_path_fs::absolute(anchor, names));
    repo_path_fs::lemma_all_significant(parts);
}

/// The way goes up to the closest common directory, and down from there.
proof fn lemma_way(anchor: Seq<FsPart>, from: Seq<Seq<char>>, to: Seq<Seq<char>>, k: int)
    requires
        repo_path_fs::is_anchor(anchor),
        repo_path::common_len(from, to) <= k <= from.len(),
    ensures
        fs_path::way_from(
            repo_path_fs::absolute(anchor, from.take(k)),
            repo_path_fs::absolute(anchor, to),
            (from.len() - k) as nat,
        ) == way(from, to),
    decreases k,
{
    let shared = repo_path::common_len(from, to);
    repo_path::lemma_common_len(from, to);
    lemma_absolute_significant(anchor, to);
    let a = anchor.len() as int;
    let here = repo_path_fs::absolute(anchor, from.take(k));
    let there = repo_path_fs::absolute(anchor, to);
    let n = (from.len() - k) as nat;
    if k == shared {
        assert(from.take(k) =~= to.take(k));
        assert(here =~= there.subrange(0, here.len() as int));
        assert(there =~= here + repo_path_fs::name_parts(to.skip(k)));
        assert(repo_path_fs::no_cur_dir(here));
        assert(repo_path_fs::no_cur_dir(repo_path_fs::name_parts(to.skip(k))));
        repo_path_fs::lemma_rest_after(here, repo_path_fs::name_parts(to.skip(k)));
        lemma_absolute_significant(anchor, to.skip(k));
        let suffix = repo_path_fs::name_parts(to.skip(k));
        assert(Seq::new(n, |i: int| FsPart::ParentDir) =~= ups(n));
        if suffix.len() > 0 {
            assert(suffix[0] is Normal);
        } else {
            assert(ups(n) + suffix =~= ups(n));
        }
    } else {
        if here.is_prefix_of(there) {
            assert(here[shared + a] == there.subrange(0, here.len() as int)[shared + a]);
            assert(here[shared + a] == FsPart::Normal(from[shared]));
            assert(there[shared + a] == FsPart::Normal(to[shared]));
        }
        assert(here.last() == FsPart::Normal(from[k - 1]));
        assert(here.drop_last() =~= repo_path_fs::absolute(anchor, from.take(k - 1)));
        lemma_way(anchor, from, to, k - 1);
    }
}

/// Where two absolute paths start differently, there is no way between them but
/// the whole path.
proof fn lemma_no_way(
    anchor: Seq<FsPart>,
    from: Seq<Seq<char>>,
    other: Seq<FsPart>,
    to: Seq<Seq<char>>,
    ups: nat,
)
    requires
        repo_path_fs::is_anchor(anchor),
        repo_path_fs::is_anchor(other),
        anchor != other,
    ensures
        fs_path::way_from(
            repo_path_fs::absolute(anchor, from),
            repo_path_fs::absolute(other, to),
            ups,
        ) == repo_path_fs::absolute(other, to),
    decreases from.len(),
{
    let here = repo_path_fs::absolute(anchor, from);
    let there = repo_path_fs::absolute(other, to);
    lemma_absolute_significant(other, to);
    assert(anchor[0] != other[0]) by {
        if anchor[0] == other[0] {
            assert(anchor =~= other);
        }
    }
    assert(here[0] == anchor[0] && there[0] == other[0]);
    if here.is_prefix_of(there) {
        assert(here[0] == there.subrange(0, here.len() as int)[0]);
    }
    if from.len() > 0 {
        assert(here.last() == FsPart::Normal(from.last()));
        assert(here.drop_last() =~= repo_path_fs::absolute(anchor, from.drop_last()));
        lemma_no_way(anchor, from.drop_last(), other, to, ups + 1);
    } else {
        assert(here =~= anchor);
        assert(here.last() is RootDir);
    }
}

/// One more name behind others.
proof fn lemma_join_last(names: Seq<Seq<char>>, name: Seq<char>)
    ensures
        path_model::join_names(names.push(name)) == if names.len() == 0 {
            name
        } else {
            path_model::join_names(names) + seq!['/'] + name
        },
{
    assert(names.push(name) =~= names + seq![name]);
    if names.len() > 0 {
        path_model::lemma_join_append(names, seq![name]);
    }
}

/// How a way is written, and that it is read back.
proof fn lemma_way_text(n: nat, names: Seq<Seq<char>>)
    requires
        entry_names(Platform::Unix, names),
    ensures
        fs_path::path_text(ups(n) + repo_path_fs::name_parts(names), '/')
            == path_model::join_names(way_texts(n, names)),
        fs_path::later_parts(way_texts(n, names)) == ups(n) + repo_path_fs::name_parts(names),
    decreases n + names.len(),
{
    let parts = ups(n) + repo_path_fs::name_parts(names);
    let texts = way_texts(n, names);
    if names.len() > 0 {
        let before = names.drop_last();
        lemma_way_text(n, before);
        assert(parts.drop_last() =~= ups(n) + repo_path_fs::name_parts(before));
        assert(parts.last() == FsPart::Normal(names.last()));
        assert(texts.drop_last() =~= way_texts(n, before));
        assert(texts.last() == names.last());
        assert(texts =~= way_texts(n, before).push(names.last()));
        lemma_join_last(way_texts(n, before), names.last());
        assert(repo_path_fs::valid_fs_name(Platform::Unix, names[names.len() - 1]));
        assert(parts.drop_last().push(parts.last()) =~= parts);
        if parts.len() == 1 {
            assert(fs_path::path_text(parts.drop_last(), '/') =~= Seq::empty());
            assert(Seq::<char>::empty() + names.last() =~= names.last());
        } else {
            lemma_no_root(n, names, parts.len() - 2);
        }
    } else if n > 0 {
        let m = (n - 1) as nat;
        lemma_way_text(m, names);
        assert(repo_path_fs::name_parts(names) =~= Seq::empty());
        assert(parts.drop_last() =~= ups(m) + repo_path_fs::name_parts(names));
        assert(parts.last() == FsPart::ParentDir);
        assert(texts.drop_last() =~= way_texts(m, names));
        assert(texts.last() == seq!['.', '.']);
        assert(texts =~= way_texts(m, names).push(seq!['.', '.']));
        lemma_join_last(way_texts(m, names), seq!['.', '.']);
        assert(seq!['.', '.'] != seq!['.']) by {
            assert(seq!['.', '.'].len() == 2);
        }
        assert(parts.drop_last().push(parts.last()) =~= parts);
        if parts.len() == 1 {
            assert(fs_path::path_text(parts.drop_last(), '/') =~= Seq::empty());
            assert(Seq::<char>::empty() + seq!['.', '.'] =~= seq!['.', '.']);
        } else {
            lemma_no_root(n, names, parts.len() - 2);
        }
    } else {
        assert(parts =~= Seq::empty());
        assert(texts =~= Seq::empty());
    }
}

proof fn lemma_no_root(n: nat, names: Seq<Seq<char>>, i: int)
    requires
        0 <= i < n + names.len(),
    ensures
        ({
            let part = (ups(n) + repo_path_fs::name_parts(names))[i];
            part is ParentDir || part is Normal
        }),
{
}

/// A way is read back from its text.
proof fn lemma_way_read(n: nat, names: Seq<Seq<char>>)
    requires
        entry_names(Platform::Unix, names),
        n + names.len() > 0,
    ensures
        ({
            let parts = ups(n) + repo_path_fs::name_parts(names);
            fs_path::slash_parts(fs_path::path_text(parts, '/')) == parts
        }),
{
    let parts = ups(n) + repo_path_fs::name_parts(names);
    let texts = way_texts(n, names);
    let s = path_model::join_names(texts);
    lemma_way_text(n, names);
    assert forall|i: int| 0 <= i < texts.len() implies path_model::valid_name(
        #[trigger] texts[i],
    ) by {
        if i >= n {
            assert(repo_path_fs::valid_fs_name(Platform::Unix, names[i - n]));
            assert(texts[i] == names[i - n]);
        } else {
            assert(texts[i] == seq!['.', '.']);
            assert(!seq!['.', '.'].contains('/'));
        }
    }
    path_model::lemma_components_of_join(texts);
    assert(path_model::components(s) == texts);
    assert(s.len() > 0);
    assert(path_model::valid_path(s));
    assert(s[0] != '/');
}

/// Going up from a directory and down again.
proof fn lemma_resolved_way(
    anchor: Seq<FsPart>,
    from: Seq<Seq<char>>,
    n: nat,
    names: Seq<Seq<char>>,
)
    requires
        repo_path_fs::is_anchor(anchor),
        n <= from.len(),
    ensures
        fs_path::resolved(
            repo_path_fs::absolute(anchor, from) + ups(n) + repo_path_fs::name_parts(names),
        ) == repo_path_fs::absolute(anchor, from.take(from.len() - n) + names),
    decreases n + names.len(),
{
    let parts = repo_path_fs::absolute(anchor, from) + ups(n) + repo_path_fs::name_parts(names);
    if names.len() > 0 {
        let before = names.drop_last();
        lemma_resolved_way(anchor, from, n, before);
        assert(parts.drop_last() =~= repo_path_fs::absolute(anchor, from) + ups(n)
            + repo_path_fs::name_parts(before));
        assert(parts.last() == FsPart::Normal(names.last()));
        let kept = from.take(from.len() - n);
        assert(repo_path_fs::absolute(anchor, kept + before).push(FsPart::Normal(names.last()))
            =~= repo_path_fs::absolute(anchor, kept + names));
    } else if n > 0 {
        let m = (n - 1) as nat;
        lemma_resolved_way(anchor, from, m, names);
        assert(repo_path_fs::name_parts(names) =~= Seq::empty());
        assert(parts.drop_last() =~= repo_path_fs::absolute(anchor, from) + ups(m)
            + repo_path_fs::name_parts(names));
        assert(parts.last() == FsPart::ParentDir);
        let kept = from.take(from.len() - m);
        assert(kept + names =~= kept);
        assert(from.take(from.len() - n) + names =~= kept.drop_last());
        assert(repo_path_fs::absolute(anchor, kept).last() == FsPart::Normal(kept.last()));
        assert(repo_path_fs::absolute(anchor, kept).drop_last() =~= repo_path_fs::absolute(
            anchor,
            kept.drop_last(),
        ));
    } else {
        assert(parts =~= repo_path_fs::absolute(anchor, from));
        assert(from.take(from.len() as int) + names =~= from);
        repo_path_fs::lemma_nothing_to_resolve(anchor, from);
    }
}

/// Names of directory entries stand for themselves.
proof fn lemma_later_names(names: Seq<Seq<char>>)
    requires
        entry_names(Platform::Unix, names),
    ensures
        fs_path::later_parts(names) == repo_path_fs::name_parts(names),
{
    lemma_way_text(0, names);
    assert(way_texts(0, names) =~= names);
    assert(ups(0) + repo_path_fs::name_parts(names) =~= repo_path_fs::name_parts(names));
}

/// An empty name in front stands for nothing.
proof fn lemma_empty_name(names: Seq<Seq<char>>)
    ensures
        fs_path::later_parts(seq![Seq::empty()] + names) == fs_path::later_parts(names),
    decreases names.len(),
{
    let all = seq![Seq::<char>::empty()] + names;
    if names.len() == 0 {
        assert(all.drop_last() =~= Seq::empty());
        assert(all.last().len() == 0);
        assert(fs_path::later_parts(all.drop_last()) =~= Seq::empty());
        assert(fs_path::later_parts(names) =~= Seq::empty());
        assert(fs_path::later_part(all.last()) is None);
    } else {
        lemma_empty_name(names.drop_last());
        assert(all.drop_last() =~= seq![Seq::empty()] + names.drop_last());
        assert(all.last() == names.last());
    }
}

/// How an absolute path is written.
proof fn lemma_absolute_text(anchor: Seq<FsPart>, names: Seq<Seq<char>>, separator: char)
    requires
        repo_path_fs::is_anchor(anchor),
    ensures
        fs_path::path_text(repo_path_fs::absolute(anchor, names), separator) == fs_path::path_text(
            anchor,
            separator,
        ) + fs_path::path_text(repo_path_fs::name_parts(names), separator),
    decreases names.len(),
{
    let parts = repo_path_fs::absolute(anchor, names);
    let tail = repo_path_fs::name_parts(names);
    if names.len() == 0 {
        assert(parts =~= anchor);
        assert(fs_path::path_text(tail, separator) =~= Seq::empty());
        assert(fs_path::path_text(anchor, separator) + Seq::empty() =~= fs_path::path_text(
            anchor,
            separator,
        ));
    } else {
        lemma_absolute_text(anchor, names.drop_last(), separator);
        assert(parts.drop_last() =~= repo_path_fs::absolute(anchor, names.drop_last()));
        assert(tail.drop_last() =~= repo_path_fs::name_parts(names.drop_last()));
        assert(parts.last() == tail.last());
        let front = fs_path::path_text(anchor, separator);
        let before = fs_path::path_text(tail.drop_last(), separator);
        let last = fs_path::part_text(tail.last(), separator);
        if names.len() == 1 {
            assert(parts[parts.len() - 2] == anchor.last());
            assert(before =~= Seq::empty());
            assert((front + before) + last =~= front + (before + last));
        } else {
            assert(parts[parts.len() - 2] == FsPart::Normal(names[names.len() - 2]));
            assert(tail[tail.len() - 2] == FsPart::Normal(names[names.len() - 2]));
            assert((front + before) + seq![separator] + last =~= front + (before
                + seq![separator] + last));
        }
    }
}

/// A path with a root in front is read back from its text.
proof fn lemma_rooted_read(names: Seq<Seq<char>>)
    requires
        entry_names(Platform::Unix, names),
    ensures
        ({
            let parts = repo_path_fs::absolute(seq![FsPart::RootDir], names);
            fs_path::slash_parts(fs_path::path_text(parts, '/')) == parts
        }),
{
    let root = seq![FsPart::RootDir];
    let parts = repo_path_fs::absolute(root, names);
    lemma_absolute_text(root, names, '/');
    lemma_root_text('/');
    lemma_way_text(0, names);
    lemma_later_names(names);
    assert(way_texts(0, names) =~= names);
    assert(ups(0) + repo_path_fs::name_parts(names) =~= repo_path_fs::name_parts(names));
    let t = path_model::join_names(names);
    let s = fs_path::path_text(parts, '/');
    assert(s == seq!['/'] + t);
    assert forall|i: int| 0 <= i < names.len() implies path_model::valid_name(
        #[trigger] names[i],
    ) by {
        assert(repo_path_fs::valid_fs_name(Platform::Unix, names[i]));
    }
    path_model::lemma_components_of_join(names);
    text::lemma_first_index_unique(s, '/', 0);
    assert(s.subrange(0, 0) =~= Seq::empty());
    assert(s.subrange(1, s.len() as int) =~= t);
    assert(path_model::components(s) == seq![Seq::<char>::empty()] + names);
    lemma_empty_name(names);
}

/// How the root is written.
proof fn lemma_root_text(separator: char)
    ensures
        fs_path::path_text(seq![FsPart::RootDir], separator) == seq![separator],
{
    let root = seq![FsPart::RootDir];
    assert(root.drop_last() =~= Seq::empty());
    assert(fs_path::path_text(root.drop_last(), separator) =~= Seq::empty());
    assert(Seq::<char>::empty() + seq![separator] =~= seq![separator]);
}

/// Components that are written without any backslash.
spec fn no_backslash(parts: Seq<FsPart>) -> bool {
    forall|i: int|
        0 <= i < parts.len() ==> match #[trigger] parts[i] {
            FsPart::Prefix(_) | FsPart::NonUnicode { .. } => false,
            FsPart::Normal(name) => !name.contains('\\'),
            _ => true,
        }
}

/// Text without any backslash stays the same.
proof fn lemma_slashes_already(s: Seq<char>)
    requires
        !s.contains('\\'),
    ensures
        fs_path::with_slashes(s) == s,
{
    assert forall|i: int| 0 <= i < s.len() implies fs_path::with_slashes(s)[i] == s[i] by {
        assert(s.contains(s[i]));
    }
    assert(fs_path::with_slashes(s) =~= s);
}

/// Only the separators differ between a path written with backslashes and one
/// written with slashes.
proof fn lemma_slashes(parts: Seq<FsPart>)
    requires
        no_backslash(parts),
    ensures
        fs_path::with_slashes(fs_path::path_text(parts, '\\')) == fs_path::path_text(parts, '/'),
    decreases parts.len(),
{
    if parts.len() == 0 {
        assert(fs_path::with_slashes(Seq::empty()) =~= Seq::empty());
    } else {
        let front = parts.drop_last();
        assert forall|i: int| 0 <= i < front.len() implies match #[trigger] front[i] {
            FsPart::Prefix(_) | FsPart::NonUnicode { .. } => false,
            FsPart::Normal(name) => !name.contains('\\'),
            _ => true,
        } by {
            assert(front[i] == parts[i]);
        }
        lemma_slashes(front);
        let before = fs_path::path_text(front, '\\');
        let last = fs_path::part_text(parts.last(), '\\');
        assert(parts.last() == parts[parts.len() - 1]);
        assert(fs_path::with_slashes(last) == fs_path::part_text(parts.last(), '/')) by {
            if parts.last() is RootDir {
                assert(fs_path::with_slashes(last) =~= seq!['/']);
            } else {
                assert(!seq!['.'].contains('\\'));
                assert(!seq!['.', '.'].contains('\\'));
                lemma_slashes_already(last);
            }
        }
        assert(fs_path::with_slashes(before + last) =~= fs_path::with_slashes(before)
            + fs_path::with_slashes(last));
        assert(fs_path::with_slashes(before + seq!['\\'] + last) =~= fs_path::with_slashes(before)
            + seq!['/'] + fs_path::with_slashes(last));
    }
}

/// What a path starts with when it is written.
proof fn lemma_text_front(parts: Seq<FsPart>, separator: char)
    requires
        parts.len() > 0,
        !(parts[0] is Prefix),
        !(parts[0] is RootDir),
    ensures
        ({
            let s = fs_path::path_text(parts, separator);
            let first = fs_path::part_text(parts[0], separator);
            &&& first.len() <= s.len()
            &&& s.take(first.len() as int) == first
            &&& s.len() > first.len() ==> s[first.len() as int] == separator
        }),
    decreases parts.len(),
{
    let s = fs_path::path_text(parts, separator);
    let first = fs_path::part_text(parts[0], separator);
    let before = fs_path::path_text(parts.drop_last(), separator);
    if parts.len() == 1 {
        assert(parts.drop_last() =~= Seq::empty());
        assert(before =~= Seq::empty());
        assert(s =~= first);
        assert(s.take(first.len() as int) =~= first);
    } else {
        assert(parts.drop_last()[0] == parts[0]);
        lemma_text_front(parts.drop_last(), separator);
        let last = fs_path::part_text(parts.last(), separator);
        assert(s.take(first.len() as int) =~= before.take(first.len() as int));
        if before.len() == first.len() {
            assert(before =~= before.take(first.len() as int));
            if parts.len() > 2 {
                lemma_grows(parts.drop_last(), separator);
            }
        } else {
            assert(s[first.len() as int] == before[first.len() as int]);
        }
    }
}

/// A path of several components is longer than its first one, if that is not
/// what the path is anchored at.
proof fn lemma_grows(parts: Seq<FsPart>, separator: char)
    requires
        parts.len() > 1,
        !(parts[0] is Prefix),
        !(parts[0] is RootDir),
    ensures
        fs_path::path_text(parts, separator).len() > fs_path::part_text(parts[0], separator).len(),
    decreases parts.len(),
{
    let front = parts.drop_last();
    assert(front[0] == parts[0]);
    if parts.len() == 2 {
        assert(parts[parts.len() - 2] == parts[0]);
        assert(front.drop_last() =~= Seq::empty());
        assert(fs_path::path_text(front.drop_last(), separator) =~= Seq::empty());
        assert(fs_path::path_text(front, separator) =~= fs_path::part_text(parts[0], separator));
    } else {
        lemma_grows(front, separator);
    }
}

/// A way of at least one component is read back from its text on any platform.
proof fn lemma_way_read_on(platform: Platform, n: nat, names: Seq<Seq<char>>)
    requires
        entry_names(platform, names),
        n + names.len() > 0,
    ensures
        ({
            let parts = ups(n) + repo_path_fs::name_parts(names);
            fs_path::text_parts(platform, fs_path::path_text(parts, platform.separator())) == parts
        }),
{
    let parts = ups(n) + repo_path_fs::name_parts(names);
    lemma_entries_everywhere(platform, names);
    lemma_way_read(n, names);
    if platform == Platform::Windows {
        let s = fs_path::path_text(parts, '\\');
        assert(no_backslash(parts)) by {
            assert forall|i: int| 0 <= i < parts.len() implies match #[trigger] parts[i] {
                FsPart::Prefix(_) | FsPart::NonUnicode { .. } => false,
                FsPart::Normal(name) => !name.contains('\\'),
                _ => true,
            } by {
                if i >= n {
                    assert(parts[i] == FsPart::Normal(names[i - n]));
                    assert(repo_path_fs::valid_fs_name(platform, names[i - n]));
                }
            }
        }
        lemma_slashes(parts);
        let first = fs_path::part_text(parts[0], '\\');
        if n > 0 {
            assert(parts[0] == FsPart::ParentDir);
        } else {
            assert(parts[0] == FsPart::Normal(names[0]));
            assert(repo_path_fs::valid_fs_name(platform, names[0]));
        }
        lemma_text_front(parts, '\\');
        assert(s[0] == s.take(first.len() as int)[0]);
        if first.len() >= 2 {
            assert(s[1] == s.take(first.len() as int)[1]);
        }
        assert(!fs_path::starts_with_drive(s));
    }
}

/// Names of directory entries stand for themselves behind a path.
proof fn lemma_unchecked_names(platform: Platform, base: Seq<FsPart>, names: Seq<Seq<char>>)
    requires
        entry_names(platform, names),
    ensures
        repo_path_fs::unchecked_parts(platform, base, names) == base + repo_path_fs::name_parts(
            names,
        ),
    decreases names.len(),
{
    if names.len() == 0 {
        assert(base + repo_path_fs::name_parts(names) =~= base);
    } else {
        let before = names.drop_last();
        let last = seq![names.last()];
        lemma_unchecked_names(platform, base, before);
        assert(entry_names(platform, last)) by {
            assert(repo_path_fs::valid_fs_name(platform, names[names.len() - 1]));
        }
        lemma_way_read_on(platform, 0, last);
        let part = seq![FsPart::Normal(names.last())];
        assert(ups(0) + repo_path_fs::name_parts(last) =~= part);
        assert(part.drop_last() =~= Seq::empty());
        let separator = platform.separator();
        assert(fs_path::path_text(part.drop_last(), separator) =~= Seq::empty());
        assert(fs_path::path_text(part, separator) =~= names.last());
        assert(fs_path::text_parts(platform, names.last()) == part);
        assert(base + repo_path_fs::name_parts(before) + part =~= base + repo_path_fs::name_parts(
            names,
        ));
        let dir = base + repo_path_fs::name_parts(before);
        assert(fs_path::verbatim_joined(dir, part.drop_last()) == dir);
        assert(dir.push(part.last()) =~= dir + part);
    }
}

/// What is a directory entry on some platform is one on Unix.
proof fn lemma_entries_everywhere(platform: Platform, names: Seq<Seq<char>>)
    requires
        entry_names(platform, names),
    ensures
        entry_names(Platform::Unix, names),
{
    assert forall|i: int| 0 <= i < names.len() implies repo_path_fs::valid_fs_name(
        Platform::Unix,
        #[trigger] names[i],
    ) by {
        assert(repo_path_fs::valid_fs_name(platform, names[i]));
    }
}

/// How a prefix and a root are written on Windows.
proof fn lemma_prefix_text(prefix: Seq<char>)
    ensures
        fs_path::path_text(seq![FsPart::Prefix(prefix), FsPart::RootDir], '\\') == prefix + seq![
            '\\',
        ],
{
    let anchor = seq![FsPart::Prefix(prefix), FsPart::RootDir];
    reveal_with_fuel(fs_path::path_text, 3);
    assert(anchor.drop_last() =~= seq![FsPart::Prefix(prefix)]);
    assert(anchor.drop_last().drop_last() =~= Seq::empty());
    assert(Seq::<char>::empty() + prefix =~= prefix);
    assert(anchor[0] is Prefix);
}

/// A path on a share is read back from its text.
proof fn lemma_share_path_read(server: Seq<char>, share: Seq<char>, names: Seq<Seq<char>>)
    requires
        is_share_name(server),
        is_share_name(share),
        entry_names(Platform::Windows, names),
    ensures
        ({
            let parts = repo_path_fs::absolute(
                seq![FsPart::Prefix(share_text(server, share)), FsPart::RootDir],
                names,
            );
            fs_path::text_parts(Platform::Windows, fs_path::path_text(parts, '\\')) == parts
        }),
{
    let prefix = share_text(server, share);
    let plain = seq!['\\', '\\'] + server + seq!['\\'] + share;
    let anchor = seq![FsPart::Prefix(prefix), FsPart::RootDir];
    let parts = repo_path_fs::absolute(anchor, names);
    let tail_parts = repo_path_fs::name_parts(names);
    let s = fs_path::path_text(parts, '\\');
    let tail = fs_path::path_text(tail_parts, '\\');
    lemma_entries_everywhere(Platform::Windows, names);
    lemma_absolute_text(anchor, names, '\\');
    lemma_prefix_text(prefix);
    assert(s =~= prefix + seq!['\\'] + tail);
    assert(no_backslash(tail_parts)) by {
        assert forall|i: int| 0 <= i < tail_parts.len() implies match #[trigger] tail_parts[i] {
            FsPart::Prefix(_) | FsPart::NonUnicode { .. } => false,
            FsPart::Normal(name) => !name.contains('\\'),
            _ => true,
        } by {
            assert(tail_parts[i] == FsPart::Normal(names[i]));
            assert(repo_path_fs::valid_fs_name(Platform::Windows, names[i]));
        }
    }
    lemma_slashes(tail_parts);
    lemma_way_text(0, names);
    lemma_later_names(names);
    assert(way_texts(0, names) =~= names);
    assert(ups(0) + tail_parts =~= tail_parts);
    let joined = path_model::join_names(names);
    let t = fs_path::with_slashes(s);
    let n = prefix.len() as int;
    lemma_slashes_already(server);
    lemma_slashes_already(share);
    assert(t =~= seq!['/', '/'] + server + seq!['/'] + share + seq!['/'] + joined) by {
        assert(t =~= fs_path::with_slashes(prefix) + seq!['/'] + fs_path::with_slashes(tail));
        assert(fs_path::with_slashes(prefix) =~= seq!['/', '/'] + fs_path::with_slashes(server)
            + seq!['/'] + fs_path::with_slashes(share));
    }
    // The server ends at the first slash behind it, and the share as well.
    let from_server = t.skip(2);
    assert(from_server =~= server + seq!['/'] + share + seq!['/'] + joined);
    assert forall|i: int| 0 <= i < server.len() implies from_server[i] != '/' by {
        assert(from_server[i] == server[i]);
        assert(server.contains(server[i]));
    }
    text::lemma_first_index_unique(from_server, '/', server.len() as int);
    let from_share = t.skip(server.len() as int + 3);
    assert(from_share =~= share + seq!['/'] + joined);
    assert forall|i: int| 0 <= i < share.len() implies from_share[i] != '/' by {
        assert(from_share[i] == share[i]);
        assert(share.contains(share[i]));
    }
    text::lemma_first_index_unique(from_share, '/', share.len() as int);
    assert(s[0] == prefix[0] && !fs_path::starts_with_drive(s));
    assert(fs_path::starts_with_share(t));
    assert(n == fs_path::server_len(t) + fs_path::share_len(t) + 3);
    let front = seq!['/', '/'] + server + seq!['/'] + share;
    assert(t.take(n) =~= front);
    assert(fs_path::with_backslashes(front) =~= plain) by {
        assert forall|i: int| 0 <= i < n implies fs_path::with_backslashes(front)[i] == plain[i] by {
            if i >= server.len() + 3 {
                assert(front[i] == share[i - server.len() - 3]);
                assert(share.contains(share[i - server.len() - 3]));
            } else if i >= 2 && i < server.len() + 2 {
                assert(front[i] == server[i - 2]);
                assert(server.contains(server[i - 2]));
            }
        }
    }
    assert(fs_path::is_verbatim(plain) <==> server == seq!['?']) by {
        assert(plain[2] == server[0]);
        if server.len() == 1 {
            assert(server =~= seq![server[0]]);
            assert(plain[3] == '\\');
        } else {
            assert(plain[3] == server[1]);
            assert(server.contains(server[1]));
        }
    }
    assert(fs_path::share_prefix(t) == prefix);
    assert(!fs_path::is_verbatim(s)) by {
        if fs_path::is_verbatim(s) {
            assert(s[0] == prefix[0] && s[1] == prefix[1] && s[2] == prefix[2] && s[3] == prefix[3]);
            assert(fs_path::is_verbatim(prefix));
        }
    }
    let rest = t.skip(n);
    assert(rest =~= seq!['/'] + joined);
    assert forall|i: int| 0 <= i < names.len() implies path_model::valid_name(
        #[trigger] names[i],
    ) by {
        assert(repo_path_fs::valid_fs_name(Platform::Windows, names[i]));
    }
    path_model::lemma_components_of_join(names);
    text::lemma_first_index_unique(rest, '/', 0);
    assert(rest.subrange(0, 0) =~= Seq::empty());
    assert(rest.subrange(1, rest.len() as int) =~= joined);
    assert(path_model::components(rest) == seq![Seq::<char>::empty()] + names);
    lemma_empty_name(names);
    assert(anchor + tail_parts =~= parts);
}

/// Only the separators differ between names written behind each other with backslashes
/// and with slashes.
proof fn lemma_swapped(names: Seq<Seq<char>>)
    requires
        entry_names(Platform::Windows, names),
    ensures
        fs_path::swapped(fs_path::path_text(repo_path_fs::name_parts(names), '\\'))
            == fs_path::path_text(repo_path_fs::name_parts(names), '/'),
    decreases names.len(),
{
    let parts = repo_path_fs::name_parts(names);
    if names.len() == 0 {
        assert(fs_path::swapped(Seq::empty()) =~= Seq::empty());
    } else {
        let front = names.drop_last();
        lemma_swapped(front);
        assert(parts.drop_last() =~= repo_path_fs::name_parts(front));
        let before = fs_path::path_text(parts.drop_last(), '\\');
        let last = names.last();
        assert(repo_path_fs::valid_fs_name(Platform::Windows, names[names.len() - 1]));
        lemma_swapped_name(last);
        assert(fs_path::swapped(before + last) =~= fs_path::swapped(before) + fs_path::swapped(
            last,
        ));
        assert(fs_path::swapped(before + seq!['\\'] + last) =~= fs_path::swapped(before) + seq!['/']
            + fs_path::swapped(last));
    }
}

/// A name without separators stays the same.
proof fn lemma_swapped_name(name: Seq<char>)
    requires
        !name.contains('/'),
        !name.contains('\\'),
    ensures
        fs_path::swapped(name) == name,
{
    assert forall|i: int| 0 <= i < name.len() implies fs_path::swapped(name)[i] == name[i] by {
        assert(name.contains(name[i]));
    }
    assert(fs_path::swapped(name) =~= name);
}

/// A path is read back from its text if its verbatim prefix is.
proof fn lemma_verbatim_path_read(prefix: Seq<char>, names: Seq<Seq<char>>)
    requires
        fs_path::is_verbatim(prefix),
        entry_names(Platform::Windows, names),
        ({
            let s = fs_path::path_text(
                repo_path_fs::absolute(seq![FsPart::Prefix(prefix), FsPart::RootDir], names),
                '\\',
            );
            &&& fs_path::verbatim_len(s) == prefix.len()
            &&& fs_path::verbatim_prefix(s) == prefix
        }),
    ensures
        ({
            let parts = repo_path_fs::absolute(
                seq![FsPart::Prefix(prefix), FsPart::RootDir],
                names,
            );
            fs_path::text_parts(Platform::Windows, fs_path::path_text(parts, '\\')) == parts
        }),
{
    let anchor = seq![FsPart::Prefix(prefix), FsPart::RootDir];
    let parts = repo_path_fs::absolute(anchor, names);
    let tail_parts = repo_path_fs::name_parts(names);
    let s = fs_path::path_text(parts, '\\');
    let tail = fs_path::path_text(tail_parts, '\\');
    let joined = path_model::join_names(names);
    lemma_entries_everywhere(Platform::Windows, names);
    lemma_absolute_text(anchor, names, '\\');
    lemma_prefix_text(prefix);
    assert(s =~= prefix + seq!['\\'] + tail);
    assert(s[0] == prefix[0] && s[1] == prefix[1] && s[2] == prefix[2] && s[3] == prefix[3]);
    lemma_swapped(names);
    lemma_way_text(0, names);
    lemma_later_names(names);
    assert(way_texts(0, names) =~= names);
    assert(ups(0) + tail_parts =~= tail_parts);
    let rest = s.skip(prefix.len() as int);
    assert(rest =~= seq!['\\'] + tail);
    let swapped = fs_path::swapped(rest);
    assert(swapped =~= seq!['/'] + joined);
    assert forall|i: int| 0 <= i < names.len() implies path_model::valid_name(
        #[trigger] names[i],
    ) by {
        assert(repo_path_fs::valid_fs_name(Platform::Windows, names[i]));
    }
    path_model::lemma_components_of_join(names);
    text::lemma_first_index_unique(swapped, '/', 0);
    assert(swapped.subrange(0, 0) =~= Seq::empty());
    assert(swapped.subrange(1, swapped.len() as int) =~= joined);
    let read = seq![Seq::<char>::empty()] + names;
    assert(path_model::components(swapped) == read);
    assert(fs_path::backslash_names(rest) =~= read) by {
        assert forall|i: int| 0 <= i < read.len() implies fs_path::swapped(#[trigger] read[i])
            == read[i] by {
            if i > 0 {
                assert(read[i] == names[i - 1]);
                assert(repo_path_fs::valid_fs_name(Platform::Windows, names[i - 1]));
            }
            lemma_swapped_name(read[i]);
        }
    }
    lemma_empty_name(names);
    assert(anchor + tail_parts =~= parts);
}

/// A verbatim path on a drive, or on what another name stands for, is read back from
/// its text.
proof fn lemma_verbatim_name_read(name: Seq<char>, names: Seq<Seq<char>>)
    requires
        is_verbatim_name(name),
        entry_names(Platform::Windows, names),
    ensures
        ({
            let parts = repo_path_fs::absolute(
                seq![FsPart::Prefix(verbatim_text(name)), FsPart::RootDir],
                names,
            );
            fs_path::text_parts(Platform::Windows, fs_path::path_text(parts, '\\')) == parts
        }),
{
    let prefix = verbatim_text(name);
    let anchor = seq![FsPart::Prefix(prefix), FsPart::RootDir];
    let s = fs_path::path_text(repo_path_fs::absolute(anchor, names), '\\');
    let tail = fs_path::path_text(repo_path_fs::name_parts(names), '\\');
    lemma_absolute_text(anchor, names, '\\');
    lemma_prefix_text(prefix);
    assert(s =~= prefix + seq!['\\'] + tail);
    let rest = s.skip(4);
    assert(rest =~= name + seq!['\\'] + tail);
    assert forall|i: int| 0 <= i < name.len() implies rest[i] != '\\' by {
        assert(rest[i] == name[i]);
        assert(name.contains(name[i]));
    }
    text::lemma_first_index_unique(rest, '\\', name.len() as int);
    assert(!fs_path::starts_with_unc(rest)) by {
        if fs_path::starts_with_unc(rest) {
            assert(rest[name.len() as int] == '\\');
            assert(name.len() == 3);
            assert(name =~= seq!['U', 'N', 'C']);
        }
    }
    assert(fs_path::verbatim_len(s) == prefix.len());
    assert(s.take(prefix.len() as int) =~= prefix);
    if name.len() == 2 {
        assert(rest[0] == name[0] && rest[1] == name[1] && s[4] == name[0]);
        assert(s.take(4) + name =~= prefix);
    }
    lemma_verbatim_path_read(prefix, names);
}

/// A verbatim path on a share is read back from its text.
proof fn lemma_verbatim_share_read(server: Seq<char>, share: Seq<char>, names: Seq<Seq<char>>)
    requires
        is_share_name(server),
        is_share_name(share),
        entry_names(Platform::Windows, names),
    ensures
        ({
            let parts = repo_path_fs::absolute(
                seq![
                    FsPart::Prefix(verbatim_text(verbatim_share(server, share))),
                    FsPart::RootDir,
                ],
                names,
            );
            fs_path::text_parts(Platform::Windows, fs_path::path_text(parts, '\\')) == parts
        }),
{
    let prefix = verbatim_text(verbatim_share(server, share));
    let anchor = seq![FsPart::Prefix(prefix), FsPart::RootDir];
    let s = fs_path::path_text(repo_path_fs::absolute(anchor, names), '\\');
    let tail = fs_path::path_text(repo_path_fs::name_parts(names), '\\');
    lemma_absolute_text(anchor, names, '\\');
    lemma_prefix_text(prefix);
    assert(s =~= prefix + seq!['\\'] + tail);
    let rest = s.skip(4);
    assert(rest[0] == 'U' && rest[1] == 'N' && rest[2] == 'C' && rest[3] == '\\');
    let from_server = s.skip(8);
    assert(from_server =~= server + seq!['\\'] + share + seq!['\\'] + tail);
    assert forall|i: int| 0 <= i < server.len() implies from_server[i] != '\\' by {
        assert(from_server[i] == server[i]);
        assert(server.contains(server[i]));
    }
    text::lemma_first_index_unique(from_server, '\\', server.len() as int);
    let from_share = s.skip(server.len() as int + 9);
    assert(from_share =~= share + seq!['\\'] + tail);
    assert forall|i: int| 0 <= i < share.len() implies from_share[i] != '\\' by {
        assert(from_share[i] == share[i]);
        assert(share.contains(share[i]));
    }
    text::lemma_first_index_unique(from_share, '\\', share.len() as int);
    assert(fs_path::verbatim_len(s) == prefix.len());
    assert(s.take(prefix.len() as int) =~= prefix);
    lemma_verbatim_path_read(prefix, names);
}

/// In a verbatim path, names and `..` put behind it are resolved at once.
proof fn lemma_verbatim_joined(dir: Seq<FsPart>, path: Seq<FsPart>)
    requires
        fs_path::has_verbatim_prefix(dir),
        fs_path::resolved(dir) == dir,
        forall|i: int|
            0 <= i < path.len() ==> !(#[trigger] path[i] is Prefix) && !(path[i] is RootDir),
    ensures
        fs_path::verbatim_joined(dir, path) == fs_path::resolved(dir + path),
        fs_path::has_verbatim_prefix(fs_path::verbatim_joined(dir, path)),
    decreases path.len(),
{
    if path.len() == 0 {
        assert(dir + path =~= dir);
    } else {
        let before = path.drop_last();
        assert forall|i: int| 0 <= i < before.len() implies !(#[trigger] before[i] is Prefix) && !(
        before[i] is RootDir) by {
            assert(before[i] == path[i]);
        }
        lemma_verbatim_joined(dir, before);
        assert((dir + path).drop_last() =~= dir + before);
        assert((dir + path).last() == path[path.len() - 1]);
    }
}

/// A path on a drive is read back from its text.
proof fn lemma_drive_path_read(letter: char, names: Seq<Seq<char>>)
    requires
        fs_path::is_drive_letter(letter),
        entry_names(Platform::Windows, names),
    ensures
        ({
            let parts = repo_path_fs::absolute(
                seq![FsPart::Prefix(fs_path::drive(letter)), FsPart::RootDir],
                names,
            );
            fs_path::text_parts(Platform::Windows, fs_path::path_text(parts, '\\')) == parts
        }),
{
    let prefix = fs_path::drive(letter);
    let anchor = seq![FsPart::Prefix(prefix), FsPart::RootDir];
    let root = seq![FsPart::RootDir];
    let parts = repo_path_fs::absolute(anchor, names);
    let rooted = repo_path_fs::absolute(root, names);
    let s = fs_path::path_text(parts, '\\');
    let tail = fs_path::path_text(repo_path_fs::name_parts(names), '\\');
    lemma_entries_everywhere(Platform::Windows, names);
    lemma_absolute_text(anchor, names, '\\');
    lemma_absolute_text(root, names, '\\');
    lemma_root_text('\\');
    lemma_prefix_text(prefix);
    assert(s =~= prefix + fs_path::path_text(rooted, '\\'));
    assert(s.skip(2) =~= fs_path::path_text(rooted, '\\'));
    assert(s[0] == prefix[0] && s[1] == ':');
    assert(no_backslash(rooted)) by {
        assert forall|i: int| 0 <= i < rooted.len() implies match #[trigger] rooted[i] {
            FsPart::Prefix(_) | FsPart::NonUnicode { .. } => false,
            FsPart::Normal(name) => !name.contains('\\'),
            _ => true,
        } by {
            if i >= 1 {
                assert(rooted[i] == FsPart::Normal(names[i - 1]));
                assert(repo_path_fs::valid_fs_name(Platform::Windows, names[i - 1]));
            }
        }
    }
    lemma_slashes(rooted);
    lemma_rooted_read(names);
    assert(fs_path::is_drive_letter(prefix[0]));
    assert(fs_path::drive(prefix[0]) =~= prefix);
    assert(seq![FsPart::Prefix(prefix)] + rooted =~= parts);
}

/// What is shown of a file in the repository at `base`, from the directory `cwd`,
/// leads back to the file when it is typed in there, on any platform. The two
/// directories are absolute. They have the same anchor, or `base` lies on a drive, on a
/// share or at a verbatim prefix of Windows. All names in the path of the file are those
/// of directory entries.
pub proof fn lemma_shown_path_round_trip(
    platform: Platform,
    converter: RepoPathUiConverter,
    cwd_anchor: Seq<FsPart>,
    cwd_names: Seq<Seq<char>>,
    base_anchor: Seq<FsPart>,
    base_names: Seq<Seq<char>>,
    file: Seq<char>,
)
    requires
        match converter {
            RepoPathUiConverter::Fs { cwd, base } => {
                &&& cwd@ == repo_path_fs::absolute(cwd_anchor, cwd_names)
                &&& base@ == repo_path_fs::absolute(base_anchor, base_names)
            },
        },
        repo_path_fs::is_anchor(cwd_anchor),
        repo_path_fs::is_anchor(base_anchor),
        cwd_anchor == base_anchor || platform == Platform::Windows && (is_drive_root(base_anchor)
            || is_share_root(base_anchor) || is_verbatim_root(base_anchor)),
        entry_names(platform, base_names),
        path_model::valid_path(file),
        entry_names(platform, path_model::components(file)),
    ensures
        repo_path_fs::relative_reading(
            converter.parsed_way(
                platform,
                fs_path::path_text(converter.shown_path(platform, file), platform.separator()),
            ),
        ) == RelativeReading::Path(file),
{
    let names = path_model::components(file);
    let target = base_names + names;
    let cwd = repo_path_fs::absolute(cwd_anchor, cwd_names);
    let base = repo_path_fs::absolute(base_anchor, base_names);
    lemma_unchecked_names(platform, base, names);
    assert(base + repo_path_fs::name_parts(names) =~= repo_path_fs::absolute(base_anchor, target));
    let shown = converter.shown_path(platform, file);
    lemma_absolute_significant(cwd_anchor, cwd_names);
    assert(entry_names(platform, target)) by {
        assert forall|i: int| 0 <= i < target.len() implies repo_path_fs::valid_fs_name(
            platform,
            #[trigger] target[i],
        ) by {
            if i < base_names.len() {
                assert(target[i] == base_names[i]);
            } else {
                assert(target[i] == names[i - base_names.len()]);
            }
        }
    }
    let read = fs_path::text_parts(platform, fs_path::path_text(shown, platform.separator()));
    let joined = fs_path::path_joined(cwd, read);
    let resolved = fs_path::resolved(joined);
    assert(resolved == repo_path_fs::absolute(base_anchor, target)) by {
        if cwd_anchor == base_anchor {
            lemma_read_way(platform, cwd_anchor, cwd_names, target);
        } else {
            lemma_no_way(cwd_anchor, cwd_names, base_anchor, target, 0);
            assert(shown == repo_path_fs::absolute(base_anchor, target));
            if is_drive_root(base_anchor) {
                let letter = choose|letter: char| #[trigger]
                    fs_path::is_drive_letter(letter) && base_anchor == seq![
                        FsPart::Prefix(fs_path::drive(letter)),
                        FsPart::RootDir,
                    ];
                lemma_drive_path_read(letter, target);
            } else if is_verbatim_name_root(base_anchor) {
                let name = choose|name: Seq<char>| #[trigger]
                    is_verbatim_name(name) && base_anchor == seq![
                        FsPart::Prefix(verbatim_text(name)),
                        FsPart::RootDir,
                    ];
                lemma_verbatim_name_read(name, target);
            } else if is_verbatim_share_root(base_anchor) {
                let (server, share) = choose|server: Seq<char>, share: Seq<char>| #[trigger]
                    is_share_name(server) && #[trigger] is_share_name(share) && base_anchor == seq![
                        FsPart::Prefix(verbatim_text(verbatim_share(server, share))),
                        FsPart::RootDir,
                    ];
                lemma_verbatim_share_read(server, share, target);
            } else {
                let (server, share) = choose|server: Seq<char>, share: Seq<char>| #[trigger]
                    is_share_name(server) && #[trigger] is_share_name(share) && base_anchor == seq![
                        FsPart::Prefix(share_text(server, share)),
                        FsPart::RootDir,
                    ];
                lemma_share_path_read(server, share, target);
            }
            assert(read == shown);
            assert(read[0] == base_anchor[0]);
            repo_path_fs::lemma_nothing_to_resolve(base_anchor, target);
        }
    }
    assert(repo_path_fs::absolute(base_anchor, target).len() > 0);
    repo_path_fs::lemma_fs_path_round_trip(Seq::empty(), base_anchor, base_names, file);
    repo_path_fs::lemma_nothing_to_resolve(base_anchor, target);
    assert(repo_path_fs::absolute(base_anchor, target)[0] == base_anchor[0]);
    assert(fs_path::path_joined(Seq::empty(), repo_path_fs::absolute(base_anchor, target))
        == repo_path_fs::absolute(base_anchor, target));
}

/// The way that is shown between two absolute paths leads to the second one.
proof fn lemma_read_way(
    platform: Platform,
    anchor: Seq<FsPart>,
    cwd_names: Seq<Seq<char>>,
    target: Seq<Seq<char>>,
)
    requires
        repo_path_fs::is_anchor(anchor),
        entry_names(platform, target),
    ensures
        ({
            let shown = fs_path::relative(
                repo_path_fs::absolute(anchor, cwd_names),
                repo_path_fs::absolute(anchor, target),
            );
            let read = fs_path::text_parts(
                platform,
                fs_path::path_text(shown, platform.separator()),
            );
            let joined = fs_path::path_joined(repo_path_fs::absolute(anchor, cwd_names), read);
            fs_path::resolved(joined) == repo_path_fs::absolute(anchor, target)
        }),
{
    let shared = repo_path::common_len(cwd_names, target);
    let n = (cwd_names.len() - shared) as nat;
    let down = target.skip(shared);
    let cwd = repo_path_fs::absolute(anchor, cwd_names);
    repo_path::lemma_common_len(cwd_names, target);
    lemma_absolute_significant(anchor, cwd_names);
    assert(cwd_names.take(cwd_names.len() as int) =~= cwd_names);
    lemma_way(anchor, cwd_names, target, cwd_names.len() as int);
    let shown = fs_path::relative(cwd, repo_path_fs::absolute(anchor, target));
    assert(shown == way(cwd_names, target));
    let read = fs_path::text_parts(platform, fs_path::path_text(shown, platform.separator()));
    if shared == cwd_names.len() && shared == target.len() {
        assert(cwd_names =~= target);
        lemma_current_dir_text(platform);
        assert(read == seq![FsPart::CurDir]);
        let joined = cwd + read;
        assert(joined.drop_last() =~= cwd);
        assert(joined.last() == FsPart::CurDir);
        repo_path_fs::lemma_nothing_to_resolve(anchor, cwd_names);
        if fs_path::has_verbatim_prefix(cwd) {
            lemma_verbatim_joined(cwd, read);
        }
    } else {
        assert(entry_names(platform, down)) by {
            assert forall|i: int| 0 <= i < down.len() implies repo_path_fs::valid_fs_name(
                platform,
                #[trigger] down[i],
            ) by {
                assert(down[i] == target[i + shared]);
            }
        }
        lemma_way_read_on(platform, n, down);
        assert(read == ups(n) + repo_path_fs::name_parts(down));
        if n > 0 {
            assert(read[0] == FsPart::ParentDir);
        } else {
            assert(read[0] == FsPart::Normal(down[0]));
        }
        assert(cwd + read =~= cwd + ups(n) + repo_path_fs::name_parts(down));
        lemma_resolved_way(anchor, cwd_names, n, down);
        assert(cwd_names.take(shared) + down =~= target);
        if fs_path::has_verbatim_prefix(cwd) {
            repo_path_fs::lemma_nothing_to_resolve(anchor, cwd_names);
            repo_path_fs::lemma_nothing_to_resolve(anchor, target);
            lemma_verbatim_joined(cwd, read);
        }
    }
}

/// An absolute path is read as a path in the repository exactly if it is the `base` or
/// lies below it, and what is read is what the path has below the `base`.
pub proof fn lemma_parsed_under_base(
    anchor: Seq<FsPart>,
    base_names: Seq<Seq<char>>,
    names: Seq<Seq<char>>,
)
    requires
        repo_path_fs::is_anchor(anchor),
    ensures
        match repo_path_fs::relative_reading(
            fs_path::relative(
                repo_path_fs::absolute(anchor, base_names),
                repo_path_fs::absolute(anchor, names),
            ),
        ) {
            RelativeReading::Path(path) => {
                &&& base_names.is_prefix_of(names)
                &&& path == path_model::join_names(names.skip(base_names.len() as int))
            },
            _ => !base_names.is_prefix_of(names),
        },
{
    let shared = repo_path::common_len(base_names, names);
    let n = (base_names.len() - shared) as nat;
    let down = names.skip(shared);
    repo_path::lemma_common_len(base_names, names);
    lemma_absolute_significant(anchor, base_names);
    assert(base_names.take(base_names.len() as int) =~= base_names);
    lemma_way(anchor, base_names, names, base_names.len() as int);
    let parts = ups(n) + repo_path_fs::name_parts(down);
    if shared == base_names.len() {
        assert(base_names =~= names.subrange(0, shared));
    } else if base_names.is_prefix_of(names) {
        assert(base_names[shared] == names.subrange(0, base_names.len() as int)[shared]);
    }
    if shared == base_names.len() && shared == names.len() {
        let here = seq![FsPart::CurDir];
        assert(here.drop_last() =~= Seq::empty());
        assert(fs_path::significant(here.drop_last()) =~= Seq::empty());
        assert(fs_path::significant(here) =~= here);
        assert(path_model::join_names(down) =~= Seq::empty());
    } else {
        assert(repo_path_fs::no_cur_dir(parts));
        repo_path_fs::lemma_all_significant(parts);
        assert(!(parts[0] is CurDir));
        if n == 0 {
            assert(parts =~= repo_path_fs::name_parts(down));
            repo_path_fs::lemma_leading_names(down);
        } else {
            let first = parts.take(1);
            assert(first.drop_last() =~= Seq::empty());
            assert(first.last() == FsPart::ParentDir);
            assert(repo_path_fs::leading_names(first.drop_last()).1 is None);
            repo_path_fs::lemma_leading_stop(parts, 1);
        }
    }
}

/// The current directory is read back from its text.
proof fn lemma_current_dir_text(platform: Platform)
    ensures
        fs_path::text_parts(
            platform,
            fs_path::path_text(seq![FsPart::CurDir], platform.separator()),
        ) == seq![FsPart::CurDir],
{
    let here = seq![FsPart::CurDir];
    assert(here.drop_last() =~= Seq::empty());
    assert(fs_path::path_text(here.drop_last(), platform.separator()) =~= Seq::empty());
    let s = fs_path::path_text(here, platform.separator());
    assert(s =~= seq!['.']);
    assert(!s.contains('\\'));
    lemma_slashes_already(s);
    path_model::lemma_single_name(seq!['.']);
    let names = path_model::components(s);
    assert(names =~= seq![seq!['.']]);
    assert(names.drop_last() =~= Seq::empty());
    assert(fs_path::later_parts(names.drop_last()) =~= Seq::empty());
    assert(fs_path::later_parts(names) =~= here);
}

/// The way from a directory to a file goes up as often as it takes to the closest directory
/// that leads to both, and down from there. It is `.` if there is nowhere to go.
pub proof fn lemma_way_between(
    anchor: Seq<FsPart>,
    common: Seq<Seq<char>>,
    up: Seq<Seq<char>>,
    down: Seq<Seq<char>>,
    from: FsPath,
    to: FsPath,
    r: FsPath,
)
    requires
        repo_path_fs::is_anchor(anchor),
        up.len() == 0 || down.len() == 0 || up[0] != down[0],
        from@ == repo_path_fs::absolute(anchor, common + up),
        to@ == repo_path_fs::absolute(anchor, common + down),
        call_ensures(FsPath::relative_path, (&from, &to), r),
    ensures
        up.len() == 0 && down.len() == 0 ==> r@ == seq![FsPart::CurDir],
        up.len() > 0 || down.len() > 0 ==> {
            &&& r@.len() == up.len() + down.len()
            &&& forall|i: int| 0 <= i < up.len() ==> #[trigger] r@[i] is ParentDir
            &&& forall|i: int|
                up.len() <= i < r@.len() ==> #[trigger] r@[i] == FsPart::Normal(
                    down[i - up.len()],
                )
        },
{
    let a = common + up;
    let b = common + down;
    let n = common.len() as int;
    let shared = repo_path::common_len(a, b);
    repo_path::lemma_common_len(a, b);
    if shared < n {
        assert(a[shared] == common[shared] && b[shared] == common[shared]);
    } else if shared > n {
        assert(a[n] == b[n]);
        assert(up[0] == a[n] && down[0] == b[n]);
    }
    lemma_absolute_significant(anchor, a);
    assert(a.take(a.len() as int) =~= a);
    lemma_way(anchor, a, b, a.len() as int);
    assert(b.skip(shared) =~= down);
    let parts = ups(up.len()) + repo_path_fs::name_parts(down);
    assert(parts.len() == up.len() + down.len());
}

} // verus!
