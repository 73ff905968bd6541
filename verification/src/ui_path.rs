//! Repository paths as they are shown to the user and typed by them.

use vstd::prelude::*;
use vstd::string::StringExecFns;

use crate::fs_path;
use crate::fs_path::FsPart;
use crate::fs_path::FsPath;
use crate::path_model;
use crate::platform::Platform;
use crate::repo_path::RepoPath;
use crate::repo_path::RepoPathBuf;
use crate::repo_path_fs;
use crate::repo_path_fs::FsPathParseError;
use crate::repo_path_fs::RelativeReading;
use crate::text;

verus! {

/// A value before and after a change.
#[derive(Clone, Copy, Debug, PartialEq, Eq)]
pub struct Diff<T> {
    pub before: T,
    pub after: T,
}

impl<T> Diff<T> {
    pub fn new(before: T, after: T) -> (r: Diff<T>)
        ensures
            r.before == before,
            r.after == after,
    {
        Diff { before, after }
    }
}

/// An error from `RepoPathUiConverter::parse_file_path`.
#[derive(Debug)]
pub enum UiPathParseError {
    Fs(FsPathParseError),
}

/// Converts `RepoPath`s to and from plain strings as displayed to the user
/// (e.g. relative to CWD).
#[derive(Debug, Clone)]
pub enum RepoPathUiConverter {
    /// Variant for a local file system. Paths are interpreted relative to `cwd`
    /// with the repo rooted in `base`.
    ///
    /// The `cwd` and `base` paths are supposed to be absolute and normalized in
    /// the same manner.
    Fs { cwd: FsPath, base: FsPath },
}

/// A text cut behind each separator.
pub open spec fn cut_behind(s: Seq<char>, separator: char) -> Seq<Seq<char>>
    decreases s.len(),
{
    if s.len() == 0 {
        Seq::empty()
    } else {
        let i = text::first_index(s, separator);
        if 0 <= i < s.len() {
            seq![s.subrange(0, i + 1)] + cut_behind(s.subrange(i + 1, s.len() as int), separator)
        } else {
            seq![s]
        }
    }
}

/// The pieces of a text that start with a separator, from the back. What comes
/// before the first separator is left out.
pub open spec fn cut_before(s: Seq<char>, separator: char) -> Seq<Seq<char>>
    decreases s.len(),
{
    let i = text::last_index(s, separator);
    if 0 <= i < s.len() {
        seq![s.subrange(i, s.len() as int)] + cut_before(s.subrange(0, i), separator)
    } else {
        Seq::empty()
    }
}

/// How many characters the common first pieces of two lists have.
pub open spec fn common_text_len(a: Seq<Seq<char>>, b: Seq<Seq<char>>) -> int
    decreases a.len(),
{
    if a.len() == 0 || b.len() == 0 || a[0] != b[0] {
        0
    } else {
        a[0].len() + common_text_len(a.drop_first(), b.drop_first())
    }
}

/// Length of the front that two paths share: whole components with the
/// separators behind them.
pub open spec fn shared_front(before: Seq<char>, after: Seq<char>, separator: char) -> int {
    common_text_len(cut_behind(before, separator), cut_behind(after, separator))
}

/// Length of the back that two paths share: whole components with the
/// separators before them. The last separator of the front may be used again.
pub open spec fn shared_back(before: Seq<char>, after: Seq<char>, separator: char) -> int {
    let front = shared_front(before, after, separator);
    let from = if front > 0 {
        front - 1
    } else {
        0
    };
    common_text_len(
        cut_before(before.subrange(from, before.len() as int), separator),
        cut_before(after.subrange(from, after.len() as int), separator),
    )
}

/// What a path has between a front and a back of the given lengths.
pub open spec fn middle(s: Seq<char>, front: int, back: int) -> Seq<char> {
    if front <= s.len() - back {
        s.subrange(front, s.len() - back)
    } else {
        Seq::empty()
    }
}

/// Two paths in one text, with what they share written once.
pub open spec fn collapsed(before: Seq<char>, after: Seq<char>, separator: char) -> Seq<char> {
    let front = shared_front(before, after, separator);
    let back = shared_back(before, after, separator);
    if before.len() == front && after.len() == front {
        after
    } else {
        after.subrange(0, front) + seq!['{'] + middle(before, front, back) + seq![
            ' ',
            '=',
            '>',
            ' ',
        ] + middle(after, front, back) + seq!['}'] + after.subrange(
            after.len() - back,
            after.len() as int,
        )
    }
}

/// Where the piece that starts at `from` ends, its separator included.
fn piece_end(chars: &Vec<char>, from: usize, separator: char) -> (r: usize)
    requires
        from < chars@.len(),
    ensures
        from < r <= chars@.len(),
        ({
            let s = chars@.subrange(from as int, chars@.len() as int);
            let i = text::first_index(s, separator);
            r == from + if i < s.len() {
                i + 1
            } else {
                i
            }
        }),
{
    let ghost s = chars@.subrange(from as int, chars@.len() as int);
    let mut i: usize = from;
    while i < chars.len() && chars[i] != separator
        invariant
            from <= i <= chars@.len(),
            s == chars@.subrange(from as int, chars@.len() as int),
            forall|j: int| 0 <= j < i - from ==> s[j] != separator,
        decreases chars@.len() - i,
    {
        assert(s[i - from] == chars@[i as int]);
        i += 1;
    }
    proof {
        if i < chars@.len() {
            assert(s[i - from] == chars@[i as int]);
        }
        text::lemma_first_index_unique(s, separator, i - from);
    }
    if i < chars.len() {
        i + 1
    } else {
        i
    }
}

/// Where the last piece of `chars[from..to]` starts, if there is a separator.
fn last_piece(chars: &Vec<char>, from: usize, to: usize, separator: char) -> (r: Option<usize>)
    requires
        from <= to <= chars@.len(),
    ensures
        ({
            let s = chars@.subrange(from as int, to as int);
            let i = text::last_index(s, separator);
            match r {
                Some(k) => i >= 0 && k == from + i && from <= k < to,
                None => i < 0,
            }
        }),
{
    let ghost s = chars@.subrange(from as int, to as int);
    let mut i: usize = to;
    while i > from && chars[i - 1] != separator
        invariant
            from <= i <= to <= chars@.len(),
            s == chars@.subrange(from as int, to as int),
            forall|j: int| i - from <= j < s.len() ==> s[j] != separator,
        decreases i,
    {
        assert(s[i - 1 - from] == chars@[i - 1]);
        i -= 1;
    }
    proof {
        if i > from {
            assert(s[i - 1 - from] == chars@[i - 1]);
        }
        text::lemma_last_index_unique(s, separator, i - from - 1);
    }
    if i > from {
        Some(i - 1)
    } else {
        None
    }
}

/// Whether `a[i..j]` and `b[k..l]` hold the same characters.
fn same_range(a: &Vec<char>, i: usize, j: usize, b: &Vec<char>, k: usize, l: usize) -> (r: bool)
    requires
        i <= j <= a@.len(),
        k <= l <= b@.len(),
    ensures
        r == (a@.subrange(i as int, j as int) == b@.subrange(k as int, l as int)),
{
    let ghost x = a@.subrange(i as int, j as int);
    let ghost y = b@.subrange(k as int, l as int);
    if j - i != l - k {
        assert(x.len() != y.len());
        return false;
    }
    let mut n: usize = 0;
    while n < j - i
        invariant
            i <= j <= a@.len(),
            k <= l <= b@.len(),
            j - i == l - k,
            n <= j - i,
            x == a@.subrange(i as int, j as int),
            y == b@.subrange(k as int, l as int),
            forall|m: int| 0 <= m < n ==> x[m] == y[m],
        decreases j - i - n,
    {
        if a[i + n] != b[k + n] {
            assert(x[n as int] != y[n as int]);
            return false;
        }
        assert(x[n as int] == a@[i + n] && y[n as int] == b@[k + n]);
        n += 1;
    }
    assert(x =~= y);
    true
}

fn front_len(before: &Vec<char>, after: &Vec<char>, separator: char) -> (r: usize)
    ensures
        r == shared_front(before@, after@, separator),
        r <= before@.len(),
        r <= after@.len(),
{
    let ghost (b, a) = (before@, after@);
    let mut p: usize = 0;
    assert(b.subrange(0, b.len() as int) =~= b);
    assert(a.subrange(0, a.len() as int) =~= a);
    while p < before.len() && p < after.len()
        invariant
            b == before@,
            a == after@,
            p <= b.len(),
            p <= a.len(),
            shared_front(b, a, separator) == p + common_text_len(
                cut_behind(b.subrange(p as int, b.len() as int), separator),
                cut_behind(a.subrange(p as int, a.len() as int), separator),
            ),
        decreases b.len() - p,
    {
        let eb = piece_end(before, p, separator);
        let ea = piece_end(after, p, separator);
        let ghost sb = b.subrange(p as int, b.len() as int);
        let ghost sa = a.subrange(p as int, a.len() as int);
        proof {
            lemma_cut_behind(b, p as int, eb as int, separator);
            lemma_cut_behind(a, p as int, ea as int, separator);
        }
        if !same_range(before, p, eb, after, p, ea) {
            return p;
        }
        assert(b.subrange(p as int, eb as int).len() == eb - p);
        assert(a.subrange(p as int, ea as int).len() == ea - p);
        p = eb;
    }
    proof {
        let sb = b.subrange(p as int, b.len() as int);
        let sa = a.subrange(p as int, a.len() as int);
        assert(cut_behind(sb, separator).len() == 0 || cut_behind(sa, separator).len() == 0);
    }
    p
}

/// Taking the first piece off a list of pieces.
proof fn lemma_cut_behind(s: Seq<char>, from: int, end: int, separator: char)
    requires
        0 <= from < s.len(),
        ({
            let t = s.subrange(from, s.len() as int);
            let i = text::first_index(t, separator);
            end == from + if i < t.len() {
                i + 1
            } else {
                i
            }
        }),
    ensures
        from < end <= s.len(),
        ({
            let pieces = cut_behind(s.subrange(from, s.len() as int), separator);
            &&& pieces.len() > 0
            &&& pieces[0] == s.subrange(from, end)
            &&& pieces.drop_first() == cut_behind(s.subrange(end, s.len() as int), separator)
        }),
{
    let t = s.subrange(from, s.len() as int);
    let i = text::first_index(t, separator);
    text::lemma_first_index(t, separator);
    let pieces = cut_behind(t, separator);
    if i < t.len() {
        assert(t.subrange(0, i + 1) =~= s.subrange(from, end));
        assert(t.subrange(i + 1, t.len() as int) =~= s.subrange(end, s.len() as int));
        assert(pieces.drop_first() =~= cut_behind(s.subrange(end, s.len() as int), separator));
    } else {
        assert(t =~= s.subrange(from, end));
        assert(s.subrange(end, s.len() as int) =~= Seq::empty());
        assert(pieces.drop_first() =~= Seq::empty());
    }
}

/// Taking the last piece off a list of pieces.
proof fn lemma_cut_before(s: Seq<char>, from: int, to: int, start: int, separator: char)
    requires
        0 <= from <= start < to <= s.len(),
        start == from + text::last_index(s.subrange(from, to), separator),
    ensures
        ({
            let pieces = cut_before(s.subrange(from, to), separator);
            &&& pieces.len() > 0
            &&& pieces[0] == s.subrange(start, to)
            &&& pieces.drop_first() == cut_before(s.subrange(from, start), separator)
        }),
{
    let t = s.subrange(from, to);
    let i = start - from;
    let pieces = cut_before(t, separator);
    assert(t.subrange(i, t.len() as int) =~= s.subrange(start, to));
    assert(t.subrange(0, i) =~= s.subrange(from, start));
    assert(pieces.drop_first() =~= cut_before(s.subrange(from, start), separator));
}

fn back_len(before: &Vec<char>, after: &Vec<char>, front: usize, separator: char) -> (r: usize)
    requires
        front == shared_front(before@, after@, separator),
        front <= before@.len(),
        front <= after@.len(),
    ensures
        r == shared_back(before@, after@, separator),
        r <= before@.len(),
        r <= after@.len(),
        front > 0 ==> r <= before@.len() - front + 1 && r <= after@.len() - front + 1,
{
    let ghost (b, a) = (before@, after@);
    let from: usize = if front > 0 {
        front - 1
    } else {
        0
    };
    let mut eb: usize = before.len();
    let mut ea: usize = after.len();
    loop
        invariant
            b == before@,
            a == after@,
            from <= eb <= b.len(),
            from <= ea <= a.len(),
            from == if front > 0 {
                front - 1
            } else {
                0
            },
            front == shared_front(b, a, separator),
            b.len() - eb == a.len() - ea,
            shared_back(b, a, separator) == (b.len() - eb) + common_text_len(
                cut_before(b.subrange(from as int, eb as int), separator),
                cut_before(a.subrange(from as int, ea as int), separator),
            ),
        decreases eb,
    {
        match (last_piece(before, from, eb, separator), last_piece(after, from, ea, separator)) {
            (Some(kb), Some(ka)) => {
                proof {
                    lemma_cut_before(b, from as int, eb as int, kb as int, separator);
                    lemma_cut_before(a, from as int, ea as int, ka as int, separator);
                }
                if !same_range(before, kb, eb, after, ka, ea) {
                    return before.len() - eb;
                }
                assert(b.subrange(kb as int, eb as int).len() == eb - kb);
                assert(a.subrange(ka as int, ea as int).len() == ea - ka);
                eb = kb;
                ea = ka;
            },
            _ => {
                return before.len() - eb;
            },
        }
    }
}

fn push_range(out: &mut String, chars: &Vec<char>, from: usize, to: usize)
    requires
        from <= to <= chars@.len(),
    ensures
        final(out)@ == old(out)@ + chars@.subrange(from as int, to as int),
{
    let piece = text::string_of(chars, from, to);
    out.append(piece.as_str());
}

/// Writes two paths as one, with what they share written once, as in
/// `common/prefix/{before => after}/common/suffix`.
pub fn collapse_copied_path(paths: Diff<&str>, separator: char) -> (r: String)
    ensures
        r@ == collapsed(paths.before@, paths.after@, separator),
{
    let before = text::chars_of(paths.before);
    let after = text::chars_of(paths.after);
    // The last component should never match middle components. This is ensured
    // by including trailing separators. e.g. ("a/b", "a/b/x") => ("a/", _)
    let front = front_len(&before, &after, separator);
    if before.len() == front && after.len() == front {
        return paths.after.to_owned();
    }
    // The first component should never match middle components, but the first
    // uncommon middle component can. e.g. ("a/b", "x/a/b") => ("", "/b"),
    // ("a/b", "a/x/b") => ("a/", "/b")

    let back = back_len(&before, &after, front, separator);
    // Middle range may be invalid (start > end) because the same separator char
    // can be distributed to both common prefix and suffix. e.g.
    // ("a/b", "a/x/b") == ("a//b", "a/x/b") => ("a/", "/b")
    let mut out = String::new();
    push_range(&mut out, &after, 0, front);
    out.push('{');
    if front <= before.len() - back {
        push_range(&mut out, &before, front, before.len() - back);
    }
    out.push(' ');
    out.push('=');
    out.push('>');
    out.push(' ');
    if front <= after.len() - back {
        push_range(&mut out, &after, front, after.len() - back);
    }
    out.push('}');
    push_range(&mut out, &after, after.len() - back, after.len());
    assert(out@ =~= collapsed(paths.before@, paths.after@, separator));
    out
}

/// The shared front is the front of both paths, and all of them if they are the
/// same path.
pub proof fn lemma_shared_front(before: Seq<char>, after: Seq<char>, separator: char)
    ensures
        ({
            let n = shared_front(before, after, separator);
            &&& 0 <= n <= before.len()
            &&& n <= after.len()
            &&& before.subrange(0, n) == after.subrange(0, n)
            &&& before == after ==> n == after.len()
        }),
    decreases before.len(),
{
    if before.len() > 0 && after.len() > 0 {
        text::lemma_first_index(before, separator);
        text::lemma_first_index(after, separator);
        let ib = text::first_index(before, separator);
        let ia = text::first_index(after, separator);
        let eb = if ib < before.len() {
            ib + 1
        } else {
            ib
        };
        let ea = if ia < after.len() {
            ia + 1
        } else {
            ia
        };
        assert(before.subrange(0, before.len() as int) =~= before);
        assert(after.subrange(0, after.len() as int) =~= after);
        lemma_cut_behind(before, 0, eb, separator);
        lemma_cut_behind(after, 0, ea, separator);
        if before.subrange(0, eb) == after.subrange(0, ea) {
            assert(before.subrange(0, eb).len() == eb && after.subrange(0, ea).len() == ea);
            let b2 = before.subrange(eb, before.len() as int);
            let a2 = after.subrange(ea, after.len() as int);
            lemma_shared_front(b2, a2, separator);
            let n2 = shared_front(b2, a2, separator);
            let n = shared_front(before, after, separator);
            assert(n == eb + n2);
            assert(before.subrange(0, n) =~= before.subrange(0, eb) + b2.subrange(0, n2));
            assert(after.subrange(0, n) =~= after.subrange(0, ea) + a2.subrange(0, n2));
        } else {
            assert(before.subrange(0, 0) =~= after.subrange(0, 0));
        }
    } else {
        assert(cut_behind(before, separator).len() == 0 || cut_behind(after, separator).len() == 0);
        assert(before.subrange(0, 0) =~= after.subrange(0, 0));
    }
}

/// Pieces taken from the back of two texts make up the back of both.
proof fn lemma_common_back(before: Seq<char>, after: Seq<char>, separator: char)
    ensures
        ({
            let n = common_text_len(cut_before(before, separator), cut_before(after, separator));
            &&& 0 <= n <= before.len()
            &&& n <= after.len()
            &&& before.subrange(before.len() - n, before.len() as int) == after.subrange(
                after.len() - n,
                after.len() as int,
            )
        }),
    decreases before.len(),
{
    text::lemma_last_index(before, separator);
    text::lemma_last_index(after, separator);
    let ib = text::last_index(before, separator);
    let ia = text::last_index(after, separator);
    let (lb, la) = (before.len() as int, after.len() as int);
    assert(before.subrange(lb, lb) =~= after.subrange(la, la));
    if ib >= 0 && ia >= 0 {
        assert(before.subrange(0, lb) =~= before);
        assert(after.subrange(0, la) =~= after);
        lemma_cut_before(before, 0, lb, ib, separator);
        lemma_cut_before(after, 0, la, ia, separator);
        if before.subrange(ib, lb) == after.subrange(ia, la) {
            assert(before.subrange(ib, lb).len() == lb - ib);
            assert(after.subrange(ia, la).len() == la - ia);
            let b2 = before.subrange(0, ib);
            let a2 = after.subrange(0, ia);
            lemma_common_back(b2, a2, separator);
            let n2 = common_text_len(cut_before(b2, separator), cut_before(a2, separator));
            let n = n2 + (lb - ib);
            assert(before.subrange(lb - n, lb) =~= b2.subrange(ib - n2, ib) + before.subrange(
                ib,
                lb,
            ));
            assert(after.subrange(la - n, la) =~= a2.subrange(ia - n2, ia) + after.subrange(
                ia,
                la,
            ));
        }
    }
}

/// A text is its front, its middle and its back, which share one character at most.
proof fn lemma_front_middle_back(s: Seq<char>, front: int, back: int)
    requires
        0 <= front <= s.len(),
        0 <= back <= s.len(),
        front + back <= s.len() + 1,
    ensures
        front + back <= s.len() ==> s == s.subrange(0, front) + middle(s, front, back)
            + s.subrange(s.len() - back, s.len() as int),
        front + back > s.len() ==> s == s.subrange(0, front) + s.subrange(
            s.len() - back,
            s.len() as int,
        ).drop_first(),
{
    let tail = s.subrange(s.len() - back, s.len() as int);
    if front + back <= s.len() {
        assert(s =~= s.subrange(0, front) + middle(s, front, back) + tail);
    } else {
        assert(s =~= s.subrange(0, front) + tail.drop_first());
    }
}

/// Nothing is lost when two paths are written as one: each of them is the shared
/// front, its own middle and the shared back. Where front and back share a
/// separator, the middle is empty.
pub proof fn lemma_collapsed_parts(before: Seq<char>, after: Seq<char>, separator: char)
    ensures
        ({
            let front = shared_front(before, after, separator);
            let back = shared_back(before, after, separator);
            let head = after.subrange(0, front);
            let tail = after.subrange(after.len() - back, after.len() as int);
            &&& 0 <= front <= after.len()
            &&& 0 <= back <= after.len()
            &&& front + back <= before.len() ==> before == head + middle(before, front, back)
                + tail
            &&& front + back <= after.len() ==> after == head + middle(after, front, back) + tail
            &&& front + back > before.len() ==> {
                &&& front + back == before.len() + 1
                &&& before == head + tail.drop_first()
            }
            &&& front + back > after.len() ==> {
                &&& front + back == after.len() + 1
                &&& after == head + tail.drop_first()
            }
        }),
{
    lemma_shared_front(before, after, separator);
    let front = shared_front(before, after, separator);
    let from = if front > 0 {
        front - 1
    } else {
        0
    };
    let (lb, la) = (before.len() as int, after.len() as int);
    let b2 = before.subrange(from, lb);
    let a2 = after.subrange(from, la);
    lemma_common_back(b2, a2, separator);
    let back = shared_back(before, after, separator);
    assert(b2.subrange(b2.len() - back, b2.len() as int) =~= before.subrange(lb - back, lb));
    assert(a2.subrange(a2.len() - back, a2.len() as int) =~= after.subrange(la - back, la));
    lemma_front_middle_back(before, front, back);
    lemma_front_middle_back(after, front, back);
}

/// A path that did not change is written as it is.
pub proof fn lemma_collapsed_same(path: Seq<char>, separator: char)
    ensures
        collapsed(path, path, separator) == path,
{
    lemma_shared_front(path, path, separator);
}

impl RepoPathUiConverter {
    /// The path that is shown for a file: the way to it from the `cwd`.
    pub open spec fn shown_path(self, platform: Platform, file: Seq<char>) -> Seq<FsPart> {
        match self {
            RepoPathUiConverter::Fs { cwd, base } => fs_path::relative(
                cwd@,
                repo_path_fs::or_current(
                    repo_path_fs::unchecked_parts(platform, base@, path_model::components(file)),
                ),
            ),
        }
    }

    /// Format a path for display in the UI.
    pub fn format_file_path(&self, file: RepoPath<'_>) -> (r: String)
        ensures
            exists|platform: Platform| #[trigger]
                platform.is_host() && r@ == fs_path::path_text(
                    self.shown_path(platform, file@),
                    platform.separator(),
                ),
    {
        self.format_file_path_on(Platform::host(), file)
    }

    /// Format a path for display in the UI, as it is written on `platform`.
    pub fn format_file_path_on(&self, platform: Platform, file: RepoPath<'_>) -> (r: String)
        ensures
            r@ == fs_path::path_text(self.shown_path(platform, file@), platform.separator()),
    {
        match self {
            RepoPathUiConverter::Fs { cwd, base } => FsPath::relative_path(
                cwd,
                &file.to_fs_path_unchecked_on(platform, base),
            ).display(platform.main_separator()),
        }
    }

    /// Format a copy from `before` to `after` for display in the UI by
    /// extracting common components and producing something like
    /// "common/prefix/{before => after}/common/suffix".
    ///
    /// If `before == after`, this is equivalent to `format_file_path()`.
    pub fn format_copied_path(&self, paths: Diff<RepoPath<'_>>) -> (r: String)
        ensures
            exists|platform: Platform| #[trigger]
                platform.is_host() && {
                    &&& r@ == collapsed(
                        fs_path::path_text(self.shown_path(platform, paths.before@), platform.separator()),
                        fs_path::path_text(self.shown_path(platform, paths.after@), platform.separator()),
                        platform.separator(),
                    )
                    &&& paths.before@ == paths.after@ ==> r@ == fs_path::path_text(
                        self.shown_path(platform, paths.after@),
                        platform.separator(),
                    )
                },
    {
        self.format_copied_path_on(Platform::host(), paths)
    }

    /// Format a copy from `before` to `after`, as paths are written on
    /// `platform`.
    pub fn format_copied_path_on(&self, platform: Platform, paths: Diff<RepoPath<'_>>) -> (r:
        String)
        ensures
            r@ == collapsed(
                fs_path::path_text(self.shown_path(platform, paths.before@), platform.separator()),
                fs_path::path_text(self.shown_path(platform, paths.after@), platform.separator()),
                platform.separator(),
            ),
            paths.before@ == paths.after@ ==> r@ == fs_path::path_text(
                self.shown_path(platform, paths.after@),
                platform.separator(),
            ),
    {
        let before = self.format_file_path_on(platform, paths.before);
        let after = self.format_file_path_on(platform, paths.after);
        proof {
            lemma_collapsed_same(after@, platform.separator());
        }
        collapse_copied_path(Diff::new(before.as_str(), after.as_str()), platform.main_separator())
    }

    /// Where a path from the UI leads to: the way to it from the `base`.
    pub open spec fn parsed_way(self, platform: Platform, input: Seq<char>) -> Seq<FsPart> {
        match self {
            RepoPathUiConverter::Fs { cwd, base } => fs_path::relative(
                base@,
                fs_path::normalized(
                    fs_path::path_joined(cwd@, fs_path::text_parts(platform, input)),
                ),
            ),
        }
    }

    /// What parsing a path from the UI gives: the path that it leads to, or the
    /// error for it.
    pub open spec fn parses_to(
        self,
        platform: Platform,
        input: Seq<char>,
        r: Result<RepoPathBuf, UiPathParseError>,
    ) -> bool {
        let way = self.parsed_way(platform, input);
        match r {
            Ok(path) => repo_path_fs::relative_reading(way) == RelativeReading::Path(path@),
            Err(UiPathParseError::Fs(err)) => match self {
                RepoPathUiConverter::Fs { cwd, base } => {
                    &&& err.base@ == fs_path::relative(cwd@, base@)
                    &&& err.input@ == fs_path::text_parts(platform, input)
                    &&& err.source.reports(way, platform.separator())
                },
            },
        }
    }

    /// Parses a path from the UI.
    ///
    /// It's up to the implementation whether absolute paths are allowed, and
    /// where relative paths are interpreted as relative to.
    pub fn parse_file_path(&self, input: &str) -> (r: Result<RepoPathBuf, UiPathParseError>)
        ensures
            exists|platform: Platform| #[trigger]
                platform.is_host() && self.parses_to(platform, input@, r),
    {
        self.parse_file_path_on(Platform::host(), input)
    }

    /// Parses a path from the UI, written as on `platform`.
    pub fn parse_file_path_on(&self, platform: Platform, input: &str) -> (r: Result<
        RepoPathBuf,
        UiPathParseError,
    >)
        ensures
            self.parses_to(platform, input@, r),
    {
        match self {
            RepoPathUiConverter::Fs { cwd, base } => {
                match RepoPathBuf::parse_fs_path_on(
                    platform,
                    cwd,
                    base,
                    &FsPath::from_text_on(platform, input),
                ) {
                    Ok(path) => Ok(path),
                    Err(err) => Err(UiPathParseError::Fs(err)),
                }
            },
        }
    }
}

} // verus!
