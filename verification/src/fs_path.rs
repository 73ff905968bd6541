//! Filesystem paths as lists of components.
//!
//! A path is kept as it was written, so a `.` in the middle stays where it is.
//! It is passed over when the path is compared with another one or taken apart:
//! see [`significant`].

use vstd::prelude::*;
use vstd::string::StringExecFns;

use crate::path_model;
use crate::platform::Platform;
use crate::repo_path;
use crate::repo_path::RepoPath;
use crate::text;

verus! {

/// One component of a filesystem path.
#[derive(Clone, Debug, PartialEq, Eq)]
pub enum FsComponent {
    /// A drive or the like.
    Prefix(String),
    RootDir,
    CurDir,
    ParentDir,
    Normal(String),
    /// A normal name that is not Unicode, in the platform's own encoding, and the
    /// text that the platform shows for it.
    NonUnicode { bytes: Vec<u8>, shown: String },
}

/// What a component stands for.
pub enum FsPart {
    Prefix(Seq<char>),
    RootDir,
    CurDir,
    ParentDir,
    Normal(Seq<char>),
    NonUnicode { bytes: Seq<u8>, shown: Seq<char> },
}

impl View for FsComponent {
    type V = FsPart;

    open spec fn view(&self) -> FsPart {
        match *self {
            FsComponent::Prefix(text) => FsPart::Prefix(text@),
            FsComponent::RootDir => FsPart::RootDir,
            FsComponent::CurDir => FsPart::CurDir,
            FsComponent::ParentDir => FsPart::ParentDir,
            FsComponent::Normal(name) => FsPart::Normal(name@),
            FsComponent::NonUnicode { bytes, shown } => FsPart::NonUnicode {
                bytes: bytes@,
                shown: shown@,
            },
        }
    }
}

impl FsComponent {
    /// Copies this component.
    pub fn duplicate(&self) -> (r: FsComponent)
        ensures
            r@ == self@,
    {
        match self {
            FsComponent::Prefix(text) => FsComponent::Prefix(text.clone()),
            FsComponent::RootDir => FsComponent::RootDir,
            FsComponent::CurDir => FsComponent::CurDir,
            FsComponent::ParentDir => FsComponent::ParentDir,
            FsComponent::Normal(name) => FsComponent::Normal(name.clone()),
            FsComponent::NonUnicode { bytes, shown } => FsComponent::NonUnicode {
                bytes: copy_bytes(bytes),
                shown: shown.clone(),
            },
        }
    }

    /// Whether two components are the same.
    pub fn same_as(&self, other: &FsComponent) -> (r: bool)
        ensures
            r == (self@ == other@),
    {
        match (self, other) {
            (FsComponent::Prefix(a), FsComponent::Prefix(b)) => *a == *b,
            (FsComponent::RootDir, FsComponent::RootDir) => true,
            (FsComponent::CurDir, FsComponent::CurDir) => true,
            (FsComponent::ParentDir, FsComponent::ParentDir) => true,
            (FsComponent::Normal(a), FsComponent::Normal(b)) => *a == *b,
            (
                FsComponent::NonUnicode { bytes: a, shown: shown_a },
                FsComponent::NonUnicode { bytes: b, shown: shown_b },
            ) => same_bytes(a, b) && *shown_a == *shown_b,
            _ => false,
        }
    }

    fn is_cur_dir(&self) -> (r: bool)
        ensures
            r == (self@ is CurDir),
    {
        match self {
            FsComponent::CurDir => true,
            _ => false,
        }
    }
}

/// Copies bytes.
pub fn copy_bytes(bytes: &Vec<u8>) -> (r: Vec<u8>)
    ensures
        r@ == bytes@,
{
    let mut out: Vec<u8> = Vec::new();
    let mut i: usize = 0;
    while i < bytes.len()
        invariant
            i <= bytes@.len(),
            out@ == bytes@.take(i as int),
        decreases bytes@.len() - i,
    {
        out.push(bytes[i]);
        i += 1;
    }
    assert(bytes@.take(i as int) =~= bytes@);
    out
}

/// Whether two byte strings are the same.
pub fn same_bytes(a: &Vec<u8>, b: &Vec<u8>) -> (r: bool)
    ensures
        r == (a@ == b@),
{
    if a.len() != b.len() {
        return false;
    }
    let mut i: usize = 0;
    while i < a.len()
        invariant
            i <= a@.len() == b@.len(),
            a@.take(i as int) == b@.take(i as int),
        decreases a@.len() - i,
    {
        if a[i] != b[i] {
            return false;
        }
        proof {
            assert(a@.take(i + 1) =~= a@.take(i as int).push(a@[i as int]));
            assert(b@.take(i + 1) =~= b@.take(i as int).push(b@[i as int]));
        }
        i += 1;
    }
    assert(a@.take(i as int) =~= a@);
    assert(b@.take(i as int) =~= b@);
    true
}

/// A filesystem path.
#[derive(Clone, Debug, PartialEq, Eq)]
pub struct FsPath {
    parts: Vec<FsComponent>,
}

impl View for FsPath {
    type V = Seq<FsPart>;

    closed spec fn view(&self) -> Seq<FsPart> {
        self.parts@.map_values(|part: FsComponent| part@)
    }
}

/// The components without those that mean nothing: a `.` counts in front only.
pub open spec fn significant(parts: Seq<FsPart>) -> Seq<FsPart>
    decreases parts.len(),
{
    if parts.len() == 0 {
        parts
    } else if parts.len() > 1 && parts.last() is CurDir {
        significant(parts.drop_last())
    } else {
        significant(parts.drop_last()).push(parts.last())
    }
}

/// The component that a name written behind others stands for, if any.
pub open spec fn later_part(name: Seq<char>) -> Option<FsPart> {
    if name.len() == 0 {
        None
    } else if name == seq!['.'] {
        Some(FsPart::CurDir)
    } else if name == seq!['.', '.'] {
        Some(FsPart::ParentDir)
    } else {
        Some(FsPart::Normal(name))
    }
}

/// The components that a list of names written one behind the other stands for.
pub open spec fn later_parts(names: Seq<Seq<char>>) -> Seq<FsPart>
    decreases names.len(),
{
    if names.len() == 0 {
        Seq::empty()
    } else {
        let before = later_parts(names.drop_last());
        match later_part(names.last()) {
            Some(part) => before.push(part),
            None => before,
        }
    }
}

/// Whether a character can name a drive.
pub open spec fn is_drive_letter(c: char) -> bool {
    'a' <= c <= 'z' || 'A' <= c <= 'Z'
}

/// Whether a path written as on Windows starts with a drive.
pub open spec fn starts_with_drive(s: Seq<char>) -> bool {
    s.len() >= 2 && s[1] == ':' && is_drive_letter(s[0])
}

/// The drive named by a letter. It is the same in either case, and written in
/// upper case.
pub open spec fn drive(letter: char) -> Seq<char> {
    seq![
        if 'a' <= letter <= 'z' {
            (letter as int - 32) as char
        } else {
            letter
        },
        ':',
    ]
}

/// A path with slashes in place of backslashes.
pub open spec fn with_slashes(s: Seq<char>) -> Seq<char> {
    s.map_values(
        |c: char|
            if c == '\\' {
                '/'
            } else {
                c
            },
    )
}

/// A path with backslashes in place of slashes.
pub open spec fn with_backslashes(s: Seq<char>) -> Seq<char> {
    s.map_values(
        |c: char|
            if c == '/' {
                '\\'
            } else {
                c
            },
    )
}

/// How long the name of the server is in a path that starts with two slashes.
pub open spec fn server_len(s: Seq<char>) -> int {
    text::first_index(s.skip(2), '/')
}

/// How long the name of the share behind the server is.
pub open spec fn share_len(s: Seq<char>) -> int {
    text::first_index(s.skip(server_len(s) + 3), '/')
}

/// Whether a path with slashes starts with a share of a server, as in
/// `//server/share`.
pub open spec fn starts_with_share(s: Seq<char>) -> bool {
    &&& s.len() > 2
    &&& s[0] == '/'
    &&& s[1] == '/'
    &&& server_len(s) > 0
    &&& server_len(s) + 3 < s.len()
    &&& share_len(s) > 0
}

/// The share of a server that a path with slashes starts with. It is written with
/// backslashes, unless that would make it a verbatim prefix.
pub open spec fn share_prefix(s: Seq<char>) -> Seq<char> {
    let front = s.take(server_len(s) + share_len(s) + 3);
    if is_verbatim(with_backslashes(front)) {
        front
    } else {
        with_backslashes(front)
    }
}

/// Whether a path, or the prefix of one, is verbatim: it starts with `\\?\`.
pub open spec fn is_verbatim(s: Seq<char>) -> bool {
    s.len() >= 4 && s[0] == '\\' && s[1] == '\\' && s[2] == '?' && s[3] == '\\'
}

/// Whether a text starts with `UNC\`.
pub open spec fn starts_with_unc(s: Seq<char>) -> bool {
    s.len() >= 4 && s[0] == 'U' && s[1] == 'N' && s[2] == 'C' && s[3] == '\\'
}

/// How long the prefix of a verbatim path is: `\\?\UNC\server\share`, or `\\?\` with a
/// drive or another name behind it.
pub open spec fn verbatim_len(s: Seq<char>) -> int {
    if starts_with_unc(s.skip(4)) {
        let server = text::first_index(s.skip(8), '\\');
        if server + 9 < s.len() {
            let share = text::first_index(s.skip(server + 9), '\\');
            if share > 0 {
                server + share + 9
            } else {
                server + 8
            }
        } else {
            server + 8
        }
    } else {
        text::first_index(s.skip(4), '\\') + 4
    }
}

/// The prefix of a verbatim path. Drives are written in upper case.
pub open spec fn verbatim_prefix(s: Seq<char>) -> Seq<char> {
    if verbatim_len(s) == 6 && starts_with_drive(s.skip(4)) {
        s.take(4) + drive(s[4])
    } else {
        s.take(verbatim_len(s))
    }
}

/// A text with slashes and backslashes exchanged.
pub open spec fn swapped(s: Seq<char>) -> Seq<char> {
    s.map_values(
        |c: char|
            if c == '\\' {
                '/'
            } else if c == '/' {
                '\\'
            } else {
                c
            },
    )
}

/// The names in a text in which backslashes separate them.
pub open spec fn backslash_names(s: Seq<char>) -> Seq<Seq<char>> {
    path_model::components(swapped(s)).map_values(|name: Seq<char>| swapped(name))
}

/// The components of a path written on a platform. On Windows, a slash and a
/// backslash both separate names, and the path may start with a drive or with a
/// share of a server. In a verbatim path only a backslash separates names. Each
/// prefix but a drive has a root.
pub open spec fn text_parts(platform: Platform, s: Seq<char>) -> Seq<FsPart> {
    match platform {
        Platform::Unix => slash_parts(s),
        Platform::Windows => {
            let t = with_slashes(s);
            if starts_with_drive(s) {
                seq![FsPart::Prefix(drive(s[0]))] + slash_parts(with_slashes(s.skip(2)))
            } else if is_verbatim(s) {
                seq![FsPart::Prefix(verbatim_prefix(s)), FsPart::RootDir] + later_parts(
                    backslash_names(s.skip(verbatim_len(s))),
                )
            } else if starts_with_share(t) {
                seq![FsPart::Prefix(share_prefix(t)), FsPart::RootDir] + later_parts(
                    path_model::components(t.skip(server_len(t) + share_len(t) + 3)),
                )
            } else {
                slash_parts(t)
            }
        },
    }
}

/// The components of a path in which slashes separate names.
pub open spec fn slash_parts(s: Seq<char>) -> Seq<FsPart> {
    let names = path_model::components(s);
    if s.len() > 0 && s[0] == '/' {
        seq![FsPart::RootDir] + later_parts(names)
    } else {
        later_parts(names)
    }
}

/// Whether a path has a verbatim prefix.
pub open spec fn has_verbatim_prefix(parts: Seq<FsPart>) -> bool {
    parts.len() > 0 && (parts[0] matches FsPart::Prefix(text) && is_verbatim(text))
}

/// One more component put behind a verbatim path. There, `.` and `..` are removed at
/// once.
pub open spec fn verbatim_step(done: Seq<FsPart>, part: FsPart) -> Seq<FsPart> {
    match part {
        FsPart::RootDir => seq![done[0], FsPart::RootDir],
        FsPart::CurDir => done,
        FsPart::ParentDir => if done.len() > 0 && is_name(done.last()) {
            done.drop_last()
        } else {
            done
        },
        _ => done.push(part),
    }
}

/// A path put behind a verbatim one.
pub open spec fn verbatim_joined(dir: Seq<FsPart>, path: Seq<FsPart>) -> Seq<FsPart>
    decreases path.len(),
{
    if path.len() == 0 {
        dir
    } else {
        verbatim_step(verbatim_joined(dir, path.drop_last()), path.last())
    }
}

/// A path put behind a directory, which it replaces if it is absolute.
pub open spec fn path_joined(dir: Seq<FsPart>, path: Seq<FsPart>) -> Seq<FsPart> {
    if path.len() > 0 && path[0] is Prefix {
        path
    } else if has_verbatim_prefix(dir) {
        verbatim_joined(dir, path)
    } else if path.len() > 0 && path[0] is RootDir {
        if dir.len() > 0 && dir[0] is Prefix {
            seq![dir[0]] + path
        } else {
            path
        }
    } else {
        dir + path
    }
}

/// One more component read while `.` and `..` are resolved. A `..` takes back
/// the name before it, if there is one. It is not kept in a verbatim path.
pub open spec fn resolve_step(done: Seq<FsPart>, part: FsPart) -> Seq<FsPart> {
    match part {
        FsPart::CurDir => done,
        FsPart::ParentDir => if done.len() > 0 && is_name(done.last()) {
            done.drop_last()
        } else if has_verbatim_prefix(done) {
            done
        } else {
            done.push(part)
        },
        _ => done.push(part),
    }
}

/// Whether a component is the name of an entry.
pub open spec fn is_name(part: FsPart) -> bool {
    part is Normal || part is NonUnicode
}

/// The components with `.` and `..` resolved, as far as they can be.
pub open spec fn resolved(parts: Seq<FsPart>) -> Seq<FsPart>
    decreases parts.len(),
{
    if parts.len() == 0 {
        parts
    } else {
        resolve_step(resolved(parts.drop_last()), parts.last())
    }
}

/// A path with `.` and `..` resolved; the current directory is never left out.
pub open spec fn normalized(parts: Seq<FsPart>) -> Seq<FsPart> {
    if resolved(parts).len() == 0 {
        seq![FsPart::CurDir]
    } else {
        resolved(parts)
    }
}

/// What remains after the `.` in front.
pub open spec fn trimmed_front(parts: Seq<FsPart>) -> Seq<FsPart>
    decreases parts.len(),
{
    if parts.len() > 0 && parts[0] is CurDir {
        trimmed_front(parts.drop_first())
    } else {
        parts
    }
}

/// What remains before the `.` at the end. A path never becomes empty.
pub open spec fn trimmed_back(parts: Seq<FsPart>) -> Seq<FsPart>
    decreases parts.len(),
{
    if parts.len() > 1 && parts.last() is CurDir {
        trimmed_back(parts.drop_last())
    } else {
        parts
    }
}

/// What follows the first `n` significant components.
pub open spec fn rest_after(parts: Seq<FsPart>, n: nat) -> Seq<FsPart>
    decreases n,
{
    if n == 0 || parts.len() == 0 {
        parts
    } else {
        rest_after(trimmed_front(parts.drop_first()), (n - 1) as nat)
    }
}

/// The way to `to` from the directory with the significant components `from`,
/// which lies `ups` levels above the one to start from.
pub open spec fn way_from(from: Seq<FsPart>, to: Seq<FsPart>, ups: nat) -> Seq<FsPart>
    decreases from.len(),
{
    if from.is_prefix_of(significant(to)) {
        let suffix = trimmed_back(rest_after(to, from.len()));
        if ups == 0 && suffix.len() == 0 {
            seq![FsPart::CurDir]
        } else {
            path_joined(Seq::new(ups, |i: int| FsPart::ParentDir), suffix)
        }
    } else if from.len() > 0 && !(from.last() is RootDir) && !(from.last() is Prefix) {
        way_from(from.drop_last(), to, ups + 1)
    } else {
        to
    }
}

/// The way to `to` from `from`, through their closest common directory, or `to`
/// itself if they have none.
pub open spec fn relative(from: Seq<FsPart>, to: Seq<FsPart>) -> Seq<FsPart> {
    way_from(significant(from), to, 0)
}

/// How a component is written.
pub open spec fn part_text(part: FsPart, separator: char) -> Seq<char> {
    match part {
        FsPart::Prefix(text) => text,
        FsPart::RootDir => seq![separator],
        FsPart::CurDir => seq!['.'],
        FsPart::ParentDir => seq!['.', '.'],
        FsPart::Normal(name) => name,
        FsPart::NonUnicode { shown, .. } => shown,
    }
}

/// How a path is written, with the given separator.
pub open spec fn path_text(parts: Seq<FsPart>, separator: char) -> Seq<char>
    decreases parts.len(),
{
    if parts.len() == 0 {
        Seq::empty()
    } else {
        let before = path_text(parts.drop_last(), separator);
        let last = part_text(parts.last(), separator);
        if parts.len() == 1 || parts[parts.len() - 2] is Prefix || parts[parts.len()
            - 2] is RootDir {
            before + last
        } else {
            before + seq![separator] + last
        }
    }
}

impl FsComponent {
    /// How this component is written.
    pub fn text(&self, separator: char) -> (r: String)
        ensures
            r@ == part_text(self@, separator),
    {
        match self {
            FsComponent::Prefix(text) => text.clone(),
            FsComponent::RootDir => {
                let mut out = String::new();
                out.push(separator);
                assert(out@ =~= seq![separator]);
                out
            },
            FsComponent::CurDir => {
                let mut out = String::new();
                out.push('.');
                assert(out@ =~= seq!['.']);
                out
            },
            FsComponent::ParentDir => {
                let mut out = String::new();
                out.push('.');
                out.push('.');
                assert(out@ =~= seq!['.', '.']);
                out
            },
            FsComponent::Normal(name) => name.clone(),
            FsComponent::NonUnicode { shown, .. } => shown.clone(),
        }
    }

    fn is_anchor(&self) -> (r: bool)
        ensures
            r == (self@ is Prefix || self@ is RootDir),
    {
        match self {
            FsComponent::Prefix(_) | FsComponent::RootDir => true,
            _ => false,
        }
    }
}

fn drive_letter(c: char) -> (r: bool)
    ensures
        r == is_drive_letter(c),
{
    ('a' <= c && c <= 'z') || ('A' <= c && c <= 'Z')
}

fn drive_text(letter: char) -> (r: String)
    requires
        is_drive_letter(letter),
    ensures
        r@ == drive(letter),
{
    let mut out = String::new();
    if 'a' <= letter && letter <= 'z' {
        out.push((letter as u8 - 32) as char);
    } else {
        out.push(letter);
    }
    out.push(':');
    assert(out@ =~= drive(letter));
    out
}

/// How long the share of a server is that a path with slashes starts with, if it
/// starts with one.
fn share_prefix_len(chars: &Vec<char>) -> (r: Option<usize>)
    ensures
        match r {
            Some(n) => {
                &&& starts_with_share(chars@)
                &&& n == server_len(chars@) + share_len(chars@) + 3
                &&& n <= chars@.len()
            },
            None => !starts_with_share(chars@),
        },
{
    let total = chars.len();
    if total <= 2 || chars[0] != '/' || chars[1] != '/' {
        return None;
    }
    let server = next_char(chars, 2, '/');
    assert(server == server_len(chars@) + 2);
    if server == 2 || server >= total - 1 {
        return None;
    }
    let share = next_char(chars, server + 1, '/');
    if share == server + 1 {
        return None;
    }
    Some(share)
}

/// Whether a path, or the prefix of one, is verbatim.
fn verbatim_text(chars: &Vec<char>) -> (r: bool)
    ensures
        r == is_verbatim(chars@),
{
    chars.len() >= 4 && chars[0] == '\\' && chars[1] == '\\' && chars[2] == '?' && chars[3] == '\\'
}

/// How long the prefix of a verbatim path is.
fn verbatim_prefix_len(chars: &Vec<char>) -> (r: usize)
    requires
        is_verbatim(chars@),
    ensures
        r == verbatim_len(chars@),
        4 <= r <= chars@.len(),
{
    let total = chars.len();
    assert(chars@.skip(4).len() == total - 4);
    if total >= 8 && chars[4] == 'U' && chars[5] == 'N' && chars[6] == 'C' && chars[7] == '\\' {
        assert(starts_with_unc(chars@.skip(4)));
        let server = next_char(chars, 8, '\\');
        if server < total - 1 {
            let share = next_char(chars, server + 1, '\\');
            if share > server + 1 {
                return share;
            }
        }
        server
    } else {
        proof {
            if total >= 8 {
                assert(chars@.skip(4)[0] == chars@[4] && chars@.skip(4)[1] == chars@[5]);
                assert(chars@.skip(4)[2] == chars@[6] && chars@.skip(4)[3] == chars@[7]);
            }
            assert(!starts_with_unc(chars@.skip(4)));
        }
        next_char(chars, 4, '\\')
    }
}

/// The prefix of a verbatim path, which is `n` characters long.
fn verbatim_prefix_text(chars: &Vec<char>, n: usize) -> (r: String)
    requires
        is_verbatim(chars@),
        n == verbatim_len(chars@),
        4 <= n <= chars@.len(),
    ensures
        r@ == verbatim_prefix(chars@),
{
    if n == 6 && chars[5] == ':' && drive_letter(chars[4]) {
        assert(starts_with_drive(chars@.skip(4)));
        let mut out = text::string_of(chars, 0, 4);
        let letter = drive_text(chars[4]);
        out.append(letter.as_str());
        assert(chars@.subrange(0, 4) =~= chars@.take(4));
        out
    } else {
        proof {
            if n == 6 {
                assert(chars@.skip(4)[0] == chars@[4] && chars@.skip(4)[1] == chars@[5]);
            }
            assert(chars@.subrange(0, n as int) =~= chars@.take(n as int));
        }
        text::string_of(chars, 0, n)
    }
}

/// The share of a server that a path with slashes starts with, which is `n`
/// characters long.
fn share_prefix_text(chars: &Vec<char>, n: usize) -> (r: String)
    requires
        n == server_len(chars@) + share_len(chars@) + 3,
        n <= chars@.len(),
    ensures
        r@ == share_prefix(chars@),
{
    let text = backslashed_text(chars, n);
    let text_chars = text::chars_of(text.as_str());
    if verbatim_text(&text_chars) {
        assert(chars@.subrange(0, n as int) =~= chars@.take(n as int));
        text::string_of(chars, 0, n)
    } else {
        text
    }
}

/// A text with slashes and backslashes exchanged.
fn swapped_text(text: &str) -> (r: String)
    ensures
        r@ == swapped(text@),
{
    let chars = text::chars_of(text);
    let mut out = String::new();
    let mut i: usize = 0;
    assert(out@ =~= swapped(chars@.take(0)));
    while i < chars.len()
        invariant
            i <= chars@.len(),
            out@ == swapped(chars@.take(i as int)),
        decreases chars@.len() - i,
    {
        let c = chars[i];
        if c == '\\' {
            out.push('/');
        } else if c == '/' {
            out.push('\\');
        } else {
            out.push(c);
        }
        assert(out@ =~= swapped(chars@.take(i + 1)));
        i += 1;
    }
    assert(chars@.take(i as int) =~= chars@);
    out
}

/// The position of the first `c` from `start` on, or the length if there is none.
fn next_char(chars: &Vec<char>, start: usize, c: char) -> (r: usize)
    requires
        start <= chars@.len(),
    ensures
        start <= r <= chars@.len(),
        r == start + text::first_index(chars@.skip(start as int), c),
{
    let ghost rest = chars@.skip(start as int);
    let mut i: usize = start;
    while i < chars.len() && chars[i] != c
        invariant
            start <= i <= chars@.len(),
            rest == chars@.skip(start as int),
            forall|j: int| 0 <= j < i - start ==> #[trigger] rest[j] != c,
        decreases chars@.len() - i,
    {
        assert(rest[i - start] == chars@[i as int]);
        i += 1;
    }
    proof {
        if i < chars@.len() {
            assert(rest[i - start] == chars@[i as int]);
        }
        text::lemma_first_index_unique(rest, c, i - start);
    }
    i
}

/// The text of the first `n` characters, with backslashes in place of slashes.
fn backslashed_text(chars: &Vec<char>, n: usize) -> (r: String)
    requires
        n <= chars@.len(),
    ensures
        r@ == with_backslashes(chars@.take(n as int)),
{
    let ghost front = chars@.take(n as int);
    let mut out = String::new();
    let mut i: usize = 0;
    assert(out@ =~= with_backslashes(front.take(0)));
    while i < n
        invariant
            i <= n <= chars@.len(),
            front == chars@.take(n as int),
            out@ == with_backslashes(front.take(i as int)),
        decreases n - i,
    {
        let c = chars[i];
        if c == '/' {
            out.push('\\');
        } else {
            out.push(c);
        }
        assert(out@ =~= with_backslashes(front.take(i + 1)));
        i += 1;
    }
    assert(front.take(i as int) =~= front);
    out
}

/// The text of what follows the first `start` characters, with slashes in place
/// of backslashes.
fn slashed_text(chars: &Vec<char>, start: usize) -> (r: String)
    requires
        start <= chars@.len(),
    ensures
        r@ == with_slashes(chars@.skip(start as int)),
{
    let ghost rest = chars@.skip(start as int);
    let mut out = String::new();
    let mut i: usize = start;
    assert(out@ =~= with_slashes(rest.take(0)));
    while i < chars.len()
        invariant
            start <= i <= chars@.len(),
            rest == chars@.skip(start as int),
            out@ == with_slashes(rest.take(i - start)),
        decreases chars@.len() - i,
    {
        let c = chars[i];
        if c == '\\' {
            out.push('/');
        } else {
            out.push(c);
        }
        assert(out@ =~= with_slashes(rest.take(i + 1 - start)));
        i += 1;
    }
    assert(rest.take(i - start) =~= rest);
    out
}

/// The component for a name written behind others, if it stands for one.
fn component_of_name(name: &str) -> (r: Option<FsComponent>)
    ensures
        match r {
            Some(part) => later_part(name@) == Some(part@),
            None => later_part(name@) is None,
        },
{
    let chars = text::chars_of(name);
    if chars.len() == 0 {
        return None;
    }
    if chars.len() == 1 && chars[0] == '.' {
        assert(name@ =~= seq!['.']);
        return Some(FsComponent::CurDir);
    }
    if chars.len() == 2 && chars[0] == '.' && chars[1] == '.' {
        assert(name@ =~= seq!['.', '.']);
        return Some(FsComponent::ParentDir);
    }
    proof {
        if name@ == seq!['.'] {
            assert(chars@[0] == '.');
        }
        if name@ == seq!['.', '.'] {
            assert(chars@[0] == '.' && chars@[1] == '.');
        }
    }
    Some(FsComponent::Normal(name.to_owned()))
}

impl FsPath {
    /// The path made of the given components.
    pub fn from_components(parts: Vec<FsComponent>) -> (r: FsPath)
        ensures
            r@ == parts@.map_values(|part: FsComponent| part@),
    {
        FsPath { parts }
    }

    /// The empty path.
    pub fn new() -> (r: FsPath)
        ensures
            r@ == Seq::<FsPart>::empty(),
    {
        let r = FsPath { parts: Vec::new() };
        assert(r@ =~= Seq::empty());
        r
    }

    /// Reads a path written as on this machine.
    pub fn from_text(text: &str) -> (r: FsPath)
        ensures
            exists|platform: Platform| #[trigger]
                platform.is_host() && r@ == text_parts(platform, text@),
    {
        FsPath::from_text_on(Platform::host(), text)
    }

    /// Reads a path written as on `platform`.
    ///
    /// On Windows, drives, shares of servers and verbatim prefixes are read.
    pub fn from_text_on(platform: Platform, text: &str) -> (r: FsPath)
        ensures
            r@ == text_parts(platform, text@),
    {
        let mut out = FsPath::new();
        match platform {
            Platform::Unix => {
                out.push_text(text);
                assert(out@ =~= slash_parts(text@));
            },
            Platform::Windows => {
                let chars = text::chars_of(text);
                if chars.len() >= 2 && chars[1] == ':' && drive_letter(chars[0]) {
                    out.push_component(FsComponent::Prefix(drive_text(chars[0])));
                    let rest = slashed_text(&chars, 2);
                    out.push_text(rest.as_str());
                } else if verbatim_text(&chars) {
                    let n = verbatim_prefix_len(&chars);
                    out.push_component(FsComponent::Prefix(verbatim_prefix_text(&chars, n)));
                    out.push_component(FsComponent::RootDir);
                    let rest = text::string_of(&chars, n, chars.len());
                    assert(rest@ =~= text@.skip(n as int));
                    out.push_backslash_names(rest.as_str());
                } else {
                    assert(text@.skip(0) =~= text@);
                    let slashed = slashed_text(&chars, 0);
                    let slashed_chars = text::chars_of(slashed.as_str());
                    match share_prefix_len(&slashed_chars) {
                        Some(n) => {
                            out.push_component(
                                FsComponent::Prefix(share_prefix_text(&slashed_chars, n)),
                            );
                            out.push_component(FsComponent::RootDir);
                            let rest = text::string_of(&slashed_chars, n, slashed_chars.len());
                            assert(rest@ =~= slashed@.skip(n as int));
                            out.push_names(rest.as_str());
                        },
                        None => {
                            out.push_text(slashed.as_str());
                        },
                    }
                }
                assert(out@ =~= text_parts(platform, text@));
            },
        }
        out
    }

    /// Puts the components of a path behind this one, in which slashes separate
    /// names.
    fn push_text(&mut self, text: &str)
        ensures
            final(self)@ == old(self)@ + slash_parts(text@),
    {
        let chars = text::chars_of(text);
        let ghost start = self@;
        if chars.len() > 0 && chars[0] == '/' {
            self.push_component(FsComponent::RootDir);
        }
        self.push_names(text);
        assert(self@ =~= start + slash_parts(text@));
    }

    /// Puts what the names in a text stand for at the end.
    fn push_names(&mut self, text: &str)
        ensures
            final(self)@ == old(self)@ + later_parts(path_model::components(text@)),
    {
        let out = self;
        let ghost before = out@;
        let names = RepoPath::from_internal_string_unchecked(text).components().collect_vec();
        let ghost texts = path_model::components(text@);
        let mut i: usize = 0;
        assert(texts.take(0) =~= Seq::empty());
        assert(before + later_parts(Seq::empty()) =~= before);
        while i < names.len()
            invariant
                i <= names@.len(),
                repo_path::component_texts(names@) == texts,
                out@ == before + later_parts(texts.take(i as int)),
            decreases names@.len() - i,
        {
            proof {
                assert(texts[i as int] == names@[i as int]@);
                assert(texts.take(i + 1).drop_last() =~= texts.take(i as int));
                assert(texts.take(i + 1).last() == texts[i as int]);
            }
            out.push_name(names[i].as_internal_str());
            assert(out@ =~= before + later_parts(texts.take(i + 1)));
            i += 1;
        }
        assert(texts.take(i as int) =~= texts);
    }

    /// Puts what the names in a text stand for at the end, in which backslashes
    /// separate them.
    fn push_backslash_names(&mut self, text: &str)
        ensures
            final(self)@ == old(self)@ + later_parts(backslash_names(text@)),
    {
        let ghost before = self@;
        let exchanged = swapped_text(text);
        let names = RepoPath::from_internal_string_unchecked(
            exchanged.as_str(),
        ).components().collect_vec();
        let ghost texts = backslash_names(text@);
        let mut i: usize = 0;
        assert(texts.take(0) =~= Seq::empty());
        assert(before + later_parts(Seq::empty()) =~= before);
        while i < names.len()
            invariant
                i <= names@.len(),
                repo_path::component_texts(names@) == path_model::components(swapped(text@)),
                texts == backslash_names(text@),
                self@ == before + later_parts(texts.take(i as int)),
            decreases names@.len() - i,
        {
            let name = swapped_text(names[i].as_internal_str());
            proof {
                assert(path_model::components(swapped(text@))[i as int] == names@[i as int]@);
                assert(texts[i as int] == name@);
                assert(texts.take(i + 1).drop_last() =~= texts.take(i as int));
                assert(texts.take(i + 1).last() == texts[i as int]);
            }
            self.push_name(name.as_str());
            assert(self@ =~= before + later_parts(texts.take(i + 1)));
            i += 1;
        }
        assert(texts.take(i as int) =~= texts);
    }

    /// Puts a component at the end.
    pub fn push_component(&mut self, part: FsComponent)
        ensures
            final(self)@ == old(self)@.push(part@),
    {
        let ghost before = self@;
        self.parts.push(part);
        assert(self@ =~= before.push(part@));
    }

    /// Puts what a name stands for at the end.
    pub fn push_name(&mut self, name: &str)
        ensures
            final(self)@ == match later_part(name@) {
                Some(part) => old(self)@.push(part),
                None => old(self)@,
            },
    {
        if let Some(part) = component_of_name(name) {
            self.push_component(part);
        }
    }

    /// Puts a normal name at the end.
    pub fn push_normal(&mut self, name: &str)
        ensures
            final(self)@ == old(self)@.push(FsPart::Normal(name@)),
    {
        self.push_component(FsComponent::Normal(name.to_owned()));
    }

    /// How many components there are.
    pub fn len(&self) -> (r: usize)
        ensures
            r == self@.len(),
    {
        self.parts.len()
    }

    /// Component number `i`, counted from 0.
    pub fn component(&self, i: usize) -> (r: &FsComponent)
        requires
            i < self@.len(),
        ensures
            r@ == self@[i as int],
    {
        &self.parts[i]
    }

    /// Copies this path.
    pub fn duplicate(&self) -> (r: FsPath)
        ensures
            r@ == self@,
    {
        self.subpath(0, self.parts.len())
    }

    fn subpath(&self, from: usize, to: usize) -> (r: FsPath)
        requires
            from <= to <= self@.len(),
        ensures
            r@ == self@.subrange(from as int, to as int),
    {
        let mut out = FsPath::new();
        let mut i: usize = from;
        while i < to
            invariant
                from <= i <= to <= self@.len(),
                out@ == self@.subrange(from as int, i as int),
            decreases to - i,
        {
            out.push_component(self.parts[i].duplicate());
            assert(out@ =~= self@.subrange(from as int, i + 1));
            i += 1;
        }
        out
    }

    fn append(&mut self, other: &FsPath)
        ensures
            final(self)@ == old(self)@ + other@,
    {
        let ghost before = self@;
        let mut i: usize = 0;
        while i < other.parts.len()
            invariant
                i <= other@.len(),
                self@ == before + other@.take(i as int),
            decreases other@.len() - i,
        {
            self.push_component(other.parts[i].duplicate());
            assert(self@ =~= before + other@.take(i + 1));
            i += 1;
        }
        assert(other@.take(i as int) =~= other@);
    }

    /// Puts `path` behind this directory, which it replaces if it is absolute.
    pub fn join(&self, path: &FsPath) -> (r: FsPath)
        ensures
            r@ == path_joined(self@, path@),
    {
        if path.parts.len() > 0 {
            match &path.parts[0] {
                FsComponent::Prefix(_) => {
                    return path.duplicate();
                },
                _ => {},
            }
        }
        if self.is_verbatim() {
            return self.join_verbatim(path);
        }
        if path.parts.len() > 0 {
            match &path.parts[0] {
                FsComponent::RootDir => {
                    if self.parts.len() > 0 {
                        if let FsComponent::Prefix(_) = &self.parts[0] {
                            let mut out = self.subpath(0, 1);
                            assert(out@ =~= seq![self@[0]]);
                            out.append(path);
                            return out;
                        }
                    }
                    return path.duplicate();
                },
                _ => {},
            }
        }
        let mut out = self.duplicate();
        out.append(path);
        out
    }

    /// Whether this path has a verbatim prefix.
    fn is_verbatim(&self) -> (r: bool)
        ensures
            r == has_verbatim_prefix(self@),
    {
        if self.parts.len() == 0 {
            return false;
        }
        match &self.parts[0] {
            FsComponent::Prefix(text) => {
                let chars = text::chars_of(text.as_str());
                verbatim_text(&chars)
            },
            _ => false,
        }
    }

    /// Puts `path` behind this verbatim path.
    fn join_verbatim(&self, path: &FsPath) -> (r: FsPath)
        requires
            has_verbatim_prefix(self@),
        ensures
            r@ == verbatim_joined(self@, path@),
    {
        let mut out = self.duplicate();
        let mut i: usize = 0;
        assert(path@.take(0) =~= Seq::empty());
        while i < path.parts.len()
            invariant
                i <= path@.len(),
                out@.len() > 0,
                has_verbatim_prefix(out@),
                out@ == verbatim_joined(self@, path@.take(i as int)),
            decreases path@.len() - i,
        {
            proof {
                assert(path@.take(i + 1).drop_last() =~= path@.take(i as int));
                assert(path@.take(i + 1).last() == path@[i as int]);
            }
            match &path.parts[i] {
                FsComponent::RootDir => {
                    out = out.subpath(0, 1);
                    out.push_component(FsComponent::RootDir);
                    assert(out@ =~= verbatim_joined(self@, path@.take(i + 1)));
                },
                FsComponent::CurDir => {},
                FsComponent::ParentDir => {
                    if out.ends_with_name() {
                        out.pop();
                    }
                },
                part => {
                    out.push_component(part.duplicate());
                },
            }
            i += 1;
        }
        assert(path@.take(i as int) =~= path@);
        out
    }

    /// This path without the components that mean nothing.
    pub fn to_significant(&self) -> (r: FsPath)
        ensures
            r@ == significant(self@),
    {
        let mut out = FsPath::new();
        let mut i: usize = 0;
        assert(self@.take(0) =~= Seq::empty());
        while i < self.parts.len()
            invariant
                i <= self@.len(),
                out@ == significant(self@.take(i as int)),
            decreases self@.len() - i,
        {
            proof {
                assert(self@.take(i + 1).drop_last() =~= self@.take(i as int));
                assert(self@.take(i + 1).last() == self@[i as int]);
            }
            if i == 0 || !self.parts[i].is_cur_dir() {
                out.push_component(self.parts[i].duplicate());
            }
            i += 1;
        }
        assert(self@.take(i as int) =~= self@);
        out
    }

    /// Whether the two paths have the same significant components.
    pub fn same_path(&self, other: &FsPath) -> (r: bool)
        ensures
            r == (significant(self@) == significant(other@)),
    {
        let a = self.to_significant();
        let b = other.to_significant();
        a.len() == b.len() && a.is_initial_part_of(&b)
    }

    fn is_initial_part_of(&self, other: &FsPath) -> (r: bool)
        ensures
            r == self@.is_prefix_of(other@),
            r && self@.len() == other@.len() ==> self@ == other@,
            self@ == other@ ==> r,
    {
        if self.parts.len() > other.parts.len() {
            return false;
        }
        let mut i: usize = 0;
        while i < self.parts.len()
            invariant
                i <= self@.len() <= other@.len(),
                self@.take(i as int) == other@.take(i as int),
            decreases self@.len() - i,
        {
            if !self.parts[i].same_as(&other.parts[i]) {
                proof {
                    assert(self@[i as int] != other@[i as int]);
                    if self@.is_prefix_of(other@) {
                        assert(other@.subrange(0, self@.len() as int)[i as int] == other@[i as int]);
                    }
                }
                return false;
            }
            proof {
                assert(self@.take(i + 1) =~= self@.take(i as int).push(self@[i as int]));
                assert(other@.take(i + 1) =~= other@.take(i as int).push(other@[i as int]));
            }
            i += 1;
        }
        proof {
            assert(self@.take(i as int) =~= self@);
            assert(other@.take(i as int) =~= other@.subrange(0, self@.len() as int));
            if self@.len() == other@.len() {
                assert(other@.take(i as int) =~= other@);
            }
        }
        true
    }

    /// Resolves `.` and `..` without looking at the filesystem.
    pub fn normalize(&self) -> (r: FsPath)
        ensures
            r@ == normalized(self@),
    {
        let mut out = FsPath::new();
        let mut i: usize = 0;
        assert(self@.take(0) =~= Seq::empty());
        while i < self.parts.len()
            invariant
                i <= self@.len(),
                out@ == resolved(self@.take(i as int)),
            decreases self@.len() - i,
        {
            proof {
                assert(self@.take(i + 1).drop_last() =~= self@.take(i as int));
                assert(self@.take(i + 1).last() == self@[i as int]);
            }
            match &self.parts[i] {
                FsComponent::CurDir => {},
                FsComponent::ParentDir => {
                    if out.ends_with_name() {
                        out.pop();
                    } else if !out.is_verbatim() {
                        out.push_component(FsComponent::ParentDir);
                    }
                },
                part => {
                    out.push_component(part.duplicate());
                },
            }
            i += 1;
        }
        assert(self@.take(i as int) =~= self@);
        if out.parts.len() == 0 {
            out.push_component(FsComponent::CurDir);
            assert(out@ =~= seq![FsPart::CurDir]);
        }
        out
    }

    fn ends_with_name(&self) -> (r: bool)
        ensures
            r == (self@.len() > 0 && is_name(self@.last())),
    {
        let n = self.parts.len();
        if n == 0 {
            return false;
        }
        assert(self@.last() == self@[n - 1]);
        match &self.parts[n - 1] {
            FsComponent::Normal(_) | FsComponent::NonUnicode { .. } => true,
            _ => false,
        }
    }

    fn pop(&mut self)
        requires
            old(self)@.len() > 0,
        ensures
            final(self)@ == old(self)@.drop_last(),
    {
        let ghost before = self@;
        self.parts.pop();
        assert(self@ =~= before.drop_last());
    }

    /// The first position from `from` on that does not hold a `.`.
    fn skip_front(&self, from: usize) -> (r: usize)
        requires
            from <= self@.len(),
        ensures
            from <= r <= self@.len(),
            self@.subrange(r as int, self@.len() as int) == trimmed_front(
                self@.subrange(from as int, self@.len() as int),
            ),
    {
        let total = self.parts.len();
        let mut i: usize = from;
        while i < total && self.parts[i].is_cur_dir()
            invariant
                from <= i <= total == self@.len(),
                trimmed_front(self@.subrange(from as int, total as int)) == trimmed_front(
                    self@.subrange(i as int, total as int),
                ),
            decreases total - i,
        {
            assert(self@.subrange(i as int, total as int)[0] == self@[i as int]);
            assert(self@.subrange(i as int, total as int).drop_first() =~= self@.subrange(
                i + 1,
                total as int,
            ));
            i += 1;
        }
        proof {
            if i < total {
                assert(self@.subrange(i as int, total as int)[0] == self@[i as int]);
            }
        }
        i
    }

    /// The end of what starts at `from`, without a `.` there.
    fn skip_back(&self, from: usize) -> (r: usize)
        requires
            from <= self@.len(),
        ensures
            from <= r <= self@.len(),
            self@.subrange(from as int, r as int) == trimmed_back(
                self@.subrange(from as int, self@.len() as int),
            ),
    {
        let total = self.parts.len();
        let mut to: usize = total;
        while to - from > 1 && self.parts[to - 1].is_cur_dir()
            invariant
                from <= to <= total == self@.len(),
                trimmed_back(self@.subrange(from as int, total as int)) == trimmed_back(
                    self@.subrange(from as int, to as int),
                ),
            decreases to,
        {
            assert(self@.subrange(from as int, to as int).last() == self@[to - 1]);
            assert(self@.subrange(from as int, to as int).drop_last() =~= self@.subrange(
                from as int,
                to - 1,
            ));
            to -= 1;
        }
        proof {
            if to - from > 1 {
                assert(self@.subrange(from as int, to as int).last() == self@[to - 1]);
            }
        }
        to
    }

    /// What follows the first `n` significant components, without a `.` at
    /// either end.
    fn rest(&self, n: usize) -> (r: FsPath)
        ensures
            r@ == trimmed_back(rest_after(self@, n as nat)),
    {
        let mut from: usize = 0;
        let mut left: usize = n;
        let total = self.parts.len();
        assert(self@.subrange(0, total as int) =~= self@);
        while left > 0 && from < total
            invariant
                from <= total == self@.len(),
                rest_after(self@, n as nat) == rest_after(
                    self@.subrange(from as int, total as int),
                    left as nat,
                ),
            decreases left,
        {
            assert(self@.subrange(from as int, total as int).drop_first() =~= self@.subrange(
                from + 1,
                total as int,
            ));
            from = self.skip_front(from + 1);
            left -= 1;
        }
        let to = self.skip_back(from);
        self.subpath(from, to)
    }

    /// The way from the directory `from` to `to`, through their closest common
    /// directory. If they have none, `to` itself.
    pub fn relative_path(from: &FsPath, to: &FsPath) -> (r: FsPath)
        ensures
            r@ == relative(from@, to@),
    {
        let mut base = from.to_significant();
        let target = to.to_significant();
        let depth = base.len();
        let mut ups: usize = 0;
        loop
            invariant
                target@ == significant(to@),
                way_from(base@, to@, ups as nat) == relative(from@, to@),
                base@.len() + ups == depth,
            decreases base@.len(),
        {
            if base.is_initial_part_of(&target) {
                let suffix = to.rest(base.len());
                if ups == 0 && suffix.len() == 0 {
                    let mut out = FsPath::new();
                    out.push_component(FsComponent::CurDir);
                    assert(out@ =~= seq![FsPart::CurDir]);
                    return out;
                }
                let mut out = FsPath::new();
                let mut i: usize = 0;
                while i < ups
                    invariant
                        i <= ups,
                        out@ == Seq::new(i as nat, |j: int| FsPart::ParentDir),
                    decreases ups - i,
                {
                    out.push_component(FsComponent::ParentDir);
                    assert(out@ =~= Seq::new((i + 1) as nat, |j: int| FsPart::ParentDir));
                    i += 1;
                }
                return out.join(&suffix);
            }
            let n = base.parts.len();
            proof {
                if n == 0 {
                    assert(base@ =~= target@.subrange(0, 0));
                }
                assert(base@.last() == base@[n - 1]);
            }
            if base.parts[n - 1].is_anchor() {
                return to.duplicate();
            }
            base.pop();
            ups += 1;
        }
    }

    /// How this path is written, with the given separator.
    pub fn display(&self, separator: char) -> (r: String)
        ensures
            r@ == path_text(self@, separator),
    {
        let mut out = String::new();
        let mut i: usize = 0;
        assert(self@.take(0) =~= Seq::empty());
        while i < self.parts.len()
            invariant
                i <= self@.len(),
                out@ == path_text(self@.take(i as int), separator),
            decreases self@.len() - i,
        {
            proof {
                let now = self@.take(i + 1);
                assert(now.drop_last() =~= self@.take(i as int));
                assert(now.last() == self@[i as int]);
                if i > 0 {
                    assert(now[now.len() - 2] == self@[i - 1]);
                }
            }
            if i > 0 && !self.parts[i - 1].is_anchor() {
                out.push(separator);
            }
            let text = self.parts[i].text(separator);
            out.append(text.as_str());
            assert(out@ =~= path_text(self@.take(i + 1), separator));
            i += 1;
        }
        assert(self@.take(i as int) =~= self@);
        out
    }
}

/// A path without its last component, unless that is where the path is anchored.
pub open spec fn parent_parts(parts: Seq<FsPart>) -> Option<Seq<FsPart>> {
    let shown = significant(parts);
    if shown.len() > 0 && !(shown.last() is RootDir) && !(shown.last() is Prefix) {
        Some(shown.drop_last())
    } else {
        None
    }
}

/// What a path has below one of its ancestors.
pub open spec fn parts_below(base: Seq<FsPart>, path: Seq<FsPart>) -> Option<Seq<FsPart>> {
    if significant(base).is_prefix_of(significant(path)) {
        Some(significant(path).skip(significant(base).len() as int))
    } else {
        None
    }
}

impl FsPath {
    /// This path without its final component, if there is one.
    pub fn parent(&self) -> (r: Option<FsPath>)
        ensures
            match r {
                Some(path) => parent_parts(self@) == Some(path@),
                None => parent_parts(self@) is None,
            },
    {
        let mut shown = self.to_significant();
        let n = shown.parts.len();
        if n == 0 {
            return None;
        }
        assert(shown@.last() == shown@[n - 1]);
        if shown.parts[n - 1].is_anchor() {
            None
        } else {
            shown.pop();
            Some(shown)
        }
    }

    /// What this path has below `base`, if that is one of its ancestors.
    pub fn strip_prefix(&self, base: &FsPath) -> (r: Option<FsPath>)
        ensures
            match r {
                Some(path) => parts_below(base@, self@) == Some(path@),
                None => parts_below(base@, self@) is None,
            },
    {
        let shown = self.to_significant();
        let front = base.to_significant();
        if front.is_initial_part_of(&shown) {
            let r = shown.subpath(front.len(), shown.len());
            assert(r@ =~= shown@.skip(front@.len() as int));
            Some(r)
        } else {
            None
        }
    }
}

} // verus!
