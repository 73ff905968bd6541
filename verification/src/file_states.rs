//! The states of all tracked files, sorted by path.

use vstd::prelude::*;
use vstd::slice::slice_subrange;

use crate::file_state;
use crate::file_state::ExecBit;
use crate::file_state::FileState;
use crate::file_state::FileType;
use crate::path_model;
use crate::proto::FileStateEntry;
use crate::repo_path::RepoPath;
use crate::repo_path::RepoPathBuf;
use crate::repo_path::RepoPathComponent;
use crate::text;
use crate::text::Order;

verus! {

/// An entry that names a valid path and holds a state.
pub open spec fn valid_entry(entry: FileStateEntry) -> bool {
    path_model::valid_path(entry.path@) && entry.state is Some
}

/// Entries that are valid, and sorted by path without duplicates.
pub open spec fn sorted_entries(data: Seq<FileStateEntry>) -> bool {
    &&& forall|i: int| 0 <= i < data.len() ==> valid_entry(#[trigger] data[i])
    &&& forall|i: int, j: int|
        0 <= i < j < data.len() ==> path_model::path_order(
            #[trigger] data[i].path@,
            #[trigger] data[j].path@,
        ) == Order::Less
}

/// Whether one of the entries has the given path.
pub open spec fn has_path(data: Seq<FileStateEntry>, path: Seq<char>) -> bool {
    exists|i: int| 0 <= i < data.len() && #[trigger] data[i].path@ == path
}

/// The state held by an entry.
pub open spec fn entry_state(entry: FileStateEntry) -> FileState {
    file_state::decoded_state(entry.state->0)
}

/// The state of the given path among the entries.
pub open spec fn lookup(data: Seq<FileStateEntry>, path: Seq<char>) -> Option<FileState> {
    if has_path(data, path) {
        let i = choose|i: int| 0 <= i < data.len() && #[trigger] data[i].path@ == path;
        Some(entry_state(data[i]))
    } else {
        None
    }
}

/// The index at which sorted entries hold a path is the one that `lookup` sees.
pub proof fn lemma_lookup(data: Seq<FileStateEntry>, i: int)
    requires
        sorted_entries(data),
        0 <= i < data.len(),
    ensures
        has_path(data, data[i].path@),
        lookup(data, data[i].path@) == Some(entry_state(data[i])),
{
    let path = data[i].path@;
    assert(data[i].path@ == path);
    let j = choose|j: int| 0 <= j < data.len() && #[trigger] data[j].path@ == path;
    path_model::lemma_path_order_equal(path, path);
    if j < i {
        assert(path_model::path_order(data[j].path@, data[i].path@) == Order::Less);
    } else if i < j {
        assert(path_model::path_order(data[i].path@, data[j].path@) == Order::Less);
    }
}

/// What to look for among sorted entries.
#[derive(Clone, Copy)]
enum SearchKey<'a> {
    /// A path.
    Path(RepoPath<'a>),
    /// The entry of a directory that all of the paths lie under.
    Entry(RepoPath<'a>, RepoPathComponent<'a>),
}

impl<'a> SearchKey<'a> {
    spec fn target(self) -> Seq<char> {
        match self {
            SearchKey::Path(path) => path@,
            SearchKey::Entry(dir, name) => path_model::joined(dir@, name@),
        }
    }

    spec fn wf(self) -> bool {
        match self {
            SearchKey::Path(path) => path_model::valid_path(path@),
            SearchKey::Entry(dir, name) => path_model::valid_path(dir@) && path_model::valid_name(
                name@,
            ),
        }
    }

    /// Whether the entries can be searched for this key.
    spec fn fits(self, data: Seq<FileStateEntry>) -> bool {
        match self {
            SearchKey::Path(_) => true,
            SearchKey::Entry(dir, _) => all_under(data, dir@),
        }
    }

    /// How the entry is ordered relative to what is looked for.
    fn order_of(&self, entry: &FileStateEntry) -> (r: Order)
        requires
            self.wf(),
            valid_entry(*entry),
            self matches SearchKey::Entry(dir, _) ==> path_model::under(dir@, entry.path@),
        ensures
            r == path_model::path_order(entry.path@, self.target()),
    {
        let entry_path = RepoPath::from_internal_string_unchecked(entry.path.as_str());
        match self {
            SearchKey::Path(path) => entry_path.compare(*path),
            SearchKey::Entry(dir, name) => {
                let tail = tail_in_dir(entry_path, *dir);
                proof {
                    lemma_order_in_dir(entry_path@, dir@, name@, tail@);
                    text::lemma_first_index(tail@, '/');
                }
                match text::split_first(tail.as_internal_file_string(), '/') {
                    // "<name>/*" > "<name>"
                    Some((pre, _)) => match text::str_order(pre, name.as_internal_str()) {
                        Order::Equal => Order::Greater,
                        order => order,
                    },
                    None => text::str_order(tail.as_internal_file_string(), name.as_internal_str()),
                }
            },
        }
    }

    /// Whether the entry is what is looked for or lies under it.
    fn covers(&self, entry: &FileStateEntry) -> (r: bool)
        requires
            self.wf(),
            valid_entry(*entry),
            self matches SearchKey::Entry(dir, _) ==> path_model::under(dir@, entry.path@),
        ensures
            r == path_model::under(self.target(), entry.path@),
    {
        let entry_path = RepoPath::from_internal_string_unchecked(entry.path.as_str());
        match self {
            SearchKey::Path(path) => entry_path.starts_with(*path),
            SearchKey::Entry(dir, name) => {
                let tail = tail_in_dir(entry_path, *dir);
                proof {
                    lemma_order_in_dir(entry_path@, dir@, name@, tail@);
                    text::lemma_first_index(tail@, '/');
                }
                match text::split_first(tail.as_internal_file_string(), '/') {
                    Some((pre, _)) => text::str_eq(pre, name.as_internal_str()),
                    None => text::str_eq(tail.as_internal_file_string(), name.as_internal_str()),
                }
            },
        }
    }
}

/// Whether all entries lie under the given directory.
pub open spec fn all_under(data: Seq<FileStateEntry>, dir: Seq<char>) -> bool {
    forall|i: int| 0 <= i < data.len() ==> path_model::under(dir, #[trigger] data[i].path@)
}

/// What remains of a path below a directory that it lies under.
fn tail_in_dir<'a>(path: RepoPath<'a>, dir: RepoPath<'_>) -> (r: RepoPath<'a>)
    requires
        path_model::valid_path(path@),
        path_model::valid_path(dir@),
        path_model::under(dir@, path@),
    ensures
        path_model::valid_path(r@),
        path_model::components(path@) == path_model::components(dir@) + path_model::components(r@),
{
    match path.strip_prefix(dir) {
        Some(tail) => tail,
        None => path,
    }
}

/// A path in a directory is ordered relative to an entry of the directory by
/// the first name of what remains of it there.
proof fn lemma_order_in_dir(path: Seq<char>, dir: Seq<char>, name: Seq<char>, tail: Seq<char>)
    requires
        path_model::valid_path(path),
        path_model::valid_path(dir),
        path_model::valid_path(tail),
        path_model::valid_name(name),
        path_model::components(path) == path_model::components(dir) + path_model::components(tail),
    ensures
        ({
            let target = path_model::joined(dir, name);
            let i = text::first_index(tail, '/');
            let first = if i < tail.len() {
                tail.subrange(0, i)
            } else {
                tail
            };
            &&& path_model::path_order(path, target) == (if i < tail.len()
                && text::chars_order(first, name) == Order::Equal {
                Order::Greater
            } else {
                text::chars_order(first, name)
            })
            &&& path_model::under(target, path) <==> first == name
        }),
{
    let target = path_model::joined(dir, name);
    let cd = path_model::components(dir);
    let ct = path_model::components(tail);
    path_model::lemma_joined(dir, name);
    assert(cd.push(name) =~= cd + seq![name]);
    path_model::lemma_order_after_prefix(cd, ct, seq![name]);
    path_model::lemma_components_valid(tail);
    text::lemma_first_index(tail, '/');
    let i = text::first_index(tail, '/');
    let first = if i < tail.len() {
        tail.subrange(0, i)
    } else {
        tail
    };
    assert(seq![name].drop_first() =~= Seq::<Seq<char>>::empty());
    text::lemma_chars_order_equal(first, name);
    let cp = path_model::components(path);
    if tail.len() == 0 {
        assert(path_model::components(target).len() > cp.len());
    } else {
        assert(ct[0] == first);
        if i < tail.len() {
            let rest = tail.subrange(i + 1, tail.len() as int);
            assert(ct.drop_first() =~= path_model::components(rest));
            assert(tail.last() != '/');
            assert(rest.len() > 0);
            assert(ct.drop_first().len() > 0) by {
                text::lemma_first_index(rest, '/');
            }
            assert(path_model::names_order(ct.drop_first(), Seq::empty()) == Order::Greater);
        } else {
            assert(ct.drop_first() =~= Seq::<Seq<char>>::empty());
            assert(path_model::names_order(ct.drop_first(), Seq::empty()) == Order::Equal);
        }
        assert(path_model::names_order(ct, seq![name]) == path_model::path_order(path, target));
        if first == name {
            assert(path_model::components(target) =~= cp.subrange(0, cd.len() as int + 1));
        } else if path_model::under(target, path) {
            assert(path_model::components(target)[cd.len() as int] == name);
            assert(cp.subrange(0, cd.len() as int + 1)[cd.len() as int] == first);
        }
    }
}

/// Read-only map of path to file states, possibly filtered by path prefix.
#[derive(Clone, Copy, Debug)]
pub struct FileStates<'a> {
    data: &'a [FileStateEntry],
}

impl<'a> View for FileStates<'a> {
    type V = Seq<FileStateEntry>;

    closed spec fn view(&self) -> Seq<FileStateEntry> {
        self.data@
    }
}

impl<'a> FileStates<'a> {
    /// The entries are valid, and sorted by path without duplicates.
    pub open spec fn wf(&self) -> bool {
        sorted_entries(self@)
    }

    /// Wraps sorted entries.
    pub fn from_sorted(data: &'a [FileStateEntry]) -> (r: FileStates<'a>)
        ensures
            r@ == data@,
    {
        FileStates { data }
    }

    fn position_of(&self, key: SearchKey<'_>) -> (r: Option<usize>)
        requires
            self.wf(),
            key.wf(),
            key.fits(self@),
        ensures
            match r {
                Some(i) => i < self@.len() && self@[i as int].path@ == key.target(),
                None => !has_path(self@, key.target()),
            },
    {
        let ghost target = key.target();
        let ghost data = self@;
        proof {
            if let SearchKey::Entry(dir, name) = key {
                path_model::lemma_joined(dir@, name@);
            }
        }
        let mut lo: usize = 0;
        let mut hi: usize = self.data.len();
        while lo < hi
            invariant
                data == self@,
                self.wf(),
                key.wf(),
                key.fits(data),
                target == key.target(),
                path_model::valid_path(target),
                lo <= hi <= data.len(),
                forall|i: int|
                    0 <= i < lo ==> path_model::path_order(#[trigger] data[i].path@, target)
                        == Order::Less,
                forall|i: int|
                    hi <= i < data.len() ==> path_model::path_order(
                        #[trigger] data[i].path@,
                        target,
                    ) == Order::Greater,
            decreases hi - lo,
        {
            let mid = lo + (hi - lo) / 2;
            match key.order_of(&self.data[mid]) {
                Order::Equal => {
                    proof {
                        path_model::lemma_path_order_equal(data[mid as int].path@, target);
                    }
                    return Some(mid);
                },
                Order::Less => {
                    proof {
                        lemma_less_below(data, mid as int, target);
                    }
                    lo = mid + 1;
                },
                Order::Greater => {
                    proof {
                        lemma_greater_above(data, mid as int, target);
                    }
                    hi = mid;
                },
            }
        }
        proof {
            path_model::lemma_path_order_equal(target, target);
        }
        None
    }

    fn range_of(&self, key: SearchKey<'_>) -> (r: (usize, usize))
        requires
            self.wf(),
            key.wf(),
            key.fits(self@),
        ensures
            r.0 <= r.1 <= self@.len(),
            forall|i: int|
                0 <= i < self@.len() ==> (r.0 <= i < r.1 <==> path_model::under(
                    key.target(),
                    #[trigger] self@[i].path@,
                )),
    {
        let ghost target = key.target();
        let ghost data = self@;
        let mut lo: usize = 0;
        let mut hi: usize = self.data.len();
        while lo < hi
            invariant
                data == self@,
                self.wf(),
                key.wf(),
                key.fits(data),
                target == key.target(),
                lo <= hi <= data.len(),
                forall|i: int|
                    0 <= i < lo ==> path_model::path_order(#[trigger] data[i].path@, target)
                        == Order::Less,
                forall|i: int|
                    hi <= i < data.len() ==> path_model::path_order(
                        #[trigger] data[i].path@,
                        target,
                    ) != Order::Less,
            decreases hi - lo,
        {
            let mid = lo + (hi - lo) / 2;
            match key.order_of(&self.data[mid]) {
                Order::Less => {
                    proof {
                        lemma_less_below(data, mid as int, target);
                    }
                    lo = mid + 1;
                },
                _ => {
                    proof {
                        lemma_not_less_above(data, mid as int, target);
                    }
                    hi = mid;
                },
            }
        }
        let start = lo;
        hi = self.data.len();
        while lo < hi
            invariant
                data == self@,
                self.wf(),
                key.wf(),
                key.fits(data),
                target == key.target(),
                start <= lo <= hi <= data.len(),
                forall|i: int|
                    start <= i < data.len() ==> path_model::path_order(
                        #[trigger] data[i].path@,
                        target,
                    ) != Order::Less,
                forall|i: int|
                    start <= i < lo ==> path_model::under(target, #[trigger] data[i].path@),
                forall|i: int|
                    hi <= i < data.len() ==> !path_model::under(target, #[trigger] data[i].path@),
            decreases hi - lo,
        {
            let mid = lo + (hi - lo) / 2;
            if key.covers(&self.data[mid]) {
                proof {
                    lemma_under_between(data, start as int, mid as int, target);
                }
                lo = mid + 1;
            } else {
                proof {
                    lemma_not_under_above(data, mid as int, target);
                }
                hi = mid;
            }
        }
        proof {
            assert forall|i: int| 0 <= i < start implies !path_model::under(
                target,
                #[trigger] data[i].path@,
            ) by {
                if path_model::under(target, data[i].path@) {
                    path_model::lemma_under_not_before(target, data[i].path@);
                    path_model::lemma_path_order_flip(target, data[i].path@);
                }
            }
        }
        (start, lo)
    }

    fn slice(&self, range: (usize, usize)) -> (r: FileStates<'a>)
        requires
            self.wf(),
            range.0 <= range.1 <= self@.len(),
        ensures
            r.wf(),
            r@ == self@.subrange(range.0 as int, range.1 as int),
    {
        let r = FileStates { data: slice_subrange(self.data, range.0, range.1) };
        assert(sorted_entries(r@)) by {
            assert forall|i: int, j: int| 0 <= i < j < r@.len() implies path_model::path_order(
                #[trigger] r@[i].path@,
                #[trigger] r@[j].path@,
            ) == Order::Less by {
                assert(self@[range.0 + i].path@ == r@[i].path@);
                assert(self@[range.0 + j].path@ == r@[j].path@);
            }
        }
        r
    }
}

/// What precedes an entry below the target is below it too.
proof fn lemma_less_below(data: Seq<FileStateEntry>, mid: int, target: Seq<char>)
    requires
        sorted_entries(data),
        0 <= mid < data.len(),
        path_model::path_order(data[mid].path@, target) == Order::Less,
    ensures
        forall|i: int|
            0 <= i <= mid ==> path_model::path_order(#[trigger] data[i].path@, target)
                == Order::Less,
{
    assert forall|i: int| 0 <= i <= mid implies path_model::path_order(
        #[trigger] data[i].path@,
        target,
    ) == Order::Less by {
        if i < mid {
            assert(path_model::path_order(data[i].path@, data[mid].path@) == Order::Less);
            path_model::lemma_path_order_transitive(data[i].path@, data[mid].path@, target);
        }
    }
}

/// What follows an entry above the target is above it too.
proof fn lemma_greater_above(data: Seq<FileStateEntry>, mid: int, target: Seq<char>)
    requires
        sorted_entries(data),
        0 <= mid < data.len(),
        path_model::path_order(data[mid].path@, target) == Order::Greater,
    ensures
        forall|i: int|
            mid <= i < data.len() ==> path_model::path_order(#[trigger] data[i].path@, target)
                == Order::Greater,
{
    assert forall|i: int| mid <= i < data.len() implies path_model::path_order(
        #[trigger] data[i].path@,
        target,
    ) == Order::Greater by {
        if mid < i {
            assert(path_model::path_order(data[mid].path@, data[i].path@) == Order::Less);
            path_model::lemma_path_order_flip(data[mid].path@, target);
            path_model::lemma_path_order_transitive(target, data[mid].path@, data[i].path@);
            path_model::lemma_path_order_flip(target, data[i].path@);
        }
    }
}

/// What follows an entry that is not below the target is not below it either.
proof fn lemma_not_less_above(data: Seq<FileStateEntry>, mid: int, target: Seq<char>)
    requires
        sorted_entries(data),
        0 <= mid < data.len(),
        path_model::path_order(data[mid].path@, target) != Order::Less,
    ensures
        forall|i: int|
            mid <= i < data.len() ==> path_model::path_order(#[trigger] data[i].path@, target)
                != Order::Less,
{
    assert forall|i: int| mid <= i < data.len() implies path_model::path_order(
        #[trigger] data[i].path@,
        target,
    ) != Order::Less by {
        if mid < i {
            assert(path_model::path_order(data[mid].path@, data[i].path@) == Order::Less);
            if path_model::path_order(data[i].path@, target) == Order::Less {
                path_model::lemma_path_order_transitive(
                    data[mid].path@,
                    data[i].path@,
                    target,
                );
            }
        }
    }
}

/// Between the target and an entry under it there are only entries under it.
proof fn lemma_under_between(data: Seq<FileStateEntry>, start: int, mid: int, target: Seq<char>)
    requires
        sorted_entries(data),
        0 <= start <= mid < data.len(),
        forall|i: int|
            start <= i < data.len() ==> path_model::path_order(#[trigger] data[i].path@, target)
                != Order::Less,
        path_model::under(target, data[mid].path@),
    ensures
        forall|i: int|
            start <= i <= mid ==> path_model::under(target, #[trigger] data[i].path@),
{
    assert forall|i: int| start <= i <= mid implies path_model::under(
        target,
        #[trigger] data[i].path@,
    ) by {
        if i < mid {
            assert(path_model::path_order(data[i].path@, data[mid].path@) == Order::Less);
            path_model::lemma_path_order_flip(target, data[i].path@);
            path_model::lemma_under_contiguous(target, data[i].path@, data[mid].path@);
        }
    }
}

/// After an entry that has left the target's range there is none in it.
proof fn lemma_not_under_above(data: Seq<FileStateEntry>, mid: int, target: Seq<char>)
    requires
        sorted_entries(data),
        0 <= mid < data.len(),
        path_model::path_order(data[mid].path@, target) != Order::Less,
        !path_model::under(target, data[mid].path@),
    ensures
        forall|i: int|
            mid <= i < data.len() ==> !path_model::under(target, #[trigger] data[i].path@),
{
    assert forall|i: int| mid <= i < data.len() implies !path_model::under(
        target,
        #[trigger] data[i].path@,
    ) by {
        if mid < i && path_model::under(target, data[i].path@) {
            assert(path_model::path_order(data[mid].path@, data[i].path@) == Order::Less);
            path_model::lemma_path_order_flip(target, data[mid].path@);
            path_model::lemma_under_contiguous(target, data[mid].path@, data[i].path@);
        }
    }
}

/// The entries under the given path.
pub open spec fn entries_under(data: Seq<FileStateEntry>, base: Seq<char>) -> Seq<
    FileStateEntry,
> {
    data.filter(|entry: FileStateEntry| path_model::under(base, entry.path@))
}

/// All entries that are kept lie under the directory.
pub proof fn lemma_entries_under(data: Seq<FileStateEntry>, base: Seq<char>)
    ensures
        all_under(entries_under(data, base), base),
    decreases data.len(),
{
    reveal(Seq::filter);
    if data.len() > 0 {
        lemma_entries_under(data.drop_last(), base);
    }
}

/// A range that holds exactly the entries under a path is the list of them.
proof fn lemma_range_is_filter(data: Seq<FileStateEntry>, base: Seq<char>, lo: int, hi: int)
    requires
        0 <= lo <= hi <= data.len(),
        forall|i: int|
            0 <= i < data.len() ==> (lo <= i < hi <==> path_model::under(
                base,
                #[trigger] data[i].path@,
            )),
    ensures
        entries_under(data, base) == data.subrange(lo, hi),
    decreases data.len(),
{
    reveal(Seq::filter);
    if data.len() == 0 {
        assert(entries_under(data, base) =~= data.subrange(lo, hi));
    } else {
        let n = data.len() as int;
        let rest = data.drop_last();
        assert forall|i: int| 0 <= i < rest.len() implies (lo <= i < hi <==> path_model::under(
            base,
            #[trigger] rest[i].path@,
        )) by {
            assert(rest[i] == data[i]);
        }
        assert(data.last() == data[n - 1]);
        if hi == n {
            if lo < n {
                lemma_range_is_filter(rest, base, lo, n - 1);
                assert(data.subrange(lo, hi) =~= rest.subrange(lo, n - 1).push(data.last()));
            } else {
                lemma_range_is_filter(rest, base, n - 1, n - 1);
                assert(data.subrange(lo, hi) =~= rest.subrange(n - 1, n - 1));
            }
        } else {
            lemma_range_is_filter(rest, base, lo, hi);
            assert(data.subrange(lo, hi) =~= rest.subrange(lo, hi));
        }
    }
}

impl<'a> FileStates<'a> {
    /// Returns file states under the given directory path.
    pub fn prefixed(&self, base: RepoPath<'_>) -> (r: FileStates<'a>)
        requires
            self.wf(),
            path_model::valid_path(base@),
        ensures
            r.wf(),
            r@ == entries_under(self@, base@),
    {
        let range = self.range_of(SearchKey::Path(base));
        proof {
            lemma_range_is_filter(self@, base@, range.0 as int, range.1 as int);
        }
        self.slice(range)
    }

    /// Faster version of `prefixed("<dir>/<base>")`. Requires that all entries
    /// share the same prefix `dir`.
    pub fn prefixed_at(&self, dir: RepoPath<'_>, base: RepoPathComponent<'_>) -> (r: FileStates<'a>)
        requires
            self.wf(),
            path_model::valid_path(dir@),
            path_model::valid_name(base@),
            all_under(self@, dir@),
        ensures
            r.wf(),
            r@ == entries_under(self@, path_model::joined(dir@, base@)),
    {
        let range = self.range_of(SearchKey::Entry(dir, base));
        proof {
            lemma_range_is_filter(
                self@,
                path_model::joined(dir@, base@),
                range.0 as int,
                range.1 as int,
            );
        }
        self.slice(range)
    }

    /// Returns true if this contains no entries.
    pub fn is_empty(&self) -> (r: bool)
        ensures
            r == (self@.len() == 0),
    {
        self.data.len() == 0
    }

    /// Returns true if the given `path` exists.
    pub fn contains_path(&self, path: RepoPath<'_>) -> (r: bool)
        requires
            self.wf(),
            path_model::valid_path(path@),
        ensures
            r == has_path(self@, path@),
    {
        self.exact_position(path).is_some()
    }

    /// Returns file state for the given `path`.
    pub fn get(&self, path: RepoPath<'_>) -> (r: Option<FileState>)
        requires
            self.wf(),
            path_model::valid_path(path@),
        ensures
            r == lookup(self@, path@),
    {
        match self.exact_position(path) {
            Some(pos) => {
                proof {
                    lemma_lookup(self@, pos as int);
                }
                let (_, state) = file_state_entry_from_proto(&self.data[pos]);
                Some(state)
            },
            None => None,
        }
    }

    /// Returns the executable bit state if `path` is a normal file.
    pub fn get_exec_bit(&self, path: RepoPath<'_>) -> (r: Option<ExecBit>)
        requires
            self.wf(),
            path_model::valid_path(path@),
        ensures
            r == lookup_exec_bit(self@, path@),
    {
        match self.get(path) {
            Some(state) => match state.file_type {
                FileType::Normal { exec_bit } => Some(exec_bit),
                FileType::Symlink | FileType::GitSubmodule => None,
            },
            None => None,
        }
    }

    /// Faster version of `get("<dir>/<name>")`. Requires that all entries share
    /// the same prefix `dir`.
    pub fn get_at(&self, dir: RepoPath<'_>, name: RepoPathComponent<'_>) -> (r: Option<FileState>)
        requires
            self.wf(),
            path_model::valid_path(dir@),
            path_model::valid_name(name@),
            all_under(self@, dir@),
        ensures
            r == lookup(self@, path_model::joined(dir@, name@)),
    {
        match self.exact_position_at(dir, name) {
            Some(pos) => {
                proof {
                    lemma_lookup(self@, pos as int);
                }
                let (_, state) = file_state_entry_from_proto(&self.data[pos]);
                Some(state)
            },
            None => None,
        }
    }

    fn exact_position(&self, path: RepoPath<'_>) -> (r: Option<usize>)
        requires
            self.wf(),
            path_model::valid_path(path@),
        ensures
            match r {
                Some(i) => i < self@.len() && self@[i as int].path@ == path@,
                None => !has_path(self@, path@),
            },
    {
        self.position_of(SearchKey::Path(path))
    }

    fn exact_position_at(&self, dir: RepoPath<'_>, name: RepoPathComponent<'_>) -> (r: Option<
        usize,
    >)
        requires
            self.wf(),
            path_model::valid_path(dir@),
            path_model::valid_name(name@),
            all_under(self@, dir@),
        ensures
            match r {
                Some(i) => i < self@.len() && self@[i as int].path@ == path_model::joined(
                    dir@,
                    name@,
                ),
                None => !has_path(self@, path_model::joined(dir@, name@)),
            },
    {
        self.position_of(SearchKey::Entry(dir, name))
    }

    /// How many entries there are.
    pub fn len(&self) -> (r: usize)
        ensures
            r == self@.len(),
    {
        self.data.len()
    }

    /// The path and the state of entry number `i`, counted from 0.
    pub fn entry(&self, i: usize) -> (r: (RepoPath<'a>, FileState))
        requires
            self.wf(),
            i < self@.len(),
        ensures
            r.0@ == self@[i as int].path@,
            r.1 == entry_state(self@[i as int]),
    {
        file_state_entry_from_proto(&self.data[i])
    }

    /// Lists file state entries sorted by path.
    pub fn iter(&self) -> (r: Vec<(RepoPath<'a>, FileState)>)
        requires
            self.wf(),
        ensures
            r@.len() == self@.len(),
            forall|i: int|
                0 <= i < r@.len() ==> (#[trigger] r@[i]).0@ == self@[i].path@ && r@[i].1
                    == entry_state(self@[i]),
    {
        let mut out: Vec<(RepoPath<'a>, FileState)> = Vec::new();
        let mut i: usize = 0;
        while i < self.data.len()
            invariant
                self.wf(),
                i == out@.len(),
                i <= self@.len(),
                forall|j: int|
                    0 <= j < i ==> (#[trigger] out@[j]).0@ == self@[j].path@ && out@[j].1
                        == entry_state(self@[j]),
            decreases self@.len() - i,
        {
            out.push(self.entry(i));
            i += 1;
        }
        out
    }

    /// Lists sorted file paths.
    pub fn paths(&self) -> (r: Vec<RepoPath<'a>>)
        requires
            self.wf(),
        ensures
            r@.len() == self@.len(),
            forall|i: int| 0 <= i < r@.len() ==> (#[trigger] r@[i])@ == self@[i].path@,
    {
        let mut out: Vec<RepoPath<'a>> = Vec::new();
        let mut i: usize = 0;
        while i < self.data.len()
            invariant
                self.wf(),
                i == out@.len(),
                i <= self@.len(),
                forall|j: int| 0 <= j < i ==> (#[trigger] out@[j])@ == self@[j].path@,
            decreases self@.len() - i,
        {
            out.push(self.entry(i).0);
            i += 1;
        }
        out
    }
}

/// The on-disk executable bit recorded for a path, if it is a normal file.
pub open spec fn lookup_exec_bit(data: Seq<FileStateEntry>, path: Seq<char>) -> Option<ExecBit> {
    match lookup(data, path) {
        Some(state) => match state.file_type {
            FileType::Normal { exec_bit } => Some(exec_bit),
            FileType::Symlink | FileType::GitSubmodule => None,
        },
        None => None,
    }
}

/// Reads a stored entry, which must hold a state.
pub fn file_state_entry_from_proto<'a>(proto: &'a FileStateEntry) -> (r: (RepoPath<'a>, FileState))
    requires
        valid_entry(*proto),
    ensures
        r.0@ == proto.path@,
        r.1 == entry_state(*proto),
{
    let path = RepoPath::from_internal_string_unchecked(proto.path.as_str());
    match &proto.state {
        Some(state) => (path, file_state::file_state_from_proto(state)),
        None => (path, FileState::placeholder()),
    }
}

/// The stored form of a path with its state.
pub fn file_state_entry_to_proto(path: RepoPathBuf, state: &FileState) -> (r: FileStateEntry)
    ensures
        r.path@ == path@,
        r.state == Some(file_state::encoded_state(*state)),
        entry_state(r) == *state,
        path_model::valid_path(path@) ==> valid_entry(r),
{
    proof {
        file_state::lemma_state_round_trip(*state);
    }
    FileStateEntry {
        path: path.into_internal_string(),
        state: Some(file_state::file_state_to_proto(state)),
    }
}

/// Whether the entries are sorted by path without duplicates.
pub fn is_file_state_entries_proto_unique_and_sorted(data: &Vec<FileStateEntry>) -> (r: bool)
    requires
        forall|i: int| 0 <= i < data@.len() ==> valid_entry(#[trigger] data@[i]),
    ensures
        r == sorted_entries(data@),
{
    let mut i: usize = 1;
    while i < data.len()
        invariant
            1 <= i,
            i <= data@.len() || data@.len() == 0,
            forall|j: int, k: int|
                0 <= j < k < i && k < data@.len() ==> path_model::path_order(
                    #[trigger] data@[j].path@,
                    #[trigger] data@[k].path@,
                ) == Order::Less,
        decreases data@.len() - i,
    {
        let path1 = RepoPath::from_internal_string_unchecked(data[i - 1].path.as_str());
        let path2 = RepoPath::from_internal_string_unchecked(data[i].path.as_str());
        match path1.compare(path2) {
            Order::Less => {},
            _ => {
                assert(path_model::path_order(data@[i - 1].path@, data@[i as int].path@)
                    != Order::Less);
                return false;
            },
        }
        proof {
            assert forall|j: int, k: int| 0 <= j < k < i + 1 && k < data@.len() implies
                path_model::path_order(
                #[trigger] data@[j].path@,
                #[trigger] data@[k].path@,
            ) == Order::Less by {
                if k == i && j < i - 1 {
                    assert(path_model::path_order(data@[j].path@, data@[i - 1].path@)
                        == Order::Less);
                    path_model::lemma_path_order_transitive(
                        data@[j].path@,
                        data@[i - 1].path@,
                        data@[k].path@,
                    );
                }
            }
        }
        i += 1;
    }
    true
}

} // verus!
