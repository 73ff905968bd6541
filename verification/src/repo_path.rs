//! Paths in a repository: `/`-separated, relative to the repository root and
//! independent of the platform.

use vstd::prelude::*;
use vstd::string::StrSliceExecFns;
use vstd::string::StringExecFns;

use crate::path_model;
use crate::text;
use crate::text::Order;

verus! {

/// Owned `RepoPath` component.
#[derive(Debug, Hash, Eq)]
pub struct RepoPathComponentBuf {
    value: String,
}

/// Borrowed `RepoPath` component.
#[derive(Clone, Copy, Debug, Hash, Eq)]
pub struct RepoPathComponent<'a> {
    value: &'a str,
}

/// Reads the components of a `RepoPath` from either end.
#[derive(Clone, Copy, Debug)]
pub struct RepoPathComponentsIter<'a> {
    value: &'a str,
}

/// Owned repository path.
#[derive(Debug, Hash, Eq)]
pub struct RepoPathBuf {
    value: String,
}

/// Borrowed repository path.
#[derive(Clone, Copy, Debug, Hash, Eq)]
pub struct RepoPath<'a> {
    value: &'a str,
}

/// The `value` is not a valid repo path because it contains empty path
/// component. For example, `"/"`, `"/foo"`, `"foo/"`, `"foo//bar"` are all
/// invalid.
#[derive(Clone, Debug, Eq, PartialEq)]
pub struct InvalidNewRepoPathError {
    value: String,
}

/// `RepoPath` contained invalid file/directory component such as `..`.
#[derive(Clone, Debug, Eq, PartialEq)]
pub struct InvalidRepoPathError {
    /// Path containing an error.
    pub path: RepoPathBuf,
    /// Source error.
    pub source: InvalidRepoPathComponentError,
}

/// `RepoPath` component was invalid. (e.g. `..`)
#[derive(Clone, Debug, Eq, PartialEq)]
pub struct InvalidRepoPathComponentError {
    pub component: String,
}

impl View for RepoPathComponentBuf {
    type V = Seq<char>;

    closed spec fn view(&self) -> Seq<char> {
        self.value@
    }
}

impl<'a> View for RepoPathComponent<'a> {
    type V = Seq<char>;

    closed spec fn view(&self) -> Seq<char> {
        self.value@
    }
}

impl<'a> View for RepoPathComponentsIter<'a> {
    type V = Seq<char>;

    closed spec fn view(&self) -> Seq<char> {
        self.value@
    }
}

impl View for RepoPathBuf {
    type V = Seq<char>;

    closed spec fn view(&self) -> Seq<char> {
        self.value@
    }
}

impl<'a> View for RepoPath<'a> {
    type V = Seq<char>;

    closed spec fn view(&self) -> Seq<char> {
        self.value@
    }
}

impl View for InvalidNewRepoPathError {
    type V = Seq<char>;

    closed spec fn view(&self) -> Seq<char> {
        self.value@
    }
}

impl Clone for RepoPathComponentBuf {
    fn clone(&self) -> (r: RepoPathComponentBuf)
        ensures
            r@ == self@,
    {
        RepoPathComponentBuf { value: self.value.clone() }
    }
}

impl Clone for RepoPathBuf {
    fn clone(&self) -> (r: RepoPathBuf)
        ensures
            r@ == self@,
    {
        RepoPathBuf { value: self.value.clone() }
    }
}

impl PartialEq for RepoPathComponentBuf {
    fn eq(&self, other: &RepoPathComponentBuf) -> (r: bool) {
        self.value == other.value
    }
}

impl vstd::std_specs::cmp::PartialEqSpecImpl for RepoPathComponentBuf {
    open spec fn obeys_eq_spec() -> bool {
        true
    }

    open spec fn eq_spec(&self, other: &RepoPathComponentBuf) -> bool {
        self@ == other@
    }
}

impl<'a> PartialEq for RepoPathComponent<'a> {
    fn eq(&self, other: &RepoPathComponent<'a>) -> (r: bool) {
        text::str_eq(self.value, other.value)
    }
}

impl<'a> vstd::std_specs::cmp::PartialEqSpecImpl for RepoPathComponent<'a> {
    open spec fn obeys_eq_spec() -> bool {
        true
    }

    open spec fn eq_spec(&self, other: &RepoPathComponent<'a>) -> bool {
        self@ == other@
    }
}

impl PartialEq for RepoPathBuf {
    fn eq(&self, other: &RepoPathBuf) -> (r: bool) {
        self.value == other.value
    }
}

impl vstd::std_specs::cmp::PartialEqSpecImpl for RepoPathBuf {
    open spec fn obeys_eq_spec() -> bool {
        true
    }

    open spec fn eq_spec(&self, other: &RepoPathBuf) -> bool {
        self@ == other@
    }
}

impl<'a> PartialEq for RepoPath<'a> {
    fn eq(&self, other: &RepoPath<'a>) -> (r: bool) {
        text::str_eq(self.value, other.value)
    }
}

impl<'a> vstd::std_specs::cmp::PartialEqSpecImpl for RepoPath<'a> {
    open spec fn obeys_eq_spec() -> bool {
        true
    }

    open spec fn eq_spec(&self, other: &RepoPath<'a>) -> bool {
        self@ == other@
    }
}

/// The standard library's name for an outcome.
pub open spec fn std_ordering(order: Order) -> std::cmp::Ordering {
    match order {
        Order::Less => std::cmp::Ordering::Less,
        Order::Equal => std::cmp::Ordering::Equal,
        Order::Greater => std::cmp::Ordering::Greater,
    }
}

pub(crate) fn to_std_ordering(order: Order) -> (r: std::cmp::Ordering)
    ensures
        r == std_ordering(order),
{
    match order {
        Order::Less => std::cmp::Ordering::Less,
        Order::Equal => std::cmp::Ordering::Equal,
        Order::Greater => std::cmp::Ordering::Greater,
    }
}

impl<'a> PartialOrd for RepoPath<'a> {
    fn partial_cmp(&self, other: &RepoPath<'a>) -> (r: Option<std::cmp::Ordering>) {
        Some(to_std_ordering(self.compare(*other)))
    }
}

impl<'a> vstd::std_specs::cmp::PartialOrdSpecImpl for RepoPath<'a> {
    open spec fn obeys_partial_cmp_spec() -> bool {
        true
    }

    open spec fn partial_cmp_spec(&self, other: &RepoPath<'a>) -> Option<std::cmp::Ordering> {
        Some(std_ordering(path_model::path_order(self@, other@)))
    }
}

impl PartialOrd for RepoPathBuf {
    fn partial_cmp(&self, other: &RepoPathBuf) -> (r: Option<std::cmp::Ordering>) {
        Some(to_std_ordering(self.as_ref().compare(other.as_ref())))
    }
}

impl vstd::std_specs::cmp::PartialOrdSpecImpl for RepoPathBuf {
    open spec fn obeys_partial_cmp_spec() -> bool {
        true
    }

    open spec fn partial_cmp_spec(&self, other: &RepoPathBuf) -> Option<std::cmp::Ordering> {
        Some(std_ordering(path_model::path_order(self@, other@)))
    }
}

/// What the front of a text gives: its first name and what follows the
/// separator after it.
pub open spec fn front_split(s: Seq<char>) -> (Seq<char>, Seq<char>) {
    let i = text::first_index(s, '/');
    if 0 <= i < s.len() {
        (s.subrange(0, i), s.subrange(i + 1, s.len() as int))
    } else {
        (s, Seq::empty())
    }
}

/// What the back of a text gives: what precedes the last separator, and the
/// name after it.
pub open spec fn back_split(s: Seq<char>) -> (Seq<char>, Seq<char>) {
    let i = text::last_index(s, '/');
    if 0 <= i < s.len() {
        (s.subrange(0, i), s.subrange(i + 1, s.len() as int))
    } else {
        (Seq::empty(), s)
    }
}

/// A text and the directories above it, up to the root.
pub open spec fn text_ancestors(s: Seq<char>) -> Seq<Seq<char>>
    decreases s.len(),
{
    if s.len() == 0 {
        seq![s]
    } else {
        let dir = back_split(s).0;
        if dir.len() < s.len() {
            seq![s] + text_ancestors(dir)
        } else {
            seq![s]
        }
    }
}

/// What remains of `s` below `base`, if `s` is `base` or lies below it.
pub open spec fn stripped(s: Seq<char>, base: Seq<char>) -> Option<Seq<char>> {
    if base.len() == 0 {
        Some(s)
    } else if !text::is_prefix(base, s) {
        None
    } else {
        let tail = s.subrange(base.len() as int, s.len() as int);
        if tail.len() == 0 {
            Some(tail)
        } else if tail[0] == '/' {
            Some(tail.subrange(1, tail.len() as int))
        } else {
            None
        }
    }
}

/// The texts behind a list of components.
pub open spec fn component_texts<'a>(names: Seq<RepoPathComponent<'a>>) -> Seq<Seq<char>> {
    names.map_values(|name: RepoPathComponent<'a>| name@)
}

/// The texts behind a list of paths.
pub open spec fn path_texts<'a>(paths: Seq<RepoPath<'a>>) -> Seq<Seq<char>> {
    paths.map_values(|path: RepoPath<'a>| path@)
}

/// A directory with a list of names joined to it one after the other.
pub open spec fn extended(dir: Seq<char>, names: Seq<Seq<char>>) -> Seq<char>
    decreases names.len(),
{
    if names.len() == 0 {
        dir
    } else {
        extended(path_model::joined(dir, names[0]), names.drop_first())
    }
}

/// How many names two lists have in common at their front.
pub open spec fn common_len(a: Seq<Seq<char>>, b: Seq<Seq<char>>) -> int
    decreases a.len(),
{
    if a.len() == 0 || b.len() == 0 || a[0] != b[0] {
        0
    } else {
        1 + common_len(a.drop_first(), b.drop_first())
    }
}

/// Whether a text is non-empty and holds no separator.
fn is_valid_repo_path_component_str(value: &str) -> (r: bool)
    ensures
        r == path_model::valid_name(value@),
{
    proof {
        text::lemma_first_index(value@, '/');
    }
    let chars = text::chars_of(value);
    chars.len() > 0 && text::find_first(&chars, '/') == chars.len()
}

/// Whether a text neither starts nor ends with a separator and holds no two in
/// a row.
pub(crate) fn is_valid_repo_path_str(value: &str) -> (r: bool)
    ensures
        r == path_model::valid_path(value@),
{
    let chars = text::chars_of(value);
    let n = chars.len();
    if n == 0 {
        return true;
    }
    if chars[0] == '/' || chars[n - 1] == '/' {
        return false;
    }
    let mut i: usize = 1;
    while i < n
        invariant
            1 <= i <= n,
            n == chars@.len(),
            chars@ == value@,
            forall|j: int| 0 < j < i && value@[j] == '/' ==> #[trigger] value@[j - 1] != '/',
        decreases n - i,
    {
        if chars[i] == '/' && chars[i - 1] == '/' {
            assert(value@[i as int] == '/' && value@[i - 1] == '/');
            return false;
        }
        i += 1;
    }
    true
}

impl RepoPathComponentBuf {
    /// Wraps `value` as `RepoPathComponentBuf`.
    ///
    /// Returns an error if the input `value` is empty or contains path
    /// separator.
    pub fn new(value: String) -> (r: Result<RepoPathComponentBuf, InvalidNewRepoPathError>)
        ensures
            match r {
                Ok(name) => path_model::valid_name(value@) && name@ == value@,
                Err(err) => !path_model::valid_name(value@) && err@ == value@,
            },
    {
        if is_valid_repo_path_component_str(value.as_str()) {
            Ok(RepoPathComponentBuf { value })
        } else {
            Err(InvalidNewRepoPathError { value })
        }
    }

    /// Borrows this component.
    pub fn as_ref(&self) -> (r: RepoPathComponent<'_>)
        ensures
            r@ == self@,
    {
        RepoPathComponent { value: self.value.as_str() }
    }
}

impl<'a> RepoPathComponent<'a> {
    /// Wraps `value` as `RepoPathComponent`.
    ///
    /// Returns an error if the input `value` is empty or contains path
    /// separator.
    pub fn new(value: &'a str) -> (r: Result<RepoPathComponent<'a>, InvalidNewRepoPathError>)
        ensures
            match r {
                Ok(name) => path_model::valid_name(value@) && name@ == value@,
                Err(err) => !path_model::valid_name(value@) && err@ == value@,
            },
    {
        if is_valid_repo_path_component_str(value) {
            Ok(RepoPathComponent { value })
        } else {
            Err(InvalidNewRepoPathError { value: value.to_owned() })
        }
    }

    /// Wraps `value` without looking at it.
    pub fn new_unchecked(value: &'a str) -> (r: RepoPathComponent<'a>)
        ensures
            r@ == value@,
    {
        RepoPathComponent { value }
    }

    /// The name of the file that lists attributes of the files around it.
    pub fn dot_gitattributes() -> (r: RepoPathComponent<'static>)
        ensures
            r@ == ".gitattributes"@,
    {
        RepoPathComponent { value: ".gitattributes" }
    }

    /// Returns the underlying string representation.
    pub fn as_internal_str(&self) -> (r: &'a str)
        ensures
            r@ == self@,
    {
        self.value
    }

    /// Copies this component.
    pub fn to_owned(&self) -> (r: RepoPathComponentBuf)
        ensures
            r@ == self@,
    {
        RepoPathComponentBuf { value: self.value.to_owned() }
    }
}

impl<'a> RepoPathComponentsIter<'a> {
    /// Returns the remaining part as repository path.
    pub fn as_path(&self) -> (r: RepoPath<'a>)
        ensures
            r@ == self@,
    {
        RepoPath { value: self.value }
    }

    /// Takes the first component off the front.
    pub fn next(&mut self) -> (r: Option<RepoPathComponent<'a>>)
        ensures
            match r {
                Some(name) => {
                    &&& old(self)@.len() > 0
                    &&& name@ == front_split(old(self)@).0
                    &&& final(self)@ == front_split(old(self)@).1
                    &&& path_model::components(old(self)@) == seq![name@]
                        + path_model::components(final(self)@)
                    &&& final(self)@.len() < old(self)@.len()
                },
                None => old(self)@.len() == 0 && final(self)@ == old(self)@,
            },
    {
        if self.value.is_empty() {
            return None;
        }
        proof {
            text::lemma_first_index(self.value@, '/');
        }
        match text::split_first(self.value, '/') {
            Some((name, remainder)) => {
                self.value = remainder;
                Some(RepoPathComponent { value: name })
            },
            None => {
                let name = self.value;
                self.value = "";
                proof {
                    reveal_strlit("");
                    assert(self@ =~= Seq::empty());
                    assert(path_model::components(old(self)@) =~= seq![name@]
                        + path_model::components(self@));
                }
                Some(RepoPathComponent { value: name })
            },
        }
    }

    /// Takes the last component off the back.
    pub fn next_back(&mut self) -> (r: Option<RepoPathComponent<'a>>)
        ensures
            match r {
                Some(name) => {
                    &&& old(self)@.len() > 0
                    &&& name@ == back_split(old(self)@).1
                    &&& final(self)@ == back_split(old(self)@).0
                    &&& final(self)@.len() < old(self)@.len()
                    &&& path_model::valid_path(old(self)@) ==> {
                        &&& path_model::valid_path(final(self)@)
                        &&& path_model::components(old(self)@) == path_model::components(
                            final(self)@,
                        ).push(name@)
                    }
                },
                None => old(self)@.len() == 0 && final(self)@ == old(self)@,
            },
    {
        if self.value.is_empty() {
            return None;
        }
        proof {
            text::lemma_last_index(self.value@, '/');
            if path_model::valid_path(self.value@) {
                path_model::lemma_split_last(self.value@);
            }
        }
        match text::split_last(self.value, '/') {
            Some((remainder, name)) => {
                self.value = remainder;
                Some(RepoPathComponent { value: name })
            },
            None => {
                let name = self.value;
                self.value = "";
                proof {
                    reveal_strlit("");
                    assert(self@ =~= Seq::empty());
                    assert(name@.subrange(0, name@.len() as int) =~= name@);
                }
                Some(RepoPathComponent { value: name })
            },
        }
    }

    /// All remaining components, from the front.
    pub fn collect_vec(self) -> (r: Vec<RepoPathComponent<'a>>)
        ensures
            component_texts(r@) == path_model::components(self@),
    {
        let mut iter = RepoPathComponentsIter { value: self.value };
        let mut out: Vec<RepoPathComponent<'a>> = Vec::new();
        loop
            invariant
                component_texts(out@) + path_model::components(iter@) == path_model::components(
                    self@,
                ),
            decreases iter@.len(),
        {
            match iter.next() {
                Some(name) => {
                    let ghost before = component_texts(out@);
                    out.push(name);
                    assert(component_texts(out@) =~= before.push(name@));
                    assert(before.push(name@) + path_model::components(iter@) =~= before + (
                    seq![name@] + path_model::components(iter@)));
                },
                None => {
                    assert(component_texts(out@) + path_model::components(iter@)
                        =~= component_texts(out@));
                    return out;
                },
            }
        }
    }

    /// All remaining components, from the back.
    pub fn collect_rev(self) -> (r: Vec<RepoPathComponent<'a>>)
        requires
            path_model::valid_path(self@),
        ensures
            component_texts(r@) == path_model::components(self@).reverse(),
    {
        let mut iter = RepoPathComponentsIter { value: self.value };
        let mut out: Vec<RepoPathComponent<'a>> = Vec::new();
        loop
            invariant
                path_model::valid_path(iter@),
                component_texts(out@) + path_model::components(iter@).reverse()
                    == path_model::components(self@).reverse(),
            decreases iter@.len(),
        {
            let ghost rest = path_model::components(iter@);
            match iter.next_back() {
                Some(name) => {
                    let ghost before = component_texts(out@);
                    out.push(name);
                    assert(component_texts(out@) =~= before.push(name@));
                    assert(rest.reverse() =~= seq![name@] + path_model::components(
                        iter@,
                    ).reverse());
                    assert(before.push(name@) + path_model::components(iter@).reverse()
                        =~= before + rest.reverse());
                },
                None => {
                    assert(component_texts(out@) + rest.reverse() =~= component_texts(out@));
                    return out;
                },
            }
        }
    }
}

impl RepoPathBuf {
    /// Creates owned repository path pointing to the root.
    pub fn root() -> (r: RepoPathBuf)
        ensures
            r@ == Seq::<char>::empty(),
    {
        RepoPathBuf { value: String::new() }
    }

    /// Creates `RepoPathBuf` from valid string representation.
    pub fn from_internal_string(value: String) -> (r: Result<RepoPathBuf, InvalidNewRepoPathError>)
        ensures
            match r {
                Ok(path) => path_model::valid_path(value@) && path@ == value@,
                Err(err) => !path_model::valid_path(value@) && err@ == value@,
            },
    {
        if is_valid_repo_path_str(value.as_str()) {
            Ok(RepoPathBuf { value })
        } else {
            Err(InvalidNewRepoPathError { value })
        }
    }

    /// Wraps names that were joined to a string.
    pub(crate) fn from_joined_names(value: String) -> (r: RepoPathBuf)
        ensures
            r@ == value@,
    {
        RepoPathBuf { value }
    }

    /// Consumes this and returns the underlying string representation.
    pub fn into_internal_string(self) -> (r: String)
        ensures
            r@ == self@,
    {
        self.value
    }

    /// Borrows this path.
    pub fn as_ref(&self) -> (r: RepoPath<'_>)
        ensures
            r@ == self@,
    {
        RepoPath { value: self.value.as_str() }
    }

    /// Joins the given components to the end of this path, one after the other.
    pub fn extend(&mut self, names: &Vec<RepoPathComponent<'_>>)
        ensures
            final(self)@ == extended(old(self)@, component_texts(names@)),
    {
        let ghost texts = component_texts(names@);
        assert(texts.skip(0) =~= texts);
        let mut i: usize = 0;
        while i < names.len()
            invariant
                i <= names@.len(),
                texts == component_texts(names@),
                extended(old(self)@, texts) == extended(self@, texts.skip(i as int)),
            decreases names@.len() - i,
        {
            let ghost before = self@;
            proof {
                assert(texts.skip(i as int)[0] == names@[i as int]@);
                assert(texts.skip(i as int).drop_first() =~= texts.skip(i as int + 1));
            }
            if !self.value.as_str().is_empty() {
                self.value.push('/');
            }
            self.value.append(names[i].value);
            assert(self@ =~= path_model::joined(before, names@[i as int]@));
            i += 1;
        }
        assert(texts.skip(i as int) =~= Seq::empty());
    }
}

/// The common names are the longest list that both start with.
pub proof fn lemma_common_len(a: Seq<Seq<char>>, b: Seq<Seq<char>>)
    ensures
        0 <= common_len(a, b) <= a.len(),
        common_len(a, b) <= b.len(),
        forall|i: int| 0 <= i < common_len(a, b) ==> a[i] == b[i],
        common_len(a, b) < a.len() && common_len(a, b) < b.len() ==> a[common_len(a, b)]
            != b[common_len(a, b)],
    decreases a.len(),
{
    if a.len() > 0 && b.len() > 0 && a[0] == b[0] {
        lemma_common_len(a.drop_first(), b.drop_first());
        assert forall|i: int| 0 <= i < common_len(a, b) implies a[i] == b[i] by {
            if i > 0 {
                assert(a.drop_first()[i - 1] == a[i]);
                assert(b.drop_first()[i - 1] == b[i]);
            }
        }
    }
}

/// Extending a valid path by valid names appends the names.
pub proof fn lemma_extended(dir: Seq<char>, names: Seq<Seq<char>>)
    requires
        path_model::valid_path(dir),
        path_model::valid_names(names),
    ensures
        path_model::valid_path(extended(dir, names)),
        path_model::components(extended(dir, names)) == path_model::components(dir) + names,
    decreases names.len(),
{
    if names.len() == 0 {
        assert(path_model::components(dir) + names =~= path_model::components(dir));
    } else {
        assert(path_model::valid_name(names[0]));
        path_model::lemma_joined(dir, names[0]);
        let rest = names.drop_first();
        assert forall|i: int| 0 <= i < rest.len() implies path_model::valid_name(
            #[trigger] rest[i],
        ) by {
            assert(rest[i] == names[i + 1]);
        }
        lemma_extended(path_model::joined(dir, names[0]), rest);
        assert(path_model::components(dir).push(names[0]) + rest =~= path_model::components(dir)
            + names);
    }
}

/// Splitting a joined path gives the directory and the entry back.
pub proof fn lemma_split_of_join(dir: Seq<char>, name: Seq<char>)
    requires
        path_model::valid_path(dir),
        path_model::valid_name(name),
    ensures
        back_split(path_model::joined(dir, name)) == (dir, name),
{
    let s = path_model::joined(dir, name);
    path_model::lemma_joined(dir, name);
    path_model::lemma_split_last(s);
    text::lemma_last_index(s, '/');
    let (d, n) = back_split(s);
    if text::last_index(s, '/') < 0 {
        assert(s.subrange(0, s.len() as int) =~= s);
    }
    assert(path_model::components(dir).push(name) == path_model::components(d).push(n));
    assert(path_model::components(dir).push(name).drop_last() =~= path_model::components(dir));
    assert(path_model::components(d).push(n).drop_last() =~= path_model::components(d));
    assert(path_model::components(dir).push(name).last() == name);
    assert(path_model::components(d).push(n).last() == n);
    path_model::lemma_components_injective(dir, d);
}

/// Stripping a base off a valid path drops its names from the front, and
/// succeeds exactly if they stand there.
pub proof fn lemma_stripped(s: Seq<char>, base: Seq<char>)
    requires
        path_model::valid_path(s),
        path_model::valid_path(base),
    ensures
        stripped(s, base) is Some == path_model::under(base, s),
        stripped(s, base) matches Some(rest) ==> {
            &&& path_model::valid_path(rest)
            &&& path_model::components(s) == path_model::components(base)
                + path_model::components(rest)
        },
{
    let cs = path_model::components(s);
    let cb = path_model::components(base);
    path_model::lemma_components_valid(s);
    path_model::lemma_components_valid(base);
    if base.len() == 0 {
        assert(cb =~= cs.subrange(0, 0));
        assert(cs =~= cb + cs);
    } else {
        if path_model::under(base, s) {
            let n = cb.len() as int;
            path_model::lemma_prefix_path(s, n);
            assert(cs.take(n) =~= cb);
            let tail = path_model::join_names(cs.skip(n));
            if n == cs.len() {
                assert(s == base);
                assert(s.subrange(0, base.len() as int) =~= base);
            } else {
                assert(s == base + seq!['/'] + tail);
                assert(s.subrange(0, base.len() as int) =~= base);
                assert(s[base.len() as int] == '/');
            }
        }
        if stripped(s, base) is Some {
            let rest = stripped(s, base)->0;
            if s.len() == base.len() {
                assert(s =~= base);
                assert(rest =~= Seq::empty());
                assert(cb =~= cs.subrange(0, cs.len() as int));
                assert(cs =~= cb + path_model::components(rest));
            } else {
                let k = base.len() as int;
                assert(s =~= base + seq!['/'] + rest);
                assert(rest.len() > 0) by {
                    if rest.len() == 0 {
                        assert(s.last() == '/');
                    }
                }
                assert(s[k] == '/');
                assert(s[k + 1] == rest[0]);
                assert(s[(k + 1) - 1] == '/');
                assert(rest.last() == s.last());
                assert forall|j: int| 0 < j < rest.len() && rest[j] == '/' implies #[trigger] rest[
                j - 1] != '/' by {
                    assert(rest[j] == s[k + 1 + j]);
                    assert(rest[j - 1] == s[(k + 1 + j) - 1]);
                }
                path_model::lemma_components_append(base, rest);
                assert(cb =~= cs.subrange(0, cb.len() as int));
            }
        }
    }
}

impl<'a> RepoPath<'a> {
    /// Returns repository path pointing to the root.
    pub fn root() -> (r: RepoPath<'static>)
        ensures
            r@ == Seq::<char>::empty(),
    {
        let r = RepoPath { value: "" };
        proof {
            reveal_strlit("");
            assert(r@ =~= Seq::empty());
        }
        r
    }

    /// Wraps valid string representation as `RepoPath`.
    ///
    /// Returns an error if the input `value` contains empty path component. For
    /// example, `"/"`, `"/foo"`, `"foo/"`, `"foo//bar"` are all invalid.
    pub fn from_internal_string(value: &'a str) -> (r: Result<
        RepoPath<'a>,
        InvalidNewRepoPathError,
    >)
        ensures
            match r {
                Ok(path) => path_model::valid_path(value@) && path@ == value@,
                Err(err) => !path_model::valid_path(value@) && err@ == value@,
            },
    {
        if is_valid_repo_path_str(value) {
            Ok(RepoPath { value })
        } else {
            Err(InvalidNewRepoPathError { value: value.to_owned() })
        }
    }

    /// Wraps `value` without looking at it.
    pub fn from_internal_string_unchecked(value: &'a str) -> (r: RepoPath<'a>)
        ensures
            r@ == value@,
    {
        RepoPath { value }
    }

    /// The full string form used internally, not for presenting to users (where
    /// we may want to use the platform's separator). This format includes a
    /// trailing slash, unless this path represents the root directory. That
    /// way it can be concatenated with a basename and produce a valid path.
    pub fn to_internal_dir_string(&self) -> (r: String)
        ensures
            r@ == if self@.len() == 0 {
                self@
            } else {
                self@.push('/')
            },
    {
        let mut out = self.value.to_owned();
        if !self.value.is_empty() {
            out.push('/');
        }
        out
    }

    /// The full string form used internally, not for presenting to users (where
    /// we may want to use the platform's separator).
    pub fn as_internal_file_string(&self) -> (r: &'a str)
        ensures
            r@ == self@,
    {
        self.value
    }

    pub fn is_root(&self) -> (r: bool)
        ensures
            r == (self@.len() == 0),
    {
        self.value.is_empty()
    }

    /// Returns true if the `base` is a prefix of this path.
    pub fn starts_with(&self, base: RepoPath<'_>) -> (r: bool)
        ensures
            r == (stripped(self@, base@) is Some),
            path_model::valid_path(self@) && path_model::valid_path(base@) ==> r
                == path_model::under(base@, self@),
    {
        self.strip_prefix(base).is_some()
    }

    /// Returns the remaining path with the `base` path removed.
    pub fn strip_prefix(&self, base: RepoPath<'_>) -> (r: Option<RepoPath<'a>>)
        ensures
            r is Some == stripped(self@, base@) is Some,
            r matches Some(rest) ==> stripped(self@, base@) == Some(rest@),
            path_model::valid_path(self@) && path_model::valid_path(base@) ==> {
                &&& r is Some == path_model::under(base@, self@)
                &&& r matches Some(rest) ==> {
                    &&& path_model::valid_path(rest@)
                    &&& path_model::components(self@) == path_model::components(base@)
                        + path_model::components(rest@)
                }
            },
    {
        proof {
            if path_model::valid_path(self@) && path_model::valid_path(base@) {
                lemma_stripped(self@, base@);
            }
        }
        if base.value.is_empty() {
            return Some(*self);
        }
        match text::strip_text_prefix(self.value, base.value) {
            None => None,
            Some(tail) => {
                if tail.is_empty() {
                    Some(RepoPath { value: tail })
                } else if tail.get_char(0) == '/' {
                    let n = tail.unicode_len();
                    Some(RepoPath { value: tail.substring_char(1, n) })
                } else {
                    None
                }
            },
        }
    }

    /// Returns the parent path without the base name component.
    pub fn parent(&self) -> (r: Option<RepoPath<'a>>)
        ensures
            r is Some == (self@.len() > 0),
            r matches Some(dir) ==> {
                &&& dir@ == back_split(self@).0
                &&& dir@.len() < self@.len()
                &&& path_model::valid_path(self@) ==> path_model::valid_path(dir@)
            },
    {
        match self.split() {
            Some((parent, _)) => Some(parent),
            None => None,
        }
    }

    /// Splits this into the parent path and base name component.
    pub fn split(&self) -> (r: Option<(RepoPath<'a>, RepoPathComponent<'a>)>)
        ensures
            r is Some == (self@.len() > 0),
            r matches Some((dir, name)) ==> {
                &&& (dir@, name@) == back_split(self@)
                &&& dir@.len() < self@.len()
                &&& path_model::valid_path(self@) ==> {
                    &&& path_model::valid_path(dir@)
                    &&& path_model::valid_name(name@)
                    &&& self@ == path_model::joined(dir@, name@)
                }
            },
    {
        let mut components = self.components();
        match components.next_back() {
            Some(basename) => {
                proof {
                    if path_model::valid_path(self@) {
                        path_model::lemma_split_last(self@);
                    }
                }
                Some((components.as_path(), basename))
            },
            None => None,
        }
    }

    /// Reads the components of this path.
    pub fn components(&self) -> (r: RepoPathComponentsIter<'a>)
        ensures
            r@ == self@,
    {
        RepoPathComponentsIter { value: self.value }
    }

    /// This path, its parent, and so on up to the root.
    pub fn ancestors(&self) -> (r: Vec<RepoPath<'a>>)
        ensures
            path_texts(r@) == text_ancestors(self@),
    {
        let mut out: Vec<RepoPath<'a>> = Vec::new();
        let mut path = *self;
        loop
            invariant
                path_texts(out@) + text_ancestors(path@) == text_ancestors(self@),
            decreases path@.len(),
        {
            let ghost before = path_texts(out@);
            out.push(path);
            assert(path_texts(out@) =~= before.push(path@));
            match path.parent() {
                Some(dir) => {
                    assert(before.push(path@) + text_ancestors(dir@) =~= before + text_ancestors(
                        path@,
                    ));
                    path = dir;
                },
                None => {
                    assert(before.push(path@) =~= before + text_ancestors(path@));
                    return out;
                },
            }
        }
    }

    /// The path of the entry named `entry` in this directory.
    pub fn join(&self, entry: RepoPathComponent<'_>) -> (r: RepoPathBuf)
        ensures
            r@ == path_model::joined(self@, entry@),
            path_model::valid_path(self@) && path_model::valid_name(entry@)
                ==> path_model::valid_path(r@) && path_model::components(r@)
                == path_model::components(self@).push(entry@),
    {
        let mut value = self.to_internal_dir_string();
        value.append(entry.value);
        proof {
            assert(value@ =~= path_model::joined(self@, entry@));
            if path_model::valid_path(self@) && path_model::valid_name(entry@) {
                path_model::lemma_joined(self@, entry@);
            }
        }
        RepoPathBuf { value }
    }

    /// Splits this path at its common prefix with `other`.
    ///
    /// Returns the `(common_prefix, self_remainder)`.
    ///
    /// All paths will at least have `RepoPath::root()` as a common prefix,
    /// therefore even if `self` and `other` have no matching parent component
    /// this function will always return at least `(RepoPath::root(), self)`.
    pub fn split_common_prefix(&self, other: RepoPath<'_>) -> (r: (RepoPath<'a>, RepoPath<'a>))
        requires
            path_model::valid_path(self@),
            path_model::valid_path(other@),
        ensures
            ({
                let names = path_model::components(self@);
                let n = common_len(names, path_model::components(other@));
                &&& r.0@ == path_model::join_names(names.take(n))
                &&& r.1@ == path_model::join_names(names.skip(n))
            }),
            path_model::valid_path(r.0@),
            path_model::valid_path(r.1@),
            path_model::under(r.0@, self@),
            path_model::under(r.0@, other@),
            path_model::components(self@) == path_model::components(r.0@)
                + path_model::components(r.1@),
    {
        let ghost ca = path_model::components(self@);
        let ghost cb = path_model::components(other@);
        let ghost n = common_len(ca, cb);
        let mut a = self.components();
        let mut b = other.components();
        let total = self.value.unicode_len();
        let mut prefix_len: usize = 0;
        let ghost mut k: int = 0;
        proof {
            path_model::lemma_components_valid(self@);
            lemma_common_len(ca, cb);
            assert(ca.skip(0) =~= ca);
            assert(cb.skip(0) =~= cb);
            assert(ca.take(0) =~= Seq::empty());
        }
        loop
            invariant_except_break
                path_model::components(a@) == ca.skip(k),
                path_model::components(b@) == cb.skip(k),
            invariant
                total == self@.len(),
                path_model::valid_path(self@),
                ca == path_model::components(self@),
                cb == path_model::components(other@),
                path_model::valid_names(ca),
                n == common_len(ca, cb),
                0 <= k <= n <= ca.len(),
                n <= cb.len(),
                n < ca.len() && n < cb.len() ==> ca[n] != cb[n],
                forall|i: int| 0 <= i < n ==> ca[i] == cb[i],
                prefix_len == path_model::join_names(ca.take(k)).len(),
                k > 0 <==> prefix_len > 0,
            ensures
                k == n,
            decreases a@.len(),
        {
            let x = a.next();
            let y = b.next();
            match (x, y) {
                (Some(x), Some(y)) => {
                    assert(ca.skip(k)[0] == x@);
                    assert(cb.skip(k)[0] == y@);
                    if !text::str_eq(x.value, y.value) {
                        break;
                    }
                    proof {
                        assert(k < ca.len() && k < cb.len());
                        assert(ca.skip(k)[0] == ca[k]);
                        assert(cb.skip(k)[0] == cb[k]);
                        assert(ca[k] == cb[k]);
                        assert(k < n);
                        path_model::lemma_prefix_path(self@, k);
                        path_model::lemma_prefix_path(self@, k + 1);
                        assert(ca.take(k + 1) =~= ca.take(k) + seq![x@]);
                        assert(ca.skip(k + 1) =~= ca.skip(k).drop_first());
                        assert(cb.skip(k + 1) =~= cb.skip(k).drop_first());
                        assert(ca.skip(k).drop_first() =~= path_model::components(a@));
                        assert(cb.skip(k).drop_first() =~= path_model::components(b@));
                        assert(path_model::valid_name(ca[k]));
                        if k > 0 {
                            path_model::lemma_join_append(ca.take(k), seq![x@]);
                        } else {
                            assert(ca.take(1) =~= seq![x@]);
                        }
                        assert(path_model::join_names(seq![x@]) == x@);
                        assert(path_model::join_names(ca.take(k + 1)).len() <= self@.len());
                    }
                    if prefix_len > 0 {
                        prefix_len += 1;
                    }
                    prefix_len += x.value.unicode_len();
                    proof {
                        k = k + 1;
                    }
                },
                _ => {
                    break;
                },
            }
        }
        proof {
            path_model::lemma_prefix_path(self@, n);
            assert(ca.take(n) =~= ca.subrange(0, n));
            assert(cb.take(n) =~= ca.take(n));
            assert(cb.subrange(0, n) =~= cb.take(n));
            assert(ca =~= ca.take(n) + ca.skip(n));
        }
        if prefix_len == 0 {
            return (RepoPath::root(), *self);
        }
        if prefix_len == total {
            proof {
                if n < ca.len() {
                    assert(path_model::join_names(ca.take(n)).len() < self@.len());
                }
            }
            return (*self, RepoPath::root());
        }
        let ghost base = path_model::join_names(ca.take(n));
        let ghost tail = path_model::join_names(ca.skip(n));
        assert(self@ == base + seq!['/'] + tail);
        let common_prefix = RepoPath { value: self.value.substring_char(0, prefix_len) };
        let remainder = RepoPath { value: self.value.substring_char(prefix_len + 1, total) };
        assert(common_prefix@ =~= base);
        assert(remainder@ =~= tail);
        (common_prefix, remainder)
    }

    /// Copies this path.
    pub fn to_owned(&self) -> (r: RepoPathBuf)
        ensures
            r@ == self@,
    {
        RepoPathBuf { value: self.value.to_owned() }
    }

    /// Orders two paths by their components, from the front.
    pub fn compare(&self, other: RepoPath<'_>) -> (r: Order)
        ensures
            r == path_model::path_order(self@, other@),
    {
        let mut a = self.components();
        let mut b = other.components();
        loop
            invariant
                path_model::path_order(self@, other@) == path_model::path_order(a@, b@),
            decreases a@.len(),
        {
            let ghost (ca, cb) = (path_model::components(a@), path_model::components(b@));
            let x = a.next();
            let y = b.next();
            proof {
                if x is Some && y is Some {
                    assert(ca.drop_first() =~= path_model::components(a@));
                    assert(cb.drop_first() =~= path_model::components(b@));
                }
            }
            match (x, y) {
                (None, None) => {
                    return Order::Equal;
                },
                (None, Some(_)) => {
                    return Order::Less;
                },
                (Some(_), None) => {
                    return Order::Greater;
                },
                (Some(x), Some(y)) => match text::str_order(x.value, y.value) {
                    Order::Equal => {},
                    order => {
                        return order;
                    },
                },
            }
        }
    }
}

} // verus!
