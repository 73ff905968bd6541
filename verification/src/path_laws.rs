//! How repository paths are read, put together and taken apart.
//!
//! The laws speak of what the functions are called with and of what they return.

use vstd::prelude::*;

use crate::matcher_laws;
use crate::path_model;
use crate::repo_path;
use crate::repo_path::InvalidNewRepoPathError;
use crate::repo_path::RepoPath;
use crate::repo_path::RepoPathBuf;
use crate::repo_path::RepoPathComponent;
use crate::repo_path::RepoPathComponentBuf;
use crate::repo_path::RepoPathComponentsIter;
use crate::repo_path_tree::RepoPathTree;
use crate::text;
use crate::text::Order;

verus! {

/// A text is a path exactly if no separator stands at either end of it or behind another one.
/// It is taken as it is, and told if it is refused.
pub proof fn lemma_texts_of_paths(
    value: String,
    borrowed: &str,
    r: Result<RepoPathBuf, InvalidNewRepoPathError>,
    s: Result<RepoPath<'_>, InvalidNewRepoPathError>,
)
    requires
        borrowed@ == value@,
        call_ensures(RepoPathBuf::from_internal_string, (value,), r),
        call_ensures(RepoPath::<'_>::from_internal_string, (borrowed,), s),
    ensures
        r is Ok <==> forall|i: int|
            0 <= i < value@.len() && #[trigger] value@[i] == '/' ==> 0 < i < value@.len() - 1
                && value@[i - 1] != '/',
        s is Ok <==> r is Ok,
        r is Ok ==> r->Ok_0@ == value@ && s->Ok_0@ == value@,
        r is Err ==> r->Err_0@ == value@ && s->Err_0@ == value@,
{
    let t = value@;
    if path_model::valid_path(t) {
        assert forall|i: int| 0 <= i < t.len() && #[trigger] t[i] == '/' implies 0 < i < t.len() - 1
            && t[i - 1] != '/' by {
            assert(t.last() == t[t.len() - 1]);
        }
    }
    if forall|i: int|
        0 <= i < t.len() && #[trigger] t[i] == '/' ==> 0 < i < t.len() - 1 && t[i - 1] != '/' {
        if t.len() > 0 {
            assert(t[0] != '/');
            assert(t[t.len() - 1] != '/');
            assert forall|i: int| 0 < i < t.len() && t[i] == '/' implies #[trigger] t[i - 1]
                != '/' by {
                assert(t[i] == '/');
            }
        }
    }
}

/// A text is a name exactly if it is not empty and holds no separator.
pub proof fn lemma_texts_of_names(
    value: String,
    borrowed: &str,
    r: Result<RepoPathComponentBuf, InvalidNewRepoPathError>,
    s: Result<RepoPathComponent<'_>, InvalidNewRepoPathError>,
)
    requires
        borrowed@ == value@,
        call_ensures(RepoPathComponentBuf::new, (value,), r),
        call_ensures(RepoPathComponent::<'_>::new, (borrowed,), s),
    ensures
        r is Ok <==> value@.len() > 0 && forall|i: int|
            0 <= i < value@.len() ==> #[trigger] value@[i] != '/',
        s is Ok <==> r is Ok,
        r is Ok ==> r->Ok_0@ == value@ && s->Ok_0@ == value@,
        r is Err ==> r->Err_0@ == value@ && s->Err_0@ == value@,
{
    let t = value@;
    if t.contains('/') {
        let i = choose|i: int| 0 <= i < t.len() && t[i] == '/';
        assert(t[i] == '/');
    }
    if exists|i: int| 0 <= i < t.len() && #[trigger] t[i] == '/' {
        let i = choose|i: int| 0 <= i < t.len() && #[trigger] t[i] == '/';
        assert(t.contains(t[i]));
    }
}

/// The root is the path without text. It is the only one that has no parent.
pub proof fn lemma_root(
    root: RepoPath<'_>,
    owned_root: RepoPathBuf,
    path: RepoPath<'_>,
    is_root: bool,
    parent: Option<RepoPath<'_>>,
    parts: Option<(RepoPath<'_>, RepoPathComponent<'_>)>,
)
    requires
        call_ensures(RepoPath::<'_>::root, (), root),
        call_ensures(RepoPathBuf::root, (), owned_root),
        call_ensures(RepoPath::<'_>::is_root, (&path,), is_root),
        call_ensures(RepoPath::<'_>::parent, (&path,), parent),
        call_ensures(RepoPath::<'_>::split, (&path,), parts),
    ensures
        root@.len() == 0,
        owned_root@.len() == 0,
        is_root <==> path@.len() == 0,
        parent is None <==> is_root,
        parts is None <==> is_root,
{
}

/// An entry of a directory is split into the directory and its name. Its text is that of the
/// directory, a separator unless that is the root, and the name.
pub proof fn lemma_entry_split(
    dir: RepoPath<'_>,
    name: RepoPathComponent<'_>,
    dir_text: String,
    joined: RepoPathBuf,
    path: RepoPath<'_>,
    parent: Option<RepoPath<'_>>,
    parts: Option<(RepoPath<'_>, RepoPathComponent<'_>)>,
    rest: Option<RepoPath<'_>>,
)
    requires
        path_model::valid_path(dir@),
        path_model::valid_name(name@),
        call_ensures(RepoPath::<'_>::to_internal_dir_string, (&dir,), dir_text),
        call_ensures(RepoPath::<'_>::join, (&dir, name), joined),
        path@ == joined@,
        call_ensures(RepoPath::<'_>::parent, (&path,), parent),
        call_ensures(RepoPath::<'_>::split, (&path,), parts),
        call_ensures(RepoPath::<'_>::strip_prefix, (&path, dir), rest),
    ensures
        joined@ == dir_text@ + name@,
        dir_text@ == if dir@.len() == 0 {
            dir@
        } else {
            dir@ + seq!['/']
        },
        parent is Some && parent->0@ == dir@,
        parts is Some && (parts->0).0@ == dir@ && (parts->0).1@ == name@,
        rest is Some && rest->0@ == name@,
{
    repo_path::lemma_split_of_join(dir@, name@);
    let s = path_model::joined(dir@, name@);
    if dir@.len() > 0 {
        let n = dir@.len() as int;
        assert(s.subrange(0, n) =~= dir@);
        assert(s.subrange(n, s.len() as int)[0] == '/');
        assert(s.subrange(n, s.len() as int).subrange(1, s.len() - n) =~= name@);
        assert(s =~= dir@ + seq!['/'] + name@);
        assert(dir@.push('/') =~= dir@ + seq!['/']);
    } else {
        assert(dir@ =~= Seq::empty());
        assert(s =~= dir@ + name@);
    }
}

/// A base is stripped off a path exactly if the path is the base or lies below it. What
/// remains leads from the base to the path.
pub proof fn lemma_base_stripped(
    path: RepoPath<'_>,
    base: RepoPath<'_>,
    r: Option<RepoPath<'_>>,
    starts: bool,
)
    requires
        call_ensures(RepoPath::<'_>::strip_prefix, (&path, base), r),
        call_ensures(RepoPath::<'_>::starts_with, (&path, base), starts),
    ensures
        r is Some <==> matcher_laws::at_or_below(base@, path@),
        starts <==> r is Some,
        r is Some ==> path@ == if base@.len() == 0 {
            r->0@
        } else if path@.len() == base@.len() {
            base@
        } else {
            base@ + seq!['/'] + r->0@
        },
        r is Some && path@ == base@ ==> r->0@.len() == 0,
{
    matcher_laws::lemma_covers(base@, path@);
    let n = base@.len() as int;
    if r is Some && n > 0 {
        if path@.len() == n {
            assert(path@.subrange(0, n) =~= path@);
        } else {
            let tail = path@.subrange(n, path@.len() as int);
            assert(tail[0] == path@[n]);
            assert(path@ =~= base@ + seq!['/'] + r->0@);
        }
    }
}

/// The names of an entry are those of its directory and its own. The root has none.
pub proof fn lemma_names_of_entry<'a>(
    dir: RepoPath<'a>,
    name: RepoPathComponent<'a>,
    joined: RepoPathBuf,
    path: RepoPath<'a>,
    dir_iter: RepoPathComponentsIter<'a>,
    iter: RepoPathComponentsIter<'a>,
    dir_names: Vec<RepoPathComponent<'a>>,
    names: Vec<RepoPathComponent<'a>>,
    reversed: Vec<RepoPathComponent<'a>>,
    i: int,
)
    requires
        path_model::valid_path(dir@),
        path_model::valid_name(name@),
        call_ensures(RepoPath::<'a>::join, (&dir, name), joined),
        path@ == joined@,
        call_ensures(RepoPath::<'a>::components, (&dir,), dir_iter),
        call_ensures(RepoPath::<'a>::components, (&path,), iter),
        call_ensures(RepoPathComponentsIter::<'a>::collect_vec, (dir_iter,), dir_names),
        call_ensures(RepoPathComponentsIter::<'a>::collect_vec, (iter,), names),
        call_ensures(RepoPathComponentsIter::<'a>::collect_rev, (iter,), reversed),
    ensures
        names@.len() == dir_names@.len() + 1,
        names@.last()@ == name@,
        0 <= i < dir_names@.len() ==> names@[i]@ == dir_names@[i]@,
        dir@.len() == 0 ==> dir_names@.len() == 0,
        reversed@.len() == names@.len(),
        0 <= i < names@.len() ==> reversed@[i]@ == names@[names@.len() - 1 - i]@,
{
    let texts = repo_path::component_texts(names@);
    let dir_texts = repo_path::component_texts(dir_names@);
    let back = repo_path::component_texts(reversed@);
    assert(texts == dir_texts.push(name@));
    assert(texts.len() == names@.len());
    assert(dir_texts.len() == dir_names@.len());
    assert(texts[names@.len() - 1] == names@[names@.len() - 1]@);
    assert(back == texts.reverse());
    assert(back.len() == reversed@.len());
    if 0 <= i < dir_names@.len() {
        assert(texts[i] == names@[i]@);
        assert(dir_texts[i] == dir_names@[i]@);
    }
    if 0 <= i < names@.len() {
        assert(back[i] == reversed@[i]@);
        assert(texts[names@.len() - 1 - i] == names@[names@.len() - 1 - i]@);
    }
}

/// Read from the front, a path gives its first name and what that leads to. Read from the
/// back, it gives its last name and the directory.
pub proof fn lemma_names_read<'a>(
    front: &mut RepoPathComponentsIter<'a>,
    first: Option<RepoPathComponent<'a>>,
    back: &mut RepoPathComponentsIter<'a>,
    last: Option<RepoPathComponent<'a>>,
)
    requires
        path_model::valid_path(old(front)@),
        old(back)@ == old(front)@,
        call_ensures(RepoPathComponentsIter::<'a>::next, (front,), first),
        call_ensures(RepoPathComponentsIter::<'a>::next_back, (back,), last),
    ensures
        first is None <==> old(front)@.len() == 0,
        last is None <==> old(front)@.len() == 0,
        first is Some ==> {
            &&& path_model::valid_name(first->0@)
            &&& old(front)@ == if final(front)@.len() == 0 {
                first->0@
            } else {
                first->0@ + seq!['/'] + final(front)@
            }
        },
        last is Some ==> {
            &&& path_model::valid_name(last->0@)
            &&& old(back)@ == if final(back)@.len() == 0 {
                last->0@
            } else {
                final(back)@ + seq!['/'] + last->0@
            }
        },
{
    let s = old(front)@;
    if s.len() > 0 {
        text::lemma_first_index(s, '/');
        text::lemma_last_index(s, '/');
        path_model::lemma_components_valid(s);
        path_model::lemma_split_last(s);
        assert(path_model::components(s)[0] == first->0@);
        let i = text::first_index(s, '/');
        if 0 <= i < s.len() {
            assert(s =~= s.subrange(0, i) + seq!['/'] + s.subrange(i + 1, s.len() as int));
            assert(s[s.len() - 1] != '/');
        }
        let j = text::last_index(s, '/');
        if 0 <= j < s.len() {
            assert(s =~= s.subrange(0, j) + seq!['/'] + s.subrange(j + 1, s.len() as int));
            assert(s[0] != '/');
        }
    }
}

/// The ancestors of a path are the path itself, and the parent of each that is listed until
/// the root is.
pub proof fn lemma_ancestors<'a>(
    path: RepoPath<'a>,
    r: Vec<RepoPath<'a>>,
    i: int,
    parent: Option<RepoPath<'a>>,
)
    requires
        call_ensures(RepoPath::<'a>::ancestors, (&path,), r),
        0 <= i < r@.len() ==> call_ensures(RepoPath::<'a>::parent, (&r@[i],), parent),
    ensures
        r@.len() > 0,
        r@[0]@ == path@,
        r@.last()@.len() == 0,
        0 <= i < r@.len() - 1 ==> parent is Some && r@[i + 1]@ == parent->0@,
{
    let texts = repo_path::path_texts(r@);
    lemma_text_ancestors(path@, i);
    assert(texts.len() == r@.len());
    assert(texts[0] == r@[0]@);
    assert(texts[r@.len() - 1] == r@[r@.len() - 1]@);
    if 0 <= i < r@.len() - 1 {
        assert(texts[i] == r@[i]@);
        assert(texts[i + 1] == r@[i + 1]@);
    }
}

proof fn lemma_text_ancestors(s: Seq<char>, i: int)
    ensures
        ({
            let list = repo_path::text_ancestors(s);
            &&& list.len() > 0
            &&& list[0] == s
            &&& list.last().len() == 0
            &&& 0 <= i < list.len() - 1 ==> list[i].len() > 0 && list[i + 1]
                == repo_path::back_split(list[i]).0
        }),
    decreases s.len(),
{
    if s.len() > 0 {
        text::lemma_last_index(s, '/');
        let dir = repo_path::back_split(s).0;
        lemma_text_ancestors(dir, i - 1);
        let above = repo_path::text_ancestors(dir);
        let list = repo_path::text_ancestors(s);
        assert(list =~= seq![s] + above);
        assert(list.last() == above.last());
        if 0 < i < list.len() - 1 {
            assert(list[i] == above[i - 1]);
            assert(list[i + 1] == above[i]);
        }
    }
}

/// The common prefix of two paths is the deepest directory that both are or lie below. What
/// remains of the first leads from there to it.
pub proof fn lemma_common_prefix<'a>(
    path: RepoPath<'a>,
    other: RepoPath<'a>,
    r: (RepoPath<'a>, RepoPath<'a>),
    base: Seq<char>,
)
    requires
        path_model::valid_path(path@),
        path_model::valid_path(other@),
        path_model::valid_path(base),
        call_ensures(RepoPath::<'a>::split_common_prefix, (&path, other), r),
    ensures
        matcher_laws::at_or_below(r.0@, path@),
        matcher_laws::at_or_below(r.0@, other@),
        matcher_laws::at_or_below(base, path@) && matcher_laws::at_or_below(base, other@)
            ==> matcher_laws::at_or_below(base, r.0@),
        path@ == if r.0@.len() == 0 {
            r.1@
        } else if r.1@.len() == 0 {
            r.0@
        } else {
            r.0@ + seq!['/'] + r.1@
        },
{
    let ca = path_model::components(path@);
    let cb = path_model::components(other@);
    let n = repo_path::common_len(ca, cb);
    repo_path::lemma_common_len(ca, cb);
    path_model::lemma_components_valid(path@);
    path_model::lemma_prefix_path(path@, n);
    lemma_under(r.0@, path@);
    lemma_under(r.0@, other@);
    lemma_under(base, path@);
    lemma_under(base, other@);
    lemma_under(base, r.0@);
    if path_model::under(base, path@) && path_model::under(base, other@) {
        let cc = path_model::components(base);
        let m = cc.len() as int;
        if n < m {
            assert(cc[n] == ca[n]);
            assert(cc[n] == cb[n]);
        }
        assert(path_model::components(r.0@) == ca.take(n));
        assert(cc.is_prefix_of(ca.take(n))) by {
            assert(ca.take(n).subrange(0, m) =~= ca.subrange(0, m));
        }
    }
}

/// What lies under a directory.
proof fn lemma_under(base: Seq<char>, path: Seq<char>)
    requires
        path_model::valid_path(base),
        path_model::valid_path(path),
    ensures
        path_model::under(base, path) <==> matcher_laws::at_or_below(base, path),
{
    repo_path::lemma_stripped(path, base);
    matcher_laws::lemma_covers(base, path);
}

/// Texts are ordered by the first character in which they differ. A text comes after those
/// that it continues.
proof fn lemma_chars_order_at(a: Seq<char>, b: Seq<char>, k: int)
    requires
        0 <= k <= a.len(),
        k <= b.len(),
        a.take(k) == b.take(k),
        k == a.len() || k == b.len() || a[k] != b[k],
    ensures
        text::chars_order(a, b) == if k == a.len() && k == b.len() {
            Order::Equal
        } else if k == a.len() {
            Order::Less
        } else if k == b.len() {
            Order::Greater
        } else if a[k] < b[k] {
            Order::Less
        } else {
            Order::Greater
        },
    decreases k,
{
    if k > 0 {
        assert(a.take(k)[0] == a[0] && b.take(k)[0] == b[0]);
        let (x, y) = (a.drop_first(), b.drop_first());
        assert(x.take(k - 1) =~= a.take(k).drop_first());
        assert(y.take(k - 1) =~= b.take(k).drop_first());
        lemma_chars_order_at(x, y, k - 1);
        assert(text::chars_order(a, b) == text::chars_order(x, y));
        if k < a.len() && k < b.len() {
            assert(x[k - 1] == a[k] && y[k - 1] == b[k]);
        }
    }
}

/// Paths are ordered: only a path itself is equal to it, and turning two round turns the
/// outcome round.
pub proof fn lemma_order_of_paths<'a>(a: RepoPath<'a>, b: RepoPath<'a>, ab: Order, ba: Order)
    requires
        path_model::valid_path(a@),
        path_model::valid_path(b@),
        call_ensures(RepoPath::<'a>::compare, (&a, b), ab),
        call_ensures(RepoPath::<'a>::compare, (&b, a), ba),
    ensures
        ab == Order::Equal <==> a@ == b@,
        ab == Order::Less <==> ba == Order::Greater,
{
    path_model::lemma_path_order_equal(a@, b@);
    path_model::lemma_path_order_flip(a@, b@);
}

/// Entries of one directory are ordered by the first character in which their names differ.
/// A name comes before those that continue it.
pub proof fn lemma_order_of_entries<'a>(
    dir: RepoPath<'a>,
    x: RepoPathComponent<'a>,
    y: RepoPathComponent<'a>,
    path_x: RepoPathBuf,
    path_y: RepoPathBuf,
    a: RepoPath<'a>,
    b: RepoPath<'a>,
    k: int,
    r: Order,
)
    requires
        path_model::valid_path(dir@),
        path_model::valid_name(x@),
        path_model::valid_name(y@),
        0 <= k <= x@.len(),
        k <= y@.len(),
        x@.take(k) == y@.take(k),
        k == x@.len() || k == y@.len() || x@[k] != y@[k],
        call_ensures(RepoPath::<'a>::join, (&dir, x), path_x),
        call_ensures(RepoPath::<'a>::join, (&dir, y), path_y),
        a@ == path_x@,
        b@ == path_y@,
        call_ensures(RepoPath::<'a>::compare, (&a, b), r),
    ensures
        r == if k == x@.len() && k == y@.len() {
            Order::Equal
        } else if k == x@.len() {
            Order::Less
        } else if k == y@.len() {
            Order::Greater
        } else if x@[k] < y@[k] {
            Order::Less
        } else {
            Order::Greater
        },
{
    path_model::lemma_siblings_order(dir@, x@, y@);
    lemma_chars_order_at(x@, y@, k);
}

/// A directory comes before all that lies below it, and nothing else comes in between.
pub proof fn lemma_order_below<'a>(
    base: RepoPath<'a>,
    between: RepoPath<'a>,
    last: RepoPath<'a>,
    first_order: Order,
    lower: Order,
    upper: Order,
)
    requires
        path_model::valid_path(base@),
        path_model::valid_path(between@),
        path_model::valid_path(last@),
        matcher_laws::at_or_below(base@, last@),
        call_ensures(RepoPath::<'a>::compare, (&base, last), first_order),
        call_ensures(RepoPath::<'a>::compare, (&base, between), lower),
        call_ensures(RepoPath::<'a>::compare, (&between, last), upper),
    ensures
        first_order != Order::Greater,
        lower != Order::Greater && upper != Order::Greater ==> matcher_laws::at_or_below(
            base@,
            between@,
        ),
{
    lemma_under(base@, last@);
    lemma_under(base@, between@);
    path_model::lemma_under_not_before(base@, last@);
    path_model::lemma_path_order_flip(base@, last@);
    path_model::lemma_path_order_flip(base@, between@);
    path_model::lemma_path_order_flip(between@, last@);
    if lower != Order::Greater && upper != Order::Greater {
        path_model::lemma_under_contiguous(base@, between@, last@);
    }
}

/// A path that was added to a tree leads to the node that was given out. All paths that led
/// to a node before, and do not lie at or below it, lead to the same value. Besides these
/// only the directories above the path are there.
pub proof fn lemma_path_added_to_tree<V: Default>(
    tree: &mut RepoPathTree<V>,
    path: RepoPath<'_>,
    node: &mut RepoPathTree<V>,
    other: RepoPath<'_>,
    before: Option<&RepoPathTree<V>>,
    after: Option<&RepoPathTree<V>>,
)
    requires
        path_model::valid_path(path@),
        path_model::valid_path(other@),
        call_ensures(RepoPathTree::<V>::get, (&*old(tree), other), before),
        call_ensures(RepoPathTree::<V>::add, (tree, path), node),
        call_ensures(RepoPathTree::<V>::get, (&*final(tree), other), after),
    ensures
        other@ == path@ ==> after is Some && after->0.node_value() == final(node).node_value(),
        !matcher_laws::at_or_below(path@, other@) ==> {
            &&& after is Some <==> before is Some || matcher_laws::at_or_below(other@, path@)
            &&& before is Some ==> after->0.node_value() == before->0.node_value()
        },
{
    let names = path_model::components(path@);
    let there = path_model::components(other@);
    lemma_under(path@, other@);
    lemma_under(other@, path@);
    let now = final(tree).value_at(there);
    let was = old(tree).value_at(there);
    final(tree).lemma_added(*old(tree), names, *final(node), there);
}

/// A walk through a tree passes all nodes that are there on the way to a path, each with the
/// path that leads on from it.
pub proof fn lemma_walk_through_tree<'a, 'b, V>(
    tree: &'a RepoPathTree<V>,
    path: RepoPath<'b>,
    r: Vec<(&'a RepoPathTree<V>, RepoPath<'b>)>,
    base: RepoPath<'b>,
    node: Option<&'a RepoPathTree<V>>,
    rest: Option<RepoPath<'b>>,
    i: int,
)
    requires
        path_model::valid_path(path@),
        path_model::valid_path(base@),
        call_ensures(RepoPathTree::<V>::walk_to, (tree, path), r),
        call_ensures(RepoPathTree::<V>::get, (tree, base), node),
        call_ensures(RepoPath::<'b>::strip_prefix, (&path, base), rest),
        i == path_model::components(base@).len(),
    ensures
        rest is Some && node is Some ==> i < r@.len() && *r@[i].0 == *node->0 && r@[i].1@
            == rest->0@,
        rest is Some && node is None ==> i >= r@.len(),
{
    if rest is Some {
        let names = path_model::components(path@);
        let front = path_model::components(base@);
        assert(names.take(i) =~= front);
        if i < r@.len() {
            assert(tree.at(names.take(i)) == Some(*r@[i].0));
            assert(names.skip(i) =~= path_model::components(rest->0@));
            path_model::lemma_components_injective(r@[i].1@, rest->0@);
        } else {
            let n = r@.len() as int;
            assert(n <= names.len());
            if node is Some {
                lemma_nodes_above(*tree, front, n);
                assert(front.take(n) =~= names.take(n));
            }
        }
    }
}

/// All nodes above one that is there are there.
proof fn lemma_nodes_above<V>(tree: RepoPathTree<V>, names: Seq<Seq<char>>, n: int)
    requires
        0 <= n <= names.len(),
        tree.at(names) is Some,
    ensures
        tree.at(names.take(n)) is Some,
    decreases n,
{
    if n > 0 {
        assert(names.take(n)[0] == names[0]);
        let child = tree.child(names[0])->0;
        lemma_nodes_above(child, names.drop_first(), n - 1);
        assert(names.drop_first().take(n - 1) =~= names.take(n).drop_first());
    }
}

/// A value that was set at a node is found there, and its children stay.
pub proof fn lemma_node_value_set<V>(
    tree: &mut RepoPathTree<V>,
    value: V,
    found: &V,
    had_children: bool,
    has_children: bool,
)
    requires
        call_ensures(RepoPathTree::<V>::set_value, (tree, value), ()),
        call_ensures(RepoPathTree::<V>::value, (&*final(tree),), found),
        call_ensures(RepoPathTree::<V>::has_children, (&*old(tree),), had_children),
        call_ensures(RepoPathTree::<V>::has_children, (&*final(tree),), has_children),
    ensures
        *found == value,
        has_children == had_children,
{
}

/// Names put at the end of a path lead on from it one after the other.
pub proof fn lemma_names_put_behind(
    path: &mut RepoPathBuf,
    names: Vec<RepoPathComponent<'_>>,
)
    requires
        path_model::valid_path(old(path)@),
        forall|i: int| 0 <= i < names@.len() ==> path_model::valid_name((#[trigger] names@[i])@),
        call_ensures(RepoPathBuf::extend, (path, &names), ()),
    ensures
        path_model::components(final(path)@) == path_model::components(old(path)@)
            + names@.map_values(|name: RepoPathComponent<'_>| name@),
{
    let texts = repo_path::component_texts(names@);
    assert(texts =~= names@.map_values(|name: RepoPathComponent<'_>| name@));
    assert forall|i: int| 0 <= i < texts.len() implies path_model::valid_name(#[trigger] texts[i]) by {
        assert(texts[i] == names@[i]@);
    }
    lemma_extended_names(old(path)@, texts);
}

proof fn lemma_extended_names(dir: Seq<char>, names: Seq<Seq<char>>)
    requires
        path_model::valid_path(dir),
        path_model::valid_names(names),
    ensures
        path_model::components(repo_path::extended(dir, names)) == path_model::components(dir)
            + names,
    decreases names.len(),
{
    if names.len() > 0 {
        let next = path_model::joined(dir, names[0]);
        assert(path_model::valid_name(names[0]));
        path_model::lemma_joined(dir, names[0]);
        assert forall|i: int| 0 <= i < names.drop_first().len() implies path_model::valid_name(
            #[trigger] names.drop_first()[i],
        ) by {
            assert(names.drop_first()[i] == names[i + 1]);
        }
        lemma_extended_names(next, names.drop_first());
        assert(path_model::components(dir).push(names[0]) + names.drop_first()
            =~= path_model::components(dir) + names);
    } else {
        assert(path_model::components(dir) + names =~= path_model::components(dir));
    }
}

} // verus!
