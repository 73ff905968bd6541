//! Repository paths as lists of names.
//!
//! A path is a text in which `/` separates names. The functions here say how
//! such a text is read as a list of names, which texts are valid paths, and how
//! paths are ordered, together with the facts that tie the two views together.

use vstd::prelude::*;

use crate::text;
use crate::text::Order;

verus! {

/// A text that can be one name in a path.
pub open spec fn valid_name(name: Seq<char>) -> bool {
    name.len() > 0 && !name.contains('/')
}

/// A list of names that can make up a path.
pub open spec fn valid_names(names: Seq<Seq<char>>) -> bool {
    forall|i: int| 0 <= i < names.len() ==> valid_name(#[trigger] names[i])
}

/// A text without empty names: no leading, trailing or doubled separator.
pub open spec fn valid_path(s: Seq<char>) -> bool {
    s.len() > 0 ==> {
        &&& s[0] != '/'
        &&& s.last() != '/'
        &&& forall|i: int| 0 < i < s.len() && s[i] == '/' ==> #[trigger] s[i - 1] != '/'
    }
}

/// The names in a text, read from the front. A trailing separator is not
/// followed by an empty name.
pub open spec fn components(s: Seq<char>) -> Seq<Seq<char>>
    decreases s.len(),
{
    if s.len() == 0 {
        Seq::empty()
    } else {
        let i = text::first_index(s, '/');
        if 0 <= i < s.len() {
            seq![s.subrange(0, i)] + components(s.subrange(i + 1, s.len() as int))
        } else {
            seq![s]
        }
    }
}

/// The text that lists `names` with separators in between.
pub open spec fn join_names(names: Seq<Seq<char>>) -> Seq<char>
    decreases names.len(),
{
    if names.len() == 0 {
        Seq::empty()
    } else if names.len() == 1 {
        names[0]
    } else {
        names[0] + seq!['/'] + join_names(names.drop_first())
    }
}

/// Lexicographic order of two lists of names.
pub open spec fn names_order(a: Seq<Seq<char>>, b: Seq<Seq<char>>) -> Order
    decreases a.len(),
{
    if a.len() == 0 {
        if b.len() == 0 {
            Order::Equal
        } else {
            Order::Less
        }
    } else if b.len() == 0 {
        Order::Greater
    } else if text::chars_order(a[0], b[0]) != Order::Equal {
        text::chars_order(a[0], b[0])
    } else {
        names_order(a.drop_first(), b.drop_first())
    }
}

/// Order of two paths: that of their lists of names.
pub open spec fn path_order(a: Seq<char>, b: Seq<char>) -> Order {
    names_order(components(a), components(b))
}

/// Whether `base` is `path` or one of its ancestors, for valid paths.
pub open spec fn under(base: Seq<char>, path: Seq<char>) -> bool {
    components(base).is_prefix_of(components(path))
}

/// The path that leads from `dir` to its entry `name`.
pub open spec fn joined(dir: Seq<char>, name: Seq<char>) -> Seq<char> {
    if dir.len() == 0 {
        name
    } else {
        dir + seq!['/'] + name
    }
}

/// Names joined to a text are read back from it, and the text is a valid path.
pub proof fn lemma_components_of_join(names: Seq<Seq<char>>)
    requires
        valid_names(names),
    ensures
        components(join_names(names)) == names,
        valid_path(join_names(names)),
        names.len() > 0 ==> join_names(names).len() > 0,
    decreases names.len(),
{
    let s = join_names(names);
    if names.len() == 0 {
        assert(components(s) =~= names);
    } else if names.len() == 1 {
        assert(valid_name(names[0]));
        text::lemma_first_index(s, '/');
        assert(components(s) =~= names);
        assert(!s.contains(s[0]) || s[0] != '/');
        assert forall|i: int| 0 <= i < s.len() implies #[trigger] s[i] != '/' by {
            assert(s.contains(s[i]));
        }
    } else {
        let n = names[0];
        let rest = names.drop_first();
        let t = join_names(rest);
        assert(valid_name(n));
        assert forall|i: int| 0 <= i < rest.len() implies valid_name(#[trigger] rest[i]) by {
            assert(rest[i] == names[i + 1]);
        }
        lemma_components_of_join(rest);
        assert forall|i: int| 0 <= i < n.len() implies s[i] != '/' by {
            assert(n.contains(n[i]));
            assert(s[i] == n[i]);
        }
        assert(s[n.len() as int] == '/');
        text::lemma_first_index_unique(s, '/', n.len() as int);
        assert(s.subrange(0, n.len() as int) =~= n);
        assert(s.subrange(n.len() as int + 1, s.len() as int) =~= t);
        assert(components(s) =~= names) by {
            assert(names =~= seq![n] + rest);
        }
        assert(s.last() == t.last());
        assert forall|i: int| 0 < i < s.len() && s[i] == '/' implies #[trigger] s[i - 1] != '/' by {
            if i > n.len() {
                let j = i - n.len() - 1;
                assert(s[i] == t[j]);
                if j > 0 {
                    assert(s[i - 1] == t[j - 1]);
                }
            }
        }
    }
}

/// A valid path is read as valid names, which join to the path again.
pub proof fn lemma_components_valid(s: Seq<char>)
    requires
        valid_path(s),
    ensures
        valid_names(components(s)),
        join_names(components(s)) == s,
        components(s).len() == 0 <==> s.len() == 0,
    decreases s.len(),
{
    if s.len() > 0 {
        text::lemma_first_index(s, '/');
        let i = text::first_index(s, '/');
        if i < s.len() {
            let n = s.subrange(0, i);
            let t = s.subrange(i + 1, s.len() as int);
            assert(i > 0);
            assert(i + 1 < s.len());
            assert(s[(i + 1) - 1] == '/');
            assert(t[0] == s[i + 1]);
            assert(t.last() == s.last());
            assert forall|j: int| 0 < j < t.len() && t[j] == '/' implies #[trigger] t[j - 1]
                != '/' by {
                assert(t[j] == s[i + 1 + j]);
                assert(t[j - 1] == s[(i + 1 + j) - 1]);
            }
            lemma_components_valid(t);
            let rest = components(t);
            assert(components(s) == seq![n] + rest);
            assert(valid_name(n)) by {
                if n.contains('/') {
                    let k = choose|k: int| 0 <= k < n.len() && n[k] == '/';
                    assert(s[k] == '/');
                }
            }
            assert(components(s).drop_first() =~= rest);
            assert forall|k: int| 0 <= k < components(s).len() implies valid_name(
                #[trigger] components(s)[k],
            ) by {
                if k > 0 {
                    assert(components(s)[k] == rest[k - 1]);
                }
            }
            assert(join_names(components(s)) =~= s);
        } else {
            assert(valid_name(s));
        }
    }
}

/// Distinct valid paths have distinct lists of names.
pub proof fn lemma_components_injective(a: Seq<char>, b: Seq<char>)
    requires
        valid_path(a),
        valid_path(b),
    ensures
        components(a) == components(b) <==> a == b,
{
    lemma_components_valid(a);
    lemma_components_valid(b);
}

/// Joining two non-empty lists puts one separator in between.
pub proof fn lemma_join_append(a: Seq<Seq<char>>, b: Seq<Seq<char>>)
    requires
        a.len() > 0,
        b.len() > 0,
    ensures
        join_names(a + b) == join_names(a) + seq!['/'] + join_names(b),
    decreases a.len(),
{
    let ab = a + b;
    if a.len() == 1 {
        assert(ab.drop_first() =~= b);
    } else {
        assert(ab.drop_first() =~= a.drop_first() + b);
        lemma_join_append(a.drop_first(), b);
        assert(join_names(ab) =~= join_names(a) + seq!['/'] + join_names(b));
    }
}

/// The names of two valid, non-empty paths put one after the other.
pub proof fn lemma_components_append(a: Seq<char>, b: Seq<char>)
    requires
        valid_path(a),
        valid_path(b),
        a.len() > 0,
        b.len() > 0,
    ensures
        valid_path(a + seq!['/'] + b),
        components(a + seq!['/'] + b) == components(a) + components(b),
{
    lemma_components_valid(a);
    lemma_components_valid(b);
    lemma_join_append(components(a), components(b));
    lemma_components_of_join(components(a) + components(b));
}

/// A valid name is a path of one component.
pub proof fn lemma_single_name(name: Seq<char>)
    requires
        valid_name(name),
    ensures
        valid_path(name),
        components(name) == seq![name],
{
    lemma_components_of_join(seq![name]);
}

/// Joining an entry to a directory appends one name.
pub proof fn lemma_joined(dir: Seq<char>, name: Seq<char>)
    requires
        valid_path(dir),
        valid_name(name),
    ensures
        valid_path(joined(dir, name)),
        components(joined(dir, name)) == components(dir).push(name),
{
    lemma_single_name(name);
    if dir.len() > 0 {
        lemma_components_append(dir, name);
    }
    assert(components(dir) + seq![name] =~= components(dir).push(name));
}

/// The directory part and the last name of a non-empty valid path.
pub proof fn lemma_split_last(s: Seq<char>)
    requires
        valid_path(s),
        s.len() > 0,
    ensures
        ({
            let i = text::last_index(s, '/');
            let name = s.subrange(i + 1, s.len() as int);
            let dir = if i < 0 {
                Seq::empty()
            } else {
                s.subrange(0, i)
            };
            &&& -1 <= i < s.len()
            &&& valid_path(dir)
            &&& valid_name(name)
            &&& s == joined(dir, name)
            &&& components(s) == components(dir).push(name)
        }),
{
    text::lemma_last_index(s, '/');
    let i = text::last_index(s, '/');
    let name = s.subrange(i + 1, s.len() as int);
    if name.contains('/') {
        let k = choose|k: int| 0 <= k < name.len() && name[k] == '/';
        assert(s[i + 1 + k] == '/');
    }
    assert(name.len() > 0);
    if i < 0 {
        assert(name =~= s);
        lemma_joined(Seq::empty(), name);
    } else {
        let dir = s.subrange(0, i);
        assert(i > 0);
        assert(s[i] == '/');
        assert(dir.last() == s[i - 1]);
        assert forall|j: int| 0 < j < dir.len() && dir[j] == '/' implies #[trigger] dir[j - 1]
            != '/' by {
            assert(s[j] == '/');
            assert(s[j - 1] == dir[j - 1]);
        }
        assert(s =~= joined(dir, name));
        lemma_joined(dir, name);
    }
}

/// A prefix of the names of a valid path is the names of a valid path, which
/// is an initial part of the text.
pub proof fn lemma_prefix_path(s: Seq<char>, n: int)
    requires
        valid_path(s),
        0 <= n <= components(s).len(),
    ensures
        ({
            let base = join_names(components(s).take(n));
            let tail = join_names(components(s).skip(n));
            &&& valid_path(base)
            &&& valid_path(tail)
            &&& components(base) == components(s).take(n)
            &&& components(tail) == components(s).skip(n)
            &&& s == if n == 0 {
                tail
            } else if n == components(s).len() {
                base
            } else {
                base + seq!['/'] + tail
            }
        }),
{
    lemma_components_valid(s);
    let cs = components(s);
    let a = cs.take(n);
    let b = cs.skip(n);
    assert(cs =~= a + b);
    assert forall|i: int| 0 <= i < a.len() implies valid_name(#[trigger] a[i]) by {
        assert(a[i] == cs[i]);
    }
    assert forall|i: int| 0 <= i < b.len() implies valid_name(#[trigger] b[i]) by {
        assert(b[i] == cs[n + i]);
    }
    lemma_components_of_join(a);
    lemma_components_of_join(b);
    if n == 0 {
        assert(b =~= cs);
    } else if n == cs.len() {
        assert(a =~= cs);
    } else {
        lemma_join_append(a, b);
    }
}

/// Lists of names compare equal exactly if they are the same.
pub proof fn lemma_names_order_equal(a: Seq<Seq<char>>, b: Seq<Seq<char>>)
    ensures
        names_order(a, b) == Order::Equal <==> a == b,
    decreases a.len(),
{
    if a.len() > 0 && b.len() > 0 {
        text::lemma_chars_order_equal(a[0], b[0]);
        lemma_names_order_equal(a.drop_first(), b.drop_first());
        if a[0] == b[0] && a.drop_first() == b.drop_first() {
            assert(a =~= seq![a[0]] + a.drop_first());
            assert(b =~= seq![b[0]] + b.drop_first());
        }
    } else if a.len() == 0 && b.len() == 0 {
        assert(a =~= b);
    }
}

/// Exchanging the two lists flips the outcome.
pub proof fn lemma_names_order_flip(a: Seq<Seq<char>>, b: Seq<Seq<char>>)
    ensures
        names_order(b, a) == names_order(a, b).flipped(),
    decreases a.len(),
{
    if a.len() > 0 && b.len() > 0 {
        text::lemma_chars_order_flip(a[0], b[0]);
        lemma_names_order_flip(a.drop_first(), b.drop_first());
    }
}

/// The order of lists of names is transitive.
pub proof fn lemma_names_order_transitive(
    a: Seq<Seq<char>>,
    b: Seq<Seq<char>>,
    c: Seq<Seq<char>>,
)
    requires
        names_order(a, b) == Order::Less,
        names_order(b, c) == Order::Less,
    ensures
        names_order(a, c) == Order::Less,
    decreases a.len(),
{
    if a.len() > 0 && b.len() > 0 && c.len() > 0 {
        text::lemma_chars_order_equal(a[0], b[0]);
        text::lemma_chars_order_equal(b[0], c[0]);
        text::lemma_chars_order_equal(a[0], c[0]);
        if a[0] == b[0] {
            if b[0] == c[0] {
                lemma_names_order_transitive(a.drop_first(), b.drop_first(), c.drop_first());
            }
        } else if b[0] != c[0] {
            text::lemma_chars_order_transitive(a[0], b[0], c[0]);
        }
    }
}

/// A list never comes after one that it is a prefix of.
pub proof fn lemma_prefix_first(base: Seq<Seq<char>>, names: Seq<Seq<char>>)
    requires
        base.is_prefix_of(names),
    ensures
        names_order(base, names) == if base == names {
            Order::Equal
        } else {
            Order::Less
        },
    decreases base.len(),
{
    lemma_names_order_equal(base, names);
    if base.len() > 0 {
        assert(base[0] == names[0]);
        text::lemma_chars_order_equal(base[0], names[0]);
        assert(base.drop_first() =~= names.drop_first().subrange(0, base.len() - 1));
        lemma_prefix_first(base.drop_first(), names.drop_first());
    }
}

/// The lists with a given prefix follow each other without a gap: what stands
/// between the prefix itself and a list that has the prefix has it too.
pub proof fn lemma_prefix_contiguous(
    base: Seq<Seq<char>>,
    between: Seq<Seq<char>>,
    last: Seq<Seq<char>>,
)
    requires
        names_order(base, between) != Order::Greater,
        names_order(between, last) != Order::Greater,
        base.is_prefix_of(last),
    ensures
        base.is_prefix_of(between),
    decreases base.len(),
{
    if base.len() > 0 {
        assert(base[0] == last[0]);
        assert(between.len() > 0);
        let x = base[0];
        let y = between[0];
        text::lemma_chars_order_equal(x, y);
        text::lemma_chars_order_equal(y, last[0]);
        text::lemma_chars_order_flip(x, y);
        assert(x == y);
        assert(base.drop_first() =~= last.drop_first().subrange(0, base.len() - 1));
        lemma_prefix_contiguous(base.drop_first(), between.drop_first(), last.drop_first());
        let n = base.len() as int;
        assert(between.drop_first().subrange(0, n - 1) == base.drop_first());
        assert(base =~= between.subrange(0, n)) by {
            assert forall|i: int| 0 <= i < n implies base[i] == between[i] by {
                if i > 0 {
                    assert(base.drop_first()[i - 1] == base[i]);
                    assert(between.drop_first().subrange(0, n - 1)[i - 1] == between[i]);
                }
            }
        }
    } else {
        assert(base =~= between.subrange(0, 0));
    }
}

/// Lists with a common prefix are ordered as what follows it.
pub proof fn lemma_order_after_prefix(
    base: Seq<Seq<char>>,
    a: Seq<Seq<char>>,
    b: Seq<Seq<char>>,
)
    ensures
        names_order(base + a, base + b) == names_order(a, b),
    decreases base.len(),
{
    if base.len() == 0 {
        assert(base + a =~= a);
        assert(base + b =~= b);
    } else {
        text::lemma_chars_order_equal(base[0], base[0]);
        assert((base + a).drop_first() =~= base.drop_first() + a);
        assert((base + b).drop_first() =~= base.drop_first() + b);
        lemma_order_after_prefix(base.drop_first(), a, b);
    }
}

/// Valid paths compare equal exactly if they are the same path.
pub proof fn lemma_path_order_equal(a: Seq<char>, b: Seq<char>)
    requires
        valid_path(a),
        valid_path(b),
    ensures
        path_order(a, b) == Order::Equal <==> a == b,
{
    lemma_names_order_equal(components(a), components(b));
    lemma_components_injective(a, b);
}

/// Exchanging the two paths flips the outcome.
pub proof fn lemma_path_order_flip(a: Seq<char>, b: Seq<char>)
    ensures
        path_order(b, a) == path_order(a, b).flipped(),
{
    lemma_names_order_flip(components(a), components(b));
}

/// The order of paths is transitive.
pub proof fn lemma_path_order_transitive(a: Seq<char>, b: Seq<char>, c: Seq<char>)
    requires
        path_order(a, b) == Order::Less,
        path_order(b, c) == Order::Less,
    ensures
        path_order(a, c) == Order::Less,
{
    lemma_names_order_transitive(components(a), components(b), components(c));
}

/// The paths under a directory are contiguous in the order of paths, and the
/// directory itself comes first among them.
pub proof fn lemma_under_contiguous(base: Seq<char>, between: Seq<char>, last: Seq<char>)
    requires
        path_order(base, between) != Order::Greater,
        path_order(between, last) != Order::Greater,
        under(base, last),
    ensures
        under(base, between),
{
    lemma_prefix_contiguous(components(base), components(between), components(last));
}

/// A path under a directory is not ordered before the directory.
pub proof fn lemma_under_not_before(base: Seq<char>, path: Seq<char>)
    requires
        under(base, path),
    ensures
        path_order(base, path) != Order::Greater,
{
    lemma_prefix_first(components(base), components(path));
}

/// `/` plays no part in the order of two entries: they are ordered by the names
/// in which they first differ, as in `dir/sub` before `dir#`.
pub proof fn lemma_siblings_order(dir: Seq<char>, a: Seq<char>, b: Seq<char>)
    requires
        valid_path(dir),
        valid_name(a),
        valid_name(b),
    ensures
        path_order(joined(dir, a), joined(dir, b)) == text::chars_order(a, b),
{
    lemma_joined(dir, a);
    lemma_joined(dir, b);
    assert(components(dir).push(a) =~= components(dir) + seq![a]);
    assert(components(dir).push(b) =~= components(dir) + seq![b]);
    lemma_order_after_prefix(components(dir), seq![a], seq![b]);
    assert(seq![a].drop_first() =~= Seq::<Seq<char>>::empty());
    assert(seq![b].drop_first() =~= Seq::<Seq<char>>::empty());
    assert(names_order(seq![a].drop_first(), seq![b].drop_first()) == Order::Equal);
}

} // verus!
