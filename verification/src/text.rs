//! Text as sequences of characters: ordering, searching and splitting.

use vstd::prelude::*;
use vstd::string::StrSliceExecFns;

verus! {

/// Outcome of comparing two values.
#[derive(Clone, Copy, Debug, PartialEq, Eq, Structural)]
pub enum Order {
    Less,
    Equal,
    Greater,
}

impl Order {
    /// The outcome with the two compared values exchanged.
    pub open spec fn flipped(self) -> Order {
        match self {
            Order::Less => Order::Greater,
            Order::Equal => Order::Equal,
            Order::Greater => Order::Less,
        }
    }
}

/// Lexicographic order of two texts by the code points of their characters.
pub open spec fn chars_order(a: Seq<char>, b: Seq<char>) -> Order
    decreases a.len(),
{
    if a.len() == 0 {
        if b.len() == 0 {
            Order::Equal
        } else {
            Order::Less
        }
    } else if b.len() == 0 {
        Order::Greater
    } else if a[0] < b[0] {
        Order::Less
    } else if b[0] < a[0] {
        Order::Greater
    } else {
        chars_order(a.drop_first(), b.drop_first())
    }
}

/// Two texts compare equal exactly if they are the same text.
pub proof fn lemma_chars_order_equal(a: Seq<char>, b: Seq<char>)
    ensures
        chars_order(a, b) == Order::Equal <==> a == b,
    decreases a.len(),
{
    if a.len() > 0 && b.len() > 0 && a[0] == b[0] {
        lemma_chars_order_equal(a.drop_first(), b.drop_first());
        if a.drop_first() == b.drop_first() {
            assert(a =~= seq![a[0]] + a.drop_first());
            assert(b =~= seq![b[0]] + b.drop_first());
        }
    } else if a.len() == 0 && b.len() == 0 {
        assert(a =~= b);
    }
}

/// Exchanging the two texts flips the outcome.
pub proof fn lemma_chars_order_flip(a: Seq<char>, b: Seq<char>)
    ensures
        chars_order(b, a) == chars_order(a, b).flipped(),
    decreases a.len(),
{
    if a.len() > 0 && b.len() > 0 && a[0] == b[0] {
        lemma_chars_order_flip(a.drop_first(), b.drop_first());
    }
}

/// The order of texts is transitive.
pub proof fn lemma_chars_order_transitive(a: Seq<char>, b: Seq<char>, c: Seq<char>)
    requires
        chars_order(a, b) == Order::Less,
        chars_order(b, c) == Order::Less,
    ensures
        chars_order(a, c) == Order::Less,
    decreases a.len(),
{
    if a.len() > 0 && b.len() > 0 && c.len() > 0 && a[0] == b[0] && b[0] == c[0] {
        lemma_chars_order_transitive(a.drop_first(), b.drop_first(), c.drop_first());
    }
}

/// Position of the first `c` in `s`, or the length of `s` if there is none.
pub open spec fn first_index(s: Seq<char>, c: char) -> int
    decreases s.len(),
{
    if s.len() == 0 {
        0
    } else if s[0] == c {
        0
    } else {
        1 + first_index(s.drop_first(), c)
    }
}

/// Position of the last `c` in `s`, or -1 if there is none.
pub open spec fn last_index(s: Seq<char>, c: char) -> int
    decreases s.len(),
{
    if s.len() == 0 {
        -1
    } else if s.last() == c {
        s.len() - 1
    } else {
        last_index(s.drop_last(), c)
    }
}

/// What makes a position the first occurrence of `c`.
pub proof fn lemma_first_index(s: Seq<char>, c: char)
    ensures
        0 <= first_index(s, c) <= s.len(),
        forall|i: int| 0 <= i < first_index(s, c) ==> s[i] != c,
        first_index(s, c) < s.len() ==> s[first_index(s, c)] == c,
        first_index(s, c) < s.len() <==> s.contains(c),
    decreases s.len(),
{
    if s.len() > 0 && s[0] != c {
        lemma_first_index(s.drop_first(), c);
        let rest = first_index(s.drop_first(), c);
        assert forall|i: int| 0 <= i < first_index(s, c) implies s[i] != c by {
            if i > 0 {
                assert(s.drop_first()[i - 1] == s[i]);
            }
        }
        if s.contains(c) {
            let i = choose|i: int| 0 <= i < s.len() && s[i] == c;
            assert(s.drop_first()[i - 1] == c);
        }
    }
}

/// The first occurrence is determined by what precedes it.
pub proof fn lemma_first_index_unique(s: Seq<char>, c: char, k: int)
    requires
        0 <= k <= s.len(),
        forall|i: int| 0 <= i < k ==> s[i] != c,
        k < s.len() ==> s[k] == c,
    ensures
        first_index(s, c) == k,
{
    lemma_first_index(s, c);
}

/// What makes a position the last occurrence of `c`.
pub proof fn lemma_last_index(s: Seq<char>, c: char)
    ensures
        -1 <= last_index(s, c) < s.len(),
        forall|i: int| last_index(s, c) < i < s.len() ==> s[i] != c,
        last_index(s, c) >= 0 ==> s[last_index(s, c)] == c,
        last_index(s, c) >= 0 <==> s.contains(c),
    decreases s.len(),
{
    if s.len() > 0 && s.last() != c {
        lemma_last_index(s.drop_last(), c);
        assert forall|i: int| last_index(s, c) < i < s.len() implies s[i] != c by {
            if i < s.len() - 1 {
                assert(s.drop_last()[i] == s[i]);
            }
        }
        if s.contains(c) {
            let i = choose|i: int| 0 <= i < s.len() && s[i] == c;
            assert(s.drop_last()[i] == c);
        }
    }
}

/// The last occurrence is determined by what follows it.
pub proof fn lemma_last_index_unique(s: Seq<char>, c: char, k: int)
    requires
        -1 <= k < s.len(),
        forall|i: int| k < i < s.len() ==> s[i] != c,
        k >= 0 ==> s[k] == c,
    ensures
        last_index(s, c) == k,
{
    lemma_last_index(s, c);
}

/// Compares two strings with `str::cmp`, which orders them by their bytes;
/// for UTF-8 text that is the order of the code points.
#[verifier::external_body]
pub(crate) fn str_order(a: &str, b: &str) -> (r: Order)
    ensures
        r == chars_order(a@, b@),
{
    match a.cmp(b) {
        std::cmp::Ordering::Less => Order::Less,
        std::cmp::Ordering::Equal => Order::Equal,
        std::cmp::Ordering::Greater => Order::Greater,
    }
}

/// `String::push` appends one character.
pub assume_specification[ String::push ](s: &mut String, c: char)
    ensures
        final(s)@ == old(s)@.push(c),
;

/// Whether two strings hold the same text.
pub fn str_eq(a: &str, b: &str) -> (r: bool)
    ensures
        r == (a@ == b@),
{
    proof {
        lemma_chars_order_equal(a@, b@);
    }
    match str_order(a, b) {
        Order::Equal => true,
        _ => false,
    }
}

/// The characters of a string.
pub fn chars_of(s: &str) -> (r: Vec<char>)
    ensures
        r@ == s@,
{
    let mut v: Vec<char> = Vec::new();
    for c in it: s.chars()
        invariant
            v@ == it.seq().take(it.index() as int),
            it.seq() == s@,
    {
        v.push(c);
    }
    v
}

/// The string made of the characters `chars[from..to]`.
pub fn string_of(chars: &Vec<char>, from: usize, to: usize) -> (r: String)
    requires
        from <= to <= chars@.len(),
    ensures
        r@ == chars@.subrange(from as int, to as int),
{
    let mut out = String::new();
    let mut i: usize = from;
    while i < to
        invariant
            from <= i <= to <= chars@.len(),
            out@ == chars@.subrange(from as int, i as int),
        decreases to - i,
    {
        out.push(chars[i]);
        i += 1;
    }
    out
}

/// Position of the first `c`, or the length if there is none.
pub fn find_first(chars: &Vec<char>, c: char) -> (r: usize)
    ensures
        r == first_index(chars@, c),
{
    let mut i: usize = 0;
    while i < chars.len() && chars[i] != c
        invariant
            i <= chars@.len(),
            forall|j: int| 0 <= j < i ==> chars@[j] != c,
        decreases chars@.len() - i,
    {
        i += 1;
    }
    proof {
        lemma_first_index_unique(chars@, c, i as int);
    }
    i
}

/// One past the position of the last `c`, or 0 if there is none.
pub fn find_last(chars: &Vec<char>, c: char) -> (r: usize)
    ensures
        r == last_index(chars@, c) + 1,
{
    let mut i: usize = chars.len();
    while i > 0 && chars[i - 1] != c
        invariant
            i <= chars@.len(),
            forall|j: int| i <= j < chars@.len() ==> chars@[j] != c,
        decreases i,
    {
        i -= 1;
    }
    proof {
        lemma_last_index_unique(chars@, c, i - 1);
    }
    i
}

/// Splits a string at the first `c`, which is dropped.
pub fn split_first<'a>(s: &'a str, c: char) -> (r: Option<(&'a str, &'a str)>)
    ensures
        match r {
            Some((head, tail)) => {
                let i = first_index(s@, c);
                i < s@.len() && head@ == s@.subrange(0, i) && tail@ == s@.subrange(
                    i + 1,
                    s@.len() as int,
                )
            },
            None => !s@.contains(c),
        },
{
    proof {
        lemma_first_index(s@, c);
    }
    let chars = chars_of(s);
    let i = find_first(&chars, c);
    if i < chars.len() {
        Some((s.substring_char(0, i), s.substring_char(i + 1, chars.len())))
    } else {
        None
    }
}

/// Splits a string at the last `c`, which is dropped.
pub fn split_last<'a>(s: &'a str, c: char) -> (r: Option<(&'a str, &'a str)>)
    ensures
        match r {
            Some((head, tail)) => {
                let i = last_index(s@, c);
                i >= 0 && head@ == s@.subrange(0, i) && tail@ == s@.subrange(
                    i + 1,
                    s@.len() as int,
                )
            },
            None => !s@.contains(c),
        },
{
    proof {
        lemma_last_index(s@, c);
    }
    let chars = chars_of(s);
    let i = find_last(&chars, c);
    if i > 0 {
        Some((s.substring_char(0, i - 1), s.substring_char(i, chars.len())))
    } else {
        None
    }
}

/// Whether `prefix` is an initial part of `s`.
pub open spec fn is_prefix(prefix: Seq<char>, s: Seq<char>) -> bool {
    prefix.len() <= s.len() && s.subrange(0, prefix.len() as int) == prefix
}

/// What follows `prefix` in `s`, if `s` starts with it.
pub fn strip_text_prefix<'a>(s: &'a str, prefix: &str) -> (r: Option<&'a str>)
    ensures
        match r {
            Some(tail) => is_prefix(prefix@, s@) && tail@ == s@.subrange(
                prefix@.len() as int,
                s@.len() as int,
            ),
            None => !is_prefix(prefix@, s@),
        },
{
    let n = s.unicode_len();
    let k = prefix.unicode_len();
    if k <= n && str_eq(s.substring_char(0, k), prefix) {
        Some(s.substring_char(k, n))
    } else {
        None
    }
}

/// The digit of a number below ten.
pub open spec fn digit(n: nat) -> char {
    (n + 48) as char
}

/// A number written with decimal digits.
pub open spec fn decimal(n: nat) -> Seq<char>
    decreases n,
{
    if n < 10 {
        seq![digit(n)]
    } else {
        decimal(n / 10).push(digit(n % 10))
    }
}

fn digit_char(n: u64) -> (r: char)
    requires
        n < 10,
    ensures
        r == digit(n as nat),
{
    if n == 0 {
        '0'
    } else if n == 1 {
        '1'
    } else if n == 2 {
        '2'
    } else if n == 3 {
        '3'
    } else if n == 4 {
        '4'
    } else if n == 5 {
        '5'
    } else if n == 6 {
        '6'
    } else if n == 7 {
        '7'
    } else if n == 8 {
        '8'
    } else {
        '9'
    }
}

/// Writes a number with decimal digits.
pub fn decimal_text(n: u64) -> (r: String)
    ensures
        r@ == decimal(n as nat),
    decreases n,
{
    if n < 10 {
        let mut out = String::new();
        out.push(digit_char(n));
        assert(out@ =~= decimal(n as nat));
        out
    } else {
        let mut out = decimal_text(n / 10);
        out.push(digit_char(n % 10));
        out
    }
}

/// A written number consists of digits only.
pub proof fn lemma_decimal_digits(n: nat)
    ensures
        decimal(n).len() > 0,
        forall|i: int| 0 <= i < decimal(n).len() ==> '0' <= #[trigger] decimal(n)[i] <= '9',
    decreases n,
{
    if n >= 10 {
        lemma_decimal_digits(n / 10);
        assert(forall|i: int|
            0 <= i < decimal(n / 10).len() ==> decimal(n)[i] == #[trigger] decimal(n / 10)[i]);
    }
}

/// Different numbers are written differently.
pub proof fn lemma_decimal_injective(a: nat, b: nat)
    requires
        decimal(a) == decimal(b),
    ensures
        a == b,
    decreases a,
{
    lemma_decimal_digits(a);
    lemma_decimal_digits(b);
    assert(forall|n: nat| n < 10 ==> #[trigger] digit(n) as int == n + 48);
    if a < 10 && b < 10 {
        assert(decimal(a)[0] == digit(a));
        assert(decimal(b)[0] == digit(b));
    } else if a < 10 {
        lemma_decimal_digits(b / 10);
        assert(decimal(b).len() > 1);
    } else if b < 10 {
        lemma_decimal_digits(a / 10);
        assert(decimal(a).len() > 1);
    } else {
        assert(decimal(a).drop_last() =~= decimal(a / 10));
        assert(decimal(b).drop_last() =~= decimal(b / 10));
        assert(decimal(a).last() == digit(a % 10));
        assert(decimal(b).last() == digit(b % 10));
        lemma_decimal_injective(a / 10, b / 10);
    }
}

/// The first position of a character is behind none of its other positions, and the last one
/// before none. Where it does not occur, it is found nowhere.
pub proof fn lemma_positions_found(chars: Vec<char>, c: char, first: usize, last: usize, i: int)
    requires
        call_ensures(find_first, (&chars, c), first),
        call_ensures(find_last, (&chars, c), last),
        0 <= i < chars@.len(),
    ensures
        first <= chars@.len(),
        first < chars@.len() ==> chars@[first as int] == c,
        i < first ==> chars@[i] != c,
        last <= chars@.len(),
        last > 0 ==> chars@[last - 1] == c,
        i >= last ==> chars@[i] != c,
{
    lemma_first_index(chars@, c);
    lemma_last_index(chars@, c);
}

/// A text that was split at a character is what stands before it, the character and what
/// stands behind it. The first one, or the last one, is where it is split.
pub proof fn lemma_texts_split<'a>(
    s: &'a str,
    c: char,
    first: Option<(&'a str, &'a str)>,
    last: Option<(&'a str, &'a str)>,
)
    requires
        call_ensures(split_first, (s, c), first),
        call_ensures(split_last, (s, c), last),
    ensures
        first is None <==> !s@.contains(c),
        last is None <==> !s@.contains(c),
        first matches Some((head, tail)) ==> s@ == head@ + seq![c] + tail@ && !head@.contains(c),
        last matches Some((head, tail)) ==> s@ == head@ + seq![c] + tail@ && !tail@.contains(c),
{
    lemma_first_index(s@, c);
    lemma_last_index(s@, c);
    if let Some((head, tail)) = first {
        let i = first_index(s@, c);
        assert(s@ =~= head@ + seq![c] + tail@);
        assert(s@.contains(s@[i]));
        assert forall|k: int| 0 <= k < head@.len() implies head@[k] != c by {
            assert(head@[k] == s@[k]);
        }
    }
    if let Some((head, tail)) = last {
        let i = last_index(s@, c);
        assert(s@ =~= head@ + seq![c] + tail@);
        assert(s@.contains(s@[i]));
        assert forall|k: int| 0 <= k < tail@.len() implies tail@[k] != c by {
            assert(tail@[k] == s@[i + 1 + k]);
        }
    }
}

/// A text starts with another exactly if it is that text and what follows it.
pub proof fn lemma_text_prefix_stripped<'a>(
    s: &'a str,
    prefix: &'a str,
    r: Option<&'a str>,
    tail: Seq<char>,
)
    requires
        call_ensures(strip_text_prefix, (s, prefix), r),
    ensures
        r is Some ==> s@ == prefix@ + r->0@,
        s@ == prefix@ + tail ==> r is Some && r->0@ == tail,
{
    if r is Some {
        assert(s@ =~= prefix@ + r->0@);
    }
    if s@ == prefix@ + tail {
        assert(s@.subrange(0, prefix@.len() as int) =~= prefix@);
        assert(s@.subrange(prefix@.len() as int, s@.len() as int) =~= tail);
    }
}

} // verus!
