//! Lexicographic order on sequences and the strictly sorted lists built on it.

use crate::text;
use crate::text::chars_of;
use vstd::prelude::*;

verus! {

/// Lexicographic "comes before" on sequences whose elements are ordered by `key`.
pub open spec fn lex_lt<T>(key: spec_fn(T) -> int, a: Seq<T>, b: Seq<T>) -> bool
    decreases a.len(),
{
    if b.len() == 0 {
        false
    } else if a.len() == 0 {
        true
    } else if key(a[0]) != key(b[0]) {
        key(a[0]) < key(b[0])
    } else {
        lex_lt(key, a.drop_first(), b.drop_first())
    }
}

/// The code point of a character.
pub open spec fn char_key() -> spec_fn(char) -> int {
    |c: char| c as int
}

/// The value of a byte.
pub open spec fn byte_key() -> spec_fn(u8) -> int {
    |b: u8| b as int
}

/// The order of texts: by code point, a prefix before its extensions.
pub open spec fn text_lt(a: Seq<char>, b: Seq<char>) -> bool {
    lex_lt(char_key(), a, b)
}

/// The order of byte strings.
pub open spec fn bytes_lt(a: Seq<u8>, b: Seq<u8>) -> bool {
    lex_lt(byte_key(), a, b)
}

/// Distinct elements have distinct keys.
pub open spec fn key_injective<T>(key: spec_fn(T) -> int) -> bool {
    forall|x: T, y: T| #[trigger] key(x) == #[trigger] key(y) ==> x == y
}

/// No sequence comes before itself.
pub proof fn lex_irreflexive<T>(key: spec_fn(T) -> int, a: Seq<T>)
    ensures
        !lex_lt(key, a, a),
    decreases a.len(),
{
    if a.len() > 0 {
        lex_irreflexive(key, a.drop_first());
    }
}

/// The order is transitive.
pub proof fn lex_transitive<T>(key: spec_fn(T) -> int, a: Seq<T>, b: Seq<T>, c: Seq<T>)
    requires
        lex_lt(key, a, b),
        lex_lt(key, b, c),
    ensures
        lex_lt(key, a, c),
    decreases a.len(),
{
    if a.len() > 0 && b.len() > 0 && c.len() > 0 && key(a[0]) == key(b[0]) && key(b[0]) == key(
        c[0],
    ) {
        lex_transitive(key, a.drop_first(), b.drop_first(), c.drop_first());
    }
}

/// Two different sequences are ordered one way or the other.
pub proof fn lex_total<T>(key: spec_fn(T) -> int, a: Seq<T>, b: Seq<T>)
    requires
        key_injective(key),
        a != b,
    ensures
        lex_lt(key, a, b) || lex_lt(key, b, a),
    decreases a.len(),
{
    if a.len() == 0 || b.len() == 0 {
        assert(a.len() == 0 && b.len() == 0 ==> a =~= b);
    } else if key(a[0]) == key(b[0]) {
        assert(a =~= seq![a[0]] + a.drop_first());
        assert(b =~= seq![b[0]] + b.drop_first());
        assert(a.drop_first() != b.drop_first());
        lex_total(key, a.drop_first(), b.drop_first());
    }
}

/// Every element comes before all later ones.
pub open spec fn strictly_sorted<T>(key: spec_fn(T) -> int, s: Seq<Seq<T>>) -> bool {
    forall|i: int, j: int| 0 <= i < j < s.len() ==> lex_lt(key, #[trigger] s[i], #[trigger] s[j])
}

/// A list of texts in strictly increasing order.
pub open spec fn sorted_texts(s: Seq<Seq<char>>) -> bool {
    strictly_sorted(char_key(), s)
}

/// A strictly sorted list repeats nothing.
pub proof fn strictly_sorted_no_duplicates<T>(key: spec_fn(T) -> int, s: Seq<Seq<T>>)
    requires
        strictly_sorted(key, s),
    ensures
        s.no_duplicates(),
{
    assert forall|i: int, j: int| 0 <= i < s.len() && 0 <= j < s.len() && i != j implies s[i]
        != s[j] by {
        lex_irreflexive(key, s[i]);
        if i < j {
            assert(lex_lt(key, s[i], s[j]));
        } else {
            assert(lex_lt(key, s[j], s[i]));
        }
    }
}

/// Every element comes before all later ones in a given relation.
pub open spec fn increasing<T>(lt: spec_fn(T, T) -> bool, s: Seq<T>) -> bool {
    forall|i: int, j: int| 0 <= i < j < s.len() ==> lt(#[trigger] s[i], #[trigger] s[j])
}

/// A list that increases in a strict order is determined by the set of its elements.
pub proof fn increasing_unique<T>(lt: spec_fn(T, T) -> bool, a: Seq<T>, b: Seq<T>)
    requires
        forall|x: T| !#[trigger] lt(x, x),
        forall|x: T, y: T, z: T| #[trigger] lt(x, y) && #[trigger] lt(y, z) ==> lt(x, z),
        increasing(lt, a),
        increasing(lt, b),
        a.to_set() == b.to_set(),
    ensures
        a == b,
    decreases a.len(),
{
    if a.len() == 0 {
        if b.len() > 0 {
            assert(b.to_set().contains(b[0]));
            assert(a.to_set().contains(b[0]));
        }
        assert(a =~= b);
    } else if b.len() == 0 {
        assert(a.to_set().contains(a[0]));
        assert(b.to_set().contains(a[0]));
    } else {
        // The two greatest elements agree: each occurs in the other list.
        let x = a.last();
        let y = b.last();
        assert(a.to_set().contains(x));
        assert(b.contains(x));
        let i = choose|i: int| 0 <= i < b.len() && b[i] == x;
        assert(b.to_set().contains(y));
        assert(a.contains(y));
        let j = choose|j: int| 0 <= j < a.len() && a[j] == y;
        if x != y {
            assert(lt(b[i], b[b.len() - 1]));
            assert(lt(a[j], a[a.len() - 1]));
            assert(lt(x, x));
        }
        let a1 = a.drop_last();
        let b1 = b.drop_last();
        assert forall|t: T| a1.to_set().contains(t) <==> b1.to_set().contains(t) by {
            if a1.contains(t) {
                let k = choose|k: int| 0 <= k < a1.len() && a1[k] == t;
                assert(lt(a[k], a[a.len() - 1]));
                assert(a.to_set().contains(t));
                assert(b.contains(t));
                let m = choose|m: int| 0 <= m < b.len() && b[m] == t;
                assert(!lt(x, x));
                assert(b1[m] == t);
            }
            if b1.contains(t) {
                let k = choose|k: int| 0 <= k < b1.len() && b1[k] == t;
                assert(lt(b[k], b[b.len() - 1]));
                assert(b.to_set().contains(t));
                assert(a.contains(t));
                let m = choose|m: int| 0 <= m < a.len() && a[m] == t;
                assert(!lt(y, y));
                assert(a1[m] == t);
            }
        }
        assert(a1.to_set() =~= b1.to_set());
        assert(increasing(lt, a1)) by {
            assert forall|i: int, j: int| 0 <= i < j < a1.len() implies lt(
                #[trigger] a1[i],
                #[trigger] a1[j],
            ) by {
                assert(lt(a[i], a[j]));
            }
        }
        assert(increasing(lt, b1)) by {
            assert forall|i: int, j: int| 0 <= i < j < b1.len() implies lt(
                #[trigger] b1[i],
                #[trigger] b1[j],
            ) by {
                assert(lt(b[i], b[j]));
            }
        }
        increasing_unique(lt, a1, b1);
        assert(a =~= a1.push(x));
        assert(b =~= b1.push(y));
    }
}

/// A strictly sorted list is determined by the set of its elements.
pub proof fn strictly_sorted_unique<T>(key: spec_fn(T) -> int, a: Seq<Seq<T>>, b: Seq<Seq<T>>)
    requires
        strictly_sorted(key, a),
        strictly_sorted(key, b),
        a.to_set() == b.to_set(),
    ensures
        a == b,
{
    let lt = |x: Seq<T>, y: Seq<T>| lex_lt(key, x, y);
    assert forall|x: Seq<T>| !#[trigger] lt(x, x) by {
        lex_irreflexive(key, x);
    }
    assert forall|x: Seq<T>, y: Seq<T>, z: Seq<T>| #[trigger]
        lt(x, y) && #[trigger] lt(y, z) implies lt(x, z) by {
        lex_transitive(key, x, y, z);
    }
    increasing_unique(lt, a, b);
}

/// Equal beginnings do not matter.
proof fn lex_skip<T>(key: spec_fn(T) -> int, a: Seq<T>, b: Seq<T>, n: int)
    requires
        0 <= n <= a.len(),
        n <= b.len(),
        forall|i: int| 0 <= i < n ==> key(a[i]) == key(b[i]),
    ensures
        lex_lt(key, a, b) == lex_lt(key, a.skip(n), b.skip(n)),
    decreases n,
{
    if n == 0 {
        assert(a.skip(0) =~= a);
        assert(b.skip(0) =~= b);
    } else {
        assert(key(a[0]) == key(b[0]));
        let a1 = a.drop_first();
        let b1 = b.drop_first();
        assert forall|i: int| 0 <= i < n - 1 implies key(a1[i]) == key(b1[i]) by {
            assert(a1[i] == a[i + 1]);
            assert(b1[i] == b[i + 1]);
        }
        lex_skip(key, a1, b1, n - 1);
        assert(a1.skip(n - 1) =~= a.skip(n));
        assert(b1.skip(n - 1) =~= b.skip(n));
    }
}

/// Whether character `a` has the smaller code point.
pub fn char_less(a: char, b: char) -> (r: bool)
    ensures
        r == ((a as int) < (b as int)),
{
    (a as u32) < (b as u32)
}

/// Whether text `a` comes before text `b`.
pub fn text_less(a: &str, b: &str) -> (r: bool)
    ensures
        r == text_lt(a@, b@),
{
    let x = chars_of(a);
    let y = chars_of(b);
    let ghost key = char_key();
    let mut i: usize = 0;
    while i < x.len() && i < y.len()
        invariant
            i <= x.len(),
            i <= y.len(),
            x@ == a@,
            y@ == b@,
            key == char_key(),
            forall|k: int| 0 <= k < i ==> key(x@[k]) == key(y@[k]),
        decreases x.len() - i,
    {
        let cx: char = x[i];
        let cy: char = y[i];
        if cx != cy {
            proof {
                lex_skip(key, a@, b@, i as int);
                assert(a@.skip(i as int)[0] == cx);
                assert(b@.skip(i as int)[0] == cy);
            }
            return char_less(cx, cy);
        }
        i = i + 1;
    }
    proof {
        lex_skip(key, a@, b@, i as int);
    }
    i < y.len()
}

/// Whether byte string `a` comes before byte string `b`.
pub fn bytes_less(a: &[u8], b: &[u8]) -> (r: bool)
    ensures
        r == bytes_lt(a@, b@),
{
    let ghost key = byte_key();
    let mut i: usize = 0;
    while i < a.len() && i < b.len()
        invariant
            i <= a.len(),
            i <= b.len(),
            key == byte_key(),
            forall|k: int| 0 <= k < i ==> key(a@[k]) == key(b@[k]),
        decreases a.len() - i,
    {
        if a[i] != b[i] {
            proof {
                lex_skip(key, a@, b@, i as int);
            }
            return a[i] < b[i];
        }
        i = i + 1;
    }
    proof {
        lex_skip(key, a@, b@, i as int);
    }
    i < b.len()
}

/// The views of a list of texts.
pub open spec fn text_views(v: Seq<String>) -> Seq<Seq<char>> {
    v.map_values(|s: String| s@)
}

/// Characters are told apart by their code points.
pub proof fn char_key_injective()
    ensures
        key_injective(char_key()),
{
    assert forall|x: char, y: char| #[trigger]
        char_key()(x) == #[trigger] char_key()(y) implies x == y by {}
}

/// Bytes are told apart by their values.
pub proof fn byte_key_injective()
    ensures
        key_injective(byte_key()),
{
    assert forall|x: u8, y: u8| #[trigger] byte_key()(x) == #[trigger] byte_key()(y) implies x
        == y by {}
}

/// Inserting an element where everything before it is smaller and everything
/// from there on is greater keeps a list strictly sorted.
pub proof fn insert_keeps_sorted<T>(key: spec_fn(T) -> int, s: Seq<Seq<T>>, at: int, t: Seq<T>)
    requires
        strictly_sorted(key, s),
        0 <= at <= s.len(),
        forall|k: int| 0 <= k < at ==> lex_lt(key, #[trigger] s[k], t),
        at < s.len() ==> lex_lt(key, t, s[at]),
    ensures
        strictly_sorted(key, s.insert(at, t)),
        forall|x: Seq<T>| #[trigger] s.insert(at, t).contains(x) <==> s.contains(x) || x == t,
{
    let r = s.insert(at, t);
    assert forall|i: int, j: int| 0 <= i < j < r.len() implies lex_lt(
        key,
        #[trigger] r[i],
        #[trigger] r[j],
    ) by {
        let si = if i < at {
            i
        } else {
            i - 1
        };
        let sj = if j < at {
            j
        } else {
            j - 1
        };
        if i == at {
            assert(r[j] == s[sj]);
            if sj > at {
                assert(lex_lt(key, s[at], s[sj]));
                lex_transitive(key, t, s[at], s[sj]);
            }
        } else if j == at {
            assert(r[i] == s[si]);
        } else {
            assert(r[i] == s[si] && r[j] == s[sj]);
        }
    }
    assert forall|x: Seq<T>| #[trigger] r.contains(x) <==> s.contains(x) || x == t by {
        if r.contains(x) {
            let i = choose|i: int| 0 <= i < r.len() && r[i] == x;
            if i < at {
                assert(s[i] == x);
            } else if i > at {
                assert(s[i - 1] == x);
            }
        }
        if s.contains(x) {
            let i = choose|i: int| 0 <= i < s.len() && s[i] == x;
            if i < at {
                assert(r[i] == x);
            } else {
                assert(r[i + 1] == x);
            }
        }
        assert(r[at] == t);
    }
}

/// Adds a text to a strictly sorted list, unless it is there already.
pub fn insert_text(names: &mut Vec<String>, t: &str)
    requires
        sorted_texts(text_views(old(names)@)),
    ensures
        sorted_texts(text_views(final(names)@)),
        forall|x: Seq<char>| #[trigger]
            text_views(final(names)@).contains(x) <==> text_views(old(names)@).contains(x) || x
                == t@,
{
    let ghost v = text_views(names@);
    let mut i: usize = 0;
    while i < names.len() && text_less(&names[i], t)
        invariant
            i <= names.len(),
            v == text_views(names@),
            names@ == old(names)@,
            forall|k: int| 0 <= k < i ==> lex_lt(char_key(), #[trigger] v[k], t@),
        decreases names.len() - i,
    {
        assert(v[i as int] == names@[i as int]@);
        i = i + 1;
    }
    if i < names.len() && text::text_eq(&names[i], t) {
        assert(v[i as int] == t@);
        return ;
    }
    proof {
        if i < names.len() {
            assert(v[i as int] == names@[i as int]@);
            char_key_injective();
            lex_total(char_key(), v[i as int], t@);
        }
        insert_keeps_sorted(char_key(), v, i as int, t@);
    }
    names.insert(i, t.to_owned());
    assert(text_views(names@) =~= v.insert(i as int, t@));
}

/// Finds a text in a strictly sorted list by bisection.
pub fn find_text(names: &Vec<String>, t: &str) -> (r: Option<usize>)
    requires
        sorted_texts(text_views(names@)),
    ensures
        r is Some <==> text_views(names@).contains(t@),
        r matches Some(i) ==> i < names.len() && names@[i as int]@ == t@,
{
    let ghost v = text_views(names@);
    let mut lo: usize = 0;
    let mut hi: usize = names.len();
    while lo < hi
        invariant
            lo <= hi <= names.len(),
            v == text_views(names@),
            sorted_texts(v),
            forall|k: int| 0 <= k < lo ==> #[trigger] v[k] != t@,
            forall|k: int| hi <= k < v.len() ==> #[trigger] v[k] != t@,
        decreases hi - lo,
    {
        let mid: usize = lo + (hi - lo) / 2;
        assert(v[mid as int] == names@[mid as int]@);
        if text::text_eq(&names[mid], t) {
            assert(v.contains(t@));
            return Some(mid);
        }
        if text_less(&names[mid], t) {
            assert forall|k: int| 0 <= k < mid + 1 implies #[trigger] v[k] != t@ by {
                if v[k] == t@ {
                    lex_irreflexive(char_key(), t@);
                    if k < mid {
                        assert(lex_lt(char_key(), v[k], v[mid as int]));
                        lex_transitive(char_key(), t@, v[mid as int], t@);
                    }
                }
            }
            lo = mid + 1;
        } else {
            proof {
                char_key_injective();
                lex_total(char_key(), v[mid as int], t@);
            }
            assert forall|k: int| mid <= k < v.len() implies #[trigger] v[k] != t@ by {
                if v[k] == t@ {
                    lex_irreflexive(char_key(), t@);
                    if k > mid {
                        assert(lex_lt(char_key(), v[mid as int], v[k]));
                        lex_transitive(char_key(), t@, v[mid as int], t@);
                    }
                }
            }
            hi = mid;
        }
    }
    None
}

/// Values with a strict order of their own.
pub trait Ranked: Sized {
    /// Whether this value comes before another.
    spec fn before(self, other: Self) -> bool;

    /// No value comes before itself.
    proof fn before_irreflexive(a: Self)
        ensures
            !a.before(a),
    ;

    /// The order is transitive.
    proof fn before_transitive(a: Self, b: Self, c: Self)
        requires
            a.before(b),
            b.before(c),
        ensures
            a.before(c),
    ;

    /// Whether this value comes before another.
    fn is_before(&self, other: &Self) -> (r: bool)
        ensures
            r == self.before(*other),
    ;
}

/// The positions `0..n`, each once, in some order.
pub open spec fn arranges(perm: Seq<int>, n: int) -> bool {
    &&& perm.len() == n
    &&& perm.no_duplicates()
    &&& forall|k: int| 0 <= k < perm.len() ==> 0 <= #[trigger] perm[k] < n
}

/// No value comes before an earlier one.
pub open spec fn ranked<T: Ranked>(s: Seq<T>) -> bool {
    forall|a: int, b: int| 0 <= a < b < s.len() ==> !(#[trigger] s[b]).before(#[trigger] s[a])
}

/// The values in the order of the positions.
pub open spec fn arranged<T>(s: Seq<T>, perm: Seq<int>) -> Seq<T> {
    perm.map_values(|i: int| s[i])
}

/// Positions as integers.
pub open spec fn as_ints(v: Seq<usize>) -> Seq<int> {
    v.map_values(|i: usize| i as int)
}

/// The positions of the values in their order.
pub fn sort_positions<T: Ranked>(v: &Vec<T>) -> (r: Vec<usize>)
    ensures
        arranges(as_ints(r@), v@.len() as int),
        ranked(arranged(v@, as_ints(r@))),
{
    let mut r: Vec<usize> = Vec::new();
    let mut n: usize = 0;
    while n < v.len()
        invariant
            n <= v.len(),
            arranges(as_ints(r@), n as int),
            ranked(arranged(v@, as_ints(r@))),
        decreases v.len() - n,
    {
        let ghost p0 = as_ints(r@);
        let ghost s0 = arranged(v@, p0);
        assert forall|k: int| 0 <= k < r.len() implies #[trigger] r@[k] < n by {
            assert(p0[k] == r@[k]);
        }
        let mut at: usize = 0;
        while at < r.len() && !v[n].is_before(&v[r[at]])
            invariant
                at <= r.len(),
                n < v.len(),
                p0 == as_ints(r@),
                s0 == arranged(v@, p0),
                arranges(p0, n as int),
                forall|a: int| 0 <= a < at ==> !v@[n as int].before(#[trigger] s0[a]),
                r.len() == n,
                forall|k: int| 0 <= k < r.len() ==> #[trigger] r@[k] < n,
            decreases r.len() - at,
        {
            assert(s0[at as int] == v@[r@[at as int] as int]);
            assert(p0[at as int] == r@[at as int]);
            at = at + 1;
        }
        proof {
            if at < r.len() {
                assert(p0[at as int] == r@[at as int]);
                assert(s0[at as int] == v@[r@[at as int] as int]);
            }
        }
        r.insert(at, n);
        proof {
            let p1 = as_ints(r@);
            let s1 = arranged(v@, p1);
            assert(p1 =~= p0.insert(at as int, n as int));
            assert(s1 =~= s0.insert(at as int, v@[n as int]));
            assert forall|a: int, b: int|
                0 <= a < p1.len() && 0 <= b < p1.len() && a != b implies p1[a] != p1[b] by {
                let a0 = if a < at {
                    a
                } else {
                    a - 1
                };
                let b0 = if b < at {
                    b
                } else {
                    b - 1
                };
                if a != at {
                    assert(p1[a] == p0[a0]);
                }
                if b != at {
                    assert(p1[b] == p0[b0]);
                }
            }
            assert forall|k: int| 0 <= k < p1.len() implies 0 <= #[trigger] p1[k] < n + 1 by {
                if k < at {
                    assert(p1[k] == p0[k]);
                } else if k > at {
                    assert(p1[k] == p0[k - 1]);
                }
            }
            let x = v@[n as int];
            assert forall|a: int, b: int| 0 <= a < b < s1.len() implies !(#[trigger] s1[b]).before(
                #[trigger] s1[a],
            ) by {
                if b < at {
                    assert(s1[a] == s0[a] && s1[b] == s0[b]);
                } else if b == at {
                    assert(s1[a] == s0[a] && s1[b] == x);
                } else if a < at {
                    assert(s1[a] == s0[a] && s1[b] == s0[b - 1]);
                } else if a == at {
                    assert(s1[b] == s0[b - 1] && s1[a] == x);
                    if s0[b - 1].before(x) {
                        T::before_transitive(s0[b - 1], x, s0[at as int]);
                        if b - 1 == at {
                            T::before_irreflexive(s0[at as int]);
                        }
                    }
                } else {
                    assert(s1[a] == s0[a - 1] && s1[b] == s0[b - 1]);
                }
            }
        }
        n = n + 1;
    }
    r
}

/// Distinct positions below `n` that are `n` in number are all positions.
pub proof fn all_positions(s: Seq<int>, n: int)
    requires
        s.no_duplicates(),
        s.len() == n,
        forall|k: int| 0 <= k < s.len() ==> 0 <= #[trigger] s[k] < n,
    ensures
        forall|j: int| 0 <= j < n ==> #[trigger] s.contains(j),
{
    s.unique_seq_to_set();
    vstd::set_lib::lemma_int_range(0, n);
    let range = vstd::set_lib::set_int_range(0, n);
    assert forall|j: int| s.to_set().contains(j) implies range.contains(j) by {
        let k = choose|k: int| 0 <= k < s.len() && s[k] == j;
    }
    vstd::set_lib::lemma_subset_equality(s.to_set(), range);
    assert forall|j: int| 0 <= j < n implies #[trigger] s.contains(j) by {
        assert(range.contains(j));
        assert(s.to_set().contains(j));
    }
}

/// A copy of a list of texts.
pub fn copy_texts(list: &Vec<String>) -> (r: Vec<String>)
    ensures
        text_views(r@) == text_views(list@),
{
    let ghost lv = text_views(list@);
    let mut r: Vec<String> = Vec::new();
    let mut i: usize = 0;
    while i < list.len()
        invariant
            i <= list.len(),
            lv == text_views(list@),
            text_views(r@) == lv.take(i as int),
        decreases list.len() - i,
    {
        let ghost before = text_views(r@);
        r.push(list[i].clone());
        assert(text_views(r@) =~= before.push(list@[i as int]@));
        assert(before.push(list@[i as int]@) =~= lv.take(i + 1));
        i = i + 1;
    }
    assert(lv.take(lv.len() as int) =~= lv);
    r
}

} // verus!
