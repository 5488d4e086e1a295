//! The order in which operations are emitted: by path, compared character by
//! character on code points (which is the byte order of UTF-8), then by method
//! in canonical order.
use vstd::prelude::*;

use crate::method::Method;

verus! {

/// Lexicographic order of character sequences, by code point.
pub open spec fn chars_lt(a: Seq<char>, b: Seq<char>) -> bool
    decreases a.len(),
{
    if a.len() == 0 {
        b.len() > 0
    } else if b.len() == 0 {
        false
    } else if a[0] != b[0] {
        (a[0] as int) < (b[0] as int)
    } else {
        chars_lt(a.drop_first(), b.drop_first())
    }
}

/// The order of `(path, method)` keys.
pub open spec fn key_lt(a: (Seq<char>, Method), b: (Seq<char>, Method)) -> bool {
    chars_lt(a.0, b.0) || (a.0 == b.0 && a.1.rank() < b.1.rank())
}

/// The key of a registered operation.
pub open spec fn key_of<G>(e: (Seq<char>, Method, G)) -> (Seq<char>, Method) {
    (e.0, e.1)
}

/// Registered operations in strictly increasing key order (so no key twice).
pub open spec fn strictly_sorted<G>(s: Seq<(Seq<char>, Method, G)>) -> bool {
    forall|i: int, j: int| 0 <= i < j < s.len() ==> key_lt(key_of(#[trigger] s[i]), key_of(#[trigger] s[j]))
}

pub proof fn lemma_chars_lt_irreflexive(a: Seq<char>)
    ensures
        !chars_lt(a, a),
    decreases a.len(),
{
    if a.len() > 0 {
        lemma_chars_lt_irreflexive(a.drop_first());
    }
}

pub proof fn lemma_chars_lt_transitive(a: Seq<char>, b: Seq<char>, c: Seq<char>)
    requires
        chars_lt(a, b),
        chars_lt(b, c),
    ensures
        chars_lt(a, c),
    decreases a.len(),
{
    if a.len() > 0 && b.len() > 0 && c.len() > 0 && a[0] == b[0] && b[0] == c[0] {
        lemma_chars_lt_transitive(a.drop_first(), b.drop_first(), c.drop_first());
    }
}

pub proof fn lemma_chars_lt_total(a: Seq<char>, b: Seq<char>)
    requires
        a != b,
    ensures
        chars_lt(a, b) || chars_lt(b, a),
    decreases a.len(),
{
    if a.len() > 0 && b.len() > 0 && a[0] == b[0] {
        if a.drop_first() == b.drop_first() {
            assert(a =~= seq![a[0]] + a.drop_first());
            assert(b =~= seq![b[0]] + b.drop_first());
        }
        lemma_chars_lt_total(a.drop_first(), b.drop_first());
    } else if a.len() > 0 && b.len() > 0 {
        assert((a[0] as int) != (b[0] as int));
    } else if a.len() == 0 && b.len() == 0 {
        assert(a =~= b);
    }
}

pub proof fn lemma_key_lt_irreflexive(a: (Seq<char>, Method))
    ensures
        !key_lt(a, a),
{
    lemma_chars_lt_irreflexive(a.0);
}

pub proof fn lemma_key_lt_transitive(a: (Seq<char>, Method), b: (Seq<char>, Method), c: (Seq<char>, Method))
    requires
        key_lt(a, b),
        key_lt(b, c),
    ensures
        key_lt(a, c),
{
    if chars_lt(a.0, b.0) && chars_lt(b.0, c.0) {
        lemma_chars_lt_transitive(a.0, b.0, c.0);
    }
}

pub proof fn lemma_key_lt_total(a: (Seq<char>, Method), b: (Seq<char>, Method))
    requires
        a != b,
    ensures
        key_lt(a, b) || key_lt(b, a),
{
    if a.0 != b.0 {
        lemma_chars_lt_total(a.0, b.0);
    } else {
        assert(a.1 != b.1);
        assert(a.1.rank() != b.1.rank()) by {
            assert(a.1 == Method::of_rank(a.1.rank()));
            assert(b.1 == Method::of_rank(b.1.rank()));
        }
    }
}

/// Registration order does not matter: two strictly sorted lists of
/// registered operations that hold the same entries are the same list.
pub proof fn lemma_sorted_unique<G>(a: Seq<(Seq<char>, Method, G)>, b: Seq<(Seq<char>, Method, G)>)
    requires
        strictly_sorted(a),
        strictly_sorted(b),
        forall|x: (Seq<char>, Method, G)| a.contains(x) <==> b.contains(x),
    ensures
        a == b,
    decreases a.len(),
{
    if a.len() == 0 {
        if b.len() > 0 {
            assert(b.contains(b[0]));
        }
        assert(a =~= b);
    } else if b.len() == 0 {
        assert(a.contains(a[0]));
    } else {
        assert(a.contains(a[0]));
        let k = choose|k: int| 0 <= k < b.len() && b[k] == a[0];
        assert(b.contains(b[0]));
        let j = choose|j: int| 0 <= j < a.len() && a[j] == b[0];
        if k > 0 {
            if j > 0 {
                assert(key_lt(key_of(a[0]), key_of(a[j])));
                assert(key_lt(key_of(b[0]), key_of(b[k])));
                lemma_key_lt_transitive(key_of(a[0]), key_of(b[0]), key_of(a[0]));
                lemma_key_lt_irreflexive(key_of(a[0]));
            } else {
                assert(key_lt(key_of(b[0]), key_of(b[k])));
                lemma_key_lt_irreflexive(key_of(b[0]));
            }
        }
        assert(a[0] == b[0]);
        let ta = a.drop_first();
        let tb = b.drop_first();
        assert forall|x: (Seq<char>, Method, G)| ta.contains(x) <==> tb.contains(x) by {
            if ta.contains(x) {
                let i = choose|i: int| 0 <= i < ta.len() && ta[i] == x;
                assert(a[i + 1] == x);
                assert(key_lt(key_of(a[0]), key_of(x)));
                assert(b.contains(x));
                let i2 = choose|i2: int| 0 <= i2 < b.len() && b[i2] == x;
                if i2 == 0 {
                    lemma_key_lt_irreflexive(key_of(x));
                }
                assert(tb[i2 - 1] == x);
            }
            if tb.contains(x) {
                let i = choose|i: int| 0 <= i < tb.len() && tb[i] == x;
                assert(b[i + 1] == x);
                assert(key_lt(key_of(b[0]), key_of(x)));
                assert(a.contains(x));
                let i2 = choose|i2: int| 0 <= i2 < a.len() && a[i2] == x;
                if i2 == 0 {
                    lemma_key_lt_irreflexive(key_of(x));
                }
                assert(ta[i2 - 1] == x);
            }
        }
        lemma_sorted_unique(ta, tb);
        assert(a =~= seq![a[0]] + ta);
        assert(b =~= seq![b[0]] + tb);
    }
}

/// Whether `a` comes before `b` in code point order.
pub fn path_lt(a: &str, b: &str) -> (r: bool)
    ensures
        r == chars_lt(a@, b@),
{
    let n = a.unicode_len();
    let m = b.unicode_len();
    let mut i: usize = 0;
    assert(a@.subrange(0, n as int) =~= a@);
    assert(b@.subrange(0, m as int) =~= b@);
    while i < n && i < m
        invariant
            n == a@.len(),
            m == b@.len(),
            i <= n,
            i <= m,
            chars_lt(a@, b@) == chars_lt(
                a@.subrange(i as int, n as int),
                b@.subrange(i as int, m as int),
            ),
        decreases n - i,
    {
        let x = a.get_char(i);
        let y = b.get_char(i);
        if x != y {
            return (x as u32) < (y as u32);
        }
        assert(a@.subrange(i as int, n as int).drop_first() =~= a@.subrange(i + 1, n as int));
        assert(b@.subrange(i as int, m as int).drop_first() =~= b@.subrange(i + 1, m as int));
        i = i + 1;
    }
    i < m && i == n
}

/// Whether key `(pa, ma)` comes before key `(pb, mb)`.
pub fn key_before(pa: &str, ma: Method, pb: &str, mb: Method) -> (r: bool)
    ensures
        r == key_lt((pa@, ma), (pb@, mb)),
{
    if path_lt(pa, pb) {
        true
    } else if crate::method::str_equal(pa, pb) {
        ma.rank_of() < mb.rank_of()
    } else {
        false
    }
}

} // verus!
