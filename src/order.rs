//! Lexicographic orders and the facts the resolver needs of them.

use vstd::prelude::*;
use core::cmp::Ordering;

verus! {

pub open spec fn flip(o: Ordering) -> Ordering {
    match o {
        Ordering::Less => Ordering::Greater,
        Ordering::Equal => Ordering::Equal,
        Ordering::Greater => Ordering::Less,
    }
}

/// `c` is antisymmetric and its "not greater" relation is transitive.
pub open spec fn is_order<T>(c: spec_fn(T, T) -> Ordering) -> bool {
    &&& forall|x: T, y: T| #[trigger] c(x, y) == flip(c(y, x))
    &&& forall|x: T, y: T, z: T|
        #![trigger c(x, y), c(y, z)]
        c(x, y) != Ordering::Greater && c(y, z) != Ordering::Greater ==> c(x, z)
            != Ordering::Greater
}

/// Lexicographic extension of `c` to sequences; a proper prefix comes first.
pub open spec fn lex<T>(a: Seq<T>, b: Seq<T>, c: spec_fn(T, T) -> Ordering) -> Ordering
    decreases a.len(),
{
    if a.len() == 0 {
        if b.len() == 0 {
            Ordering::Equal
        } else {
            Ordering::Less
        }
    } else if b.len() == 0 {
        Ordering::Greater
    } else if c(a[0], b[0]) != Ordering::Equal {
        c(a[0], b[0])
    } else {
        lex(a.drop_first(), b.drop_first(), c)
    }
}

pub proof fn lemma_lex_flip<T>(a: Seq<T>, b: Seq<T>, c: spec_fn(T, T) -> Ordering)
    requires
        is_order(c),
    ensures
        lex(a, b, c) == flip(lex(b, a, c)),
    decreases a.len(),
{
    if a.len() > 0 && b.len() > 0 {
        assert(c(a[0], b[0]) == flip(c(b[0], a[0])));
        lemma_lex_flip(a.drop_first(), b.drop_first(), c);
    }
}

pub proof fn lemma_lex_trans<T>(a: Seq<T>, b: Seq<T>, d: Seq<T>, c: spec_fn(T, T) -> Ordering)
    requires
        is_order(c),
        lex(a, b, c) != Ordering::Greater,
        lex(b, d, c) != Ordering::Greater,
    ensures
        lex(a, d, c) != Ordering::Greater,
    decreases a.len(),
{
    if a.len() > 0 && b.len() > 0 && d.len() > 0 {
        let (x, y, z) = (a[0], b[0], d[0]);
        assert(c(x, z) != Ordering::Greater);
        assert(c(x, y) == flip(c(y, x)));
        assert(c(y, z) == flip(c(z, y)));
        assert(c(x, z) == flip(c(z, x)));
        if c(x, y) == Ordering::Equal && c(y, z) == Ordering::Equal {
            assert(c(z, y) != Ordering::Greater && c(y, x) != Ordering::Greater);
            assert(c(z, x) != Ordering::Greater);
            lemma_lex_trans(a.drop_first(), b.drop_first(), d.drop_first(), c);
        } else if c(x, z) == Ordering::Equal {
            if c(x, y) == Ordering::Less {
                assert(c(z, x) != Ordering::Greater);
                assert(c(y, x) != Ordering::Greater);
            } else {
                assert(c(y, z) == Ordering::Less);
                assert(c(y, x) != Ordering::Greater);
                assert(c(z, x) != Ordering::Greater);
                assert(c(y, z) != Ordering::Greater && c(z, x) != Ordering::Greater);
            }
        }
    }
}

/// The lexicographic extension of an order is an order.
pub proof fn lemma_lex_is_order<T>(c: spec_fn(T, T) -> Ordering)
    requires
        is_order(c),
    ensures
        is_order(|a: Seq<T>, b: Seq<T>| lex(a, b, c)),
{
    let l = |a: Seq<T>, b: Seq<T>| lex(a, b, c);
    assert forall|a: Seq<T>, b: Seq<T>| #[trigger] l(a, b) == flip(l(b, a)) by {
        lemma_lex_flip(a, b, c);
    }
    assert forall|a: Seq<T>, b: Seq<T>, d: Seq<T>|
        #![trigger l(a, b), l(b, d)]
        l(a, b) != Ordering::Greater && l(b, d) != Ordering::Greater implies l(a, d)
            != Ordering::Greater by {
        lemma_lex_trans(a, b, d, c);
    }
}

/// Once the first `i` elements compare equal, the rest decides.
pub proof fn lemma_lex_skip<T>(a: Seq<T>, b: Seq<T>, i: int, c: spec_fn(T, T) -> Ordering)
    requires
        0 <= i <= a.len(),
        i <= b.len(),
        forall|k: int| 0 <= k < i ==> c(a[k], b[k]) == Ordering::Equal,
    ensures
        lex(a, b, c) == lex(a.subrange(i, a.len() as int), b.subrange(i, b.len() as int), c),
    decreases i,
{
    if i == 0 {
        assert(a.subrange(0, a.len() as int) =~= a);
        assert(b.subrange(0, b.len() as int) =~= b);
    } else {
        assert(c(a[0], b[0]) == Ordering::Equal);
        let (a1, b1) = (a.drop_first(), b.drop_first());
        assert forall|k: int| 0 <= k < i - 1 implies c(a1[k], b1[k]) == Ordering::Equal by {
            assert(c(a[k + 1], b[k + 1]) == Ordering::Equal);
        }
        lemma_lex_skip(a1, b1, i - 1, c);
        assert(a1.subrange(i - 1, a1.len() as int) =~= a.subrange(i, a.len() as int));
        assert(b1.subrange(i - 1, b1.len() as int) =~= b.subrange(i, b.len() as int));
    }
}

pub open spec fn cmp_int(a: int, b: int) -> Ordering {
    if a < b {
        Ordering::Less
    } else if a > b {
        Ordering::Greater
    } else {
        Ordering::Equal
    }
}

pub open spec fn cmp_char(a: char, b: char) -> Ordering {
    cmp_int(a as int, b as int)
}

/// Characters ordered by code point.
pub open spec fn char_order() -> spec_fn(char, char) -> Ordering {
    |a: char, b: char| cmp_char(a, b)
}

pub proof fn lemma_char_order()
    ensures
        is_order(char_order()),
{
}

pub fn cmp_u64(a: u64, b: u64) -> (r: Ordering)
    ensures
        r == cmp_int(a as int, b as int),
{
    if a < b {
        Ordering::Less
    } else if a > b {
        Ordering::Greater
    } else {
        Ordering::Equal
    }
}

/// Compares two strings character by character.
pub fn cmp_text(a: &String, b: &String) -> (r: Ordering)
    ensures
        r == lex(a@, b@, char_order()),
{
    let av = crate::text::chars_of(a.as_str());
    let bv = crate::text::chars_of(b.as_str());
    let mut i: usize = 0;
    while i < av.len() && i < bv.len()
        invariant
            av@ == a@,
            bv@ == b@,
            i <= av.len(),
            i <= bv.len(),
            forall|k: int| 0 <= k < i ==> char_order()(a@[k], b@[k]) == Ordering::Equal,
        decreases av.len() - i,
    {
        let (x, y) = (av[i], bv[i]);
        if x != y {
            proof {
                lemma_lex_skip(a@, b@, i as int, char_order());
                assert(a@.subrange(i as int, a@.len() as int)[0] == x);
                assert(b@.subrange(i as int, b@.len() as int)[0] == y);
            }
            assert(char_order()(x, y) == cmp_char(x, y));
            if x < y {
                return Ordering::Less;
            } else {
                return Ordering::Greater;
            }
        }
        assert(char_order()(x, y) == cmp_char(x, y));
        i = i + 1;
    }
    proof {
        lemma_lex_skip(a@, b@, i as int, char_order());
    }
    if i < av.len() {
        Ordering::Greater
    } else if i < bv.len() {
        Ordering::Less
    } else {
        Ordering::Equal
    }
}

} // verus!
