//! Character-sequence helpers shared by the classifiers and parsers.

use vstd::prelude::*;

verus! {

/// `p` occurs in `s` starting at position `i`.
pub open spec fn occurs_at(s: Seq<char>, p: Seq<char>, i: int) -> bool {
    0 <= i && i + p.len() <= s.len() && s.subrange(i, i + p.len()) == p
}

/// `p` occurs somewhere in `s`.
pub open spec fn contains(s: Seq<char>, p: Seq<char>) -> bool {
    exists|i: int| #[trigger] occurs_at(s, p, i)
}

pub open spec fn starts_with(s: Seq<char>, p: Seq<char>) -> bool {
    occurs_at(s, p, 0)
}

pub open spec fn ends_with(s: Seq<char>, p: Seq<char>) -> bool {
    occurs_at(s, p, s.len() - p.len())
}

/// The characters of `s`, one per element.
pub fn chars_of(s: &str) -> (r: Vec<char>)
    ensures
        r@ == s@,
{
    let n = s.unicode_len();
    let mut r: Vec<char> = Vec::new();
    let mut i: usize = 0;
    while i < n
        invariant
            n == s@.len(),
            i <= n,
            r@ == s@.subrange(0, i as int),
        decreases n - i,
    {
        r.push(s.get_char(i));
        i = i + 1;
    }
    assert(r@ =~= s@);
    r
}

/// Whether `p` occurs in `s` at position `i`.
pub fn occurs_at_exec(s: &Vec<char>, p: &Vec<char>, i: usize) -> (r: bool)
    ensures
        r == occurs_at(s@, p@, i as int),
{
    if p.len() > s.len() || i > s.len() - p.len() {
        return false;
    }
    let mut j: usize = 0;
    while j < p.len()
        invariant
            i + p.len() <= s.len(),
            j <= p.len(),
            forall|k: int| 0 <= k < j ==> s@[i + k] == p@[k],
        decreases p.len() - j,
    {
        if s[i + j] != p[j] {
            assert(s@.subrange(i as int, i + p.len())[j as int] != p@[j as int]);
            return false;
        }
        j = j + 1;
    }
    assert(s@.subrange(i as int, i + p.len()) =~= p@);
    true
}

/// Whether the literal `p` occurs anywhere in `s`.
pub fn contains_exec(s: &Vec<char>, p: &str) -> (r: bool)
    ensures
        r == contains(s@, p@),
{
    let pv = chars_of(p);
    if pv.len() > s.len() {
        return false;
    }
    let last = s.len() - pv.len();
    let mut i: usize = 0;
    while i < last
        invariant
            last == s.len() - pv.len(),
            i <= last,
            pv@ == p@,
            forall|k: int| 0 <= k < i ==> !occurs_at(s@, p@, k),
        decreases last - i,
    {
        if occurs_at_exec(s, &pv, i) {
            return true;
        }
        i = i + 1;
    }
    if occurs_at_exec(s, &pv, last) {
        return true;
    }
    assert forall|k: int| !occurs_at(s@, p@, k) by {
        if 0 <= k <= last {
        }
    }
    false
}

/// Whether `s` ends with the literal `p`.
pub fn ends_with_exec(s: &Vec<char>, p: &str) -> (r: bool)
    ensures
        r == ends_with(s@, p@),
{
    let pv = chars_of(p);
    if pv.len() > s.len() {
        return false;
    }
    occurs_at_exec(s, &pv, s.len() - pv.len())
}

/// Whether `s` starts with the literal `p`.
pub fn starts_with_exec(s: &Vec<char>, p: &str) -> (r: bool)
    ensures
        r == starts_with(s@, p@),
{
    let pv = chars_of(p);
    occurs_at_exec(s, &pv, 0)
}

} // verus!
