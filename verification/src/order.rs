//! Dictionary order on byte strings, as file names are ordered.

use vstd::prelude::*;

verus! {

/// Whether `a` comes before `b`, or equals it, in dictionary order, given
/// that the two agree before position `i`.
pub open spec fn lex_le_from(a: Seq<u8>, b: Seq<u8>, i: int) -> bool
    decreases a.len() - i,
{
    if i >= a.len() {
        true
    } else if i >= b.len() {
        false
    } else if a[i] != b[i] {
        a[i] < b[i]
    } else {
        lex_le_from(a, b, i + 1)
    }
}

/// Whether `a` comes before `b`, or equals it, in dictionary order: at the
/// first position where they differ `a` has the smaller byte, or `a` ends
/// there.
pub open spec fn lex_le(a: Seq<u8>, b: Seq<u8>) -> bool {
    lex_le_from(a, b, 0)
}

/// Of two byte strings one comes before the other, or they are ordered
/// both ways.
pub proof fn lemma_lex_total(a: Seq<u8>, b: Seq<u8>, i: int)
    requires
        0 <= i,
    ensures
        lex_le_from(a, b, i) || lex_le_from(b, a, i),
    decreases a.len() - i,
{
    if i < a.len() && i < b.len() && a[i] == b[i] {
        lemma_lex_total(a, b, i + 1);
    }
}

/// What comes before something that comes before a third comes before the
/// third.
pub proof fn lemma_lex_transitive(a: Seq<u8>, b: Seq<u8>, c: Seq<u8>, i: int)
    requires
        0 <= i,
        lex_le_from(a, b, i),
        lex_le_from(b, c, i),
    ensures
        lex_le_from(a, c, i),
    decreases a.len() - i,
{
    if i < a.len() && a[i] == b[i] && b[i] == c[i] {
        lemma_lex_transitive(a, b, c, i + 1);
    }
}

/// Whether two byte strings are the same.
pub fn bytes_eq(a: &[u8], b: &[u8]) -> (r: bool)
    ensures
        r == (a@ == b@),
{
    if a.len() != b.len() {
        return false;
    }
    let mut i: usize = 0;
    while i < a.len()
        invariant
            i <= a.len(),
            a.len() == b.len(),
            forall|k: int| 0 <= k < i ==> a@[k] == b@[k],
        decreases a.len() - i,
    {
        if a[i] != b[i] {
            return false;
        }
        i += 1;
    }
    assert(a@ =~= b@);
    true
}

/// Whether `a` comes before `b`, or equals it, in dictionary order.
pub fn bytes_le(a: &[u8], b: &[u8]) -> (r: bool)
    ensures
        r == lex_le(a@, b@),
{
    assert(a@.skip(0) =~= a@ && b@.skip(0) =~= b@);
    bytes_le_from(a, 0, b, 0)
}

/// Whether `a` from position `from_a` on comes before `b` from position
/// `from_b` on, or equals it, in dictionary order.
pub(crate) fn bytes_le_from(a: &[u8], from_a: usize, b: &[u8], from_b: usize) -> (r: bool)
    requires
        from_a <= a.len(),
        from_b <= b.len(),
    ensures
        r == lex_le(a@.skip(from_a as int), b@.skip(from_b as int)),
{
    let ghost x = a@.skip(from_a as int);
    let ghost y = b@.skip(from_b as int);
    let n: usize = a.len() - from_a;
    let m: usize = b.len() - from_b;
    let mut i: usize = 0;
    while i < n
        invariant
            i <= n,
            n == a.len() - from_a,
            m == b.len() - from_b,
            x == a@.skip(from_a as int),
            y == b@.skip(from_b as int),
            lex_le(x, y) == lex_le_from(x, y, i as int),
        decreases n - i,
    {
        if i >= m {
            return false;
        }
        if a[from_a + i] != b[from_b + i] {
            return a[from_a + i] < b[from_b + i];
        }
        i += 1;
    }
    true
}

} // verus!
