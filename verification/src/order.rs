//! Lexicographic (bytewise) ordering of names, with the facts that make
//! it a total order.  Row placement in the viewer is sorted by this
//! order, so its totality, antisymmetry and transitivity carry the
//! sortedness and determinism arguments of the filter engine.

use vstd::prelude::*;

verus! {

/// `a` is at most `b` in bytewise lexicographic order, comparing from
/// position `i` on (the bytes before `i` are not looked at).
pub open spec fn lex_le_from(a: Seq<u8>, b: Seq<u8>, i: int) -> bool
    decreases a.len() - i,
{
    if i >= a.len() {
        true
    } else if i >= b.len() {
        false
    } else if a[i] < b[i] {
        true
    } else if a[i] > b[i] {
        false
    } else {
        lex_le_from(a, b, i + 1)
    }
}

/// `a` is at most `b` in bytewise lexicographic order.
pub open spec fn lex_le(a: Seq<u8>, b: Seq<u8>) -> bool {
    lex_le_from(a, b, 0)
}

/// `a` is strictly below `b` in bytewise lexicographic order.
pub open spec fn lex_lt(a: Seq<u8>, b: Seq<u8>) -> bool {
    lex_le(a, b) && a != b
}

/// Any two byte strings compare one way or the other.
pub proof fn lemma_lex_le_total(a: Seq<u8>, b: Seq<u8>)
    ensures
        lex_le(a, b) || lex_le(b, a),
{
    lemma_lex_le_from_total(a, b, 0);
}

proof fn lemma_lex_le_from_total(a: Seq<u8>, b: Seq<u8>, i: int)
    ensures
        lex_le_from(a, b, i) || lex_le_from(b, a, i),
    decreases a.len() - i,
{
    if i < a.len() && i < b.len() && a[i] == b[i] {
        lemma_lex_le_from_total(a, b, i + 1);
    }
}

/// Byte strings that compare both ways are equal.
pub proof fn lemma_lex_le_antisym(a: Seq<u8>, b: Seq<u8>)
    requires
        lex_le(a, b),
        lex_le(b, a),
    ensures
        a == b,
{
    lemma_lex_le_from_antisym(a, b, 0);
    assert(a =~= b);
}

proof fn lemma_lex_le_from_antisym(a: Seq<u8>, b: Seq<u8>, i: int)
    requires
        0 <= i <= a.len(),
        i <= b.len(),
        lex_le_from(a, b, i),
        lex_le_from(b, a, i),
        forall|j: int| 0 <= j < i ==> a[j] == b[j],
    ensures
        a =~= b,
    decreases a.len() - i,
{
    if i >= a.len() || i >= b.len() {
    } else {
        lemma_lex_le_from_antisym(a, b, i + 1);
    }
}

/// Lexicographic order is transitive.
pub proof fn lemma_lex_le_trans(a: Seq<u8>, b: Seq<u8>, c: Seq<u8>)
    requires
        lex_le(a, b),
        lex_le(b, c),
    ensures
        lex_le(a, c),
{
    lemma_lex_le_from_trans(a, b, c, 0);
}

proof fn lemma_lex_le_from_trans(a: Seq<u8>, b: Seq<u8>, c: Seq<u8>, i: int)
    requires
        lex_le_from(a, b, i),
        lex_le_from(b, c, i),
    ensures
        lex_le_from(a, c, i),
    decreases a.len() - i,
{
    if i >= a.len() {
    } else if i < b.len() && i < c.len() && a[i] == b[i] && b[i] == c[i] {
        lemma_lex_le_from_trans(a, b, c, i + 1);
    }
}

/// Transitivity through a strict step: strictly below, then at most,
/// stays strictly below.
pub proof fn lemma_lex_lt_le_trans(a: Seq<u8>, b: Seq<u8>, c: Seq<u8>)
    requires
        lex_lt(a, b),
        lex_le(b, c),
    ensures
        lex_lt(a, c),
{
    lemma_lex_le_trans(a, b, c);
    if a == c {
        lemma_lex_le_antisym(b, c);
    }
}

/// Bytewise comparison of two names.
pub fn name_le(a: &Vec<u8>, b: &Vec<u8>) -> (res: bool)
    ensures
        res == lex_le(a@, b@),
{
    let mut i: usize = 0;
    loop
        invariant
            0 <= i <= a.len(),
            lex_le(a@, b@) == lex_le_from(a@, b@, i as int),
        decreases a.len() - i,
    {
        if i >= a.len() {
            return true;
        }
        if i >= b.len() {
            return false;
        }
        if a[i] < b[i] {
            return true;
        }
        if a[i] > b[i] {
            return false;
        }
        i = i + 1;
    }
}

} // verus!
