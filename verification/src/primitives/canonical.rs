//! Canonical form: trimming keeps the polynomial and yields the one
//! representation that the library stores.

use crate::primitives::algebra::{
    coef,
    is_trimmed,
    normalize,
    reduced,
    trim,
};
use vstd::prelude::*;

verus! {

/// Trimming keeps the denoted polynomial: every coefficient is unchanged,
/// and the result is trimmed and no longer than the argument.
pub proof fn lemma_trim(c: Seq<int>)
    requires
        c.len() >= 1,
    ensures
        is_trimmed(trim(c)),
        1 <= trim(c).len() <= c.len(),
        forall|i: int| coef(trim(c), i) == coef(c, i),
        reduced(c) ==> reduced(trim(c)),
    decreases c.len(),
{
    if c.len() > 1 && c.last() == 0 {
        lemma_trim(c.drop_last());
        assert forall|i: int| coef(trim(c), i) == coef(c, i) by {
            assert(coef(c.drop_last(), i) == coef(c, i));
        }
    }
}

/// A trimmed sequence is left alone.
pub proof fn lemma_trim_fixed(c: Seq<int>)
    requires
        is_trimmed(c),
    ensures
        trim(c) == c,
        normalize(c) == c,
{
}

/// Normalizing keeps the denoted polynomial and yields a canonical sequence.
pub proof fn lemma_normalize(c: Seq<int>)
    ensures
        is_trimmed(normalize(c)),
        1 <= normalize(c).len(),
        c.len() >= 1 ==> normalize(c).len() <= c.len(),
        forall|i: int| coef(normalize(c), i) == coef(c, i),
        reduced(c) ==> reduced(normalize(c)),
{
    if c.len() >= 1 {
        lemma_trim(c);
    }
}

/// A trimmed sequence is the canonical form of every sequence with the same
/// coefficients.
pub proof fn lemma_normalize_unique(a: Seq<int>, b: Seq<int>)
    requires
        is_trimmed(a),
        forall|k: int| coef(a, k) == coef(b, k),
    ensures
        normalize(b) == a,
{
    let n = normalize(b);
    lemma_normalize(b);
    if a.len() > n.len() {
        assert(coef(a, a.len() - 1) == coef(n, a.len() - 1));
    } else if n.len() > a.len() {
        assert(coef(n, n.len() - 1) == coef(a, n.len() - 1));
    }
    assert forall|k: int| 0 <= k < a.len() implies a[k] == n[k] by {
        assert(coef(a, k) == coef(n, k));
    }
    assert(a =~= n);
}

} // verus!
