//! Stepping around a cycle of positions.
use vstd::prelude::*;
use vstd::arithmetic::div_mod::{
    lemma_fundamental_div_mod, lemma_fundamental_div_mod_converse, lemma_mod_bound,
};

verus! {

/// One step forward around a cycle of `m` positions.
pub proof fn lemma_mod_succ(a: int, m: int)
    requires
        m > 0,
    ensures
        (a + 1) % m == if a % m == m - 1 {
            0
        } else {
            a % m + 1
        },
        0 <= a % m < m,
{
    lemma_fundamental_div_mod(a, m);
    lemma_mod_bound(a, m);
    let q = a / m;
    let r = a % m;
    assert(m * q == q * m) by (nonlinear_arith);
    if r == m - 1 {
        assert((q + 1) * m == q * m + m) by (nonlinear_arith);
        lemma_fundamental_div_mod_converse(a + 1, m, q + 1, 0);
    } else {
        lemma_fundamental_div_mod_converse(a + 1, m, q, r + 1);
    }
}

/// One step backward around a cycle of `m` positions.
pub proof fn lemma_mod_pred(a: int, m: int)
    requires
        m > 0,
    ensures
        (a - 1) % m == if a % m == 0 {
            m - 1
        } else {
            a % m - 1
        },
        0 <= a % m < m,
{
    lemma_fundamental_div_mod(a, m);
    lemma_mod_bound(a, m);
    let q = a / m;
    let r = a % m;
    assert(m * q == q * m) by (nonlinear_arith);
    if r == 0 {
        assert((q - 1) * m == q * m - m) by (nonlinear_arith);
        lemma_fundamental_div_mod_converse(a - 1, m, q - 1, m - 1);
    } else {
        lemma_fundamental_div_mod_converse(a - 1, m, q, r - 1);
    }
}

/// A position already on the cycle is its own remainder.
pub proof fn lemma_mod_small(a: int, m: int)
    requires
        0 <= a < m,
    ensures
        a % m == a,
{
    lemma_fundamental_div_mod_converse(a, m, 0, a);
}

} // verus!
