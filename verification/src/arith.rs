//! Bounds that connect integer multiplication with floor division, used to
//! show that ledger debits and credits stay inside 128 bits.

use vstd::prelude::*;
use vstd::arithmetic::div_mod::{lemma_fundamental_div_mod, lemma_remainder_lower};
use vstd::arithmetic::mul::lemma_mul_inequality;

verus! {

/// A value at most `b / r` multiplied by `r` stays at most `b`.
pub proof fn lemma_mul_within_div(x: int, r: int, b: int)
    requires
        r >= 1,
        0 <= x,
        0 <= b,
        x <= b / r,
    ensures
        x * r <= b,
{
    lemma_fundamental_div_mod(b, r);
    lemma_remainder_lower(b, r);
    lemma_mul_inequality(x, b / r, r);
    assert((b / r) * r == r * (b / r)) by (nonlinear_arith);
}

/// A value beyond `b / r` multiplied by `r` exceeds `b`.
pub proof fn lemma_mul_exceeds_div(x: int, r: int, b: int)
    requires
        r >= 1,
        0 <= b,
        x > b / r,
    ensures
        x * r > b,
{
    lemma_fundamental_div_mod(b, r);
    // b == r * (b / r) + b % r with b % r < r, so (b / r + 1) * r > b.
    lemma_mul_inequality(b / r + 1, x, r);
    assert((b / r + 1) * r == r * (b / r) + r) by (nonlinear_arith);
}

} // verus!
