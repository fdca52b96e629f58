//! Fixed-point fee arithmetic for the basket engine.
//!
//! Fees are fractions of `FEE_DENOMINATOR` with 15 decimal places. The fee
//! taken from a gross amount is `floor(amount * fee / FEE_DENOMINATOR)`;
//! the product `amount * fee` does not fit in 128 bits, so the executable
//! computation splits `amount` into two 64-bit halves and performs a long
//! division, proved equal to the unbounded-integer quotient.

use vstd::prelude::*;
use vstd::arithmetic::div_mod::{
    lemma_div_is_ordered, lemma_div_pos_is_pos, lemma_fundamental_div_mod,
    lemma_fundamental_div_mod_converse_div, lemma_div_multiples_vanish,
};
use vstd::arithmetic::mul::{
    lemma_mul_inequality, lemma_mul_is_distributive_add_other_way, lemma_mul_nonnegative,
    lemma_mul_upper_bound,
};

verus! {

/// Fee denominator: a fee of `FEE_DENOMINATOR` is a fee of 100%.
pub const FEE_DENOMINATOR: u128 = 1_000_000_000_000_000;

/// The portion of `amount` that a fee of `fee / FEE_DENOMINATOR` takes,
/// rounded down, as an unbounded integer.
pub open spec fn fee_part(amount: u128, fee: u128) -> int {
    (amount * fee) / (FEE_DENOMINATOR as int)
}

/// What remains for the caller once the owner fee and the platform fee are
/// taken from `amount`.
pub open spec fn caller_part(amount: u128, owner_fee: u128, platform_fee: u128) -> int {
    amount - fee_part(amount, owner_fee) - fee_part(amount, platform_fee)
}

/// The two fee parts never exceed the amount they are taken from, as long as
/// the fees sum to at most the denominator.
pub proof fn lemma_fee_parts_bounded(amount: u128, owner_fee: u128, platform_fee: u128)
    requires
        owner_fee + platform_fee <= FEE_DENOMINATOR,
    ensures
        0 <= fee_part(amount, owner_fee),
        0 <= fee_part(amount, platform_fee),
        fee_part(amount, owner_fee) + fee_part(amount, platform_fee) <= amount,
{
    let d = FEE_DENOMINATOR as int;
    let a = amount as int;
    let po = a * owner_fee;
    let pp = a * platform_fee;
    lemma_mul_nonnegative(a, owner_fee as int);
    lemma_mul_nonnegative(a, platform_fee as int);
    lemma_div_pos_is_pos(po, d);
    lemma_div_pos_is_pos(pp, d);
    let qo = po / d;
    let qp = pp / d;
    lemma_fundamental_div_mod(po, d);
    lemma_fundamental_div_mod(pp, d);
    // po + pp == d * (qo + qp) + (po % d + pp % d), with a non-negative rest,
    // so the sum of the quotients is at most the quotient of the sum.
    assert(d * (qo + qp) == d * qo + d * qp) by (nonlinear_arith);
    assert(d * (qo + qp) <= po + pp);
    lemma_div_multiples_vanish(qo + qp, d);
    lemma_div_is_ordered(d * (qo + qp), po + pp, d);
    assert(qo + qp <= (po + pp) / d);
    // po + pp == a * (owner_fee + platform_fee) <= a * d, whose quotient is a.
    lemma_mul_is_distributive_add_other_way(a, owner_fee as int, platform_fee as int);
    assert(po + pp == a * (owner_fee + platform_fee));
    lemma_mul_inequality((owner_fee + platform_fee) as int, d, a);
    assert(a * (owner_fee + platform_fee) == (owner_fee + platform_fee) * a) by (nonlinear_arith);
    assert(a * d == d * a) by (nonlinear_arith);
    assert(po + pp <= a * d);
    lemma_div_is_ordered(po + pp, a * d, d);
    lemma_div_multiples_vanish(a, d);
    assert((a * d) / d == a);
}

/// The fee split is exact: the owner part, the platform part and the caller
/// part add up to the gross amount, with no rounding leakage, and the caller
/// part is never negative.
pub proof fn lemma_fee_split_exact(amount: u128, owner_fee: u128, platform_fee: u128)
    requires
        owner_fee + platform_fee <= FEE_DENOMINATOR,
    ensures
        fee_part(amount, owner_fee) + fee_part(amount, platform_fee)
            + caller_part(amount, owner_fee, platform_fee) == amount,
        0 <= caller_part(amount, owner_fee, platform_fee) <= amount,
{
    lemma_fee_parts_bounded(amount, owner_fee, platform_fee);
}

/// Computes `floor(amount * fee / FEE_DENOMINATOR)` without overflow, through
/// a 64-bit split of `amount` (the intermediate product needs up to 178 bits).
pub fn mul_fee(amount: u128, fee: u128) -> (r: u128)
    requires
        fee <= FEE_DENOMINATOR,
    ensures
        r == fee_part(amount, fee),
{
    let d: u128 = FEE_DENOMINATOR;
    let two64: u128 = 0x1_0000_0000_0000_0000;
    let hi: u128 = amount >> 64u32;
    let lo: u128 = amount & 0xffff_ffff_ffff_ffff;
    assert((amount >> 64u32) < 0x1_0000_0000_0000_0000u128) by (bit_vector);
    assert((amount & 0xffff_ffff_ffff_ffffu128) < 0x1_0000_0000_0000_0000u128) by (bit_vector);
    assert(amount == (amount >> 64u32) * 0x1_0000_0000_0000_0000u128
        + (amount & 0xffff_ffff_ffff_ffffu128)) by (bit_vector);
    proof {
        lemma_mul_upper_bound(hi as int, 0xffff_ffff_ffff_ffffu128 as int, fee as int, d as int);
        lemma_mul_upper_bound(lo as int, 0xffff_ffff_ffff_ffffu128 as int, fee as int, d as int);
        lemma_mul_nonnegative(hi as int, fee as int);
        lemma_mul_nonnegative(lo as int, fee as int);
    }
    let h: u128 = hi * fee;
    let q1: u128 = h / d;
    let r1: u128 = h % d;
    proof {
        lemma_fundamental_div_mod(h as int, d as int);
        lemma_div_pos_is_pos(h as int, d as int);
        // q1 <= hi since fee <= d.
        lemma_mul_inequality(fee as int, d as int, hi as int);
        assert(hi * fee == fee * hi && hi * d == d * hi) by (nonlinear_arith);
        lemma_div_is_ordered(h as int, hi as int * d as int, d as int);
        lemma_div_multiples_vanish(hi as int, d as int);
        lemma_mul_upper_bound(r1 as int, d as int - 1, two64 as int, two64 as int);
    }
    let t: u128 = r1 * two64 + lo * fee;
    let q2: u128 = t / d;
    proof {
        let di = d as int;
        let ai = amount as int;
        let fi = fee as int;
        let hii = hi as int;
        let loi = lo as int;
        let b = two64 as int;
        let q1i = q1 as int;
        let q2i = q2 as int;
        let r1i = r1 as int;
        let ti = t as int;
        lemma_fundamental_div_mod(ti, di);
        lemma_div_pos_is_pos(ti, di);
        let n = ai * fi;
        assert(n == hii * fi * b + loi * fi) by (nonlinear_arith)
            requires
                n == ai * fi,
                ai == hii * b + loi,
        ;
        assert(h as int == q1i * di + r1i);
        assert(n == (q1i * b) * di + ti) by (nonlinear_arith)
            requires
                n == hii * fi * b + loi * fi,
                hii * fi == q1i * di + r1i,
                ti == r1i * b + loi * fi,
        ;
        assert(ti == (ti / di) * di + ti % di);
        assert(n == (q1i * b + q2i) * di + ti % di) by (nonlinear_arith)
            requires
                n == (q1i * b) * di + ti,
                ti == q2i * di + ti % di,
        ;
        lemma_fundamental_div_mod_converse_div(n, di, q1i * b + q2i, ti % di);
        assert(n / di == q1i * b + q2i);
        // The quotient fits in 128 bits because fee <= d makes it at most amount.
        lemma_mul_inequality(fi, di, ai);
        assert(ai * fi == fi * ai && ai * di == di * ai) by (nonlinear_arith);
        lemma_div_is_ordered(n, ai * di, di);
        lemma_div_multiples_vanish(ai, di);
        assert(q1i * b + q2i <= ai);
        lemma_mul_nonnegative(q1i, b);
    }
    q1 * two64 + q2
}

} // verus!
