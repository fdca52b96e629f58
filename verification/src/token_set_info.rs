//! The basket definition: an ordered list of (asset, ratio) components and
//! the fee policy, validated once at engine construction and immutable
//! afterwards except for the owner fee.

use vstd::prelude::*;
use crate::arith::lemma_mul_exceeds_div;
use crate::arith::lemma_mul_within_div;
use crate::fees::FEE_DENOMINATOR;
use crate::shared::{TokenWithRatio, TokenWithRatioValid};
use vstd::arithmetic::mul::lemma_mul_is_distributive_add;

verus! {

/// Everything that can go wrong in the basket engine. Validation errors are
/// reported before any state is touched; a call that returns an error leaves
/// the engine exactly as it was.
#[derive(Clone, Copy, PartialEq, Eq, Structural, Debug)]
pub enum TokenSetError {
    /// The basket was constructed with no components.
    EmptyBasket,
    /// A component's ratio is zero, which would make the wrappable amount
    /// unbounded.
    ZeroRatio,
    /// The same asset appears twice among the components.
    DuplicateAsset,
    /// A fee exceeds the fee denominator, or the two fees together do.
    FeeOutOfRange,
    /// The metadata carries a document reference without its hash, or the
    /// hash without the reference.
    InvalidMetadata,
    /// The minimum storage requirement does not fit in 128 bits.
    StorageOverflow,
    /// The account is not registered with the derivative-unit ledger.
    NotRegistered,
    /// The account is already registered with the derivative-unit ledger.
    AlreadyRegistered,
    /// The caller's component balances do not cover the requested amount.
    InsufficientBasketBalance,
    /// The caller's derivative-unit balance does not cover the requested
    /// amount.
    InsufficientDerivativeBalance,
    /// A credit would push a balance or the total supply beyond 128 bits.
    BalanceOverflow,
    /// A transfer names the same account as sender and receiver.
    SelfTransfer,
    /// The caller is not the basket owner.
    NotOwner,
    /// The fee policy was created without the updatable flag.
    FeeNotUpdatable,
}

/// The fee policy: how much of each minted amount goes to the basket owner
/// and to the platform beneficiary.
pub struct FeeReceiver {
    /// The fee for the owner of the basket, as a fraction of
    /// `FEE_DENOMINATOR`.
    pub owner_fee: u128,
    /// The fee for the platform which created the basket engine.
    pub platform_fee: u128,
    /// The platform account receiving the platform fee.
    pub platform_id: String,
    /// Whether the owner fee can be updated after construction.
    pub updatable: bool,
}

/// The basket definition: the recorded components and the fee policy.
pub struct SetInfo {
    pub(crate) ratios: Vec<TokenWithRatio>,
    pub(crate) fee: FeeReceiver,
}

/// The views of a component list.
pub open spec fn ratio_views(ratios: Seq<TokenWithRatioValid>) -> Seq<(Seq<char>, u32)> {
    ratios.map_values(|t: TokenWithRatioValid| t@)
}

/// No asset identifier repeats among the components.
pub open spec fn ratios_distinct(ratios: Seq<(Seq<char>, u32)>) -> bool {
    forall|i: int, j: int| 0 <= i < j < ratios.len() ==> ratios[i].0 != ratios[j].0
}

/// Every component ratio is at least one.
pub open spec fn ratios_positive(ratios: Seq<(Seq<char>, u32)>) -> bool {
    forall|i: int| 0 <= i < ratios.len() ==> ratios[i].1 >= 1
}

/// A well-formed basket: at least one component, positive ratios, and each
/// asset recorded once.
pub open spec fn basket_valid(ratios: Seq<(Seq<char>, u32)>) -> bool {
    &&& ratios.len() >= 1
    &&& ratios_positive(ratios)
    &&& ratios_distinct(ratios)
}

/// A well-formed fee policy: the two fees together stay within the
/// denominator.
pub open spec fn fees_valid(owner_fee: u128, platform_fee: u128) -> bool {
    owner_fee + platform_fee <= FEE_DENOMINATOR
}

impl SetInfo {
    /// Validates and records a basket definition.
    ///
    /// The checks run in a fixed order — emptiness, zero ratios, duplicate
    /// assets, fee range — and the first violated one names the error; on any
    /// error no state is retained.
    #[verifier::loop_isolation(false)]
    pub(crate) fn new(set_ratios: Vec<TokenWithRatioValid>, set_initial_fee: FeeReceiver) -> (r: Result<
        SetInfo,
        TokenSetError,
    >)
        ensures
            ({
                let views = ratio_views(set_ratios@);
                &&& (r == Err::<SetInfo, TokenSetError>(TokenSetError::EmptyBasket) <==> views.len()
                    == 0)
                &&& (r == Err::<SetInfo, TokenSetError>(TokenSetError::ZeroRatio) <==> views.len()
                    >= 1 && !ratios_positive(views))
                &&& (r == Err::<SetInfo, TokenSetError>(TokenSetError::DuplicateAsset) <==> (
                views.len() >= 1 && ratios_positive(views) && !ratios_distinct(views)))
                &&& (r == Err::<SetInfo, TokenSetError>(TokenSetError::FeeOutOfRange) <==> (
                basket_valid(views) && !fees_valid(
                    set_initial_fee.owner_fee,
                    set_initial_fee.platform_fee,
                )))
                &&& (r.is_ok() <==> basket_valid(views) && fees_valid(
                    set_initial_fee.owner_fee,
                    set_initial_fee.platform_fee,
                ))
                &&& (r.is_ok() ==> {
                    let s = r->Ok_0;
                    &&& s.ratios@.map_values(|t: TokenWithRatio| t@) == views
                    &&& s.fee.owner_fee == set_initial_fee.owner_fee
                    &&& s.fee.platform_fee == set_initial_fee.platform_fee
                    &&& s.fee.platform_id@ == set_initial_fee.platform_id@
                    &&& s.fee.updatable == set_initial_fee.updatable
                })
            }),
    {
        let n = set_ratios.len();
        if n == 0 {
            return Err(TokenSetError::EmptyBasket);
        }
        let mut i: usize = 0;
        while i < n
            invariant
                n == set_ratios@.len(),
                i <= n,
                forall|k: int| 0 <= k < i ==> ratio_views(set_ratios@)[k].1 >= 1,
            decreases n - i,
        {
            if set_ratios[i].ratio == 0 {
                assert(ratio_views(set_ratios@)[i as int].1 == 0);
                return Err(TokenSetError::ZeroRatio);
            }
            i = i + 1;
        }
        let mut i: usize = 0;
        while i < n
            invariant
                n == set_ratios@.len(),
                i <= n,
                forall|k1: int, k2: int| 0 <= k1 < k2 <= i - 1 ==> ratio_views(set_ratios@)[k1].0
                    != ratio_views(set_ratios@)[k2].0,
            decreases n - i,
        {
            let mut j: usize = 0;
            while j < i
                invariant
                    n == set_ratios@.len(),
                    j <= i < n,
                    forall|k: int| 0 <= k < j ==> ratio_views(set_ratios@)[k].0 != ratio_views(
                        set_ratios@,
                    )[i as int].0,
                decreases i - j,
            {
                if set_ratios[j].token_id == set_ratios[i].token_id {
                    assert(ratio_views(set_ratios@)[j as int].0 == ratio_views(
                        set_ratios@,
                    )[i as int].0);
                    return Err(TokenSetError::DuplicateAsset);
                }
                j = j + 1;
            }
            i = i + 1;
        }
        if set_initial_fee.owner_fee > FEE_DENOMINATOR
            || set_initial_fee.platform_fee > FEE_DENOMINATOR
            || set_initial_fee.owner_fee > FEE_DENOMINATOR - set_initial_fee.platform_fee {
            return Err(TokenSetError::FeeOutOfRange);
        }
        let mut ratios: Vec<TokenWithRatio> = Vec::new();
        let mut i: usize = 0;
        while i < n
            invariant
                n == set_ratios@.len(),
                i <= n,
                ratios@.len() == i,
                forall|k: int| 0 <= k < i ==> ratios@.map_values(|t: TokenWithRatio| t@)[k]
                    == ratio_views(set_ratios@)[k],
            decreases n - i,
        {
            let entry = TokenWithRatio {
                token_id: set_ratios[i].token_id.clone(),
                ratio: set_ratios[i].ratio,
            };
            ratios.push(entry);
            i = i + 1;
        }
        proof {
            assert(ratios@.map_values(|t: TokenWithRatio| t@) =~= ratio_views(set_ratios@));
        }
        Ok(SetInfo { ratios, fee: set_initial_fee })
    }
}

/// The minimum storage balance an account needs once it can hold a balance in
/// each of `n` basket components, as an unbounded integer: a base cost plus a
/// per-component cost. An affine function of the component count.
pub open spec fn spec_min_storage(base: u128, per_balance: u128, n: nat) -> int {
    base + per_balance * n
}

/// The minimum storage requirement is affine in the component count: growing
/// the basket by one component always raises it by the same per-component
/// cost, whatever the current size.
pub proof fn lemma_min_storage_affine(base: u128, per_balance: u128, n: nat)
    ensures
        spec_min_storage(base, per_balance, n + 1) - spec_min_storage(base, per_balance, n)
            == per_balance,
{
    lemma_mul_is_distributive_add(per_balance as int, n as int, 1);
}

/// Computes the minimum account storage requirement for a basket of `n`
/// components, or reports that it does not fit in 128 bits.
pub fn min_storage_requirement(base: u128, per_balance: u128, n: usize) -> (r: Result<
    u128,
    TokenSetError,
>)
    ensures
        r == Ok::<u128, TokenSetError>((spec_min_storage(base, per_balance, n as nat)) as u128)
            <==> spec_min_storage(base, per_balance, n as nat) <= u128::MAX,
        r == Err::<u128, TokenSetError>(TokenSetError::StorageOverflow) <==> spec_min_storage(
            base,
            per_balance,
            n as nat,
        ) > u128::MAX,
{
    let n128 = n as u128;
    if per_balance != 0 && n128 > u128::MAX / per_balance {
        proof {
            lemma_mul_exceeds_div(n128 as int, per_balance as int, u128::MAX as int);
            assert(n128 as int * per_balance as int == per_balance as int * n128 as int)
                by (nonlinear_arith);
        }
        return Err(TokenSetError::StorageOverflow);
    }
    proof {
        if per_balance != 0 {
            lemma_mul_within_div(n128 as int, per_balance as int, u128::MAX as int);
            assert(n128 as int * per_balance as int == per_balance as int * n128 as int)
                by (nonlinear_arith);
        } else {
            assert(per_balance as int * n128 as int == 0) by (nonlinear_arith)
                requires
                    per_balance == 0,
            ;
        }
    }
    let cost = per_balance * n128;
    if cost > u128::MAX - base {
        return Err(TokenSetError::StorageOverflow);
    }
    Ok(base + cost)
}

} // verus!
