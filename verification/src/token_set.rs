//! The basket engine: locks proportional amounts of the basket's component
//! assets and mints derivative units, with a fee split for the basket owner
//! and the platform beneficiary, and the symmetric unwind.

use vstd::prelude::*;
use crate::fees::{caller_part, fee_part, mul_fee, FEE_DENOMINATOR};
use crate::internal_ledger::{pair_balance_in, InternalLedger};
use crate::shared::{MetadataReference, TokenWithRatio, TokenWithRatioValid};
use crate::token_ledger::{balance_in, TokenLedger};
use crate::token_set_info::{
    basket_valid, fees_valid, min_storage_requirement, ratio_views, ratios_distinct,
    ratios_positive, spec_min_storage, FeeReceiver, SetInfo, TokenSetError,
};
use crate::arith::{lemma_mul_exceeds_div, lemma_mul_within_div};
use vstd::arithmetic::div_mod::{lemma_div_nonincreasing, lemma_div_pos_is_pos};
use crate::fees::lemma_fee_parts_bounded;

verus! {

/// The token metadata carried by the engine: plain descriptive state.
pub struct FtMetadata {
    /// The metadata format version.
    pub spec_version: String,
    pub name: String,
    pub symbol: String,
    pub icon: Option<String>,
    /// An off-chain document describing the basket.
    pub reference: Option<String>,
    /// The hash of that document.
    pub reference_hash: Option<Vec<u8>>,
    pub decimals: u8,
}

/// The mathematical shape of the metadata.
pub struct MetadataView {
    pub spec_version: Seq<char>,
    pub name: Seq<char>,
    pub symbol: Seq<char>,
    pub icon: Option<Seq<char>>,
    pub reference: Option<Seq<char>>,
    pub reference_hash: Option<Seq<u8>>,
    pub decimals: u8,
}

/// The view of an optional account or document name.
pub open spec fn opt_str_view(o: Option<String>) -> Option<Seq<char>> {
    match o {
        Some(s) => Some(s@),
        None => None,
    }
}

/// The view of an optional byte string.
pub open spec fn opt_bytes_view(o: Option<Vec<u8>>) -> Option<Seq<u8>> {
    match o {
        Some(b) => Some(b@),
        None => None,
    }
}

impl View for FtMetadata {
    type V = MetadataView;

    open spec fn view(&self) -> MetadataView {
        MetadataView {
            spec_version: self.spec_version@,
            name: self.name@,
            symbol: self.symbol@,
            icon: opt_str_view(self.icon),
            reference: opt_str_view(self.reference),
            reference_hash: opt_bytes_view(self.reference_hash),
            decimals: self.decimals,
        }
    }
}

/// Everything a caller can learn about the engine's configuration: the
/// metadata, the fee policy and the components.
pub struct SetMetadata {
    pub ft_metadata: FtMetadata,
    pub set_fee: FeeReceiver,
    pub set_ratios: Vec<TokenWithRatio>,
}

/// The mathematical state of the basket engine.
#[verifier::ext_equal]
pub struct TokenSetView {
    /// The basket owner, fixed at construction.
    pub owner_id: Seq<char>,
    /// Descriptive metadata.
    pub metadata: MetadataView,
    /// The basket components: (asset identifier, units per derivative unit).
    pub ratios: Seq<(Seq<char>, u32)>,
    /// The owner's share of each minted amount, over `FEE_DENOMINATOR`.
    pub owner_fee: u128,
    /// The platform's share of each minted amount, over `FEE_DENOMINATOR`.
    pub platform_fee: u128,
    /// The account receiving the platform fee.
    pub platform_id: Seq<char>,
    /// Whether the owner fee may change after construction.
    pub updatable: bool,
    /// Derivative-unit balances of the registered accounts.
    pub ft: Map<Seq<char>, u128>,
    /// The circulating derivative units: always the sum of all balances.
    pub total_supply: u128,
    /// Component-asset balances per (account, asset) pair.
    pub internal: Map<(Seq<char>, Seq<char>), u128>,
    /// The minimum storage balance required of a registered account.
    pub min_account_storage: u128,
}

impl TokenSetView {
    /// A valid engine state: a well-formed basket and fee policy, with the
    /// owner and the platform registered in the derivative-unit ledger.
    pub open spec fn wf(self) -> bool {
        &&& basket_valid(self.ratios)
        &&& fees_valid(self.owner_fee, self.platform_fee)
        &&& self.ft.dom().contains(self.owner_id)
        &&& self.ft.dom().contains(self.platform_id)
    }

    /// The derivative-unit balance of an account, zero when unregistered.
    pub open spec fn ft_bal(self, account: Seq<char>) -> u128 {
        balance_in(self.ft, account)
    }

    /// The component-asset balance of an account, zero when never credited.
    pub open spec fn int_bal(self, account: Seq<char>, token: Seq<char>) -> u128 {
        pair_balance_in(self.internal, account, token)
    }

    /// Whether `token` is one of the basket's components.
    pub open spec fn is_basket_token(self, token: Seq<char>) -> bool {
        exists|i: int| 0 <= i < self.ratios.len() && self.ratios[i].0 == token
    }

    /// The largest amount wrappable against the first `n` components: the
    /// minimum over them of the account's balance divided by the ratio.
    pub open spec fn max_upto(self, account: Seq<char>, n: int) -> u128
        decreases n,
    {
        if n <= 0 {
            u128::MAX
        } else {
            let prev = self.max_upto(account, n - 1);
            let term = ((self.int_bal(account, self.ratios[n - 1].0) as int) / (
            self.ratios[n - 1].1 as int)) as u128;
            if term < prev {
                term
            } else {
                prev
            }
        }
    }

    /// The largest amount the account can wrap: the minimum over all
    /// components of its balance divided by the component's ratio.
    pub open spec fn max_wrappable(self, account: Seq<char>) -> u128 {
        self.max_upto(account, self.ratios.len() as int)
    }

    /// What a mint of `amount` by `caller` adds to the account `who`: the
    /// caller's share, plus the owner fee and the platform fee where `who` is
    /// the owner or the platform. The three shares may pile onto one account
    /// when the parties coincide.
    pub open spec fn minted_credit(self, caller: Seq<char>, amount: u128, who: Seq<char>) -> int {
        (if who == caller {
            caller_part(amount, self.owner_fee, self.platform_fee)
        } else {
            0
        }) + (if who == self.owner_id {
            fee_part(amount, self.owner_fee)
        } else {
            0
        }) + (if who == self.platform_id {
            fee_part(amount, self.platform_fee)
        } else {
            0
        })
    }
}


/// Whether `token` appears among the first `n` components.
pub open spec fn prefix_has_token(ratios: Seq<(Seq<char>, u32)>, n: int, token: Seq<char>) -> bool {
    exists|i: int| 0 <= i < n && ratios[i].0 == token
}

/// Component `j` of the basket was debited by `amount` times its ratio,
/// from `pre` to `post`, on `account`.
pub open spec fn debited_at(
    pre: TokenSetView,
    post: TokenSetView,
    account: Seq<char>,
    amount: u128,
    j: int,
) -> bool {
    post.int_bal(account, pre.ratios[j].0) as int == pre.int_bal(account, pre.ratios[j].0)
        - amount * pre.ratios[j].1
}

/// Component `j` of the basket was credited with `amount` times its ratio,
/// from `pre` to `post`, on `account`.
pub open spec fn credited_at(
    pre: TokenSetView,
    post: TokenSetView,
    account: Seq<char>,
    amount: u128,
    j: int,
) -> bool {
    post.int_bal(account, pre.ratios[j].0) as int == pre.int_bal(account, pre.ratios[j].0)
        + amount * pre.ratios[j].1
}

/// `account` paid `amount` units of every component, and no other
/// component-asset balance moved.
pub open spec fn components_debited(
    pre: TokenSetView,
    post: TokenSetView,
    account: Seq<char>,
    amount: u128,
) -> bool {
    &&& forall|j: int| 0 <= j < pre.ratios.len() ==> #[trigger] debited_at(
        pre,
        post,
        account,
        amount,
        j,
    )
    &&& forall|a: Seq<char>, t: Seq<char>| !(a == account && pre.is_basket_token(t))
        ==> post.int_bal(a, t) == pre.int_bal(a, t)
}

/// `account` received `amount` units of every component, and no other
/// component-asset balance moved.
pub open spec fn components_credited(
    pre: TokenSetView,
    post: TokenSetView,
    account: Seq<char>,
    amount: u128,
) -> bool {
    &&& forall|j: int| 0 <= j < pre.ratios.len() ==> #[trigger] credited_at(
        pre,
        post,
        account,
        amount,
        j,
    )
    &&& forall|a: Seq<char>, t: Seq<char>| !(a == account && pre.is_basket_token(t))
        ==> post.int_bal(a, t) == pre.int_bal(a, t)
}

/// A mint of `amount` gross by `caller`: every derivative-unit balance grows
/// by exactly the account's share of the split, the set of registered
/// accounts stays the same, and the total supply grows by the gross amount.
pub open spec fn minted(
    pre: TokenSetView,
    post: TokenSetView,
    caller: Seq<char>,
    amount: u128,
) -> bool {
    &&& post.total_supply == pre.total_supply + amount
    &&& post.ft.dom() == pre.ft.dom()
    &&& forall|w: Seq<char>| #[trigger] post.ft_bal(w) == pre.ft_bal(w) + pre.minted_credit(
        caller,
        amount,
        w,
    )
}

/// The gross amount a wrap call works with: the caller's explicit request, or
/// the largest wrappable amount when the caller left the choice open.
pub open spec fn requested_amount(
    pre: TokenSetView,
    caller: Seq<char>,
    amount: Option<u128>,
) -> u128 {
    match amount {
        Some(a) => a,
        None => pre.max_wrappable(caller),
    }
}

/// The wrappable maximum over `n` components is bounded by each component's
/// own quotient.
pub proof fn lemma_max_upto_le_term(v: TokenSetView, account: Seq<char>, n: int, j: int)
    requires
        0 <= j < n <= v.ratios.len(),
        ratios_positive(v.ratios),
    ensures
        v.max_upto(account, n) <= (v.int_bal(account, v.ratios[j].0) as int) / (
        v.ratios[j].1 as int),
    decreases n,
{
    let b = v.int_bal(account, v.ratios[n - 1].0) as int;
    let r = v.ratios[n - 1].1 as int;
    lemma_div_pos_is_pos(b, r);
    lemma_div_nonincreasing(b, r);
    if j < n - 1 {
        lemma_max_upto_le_term(v, account, n - 1, j);
    }
}

/// The wrappable maximum depends only on the components and the
/// component-asset balances.
pub proof fn lemma_max_upto_congruence(
    v1: TokenSetView,
    v2: TokenSetView,
    account: Seq<char>,
    n: int,
)
    requires
        v1.internal == v2.internal,
        v1.ratios == v2.ratios,
    ensures
        v1.max_upto(account, n) == v2.max_upto(account, n),
    decreases n,
{
    if n > 0 {
        lemma_max_upto_congruence(v1, v2, account, n - 1);
    }
}


/// Some component credit of `amount` times a ratio would push a balance of
/// `account` beyond 128 bits.
pub open spec fn credit_overflows(pre: TokenSetView, account: Seq<char>, amount: u128) -> bool {
    exists|j: int| 0 <= j < pre.ratios.len() && pre.int_bal(account, pre.ratios[j].0) + amount
        * pre.ratios[j].1 > u128::MAX
}

/// A burn of `amount` by `caller`: only the caller's derivative-unit balance
/// shrinks, by exactly that amount, and so does the total supply.
pub open spec fn burned(
    pre: TokenSetView,
    post: TokenSetView,
    caller: Seq<char>,
    amount: u128,
) -> bool {
    &&& post.total_supply == pre.total_supply - amount
    &&& post.ft.dom() == pre.ft.dom()
    &&& forall|w: Seq<char>| #[trigger] post.ft_bal(w) == pre.ft_bal(w) - (if w == caller {
        amount as int
    } else {
        0
    })
}


/// The document reference named in an optional metadata reference.
pub open spec fn reference_view(o: Option<MetadataReference>) -> Option<Seq<char>> {
    match o {
        Some(m) => Some(m.reference@),
        None => None,
    }
}

/// The document hash named in an optional metadata reference.
pub open spec fn reference_hash_view(o: Option<MetadataReference>) -> Option<Seq<u8>> {
    match o {
        Some(m) => Some(m.reference_hash@),
        None => None,
    }
}

/// The metadata that `new_default_meta` assembles from its arguments.
pub open spec fn default_meta_view(
    name: Seq<char>,
    symbol: Seq<char>,
    icon: Option<Seq<char>>,
    reference: Option<Seq<char>>,
    reference_hash: Option<Seq<u8>>,
) -> MetadataView {
    MetadataView {
        spec_version: "ft-1.0.0"@,
        name: name,
        symbol: symbol,
        icon: icon,
        reference: reference,
        reference_hash: reference_hash,
        decimals: 24,
    }
}

/// Everything but the two ledgers is the same in `post` as in `pre`.
pub open spec fn config_unchanged(pre: TokenSetView, post: TokenSetView) -> bool {
    &&& post.owner_id == pre.owner_id
    &&& post.metadata == pre.metadata
    &&& post.ratios == pre.ratios
    &&& post.owner_fee == pre.owner_fee
    &&& post.platform_fee == pre.platform_fee
    &&& post.platform_id == pre.platform_id
    &&& post.updatable == pre.updatable
    &&& post.min_account_storage == pre.min_account_storage
}

/// The derivative-unit ledger of registered accounts at construction: the
/// owner and the platform, each with a zero balance.
pub open spec fn initial_ft(owner: Seq<char>, platform: Seq<char>) -> Map<Seq<char>, u128> {
    if platform == owner {
        Map::<Seq<char>, u128>::empty().insert(owner, 0)
    } else {
        Map::<Seq<char>, u128>::empty().insert(owner, 0).insert(platform, 0)
    }
}


/// A copy of an optional name.
fn clone_opt_string(o: &Option<String>) -> (r: Option<String>)
    ensures
        opt_str_view(r) == opt_str_view(*o),
{
    match o {
        Some(s) => Some(s.clone()),
        None => None,
    }
}

/// A copy of an optional byte string.
fn clone_opt_bytes(o: &Option<Vec<u8>>) -> (r: Option<Vec<u8>>)
    ensures
        opt_bytes_view(r) == opt_bytes_view(*o),
{
    match o {
        Some(b) => {
            let c = b.clone();
            proof {
                assert(c@ =~= b@);
            }
            Some(c)
        },
        None => None,
    }
}


/// Round-trip law. A wrap of gross `amount` followed by an unwrap of the
/// caller's minted share (`caller_part` of the amount) brings every component
/// balance of the caller back to at most its pre-wrap value — never below
/// zero, the balances being unsigned. The balances come back exactly equal
/// precisely when the two fee parts of the amount are zero; zero fees are the
/// canonical such case, while with nonzero fees a zero amount also restores
/// equality.
pub proof fn lemma_wrap_unwrap_round_trip(
    pre: TokenSetView,
    mid: TokenSetView,
    post: TokenSetView,
    caller: Seq<char>,
    amount: u128,
)
    requires
        pre.wf(),
        // What a wrap of `amount` by `caller` that returned the gross amount
        // guarantees:
        minted(pre, mid, caller, amount),
        components_debited(pre, mid, caller, amount),
        config_unchanged(pre, mid),
        // What an unwrap of the caller's minted share guarantees:
        burned(
            mid,
            post,
            caller,
            caller_part(amount, pre.owner_fee, pre.platform_fee) as u128,
        ),
        components_credited(
            mid,
            post,
            caller,
            caller_part(amount, pre.owner_fee, pre.platform_fee) as u128,
        ),
        config_unchanged(mid, post),
    ensures
        forall|j: int| 0 <= j < pre.ratios.len() ==> post.int_bal(caller, pre.ratios[j].0)
            <= pre.int_bal(caller, pre.ratios[j].0),
        fee_part(amount, pre.owner_fee) + fee_part(amount, pre.platform_fee) == 0 ==> forall|
            j: int,
        |
            0 <= j < pre.ratios.len() ==> post.int_bal(caller, pre.ratios[j].0) == pre.int_bal(
                caller,
                pre.ratios[j].0,
            ),
        forall|j: int|
            0 <= j < pre.ratios.len() && post.int_bal(caller, pre.ratios[j].0) == pre.int_bal(
                caller,
                pre.ratios[j].0,
            ) ==> fee_part(amount, pre.owner_fee) + fee_part(amount, pre.platform_fee) == 0,
        pre.owner_fee == 0 && pre.platform_fee == 0 ==> forall|j: int|
            0 <= j < pre.ratios.len() ==> post.int_bal(caller, pre.ratios[j].0) == pre.int_bal(
                caller,
                pre.ratios[j].0,
            ),
{
    lemma_fee_parts_bounded(amount, pre.owner_fee, pre.platform_fee);
    assert(fee_part(amount, 0) == 0) by {
        assert(amount * 0 == 0) by (nonlinear_arith);
    }
    let c = caller_part(amount, pre.owner_fee, pre.platform_fee) as u128;
    let lost = fee_part(amount, pre.owner_fee) + fee_part(amount, pre.platform_fee);
    assert forall|j: int| 0 <= j < pre.ratios.len() implies post.int_bal(caller, pre.ratios[j].0)
        as int == pre.int_bal(caller, pre.ratios[j].0) - lost * pre.ratios[j].1 by {
        assert(debited_at(pre, mid, caller, amount, j));
        assert(credited_at(mid, post, caller, c, j));
        assert(mid.ratios[j] == pre.ratios[j]);
        let r = pre.ratios[j].1 as int;
        assert(amount * r - c * r == lost * r) by (nonlinear_arith)
            requires
                c == amount - lost,
        ;
    }
    assert forall|j: int| 0 <= j < pre.ratios.len() implies post.int_bal(caller, pre.ratios[j].0)
        <= pre.int_bal(caller, pre.ratios[j].0) by {
        let r = pre.ratios[j].1 as int;
        assert(lost * r >= 0) by (nonlinear_arith)
            requires
                lost >= 0,
                r >= 0,
        ;
    }
    assert forall|j: int|
        0 <= j < pre.ratios.len() && post.int_bal(caller, pre.ratios[j].0) == pre.int_bal(
            caller,
            pre.ratios[j].0,
        ) implies fee_part(amount, pre.owner_fee) + fee_part(amount, pre.platform_fee) == 0 by {
        let r = pre.ratios[j].1 as int;
        assert(lost * r == 0 && r >= 1 && lost >= 0 ==> lost == 0) by (nonlinear_arith);
    }
}

/// The basket engine.
pub struct Contract {
    owner_id: String,
    token: TokenLedger,
    metadata: FtMetadata,
    internal: InternalLedger,
    set_info: SetInfo,
    min_account_storage: u128,
}

impl View for Contract {
    type V = TokenSetView;

    closed spec fn view(&self) -> TokenSetView {
        TokenSetView {
            owner_id: self.owner_id@,
            metadata: self.metadata@,
            ratios: self.set_info.ratios@.map_values(|t: TokenWithRatio| t@),
            owner_fee: self.set_info.fee.owner_fee,
            platform_fee: self.set_info.fee.platform_fee,
            platform_id: self.set_info.fee.platform_id@,
            updatable: self.set_info.fee.updatable,
            ft: self.token.balances(),
            total_supply: self.token.total_supply,
            internal: self.internal.balances(),
            min_account_storage: self.min_account_storage,
        }
    }
}

impl Contract {
    /// The representation invariant: well-formed ledgers under a valid
    /// configuration.
    pub closed spec fn wf(self) -> bool {
        &&& self.token.wf()
        &&& self.internal.wf()
        &&& self@.wf()
    }

    /// Initializes the engine: validates the metadata, the basket definition
    /// and the fee policy, registers the owner and the platform beneficiary
    /// with the derivative-unit ledger, and records the minimum account
    /// storage requirement computed from the capability-supplied base and
    /// per-balance costs.
    pub fn new(
        owner_id: String,
        metadata: FtMetadata,
        set_ratios: Vec<TokenWithRatioValid>,
        set_initial_fee: FeeReceiver,
        base_min_storage: u128,
        per_balance_storage_cost: u128,
    ) -> (r: Result<Contract, TokenSetError>)
        ensures
            ({
                let views = ratio_views(set_ratios@);
                let meta_ok = metadata@.reference.is_some() == metadata@.reference_hash.is_some();
                let fee_ok = fees_valid(set_initial_fee.owner_fee, set_initial_fee.platform_fee);
                let storage = spec_min_storage(
                    base_min_storage,
                    per_balance_storage_cost,
                    views.len(),
                );
                &&& (r == Err::<Contract, TokenSetError>(TokenSetError::InvalidMetadata) <==> !meta_ok)
                &&& (r == Err::<Contract, TokenSetError>(TokenSetError::EmptyBasket) <==> meta_ok
                    && views.len() == 0)
                &&& (r == Err::<Contract, TokenSetError>(TokenSetError::ZeroRatio) <==> meta_ok
                    && views.len() >= 1 && !ratios_positive(views))
                &&& (r == Err::<Contract, TokenSetError>(TokenSetError::DuplicateAsset) <==> meta_ok
                    && views.len() >= 1 && ratios_positive(views) && !ratios_distinct(views))
                &&& (r == Err::<Contract, TokenSetError>(TokenSetError::FeeOutOfRange) <==> meta_ok
                    && basket_valid(views) && !fee_ok)
                &&& (r == Err::<Contract, TokenSetError>(TokenSetError::StorageOverflow) <==> meta_ok
                    && basket_valid(views) && fee_ok && storage > u128::MAX)
                &&& (r.is_ok() <==> meta_ok && basket_valid(views) && fee_ok && storage
                    <= u128::MAX)
                &&& (r.is_ok() ==> {
                    let c = r->Ok_0;
                    &&& c.wf()
                    &&& c@ == (TokenSetView {
                        owner_id: owner_id@,
                        metadata: metadata@,
                        ratios: views,
                        owner_fee: set_initial_fee.owner_fee,
                        platform_fee: set_initial_fee.platform_fee,
                        platform_id: set_initial_fee.platform_id@,
                        updatable: set_initial_fee.updatable,
                        ft: initial_ft(owner_id@, set_initial_fee.platform_id@),
                        total_supply: 0,
                        internal: Map::<(Seq<char>, Seq<char>), u128>::empty(),
                        min_account_storage: storage as u128,
                    })
                })
            }),
    {
        if metadata.reference.is_some() != metadata.reference_hash.is_some() {
            return Err(TokenSetError::InvalidMetadata);
        }
        let n = set_ratios.len();
        let set_info = match SetInfo::new(set_ratios, set_initial_fee) {
            Ok(s) => s,
            Err(e) => {
                return Err(e);
            },
        };
        let min_account_storage = match min_storage_requirement(
            base_min_storage,
            per_balance_storage_cost,
            n,
        ) {
            Ok(m) => m,
            Err(e) => {
                return Err(e);
            },
        };
        let mut token = TokenLedger::new();
        token.register(&owner_id);
        if !(set_info.fee.platform_id == owner_id) {
            token.register(&set_info.fee.platform_id);
        }
        let c = Contract {
            owner_id,
            token,
            metadata,
            internal: InternalLedger::new(),
            set_info,
            min_account_storage,
        };
        proof {
            assert(c@.ft =~= initial_ft(c@.owner_id, c@.platform_id));
            assert(c@ =~= (TokenSetView {
                owner_id: c@.owner_id,
                metadata: c@.metadata,
                ratios: c@.ratios,
                owner_fee: c@.owner_fee,
                platform_fee: c@.platform_fee,
                platform_id: c@.platform_id,
                updatable: c@.updatable,
                ft: initial_ft(c@.owner_id, c@.platform_id),
                total_supply: 0,
                internal: Map::<(Seq<char>, Seq<char>), u128>::empty(),
                min_account_storage: c.min_account_storage,
            }));
        }
        Ok(c)
    }

    /// Registers an account with the derivative-unit ledger, with a zero
    /// starting balance. In the deployed system this happens when the account
    /// pays its storage deposit.
    pub fn register_account(&mut self, account: &String) -> (r: Result<(), TokenSetError>)
        requires
            old(self).wf(),
        ensures
            final(self).wf(),
            r == Err::<(), TokenSetError>(TokenSetError::AlreadyRegistered) <==> old(
                self,
            )@.ft.dom().contains(account@),
            r.is_err() ==> final(self)@ == old(self)@,
            r.is_ok() ==> final(self)@ == (TokenSetView {
                ft: old(self)@.ft.insert(account@, 0u128),
                ..old(self)@
            }),
    {
        if self.token.contains(account) {
            return Err(TokenSetError::AlreadyRegistered);
        }
        self.token.register(account);
        proof {
            assert(self@ =~= (TokenSetView { ft: old(self)@.ft.insert(account@, 0u128), ..old(
                self,
            )@ }));
        }
        Ok(())
    }

    /// The derivative-unit balance of an account; zero when unregistered.
    pub fn ft_balance_of(&self, account: &String) -> (r: u128)
        requires
            self.wf(),
        ensures
            r == self@.ft_bal(account@),
    {
        self.token.balance_or_zero(account)
    }

    /// The circulating amount of derivative units.
    pub fn ft_total_supply(&self) -> (r: u128)
        requires
            self.wf(),
        ensures
            r == self@.total_supply,
    {
        self.token.total_supply
    }

    /// The component-asset balance of an account.
    pub fn get_ft_balance_internal(&self, account: &String, token: &String) -> (r: u128)
        requires
            self.wf(),
        ensures
            r == self@.int_bal(account@, token@),
    {
        self.internal.balance(account, token)
    }

    /// The minimum storage balance required of a registered account,
    /// computed at construction from the basket size.
    pub fn min_account_storage(&self) -> (r: u128)
        requires
            self.wf(),
        ensures
            r == self@.min_account_storage,
    {
        self.min_account_storage
    }


    /// Moves derivative units from `sender` to `receiver`. Both accounts
    /// must be registered and distinct; the total supply does not change.
    pub fn ft_transfer(&mut self, sender: &String, receiver: &String, amount: u128) -> (r: Result<
        (),
        TokenSetError,
    >)
        requires
            old(self).wf(),
        ensures
            final(self).wf(),
            ({
                let pre = old(self)@;
                let post = final(self)@;
                let both = pre.ft.dom().contains(sender@) && pre.ft.dom().contains(receiver@);
                &&& (r == Err::<(), TokenSetError>(TokenSetError::NotRegistered) <==> !both)
                &&& (r == Err::<(), TokenSetError>(TokenSetError::SelfTransfer) <==> both
                    && sender@ == receiver@)
                &&& (r == Err::<(), TokenSetError>(TokenSetError::InsufficientDerivativeBalance)
                    <==> both && sender@ != receiver@ && pre.ft_bal(sender@) < amount)
                &&& (r.is_err() ==> post == pre)
                &&& (r.is_ok() <==> both && sender@ != receiver@ && pre.ft_bal(sender@) >= amount)
                &&& (r.is_ok() ==> post == (TokenSetView {
                    ft: pre.ft.insert(sender@, (pre.ft_bal(sender@) - amount) as u128).insert(
                        receiver@,
                        (pre.ft_bal(receiver@) + amount) as u128,
                    ),
                    ..pre
                }))
            }),
    {
        if !self.token.contains(sender) || !self.token.contains(receiver) {
            return Err(TokenSetError::NotRegistered);
        }
        if *sender == *receiver {
            return Err(TokenSetError::SelfTransfer);
        }
        if self.token.balance_or_zero(sender) < amount {
            return Err(TokenSetError::InsufficientDerivativeBalance);
        }
        self.token.withdraw(sender, amount);
        self.token.deposit(receiver, amount);
        proof {
            assert(self@ =~= (TokenSetView {
                ft: old(self)@.ft.insert(
                    sender@,
                    (old(self)@.ft_bal(sender@) - amount) as u128,
                ).insert(receiver@, (old(self)@.ft_bal(receiver@) + amount) as u128),
                ..old(self)@
            }));
        }
        Ok(())
    }

    /// Credits an account with units of a component asset. In the deployed
    /// system this happens when such units arrive by transfer.
    pub fn increase_balance(&mut self, account: &String, token: &String, amount: u128) -> (r:
        Result<(), TokenSetError>)
        requires
            old(self).wf(),
        ensures
            final(self).wf(),
            r == Err::<(), TokenSetError>(TokenSetError::BalanceOverflow) <==> old(self)@.int_bal(
                account@,
                token@,
            ) + amount > u128::MAX,
            r.is_err() ==> final(self)@ == old(self)@,
            r.is_ok() ==> final(self)@ == (TokenSetView {
                internal: old(self)@.internal.insert(
                    (account@, token@),
                    (old(self)@.int_bal(account@, token@) + amount) as u128,
                ),
                ..old(self)@
            }),
    {
        let cur = self.internal.balance(account, token);
        if amount > u128::MAX - cur {
            return Err(TokenSetError::BalanceOverflow);
        }
        self.internal.increase(account, token, amount);
        proof {
            assert(self@ =~= (TokenSetView {
                internal: old(self)@.internal.insert(
                    (account@, token@),
                    (old(self)@.int_bal(account@, token@) + amount) as u128,
                ),
                ..old(self)@
            }));
        }
        Ok(())
    }

    /// The largest amount `account_id` can wrap: the minimum over all
    /// components of its balance divided by the component's ratio.
    #[verifier::loop_isolation(false)]
    pub(crate) fn get_max_amount(&self, account_id: &String) -> (r: u128)
        requires
            self.wf(),
        ensures
            r == self@.max_wrappable(account_id@),
    {
        let n = self.set_info.ratios.len();
        let mut min: u128 = u128::MAX;
        let mut i: usize = 0;
        while i < n
            invariant
                i <= n,
                min == self@.max_upto(account_id@, i as int),
            decreases n - i,
        {
            let entry = &self.set_info.ratios[i];
            proof {
                assert(self@.ratios[i as int] == self.set_info.ratios@[i as int]@);
                assert(self@.ratios[i as int].1 >= 1);
            }
            let bal = self.internal.balance(account_id, &entry.token_id);
            proof {
                lemma_div_pos_is_pos(bal as int, entry.ratio as int);
                lemma_div_nonincreasing(bal as int, entry.ratio as int);
            }
            let amount_out = bal / (entry.ratio as u128);
            if amount_out < min {
                min = amount_out;
            }
            i = i + 1;
        }
        min
    }

    /// Debits `amount_out` times each component's ratio from the account's
    /// component-asset balances. The bound by the wrappable maximum makes
    /// every debit covered.
    #[verifier::loop_isolation(false)]
    fn decrease_potentials(&mut self, amount_out: u128, account_id: &String)
        requires
            old(self).wf(),
            amount_out <= old(self)@.max_wrappable(account_id@),
        ensures
            final(self).wf(),
            config_unchanged(old(self)@, final(self)@),
            final(self)@.ft == old(self)@.ft,
            final(self)@.total_supply == old(self)@.total_supply,
            components_debited(old(self)@, final(self)@, account_id@, amount_out),
    {
        let n = self.set_info.ratios.len();
        let mut i: usize = 0;
        while i < n
            invariant
                i <= n,
                self.internal.wf(),
                self.token == old(self).token,
                self.owner_id == old(self).owner_id,
                self.metadata == old(self).metadata,
                self.set_info == old(self).set_info,
                self.min_account_storage == old(self).min_account_storage,
                forall|j: int| 0 <= j < i ==> #[trigger] debited_at(
                    old(self)@,
                    self@,
                    account_id@,
                    amount_out,
                    j,
                ),
                forall|a: Seq<char>, t: Seq<char>| !(a == account_id@ && prefix_has_token(
                    old(self)@.ratios,
                    i as int,
                    t,
                )) ==> self@.int_bal(a, t) == old(self)@.int_bal(a, t),
            decreases n - i,
        {
            let ghost pre = old(self)@;
            let ghost cur = self@;
            let entry = &self.set_info.ratios[i];
            proof {
                assert(!prefix_has_token(pre.ratios, i as int, pre.ratios[i as int].0));
                assert(cur.int_bal(account_id@, pre.ratios[i as int].0) == pre.int_bal(
                    account_id@,
                    pre.ratios[i as int].0,
                ));
                lemma_max_upto_le_term(pre, account_id@, n as int, i as int);
                lemma_mul_within_div(
                    amount_out as int,
                    pre.ratios[i as int].1 as int,
                    pre.int_bal(account_id@, pre.ratios[i as int].0) as int,
                );
            }
            let debit = amount_out * (entry.ratio as u128);
            let ghost before = self@;
            self.internal.decrease(account_id, &entry.token_id, debit);
            proof {
                assert(debited_at(pre, self@, account_id@, amount_out, i as int));
                assert forall|j: int| 0 <= j < i + 1 implies #[trigger] debited_at(
                    pre,
                    self@,
                    account_id@,
                    amount_out,
                    j,
                ) by {
                    if j < i {
                        assert(debited_at(pre, before, account_id@, amount_out, j));
                        assert(pre.ratios[j].0 != pre.ratios[i as int].0);
                    }
                }
            }
            i = i + 1;
        }
    }

    /// Wraps basket components into derivative units on behalf of `caller`:
    /// validates the request against live balances, splits the gross amount
    /// between the caller, the owner and the platform, and debits every
    /// component. Either all ledger writes happen or none does. Returns the
    /// gross amount wrapped.
    pub(crate) fn wrap_internal(&mut self, caller: &String, amount: Option<u128>) -> (r: Result<
        u128,
        TokenSetError,
    >)
        requires
            old(self).wf(),
        ensures
            final(self).wf(),
            ({
                let pre = old(self)@;
                let post = final(self)@;
                let amt = requested_amount(pre, caller@, amount);
                let registered = pre.ft.dom().contains(caller@);
                &&& config_unchanged(pre, post)
                &&& (r == Err::<u128, TokenSetError>(TokenSetError::NotRegistered) <==> !registered)
                &&& (r == Err::<u128, TokenSetError>(TokenSetError::InsufficientBasketBalance) <==>
                    registered && amt > pre.max_wrappable(caller@))
                &&& (r == Err::<u128, TokenSetError>(TokenSetError::BalanceOverflow) <==>
                    registered && amt <= pre.max_wrappable(caller@) && pre.total_supply + amt
                    > u128::MAX)
                &&& (r.is_err() ==> post == pre)
                &&& (r.is_ok() <==> registered && amt <= pre.max_wrappable(caller@)
                    && pre.total_supply + amt <= u128::MAX)
                &&& (r.is_ok() ==> r == Ok::<u128, TokenSetError>(amt) && minted(
                    pre,
                    post,
                    caller@,
                    amt,
                ) && components_debited(pre, post, caller@, amt))
            }),
    {
        let ghost pre = self@;
        if !self.token.contains(caller) {
            return Err(TokenSetError::NotRegistered);
        }
        let max_amount_wrapped = self.get_max_amount(caller);
        let amount_wrap = match amount {
            Some(a) => a,
            None => max_amount_wrapped,
        };
        if amount_wrap > max_amount_wrapped {
            return Err(TokenSetError::InsufficientBasketBalance);
        }
        if amount_wrap > u128::MAX - self.token.total_supply {
            return Err(TokenSetError::BalanceOverflow);
        }
        let owner_fee = self.set_info.fee.owner_fee;
        let platform_fee = self.set_info.fee.platform_fee;
        let owner_incr = mul_fee(amount_wrap, owner_fee);
        let platform_incr = mul_fee(amount_wrap, platform_fee);
        proof {
            lemma_fee_parts_bounded(amount_wrap, owner_fee, platform_fee);
        }
        let amount_wrap_caller = amount_wrap - owner_incr - platform_incr;
        let ghost m0 = self.token.balances();
        self.token.deposit(caller, amount_wrap_caller);
        let ghost m1 = self.token.balances();
        self.token.deposit(&self.owner_id, owner_incr);
        let ghost m2 = self.token.balances();
        self.token.deposit(&self.set_info.fee.platform_id, platform_incr);
        let ghost m3 = self.token.balances();
        proof {
            assert(m1.dom() =~= m0.dom());
            assert(m2.dom() =~= m0.dom());
            assert(m3.dom() =~= m0.dom());
            assert forall|w: Seq<char>| #[trigger] balance_in(m3, w) == balance_in(m0, w)
                + pre.minted_credit(caller@, amount_wrap, w) by {
                assert(m0.dom().contains(caller@));
                assert(m0.dom().contains(pre.owner_id));
                assert(m0.dom().contains(pre.platform_id));
                assert(balance_in(m1, w) == balance_in(m0, w) + (if w == caller@ {
                    amount_wrap_caller as int
                } else {
                    0
                }));
                assert(balance_in(m2, w) == balance_in(m1, w) + (if w == pre.owner_id {
                    owner_incr as int
                } else {
                    0
                }));
                assert(balance_in(m3, w) == balance_in(m2, w) + (if w == pre.platform_id {
                    platform_incr as int
                } else {
                    0
                }));
            }
            assert(minted(pre, self@, caller@, amount_wrap));
            lemma_max_upto_congruence(pre, self@, caller@, pre.ratios.len() as int);
        }
        let ghost mid = self@;
        self.decrease_potentials(amount_wrap, caller);
        proof {
            assert(minted(pre, self@, caller@, amount_wrap));
            assert forall|j: int| 0 <= j < pre.ratios.len() implies #[trigger] debited_at(
                pre,
                self@,
                caller@,
                amount_wrap,
                j,
            ) by {
                assert(debited_at(mid, self@, caller@, amount_wrap, j));
            }
            assert forall|a: Seq<char>, t: Seq<char>| !(a == caller@ && pre.is_basket_token(t))
                implies self@.int_bal(a, t) == pre.int_bal(a, t) by {
                assert(!(a == caller@ && mid.is_basket_token(t)));
                assert(self@.int_bal(a, t) == mid.int_bal(a, t));
            }
            assert(components_debited(pre, self@, caller@, amount_wrap));
        }
        Ok(amount_wrap)
    }

    /// Wraps basket components into derivative units for `caller`. With
    /// `None`, wraps as much as the caller's component balances allow.
    /// Returns the gross amount wrapped, before the fee split.
    pub fn wrap(&mut self, caller: &String, amount: Option<u128>) -> (r: Result<
        u128,
        TokenSetError,
    >)
        requires
            old(self).wf(),
        ensures
            final(self).wf(),
            ({
                let pre = old(self)@;
                let post = final(self)@;
                let amt = requested_amount(pre, caller@, amount);
                let registered = pre.ft.dom().contains(caller@);
                &&& config_unchanged(pre, post)
                &&& (r == Err::<u128, TokenSetError>(TokenSetError::NotRegistered) <==> !registered)
                &&& (r == Err::<u128, TokenSetError>(TokenSetError::InsufficientBasketBalance) <==>
                    registered && amt > pre.max_wrappable(caller@))
                &&& (r == Err::<u128, TokenSetError>(TokenSetError::BalanceOverflow) <==>
                    registered && amt <= pre.max_wrappable(caller@) && pre.total_supply + amt
                    > u128::MAX)
                &&& (r.is_err() ==> post == pre)
                &&& (r.is_ok() <==> registered && amt <= pre.max_wrappable(caller@)
                    && pre.total_supply + amt <= u128::MAX)
                &&& (r.is_ok() ==> r == Ok::<u128, TokenSetError>(amt) && minted(
                    pre,
                    post,
                    caller@,
                    amt,
                ) && components_debited(pre, post, caller@, amt))
            }),
    {
        self.wrap_internal(caller, amount)
    }

    /// Whether crediting `amount` times each component ratio to `account`
    /// would overflow some component balance.
    #[verifier::loop_isolation(false)]
    fn check_credit_overflow(&self, account: &String, amount: u128) -> (r: bool)
        requires
            self.wf(),
        ensures
            r == credit_overflows(self@, account@, amount),
    {
        let n = self.set_info.ratios.len();
        let mut i: usize = 0;
        while i < n
            invariant
                i <= n,
                forall|j: int| 0 <= j < i ==> self@.int_bal(account@, self@.ratios[j].0) + amount
                    * self@.ratios[j].1 <= u128::MAX,
            decreases n - i,
        {
            let entry = &self.set_info.ratios[i];
            proof {
                assert(self@.ratios[i as int] == self.set_info.ratios@[i as int]@);
                assert(self@.ratios[i as int].1 >= 1);
            }
            let ratio = entry.ratio as u128;
            let bal = self.internal.balance(account, &entry.token_id);
            if amount > u128::MAX / ratio {
                proof {
                    lemma_mul_exceeds_div(amount as int, ratio as int, u128::MAX as int);
                }
                return true;
            }
            proof {
                lemma_mul_within_div(amount as int, ratio as int, u128::MAX as int);
            }
            let credit = amount * ratio;
            if credit > u128::MAX - bal {
                return true;
            }
            i = i + 1;
        }
        false
    }

    /// Credits `amount` times each component's ratio to the account's
    /// component-asset balances: the unwind of a wrap, and the landing place
    /// of burned derivative units.
    #[verifier::loop_isolation(false)]
    pub(crate) fn on_burn(&mut self, account_id: &String, amount: u128)
        requires
            old(self).wf(),
            !credit_overflows(old(self)@, account_id@, amount),
        ensures
            final(self).wf(),
            config_unchanged(old(self)@, final(self)@),
            final(self)@.ft == old(self)@.ft,
            final(self)@.total_supply == old(self)@.total_supply,
            components_credited(old(self)@, final(self)@, account_id@, amount),
    {
        let ghost pre = old(self)@;
        let n = self.set_info.ratios.len();
        let mut i: usize = 0;
        while i < n
            invariant
                i <= n,
                self.internal.wf(),
                self.token == old(self).token,
                self.owner_id == old(self).owner_id,
                self.metadata == old(self).metadata,
                self.set_info == old(self).set_info,
                self.min_account_storage == old(self).min_account_storage,
                forall|j: int| 0 <= j < i ==> #[trigger] credited_at(
                    pre,
                    self@,
                    account_id@,
                    amount,
                    j,
                ),
                forall|a: Seq<char>, t: Seq<char>| !(a == account_id@ && prefix_has_token(
                    pre.ratios,
                    i as int,
                    t,
                )) ==> self@.int_bal(a, t) == pre.int_bal(a, t),
            decreases n - i,
        {
            let ghost before = self@;
            let entry = &self.set_info.ratios[i];
            proof {
                assert(pre.ratios[i as int] == self.set_info.ratios@[i as int]@);
                assert(!prefix_has_token(pre.ratios, i as int, pre.ratios[i as int].0));
                assert(before.int_bal(account_id@, pre.ratios[i as int].0) == pre.int_bal(
                    account_id@,
                    pre.ratios[i as int].0,
                ));
                assert(pre.int_bal(account_id@, pre.ratios[i as int].0) + amount
                    * pre.ratios[i as int].1 <= u128::MAX);
            }
            let credit = amount * (entry.ratio as u128);
            self.internal.increase(account_id, &entry.token_id, credit);
            proof {
                assert(credited_at(pre, self@, account_id@, amount, i as int));
                assert forall|j: int| 0 <= j < i + 1 implies #[trigger] credited_at(
                    pre,
                    self@,
                    account_id@,
                    amount,
                    j,
                ) by {
                    if j < i {
                        assert(credited_at(pre, before, account_id@, amount, j));
                        assert(pre.ratios[j].0 != pre.ratios[i as int].0);
                    }
                }
            }
            i = i + 1;
        }
    }

    /// Burns `amount` derivative units held by `caller` and hands back
    /// `amount` times each component's ratio: the exact inverse of the ledger
    /// writes of a wrap, with no fee on the way out.
    pub(crate) fn unwrap_token(&mut self, caller: &String, amount: u128) -> (r: Result<
        (),
        TokenSetError,
    >)
        requires
            old(self).wf(),
        ensures
            final(self).wf(),
            ({
                let pre = old(self)@;
                let post = final(self)@;
                let registered = pre.ft.dom().contains(caller@);
                &&& config_unchanged(pre, post)
                &&& (r == Err::<(), TokenSetError>(TokenSetError::NotRegistered) <==> !registered)
                &&& (r == Err::<(), TokenSetError>(TokenSetError::InsufficientDerivativeBalance)
                    <==> registered && pre.ft_bal(caller@) < amount)
                &&& (r == Err::<(), TokenSetError>(TokenSetError::BalanceOverflow) <==> registered
                    && pre.ft_bal(caller@) >= amount && credit_overflows(pre, caller@, amount))
                &&& (r.is_err() ==> post == pre)
                &&& (r.is_ok() <==> registered && pre.ft_bal(caller@) >= amount
                    && !credit_overflows(pre, caller@, amount))
                &&& (r.is_ok() ==> burned(pre, post, caller@, amount) && components_credited(
                    pre,
                    post,
                    caller@,
                    amount,
                ))
            }),
    {
        let ghost pre = self@;
        if !self.token.contains(caller) {
            return Err(TokenSetError::NotRegistered);
        }
        if self.token.balance_or_zero(caller) < amount {
            return Err(TokenSetError::InsufficientDerivativeBalance);
        }
        if self.check_credit_overflow(caller, amount) {
            return Err(TokenSetError::BalanceOverflow);
        }
        let ghost m0 = self.token.balances();
        self.token.withdraw(caller, amount);
        let ghost m1 = self.token.balances();
        proof {
            assert(m1.dom() =~= m0.dom());
            assert forall|w: Seq<char>| #[trigger] balance_in(m1, w) == balance_in(m0, w) - (
            if w == caller@ {
                amount as int
            } else {
                0
            }) by {}
            assert(burned(pre, self@, caller@, amount));
        }
        let ghost mid = self@;
        self.on_burn(caller, amount);
        proof {
            assert(burned(pre, self@, caller@, amount));
            assert forall|j: int| 0 <= j < pre.ratios.len() implies #[trigger] credited_at(
                pre,
                self@,
                caller@,
                amount,
                j,
            ) by {
                assert(credited_at(mid, self@, caller@, amount, j));
            }
            assert forall|a: Seq<char>, t: Seq<char>| !(a == caller@ && pre.is_basket_token(t))
                implies self@.int_bal(a, t) == pre.int_bal(a, t) by {
                assert(!(a == caller@ && mid.is_basket_token(t)));
                assert(self@.int_bal(a, t) == mid.int_bal(a, t));
            }
            assert(components_credited(pre, self@, caller@, amount));
        }
        Ok(())
    }

    /// Burns `amount` derivative units held by `caller` and credits the
    /// caller's component-asset balances with `amount` times each ratio. No
    /// fee is charged on the unwind.
    pub fn unwrap(&mut self, caller: &String, amount: u128) -> (r: Result<(), TokenSetError>)
        requires
            old(self).wf(),
        ensures
            final(self).wf(),
            ({
                let pre = old(self)@;
                let post = final(self)@;
                let registered = pre.ft.dom().contains(caller@);
                &&& config_unchanged(pre, post)
                &&& (r == Err::<(), TokenSetError>(TokenSetError::NotRegistered) <==> !registered)
                &&& (r == Err::<(), TokenSetError>(TokenSetError::InsufficientDerivativeBalance)
                    <==> registered && pre.ft_bal(caller@) < amount)
                &&& (r == Err::<(), TokenSetError>(TokenSetError::BalanceOverflow) <==> registered
                    && pre.ft_bal(caller@) >= amount && credit_overflows(pre, caller@, amount))
                &&& (r.is_err() ==> post == pre)
                &&& (r.is_ok() <==> registered && pre.ft_bal(caller@) >= amount
                    && !credit_overflows(pre, caller@, amount))
                &&& (r.is_ok() ==> burned(pre, post, caller@, amount) && components_credited(
                    pre,
                    post,
                    caller@,
                    amount,
                ))
            }),
    {
        self.unwrap_token(caller, amount)
    }

    /// The hook run after derivative units of `account_id` were burned
    /// outside a full unwrap: hands the backing component amounts back to
    /// that account.
    pub fn on_tokens_burned(&mut self, account_id: &String, amount: u128) -> (r: Result<
        (),
        TokenSetError,
    >)
        requires
            old(self).wf(),
        ensures
            final(self).wf(),
            config_unchanged(old(self)@, final(self)@),
            final(self)@.ft == old(self)@.ft,
            final(self)@.total_supply == old(self)@.total_supply,
            r == Err::<(), TokenSetError>(TokenSetError::BalanceOverflow) <==> credit_overflows(
                old(self)@,
                account_id@,
                amount,
            ),
            r.is_err() ==> final(self)@ == old(self)@,
            r.is_ok() ==> components_credited(old(self)@, final(self)@, account_id@, amount),
    {
        if self.check_credit_overflow(account_id, amount) {
            return Err(TokenSetError::BalanceOverflow);
        }
        self.on_burn(account_id, amount);
        Ok(())
    }

    /// The hook run when an account holding `balance` derivative units is
    /// closed: the backing component amounts go to the platform beneficiary.
    pub fn on_account_closed(&mut self, account_id: &String, balance: u128) -> (r: Result<
        (),
        TokenSetError,
    >)
        requires
            old(self).wf(),
        ensures
            final(self).wf(),
            config_unchanged(old(self)@, final(self)@),
            final(self)@.ft == old(self)@.ft,
            final(self)@.total_supply == old(self)@.total_supply,
            r == Err::<(), TokenSetError>(TokenSetError::BalanceOverflow) <==> credit_overflows(
                old(self)@,
                old(self)@.platform_id,
                balance,
            ),
            r.is_err() ==> final(self)@ == old(self)@,
            r.is_ok() ==> components_credited(
                old(self)@,
                final(self)@,
                old(self)@.platform_id,
                balance,
            ),
    {
        let platform_id = self.set_info.fee.platform_id.clone();
        if self.check_credit_overflow(&platform_id, balance) {
            return Err(TokenSetError::BalanceOverflow);
        }
        self.on_burn(&platform_id, balance);
        Ok(())
    }

    /// Replaces the owner fee. The construction-time bound on the combined
    /// fees is re-checked here as well, so an update can never make them
    /// exceed the denominator and underflow the caller's share in a later
    /// wrap.
    pub(crate) fn change_owner_fee(&mut self, new_fee: u128) -> (r: Result<(), TokenSetError>)
        requires
            old(self).wf(),
        ensures
            final(self).wf(),
            r == Err::<(), TokenSetError>(TokenSetError::FeeNotUpdatable) <==> !old(
                self,
            )@.updatable,
            r == Err::<(), TokenSetError>(TokenSetError::FeeOutOfRange) <==> old(self)@.updatable
                && new_fee + old(self)@.platform_fee > FEE_DENOMINATOR,
            r.is_err() ==> final(self)@ == old(self)@,
            r.is_ok() <==> old(self)@.updatable && new_fee + old(self)@.platform_fee
                <= FEE_DENOMINATOR,
            r.is_ok() ==> final(self)@ == (TokenSetView { owner_fee: new_fee, ..old(self)@ }),
    {
        if !self.set_info.fee.updatable {
            return Err(TokenSetError::FeeNotUpdatable);
        }
        if self.set_info.fee.platform_fee > FEE_DENOMINATOR || new_fee > FEE_DENOMINATOR
            - self.set_info.fee.platform_fee {
            return Err(TokenSetError::FeeOutOfRange);
        }
        self.set_info.fee.owner_fee = new_fee;
        proof {
            assert(self@ =~= (TokenSetView { owner_fee: new_fee, ..old(self)@ }));
        }
        Ok(())
    }

    /// Replaces the owner fee on behalf of `caller`: only the basket owner
    /// may do so, only when the policy was created updatable, and only within
    /// the fee denominator.
    pub fn update_owner_fee(&mut self, caller: &String, new_fee: u128) -> (r: Result<
        (),
        TokenSetError,
    >)
        requires
            old(self).wf(),
        ensures
            final(self).wf(),
            r == Err::<(), TokenSetError>(TokenSetError::NotOwner) <==> caller@ != old(
                self,
            )@.owner_id,
            r == Err::<(), TokenSetError>(TokenSetError::FeeNotUpdatable) <==> caller@ == old(
                self,
            )@.owner_id && !old(self)@.updatable,
            r == Err::<(), TokenSetError>(TokenSetError::FeeOutOfRange) <==> caller@ == old(
                self,
            )@.owner_id && old(self)@.updatable && new_fee + old(self)@.platform_fee
                > FEE_DENOMINATOR,
            r.is_err() ==> final(self)@ == old(self)@,
            r.is_ok() <==> caller@ == old(self)@.owner_id && old(self)@.updatable && new_fee + old(
                self,
            )@.platform_fee <= FEE_DENOMINATOR,
            r.is_ok() ==> final(self)@ == (TokenSetView { owner_fee: new_fee, ..old(self)@ }),
    {
        if !(*caller == self.owner_id) {
            return Err(TokenSetError::NotOwner);
        }
        self.change_owner_fee(new_fee)
    }

    /// A copy of the engine's descriptive metadata.
    pub fn ft_metadata(&self) -> (r: FtMetadata)
        requires
            self.wf(),
        ensures
            r@ == self@.metadata,
    {
        FtMetadata {
            spec_version: self.metadata.spec_version.clone(),
            name: self.metadata.name.clone(),
            symbol: self.metadata.symbol.clone(),
            icon: clone_opt_string(&self.metadata.icon),
            reference: clone_opt_string(&self.metadata.reference),
            reference_hash: clone_opt_bytes(&self.metadata.reference_hash),
            decimals: self.metadata.decimals,
        }
    }

    /// Everything a caller can learn about the engine's configuration: the
    /// metadata, the fee policy and the components.
    #[verifier::loop_isolation(false)]
    pub fn set_metadata(&self) -> (r: SetMetadata)
        requires
            self.wf(),
        ensures
            r.ft_metadata@ == self@.metadata,
            r.set_fee.owner_fee == self@.owner_fee,
            r.set_fee.platform_fee == self@.platform_fee,
            r.set_fee.platform_id@ == self@.platform_id,
            r.set_fee.updatable == self@.updatable,
            r.set_ratios@.map_values(|t: TokenWithRatio| t@) == self@.ratios,
    {
        let n = self.set_info.ratios.len();
        let mut set_ratios: Vec<TokenWithRatio> = Vec::new();
        let mut i: usize = 0;
        while i < n
            invariant
                i <= n,
                set_ratios@.len() == i,
                forall|k: int| 0 <= k < i ==> set_ratios@.map_values(|t: TokenWithRatio| t@)[k]
                    == self@.ratios[k],
            decreases n - i,
        {
            let entry = &self.set_info.ratios[i];
            set_ratios.push(
                TokenWithRatio { token_id: entry.token_id.clone(), ratio: entry.ratio },
            );
            i = i + 1;
        }
        proof {
            assert(set_ratios@.map_values(|t: TokenWithRatio| t@) =~= self@.ratios);
        }
        SetMetadata {
            ft_metadata: self.ft_metadata(),
            set_fee: FeeReceiver {
                owner_fee: self.set_info.fee.owner_fee,
                platform_fee: self.set_info.fee.platform_fee,
                platform_id: self.set_info.fee.platform_id.clone(),
                updatable: self.set_info.fee.updatable,
            },
            set_ratios,
        }
    }

    /// Replaces or clears the metadata document reference on behalf of
    /// `caller`: only the basket owner may do so.
    pub fn update_metadata_reference(
        &mut self,
        caller: &String,
        new_reference: Option<MetadataReference>,
    ) -> (r: Result<(), TokenSetError>)
        requires
            old(self).wf(),
        ensures
            final(self).wf(),
            r == Err::<(), TokenSetError>(TokenSetError::NotOwner) <==> caller@ != old(
                self,
            )@.owner_id,
            r.is_err() ==> final(self)@ == old(self)@,
            r.is_ok() ==> final(self)@ == (TokenSetView {
                metadata: MetadataView {
                    reference: reference_view(new_reference),
                    reference_hash: reference_hash_view(new_reference),
                    ..old(self)@.metadata
                },
                ..old(self)@
            }),
    {
        if !(*caller == self.owner_id) {
            return Err(TokenSetError::NotOwner);
        }
        match new_reference {
            Some(mr) => {
                self.metadata.reference = Some(mr.reference);
                self.metadata.reference_hash = Some(mr.reference_hash);
            },
            None => {
                self.metadata.reference = None;
                self.metadata.reference_hash = None;
            },
        }
        proof {
            assert(self@ =~= (TokenSetView {
                metadata: MetadataView {
                    reference: reference_view(new_reference),
                    reference_hash: reference_hash_view(new_reference),
                    ..old(self)@.metadata
                },
                ..old(self)@
            }));
        }
        Ok(())
    }

    /// Initializes the engine with metadata assembled from the given name,
    /// symbol, icon and document reference, under the standard format version
    /// and 24 decimals.
    pub fn new_default_meta(
        owner_id: String,
        name: String,
        symbol: String,
        icon_url: Option<String>,
        set_ratios: Vec<TokenWithRatioValid>,
        platform_fee: u128,
        platform_id: String,
        owner_fee: u128,
        updatable_fee: Option<bool>,
        metadata_reference: Option<MetadataReference>,
        base_min_storage: u128,
        per_balance_storage_cost: u128,
    ) -> (r: Result<Contract, TokenSetError>)
        ensures
            ({
                let views = ratio_views(set_ratios@);
                let fee_ok = fees_valid(owner_fee, platform_fee);
                let storage = spec_min_storage(
                    base_min_storage,
                    per_balance_storage_cost,
                    views.len(),
                );
                &&& (r == Err::<Contract, TokenSetError>(TokenSetError::EmptyBasket) <==>
                    views.len() == 0)
                &&& (r == Err::<Contract, TokenSetError>(TokenSetError::ZeroRatio) <==> views.len()
                    >= 1 && !ratios_positive(views))
                &&& (r == Err::<Contract, TokenSetError>(TokenSetError::DuplicateAsset) <==>
                    views.len() >= 1 && ratios_positive(views) && !ratios_distinct(views))
                &&& (r == Err::<Contract, TokenSetError>(TokenSetError::FeeOutOfRange) <==>
                    basket_valid(views) && !fee_ok)
                &&& (r == Err::<Contract, TokenSetError>(TokenSetError::StorageOverflow) <==>
                    basket_valid(views) && fee_ok && storage > u128::MAX)
                &&& (r.is_ok() <==> basket_valid(views) && fee_ok && storage <= u128::MAX)
                &&& (r.is_ok() ==> {
                    let c = r->Ok_0;
                    &&& c.wf()
                    &&& c@ == (TokenSetView {
                        owner_id: owner_id@,
                        metadata: default_meta_view(
                            name@,
                            symbol@,
                            opt_str_view(icon_url),
                            reference_view(metadata_reference),
                            reference_hash_view(metadata_reference),
                        ),
                        ratios: views,
                        owner_fee: owner_fee,
                        platform_fee: platform_fee,
                        platform_id: platform_id@,
                        updatable: updatable_fee.unwrap_or(false),
                        ft: initial_ft(owner_id@, platform_id@),
                        total_supply: 0,
                        internal: Map::<(Seq<char>, Seq<char>), u128>::empty(),
                        min_account_storage: storage as u128,
                    })
                })
            }),
    {
        let (reference, reference_hash) = match metadata_reference {
            Some(mr) => (Some(mr.reference), Some(mr.reference_hash)),
            None => (None, None),
        };
        let metadata = FtMetadata {
            spec_version: "ft-1.0.0".to_owned(),
            name,
            symbol,
            icon: icon_url,
            reference,
            reference_hash,
            decimals: 24,
        };
        let updatable = match updatable_fee {
            Some(u) => u,
            None => false,
        };
        Contract::new(
            owner_id,
            metadata,
            set_ratios,
            FeeReceiver { owner_fee, platform_fee, platform_id, updatable },
            base_min_storage,
            per_balance_storage_cost,
        )
    }
}

} // verus!
