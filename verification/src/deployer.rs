//! The deploy saga: escrows a fixed deposit when a caller requests a new
//! basket-engine instance, records the instance as pending, and — once the
//! external all-or-nothing action chain settles — either leaves the escrow
//! consumed (success) or refunds it and retracts the pending record
//! (failure).
//!
//! The action chain itself runs outside this library. The synchronous phase
//! (`deploy_contract_code`) and the continuation (`resolve_contract_deploy`,
//! fed the settled outcome) are the decisions, and they are verified against
//! spec-level transition functions; the environment only carries the outcome
//! back.

use vstd::prelude::*;
use vstd::map::*;
use crate::store::{
    distinct_keys, lemma_map_of_dom, lemma_map_of_index, lemma_map_of_push, lemma_map_of_update,
    map_of,
};
use vstd::arithmetic::mul::{lemma_mul_is_distributive_add, lemma_mul_nonnegative};

verus! {

/// The escrow debited for each requested instance.
pub const DEPOSIT_FOR_CONTRACT: u128 = 2_000_000_000_000_000_000_000_000;

/// Everything that can go wrong in the deploy saga's synchronous phase.
#[derive(Clone, Copy, PartialEq, Eq, Structural, Debug)]
pub enum DeployerError {
    /// The caller has no account record with the provisioning ledger.
    NotRegistered,
    /// The account is already registered with the provisioning ledger.
    AlreadyRegistered,
    /// The caller's unescrowed balance does not cover the per-instance
    /// deposit.
    InsufficientEscrow,
    /// A deposit would push the account's balance beyond 128 bits.
    BalanceOverflow,
}

/// The settled outcome of a provisioning action chain, delivered by the
/// executing environment. The chain is all-or-nothing, and its outcome is
/// always settled by the time the continuation runs: there is no third,
/// still-pending case.
#[derive(Clone, Copy, PartialEq, Eq, Structural, Debug)]
pub enum ChainOutcome {
    Success,
    Failure,
}

/// What the continuation did.
#[derive(Clone, Copy, PartialEq, Eq, Structural, Debug)]
pub enum Resolution {
    /// The chain succeeded: the pending instance stays recorded and its
    /// escrow is permanently consumed. No ledger mutation.
    Confirmed,
    /// The chain failed: the escrow was refunded and the pending instance
    /// removed.
    Compensated,
    /// The chain failed, but the caller's account record no longer exists:
    /// compensation is skipped and the escrow loss accepted.
    AccountMissing,
    /// The chain failed, but the instance is not among the caller's recorded
    /// ones: an anomaly; nothing is touched.
    InstanceMissing,
}

/// The instances an account has requested, pending or confirmed.
pub struct AccountInfo {
    pub deployed_contracts: Vec<String>,
}

impl AccountInfo {
    /// A fresh record for a newly registered account.
    pub fn default_from_account_id(_account_id: &String) -> (r: AccountInfo)
        ensures
            r.deployed_contracts@.len() == 0,
    {
        AccountInfo { deployed_contracts: Vec::new() }
    }
}

/// One account's standing with the provisioning ledger.
pub struct Account {
    /// What the account has deposited in total.
    pub near_deposited: u128,
    /// The part of the deposit held in escrow for requested instances.
    pub near_used_for_storage: u128,
    pub info: AccountInfo,
}

/// The mathematical shape of one account record.
#[verifier::ext_equal]
pub struct AccountModel {
    pub deposited: u128,
    pub escrowed: u128,
    pub deployed: Seq<Seq<char>>,
}

impl View for Account {
    type V = AccountModel;

    open spec fn view(&self) -> AccountModel {
        AccountModel {
            deposited: self.near_deposited,
            escrowed: self.near_used_for_storage,
            deployed: self.info.deployed_contracts.deep_view(),
        }
    }
}

/// The mathematical state of the deploy saga.
#[verifier::ext_equal]
pub struct DeployerView {
    pub deposit_for_contract: u128,
    pub accounts: Map<Seq<char>, AccountModel>,
}

impl DeployerView {
    pub open spec fn has_account(self, account: Seq<char>) -> bool {
        self.accounts.dom().contains(account)
    }

    /// The unescrowed part of an account's deposit.
    pub open spec fn available(self, account: Seq<char>) -> int {
        self.accounts[account].deposited - self.accounts[account].escrowed
    }
}

/// A valid account record: the escrow is exactly the per-instance deposit
/// times the number of recorded instances, and never exceeds what the account
/// deposited. The first half is the saga's central invariant: every recorded
/// instance is backed by exactly one escrowed deposit, so a compensation
/// always has an escrowed deposit to refund.
pub open spec fn account_wf(deposit_for_contract: u128, a: AccountModel) -> bool {
    &&& a.escrowed == deposit_for_contract * a.deployed.len()
    &&& a.escrowed <= a.deposited
}

/// Every account record is valid.
pub open spec fn view_wf(v: DeployerView) -> bool {
    forall|k: Seq<char>| v.accounts.dom().contains(k) ==> account_wf(
        v.deposit_for_contract,
        #[trigger] v.accounts[k],
    )
}

/// The models of a map of account records.
pub open spec fn account_models(m: Map<Seq<char>, Account>) -> Map<Seq<char>, AccountModel> {
    m.map_values(|a: Account| a@)
}

/// The index of the first occurrence of `x` in `s`, or -1 when there is
/// none. Removal by value looks the instance up this way.
pub open spec fn first_index_of(s: Seq<Seq<char>>, x: Seq<char>) -> int
    decreases s.len(),
{
    if s.len() == 0 {
        -1
    } else if s[0] == x {
        0
    } else if first_index_of(s.drop_first(), x) == -1 {
        -1
    } else {
        first_index_of(s.drop_first(), x) + 1
    }
}

/// What `first_index_of` finds: -1 exactly when the value is absent, and
/// otherwise the least index holding it.
pub proof fn lemma_first_index_of(s: Seq<Seq<char>>, x: Seq<char>)
    ensures
        first_index_of(s, x) == -1 <==> !s.contains(x),
        first_index_of(s, x) != -1 ==> 0 <= first_index_of(s, x) < s.len() && s[first_index_of(
            s,
            x,
        )] == x && forall|k: int| 0 <= k < first_index_of(s, x) ==> s[k] != x,
    decreases s.len(),
{
    if s.len() > 0 {
        lemma_first_index_of(s.drop_first(), x);
        if s[0] != x {
            assert forall|i: int| 0 <= i < s.len() && s[i] == x implies s.drop_first().contains(
                x,
            ) by {
                assert(s.drop_first()[i - 1] == s[i]);
            }
            if s.drop_first().contains(x) {
                let i = choose|i: int| 0 <= i < s.drop_first().len() && s.drop_first()[i] == x;
                assert(s[i + 1] == x);
            }
            if first_index_of(s, x) != -1 {
                let j = first_index_of(s.drop_first(), x);
                assert(s[j + 1] == s.drop_first()[j]);
                assert forall|k: int| 0 <= k < first_index_of(s, x) implies s[k] != x by {
                    if k > 0 {
                        assert(s.drop_first()[k - 1] == s[k]);
                    }
                }
            }
        }
    }
}

/// The sequence after an unordered swap-delete at index `j`: the last element
/// moves into the hole and the tail is dropped.
pub open spec fn swap_removed(s: Seq<Seq<char>>, j: int) -> Seq<Seq<char>> {
    s.update(j, s.last()).drop_last()
}

/// The synchronous phase of a provisioning request by `caller` for
/// `instance`: the per-instance deposit moves into escrow and the instance
/// joins the recorded list, immediately, before the action chain settles.
pub open spec fn deploy_transition(
    pre: DeployerView,
    caller: Seq<char>,
    instance: Seq<char>,
) -> DeployerView
    recommends
        pre.has_account(caller),
{
    let a = pre.accounts[caller];
    DeployerView {
        accounts: pre.accounts.insert(
            caller,
            AccountModel {
                deposited: a.deposited,
                escrowed: (a.escrowed + pre.deposit_for_contract) as u128,
                deployed: a.deployed.push(instance),
            },
        ),
        ..pre
    }
}

/// The continuation, run once the chain has settled. Success consumes the
/// escrow and keeps the instance: no mutation. Failure refunds the escrow
/// and removes the instance by value — unless the account record is gone or
/// the instance is not recorded, in which case nothing is touched.
pub open spec fn resolve_transition(
    pre: DeployerView,
    caller: Seq<char>,
    instance: Seq<char>,
    outcome: ChainOutcome,
) -> DeployerView {
    if outcome == ChainOutcome::Success {
        pre
    } else if !pre.has_account(caller) {
        pre
    } else {
        let a = pre.accounts[caller];
        let j = first_index_of(a.deployed, instance);
        if j == -1 {
            pre
        } else {
            DeployerView {
                accounts: pre.accounts.insert(
                    caller,
                    AccountModel {
                        deposited: a.deposited,
                        escrowed: (a.escrowed - pre.deposit_for_contract) as u128,
                        deployed: swap_removed(a.deployed, j),
                    },
                ),
                ..pre
            }
        }
    }
}

/// The label the continuation reports for each of its four paths.
pub open spec fn expected_resolution(
    pre: DeployerView,
    caller: Seq<char>,
    instance: Seq<char>,
    outcome: ChainOutcome,
) -> Resolution {
    if outcome == ChainOutcome::Success {
        Resolution::Confirmed
    } else if !pre.has_account(caller) {
        Resolution::AccountMissing
    } else if first_index_of(pre.accounts[caller].deployed, instance) == -1 {
        Resolution::InstanceMissing
    } else {
        Resolution::Compensated
    }
}

/// Idempotence of the success-path continuation: resolving a successful
/// chain a second time leaves the ledger exactly as the first resolution
/// did — both are the identity.
pub proof fn lemma_resolve_success_idempotent(
    v: DeployerView,
    caller: Seq<char>,
    instance: Seq<char>,
)
    ensures
        resolve_transition(v, caller, instance, ChainOutcome::Success) == v,
        resolve_transition(
            resolve_transition(v, caller, instance, ChainOutcome::Success),
            caller,
            instance,
            ChainOutcome::Success,
        ) == resolve_transition(v, caller, instance, ChainOutcome::Success),
{
}

/// Compensation exactly undoes a request: provisioning an instance that was
/// not already recorded and then resolving a failed chain for it restores
/// the ledger, escrow and instance list alike, to its pre-request state.
pub proof fn lemma_deploy_then_compensate(v: DeployerView, caller: Seq<char>, instance: Seq<char>)
    requires
        view_wf(v),
        v.has_account(caller),
        v.available(caller) >= v.deposit_for_contract,
        !v.accounts[caller].deployed.contains(instance),
    ensures
        resolve_transition(deploy_transition(v, caller, instance), caller, instance,
            ChainOutcome::Failure) == v,
{
    let a = v.accounts[caller];
    let mid = deploy_transition(v, caller, instance);
    let a1 = mid.accounts[caller];
    assert(a1.deployed == a.deployed.push(instance));
    lemma_first_index_of(a1.deployed, instance);
    let j = first_index_of(a1.deployed, instance);
    assert(a1.deployed[a.deployed.len() as int] == instance);
    assert(a1.deployed.contains(instance));
    assert(j != -1);
    if j < a.deployed.len() {
        assert(a.deployed[j] == a1.deployed[j]);
        assert(a.deployed.contains(instance));
    }
    assert(j == a.deployed.len());
    assert(swap_removed(a1.deployed, j) =~= a.deployed);
    let post = resolve_transition(mid, caller, instance, ChainOutcome::Failure);
    assert(post.accounts[caller] =~= a);
    assert(post.accounts =~= v.accounts);
    assert(post =~= v);
}


/// Taking models commutes with inserting a record.
proof fn lemma_account_models_insert(m: Map<Seq<char>, Account>, k: Seq<char>, v: Account)
    ensures
        account_models(m.insert(k, v)) == account_models(m).insert(k, v@),
{
    assert_maps_equal!(account_models(m.insert(k, v)), account_models(m).insert(k, v@));
}

/// The deploy saga's ledger: per-account escrow and recorded instances, and
/// the fixed per-instance deposit.
pub struct Contract {
    deposit_for_contract: u128,
    account_ids: Vec<String>,
    account_records: Vec<Account>,
}

impl View for Contract {
    type V = DeployerView;

    closed spec fn view(&self) -> DeployerView {
        DeployerView {
            deposit_for_contract: self.deposit_for_contract,
            accounts: account_models(map_of(self.account_ids@, self.account_records@)),
        }
    }
}

impl Default for Contract {
    /// An empty provisioning ledger with the standard per-instance deposit.
    fn default() -> (r: Contract)
        ensures
            r.wf(),
            r@.deposit_for_contract == DEPOSIT_FOR_CONTRACT,
            r@.accounts == Map::<Seq<char>, AccountModel>::empty(),
    {
        let r = Contract {
            deposit_for_contract: DEPOSIT_FOR_CONTRACT,
            account_ids: Vec::new(),
            account_records: Vec::new(),
        };
        proof {
            assert(r@.accounts =~= Map::<Seq<char>, AccountModel>::empty());
        }
        r
    }
}

impl Contract {
    /// The representation invariant: one record per account, and every
    /// record valid.
    pub closed spec fn wf(self) -> bool {
        &&& self.account_ids@.len() == self.account_records@.len()
        &&& distinct_keys(self.account_ids@)
        &&& view_wf(self@)
    }

    /// An empty provisioning ledger with the standard per-instance deposit.
    pub fn new() -> (r: Contract)
        ensures
            r.wf(),
            r@.deposit_for_contract == DEPOSIT_FOR_CONTRACT,
            r@.accounts == Map::<Seq<char>, AccountModel>::empty(),
    {
        Contract::default()
    }

    /// The fixed deposit escrowed for each requested instance.
    pub fn deposit_for_contract(&self) -> (r: u128)
        ensures
            r == self@.deposit_for_contract,
    {
        self.deposit_for_contract
    }

    fn find(&self, account: &String) -> (r: Option<usize>)
        ensures
            match r {
                Some(i) => i < self.account_ids@.len() && self.account_ids@[i as int]@ == account@,
                None => forall|j: int|
                    0 <= j < self.account_ids@.len() ==> self.account_ids@[j]@ != account@,
            },
    {
        let n = self.account_ids.len();
        let mut i: usize = 0;
        while i < n
            invariant
                n == self.account_ids@.len(),
                i <= n,
                forall|j: int| 0 <= j < i ==> self.account_ids@[j]@ != account@,
            decreases n - i,
        {
            if self.account_ids[i] == *account {
                return Some(i);
            }
            i = i + 1;
        }
        None
    }

    /// Registers an account with the provisioning ledger, with nothing
    /// deposited and nothing escrowed. In the deployed system this happens
    /// when the account pays its storage deposit.
    pub fn register_account(&mut self, account: &String) -> (r: Result<(), DeployerError>)
        requires
            old(self).wf(),
        ensures
            final(self).wf(),
            r == Err::<(), DeployerError>(DeployerError::AlreadyRegistered) <==> old(
                self,
            )@.has_account(account@),
            r.is_err() ==> final(self)@ == old(self)@,
            r.is_ok() ==> final(self)@ == (DeployerView {
                accounts: old(self)@.accounts.insert(
                    account@,
                    AccountModel { deposited: 0, escrowed: 0, deployed: Seq::empty() },
                ),
                ..old(self)@
            }),
    {
        proof {
            lemma_map_of_dom(self.account_ids@, self.account_records@, account@);
        }
        if self.find(account).is_some() {
            return Err(DeployerError::AlreadyRegistered);
        }
        let record = Account {
            near_deposited: 0,
            near_used_for_storage: 0,
            info: AccountInfo::default_from_account_id(account),
        };
        proof {
            lemma_map_of_push(self.account_ids@, self.account_records@, *account, record);
            lemma_account_models_insert(
                map_of(self.account_ids@, self.account_records@),
                account@,
                record,
            );
        }
        self.account_ids.push(account.clone());
        self.account_records.push(record);
        proof {
            assert(record@ =~= (AccountModel { deposited: 0, escrowed: 0, deployed: Seq::empty() }));
            assert(self@ =~= (DeployerView {
                accounts: old(self)@.accounts.insert(
                    account@,
                    AccountModel { deposited: 0, escrowed: 0, deployed: Seq::empty() },
                ),
                ..old(self)@
            }));
            assert(record@.escrowed == self.deposit_for_contract * record@.deployed.len())
                by (nonlinear_arith)
                requires
                    record@.escrowed == 0,
                    record@.deployed.len() == 0,
            ;
        }
        Ok(())
    }

    /// Adds to an account's deposited balance, raising what it can escrow.
    pub fn deposit_near(&mut self, account: &String, amount: u128) -> (r: Result<
        (),
        DeployerError,
    >)
        requires
            old(self).wf(),
        ensures
            final(self).wf(),
            r == Err::<(), DeployerError>(DeployerError::NotRegistered) <==> !old(
                self,
            )@.has_account(account@),
            r == Err::<(), DeployerError>(DeployerError::BalanceOverflow) <==> old(
                self,
            )@.has_account(account@) && old(self)@.accounts[account@].deposited + amount
                > u128::MAX,
            r.is_err() ==> final(self)@ == old(self)@,
            r.is_ok() ==> final(self)@ == (DeployerView {
                accounts: old(self)@.accounts.insert(
                    account@,
                    AccountModel {
                        deposited: (old(self)@.accounts[account@].deposited + amount) as u128,
                        ..old(self)@.accounts[account@]
                    },
                ),
                ..old(self)@
            }),
    {
        proof {
            lemma_map_of_dom(self.account_ids@, self.account_records@, account@);
        }
        let i = match self.find(account) {
            Some(i) => i,
            None => {
                return Err(DeployerError::NotRegistered);
            },
        };
        proof {
            lemma_map_of_index(self.account_ids@, self.account_records@, i as int);
        }
        if amount > u128::MAX - self.account_records[i].near_deposited {
            return Err(DeployerError::BalanceOverflow);
        }
        let ghost pre_records = self.account_records@;
        let mut rec = self.account_records.remove(i);
        rec.near_deposited = rec.near_deposited + amount;
        self.account_records.insert(i, rec);
        proof {
            assert(self.account_records@ =~= pre_records.update(i as int, rec));
            lemma_map_of_update(self.account_ids@, pre_records, i as int, rec);
            lemma_account_models_insert(map_of(self.account_ids@, pre_records), account@, rec);
            assert(rec@ =~= (AccountModel {
                deposited: (old(self)@.accounts[account@].deposited + amount) as u128,
                ..old(self)@.accounts[account@]
            }));
            assert(self@ =~= (DeployerView {
                accounts: old(self)@.accounts.insert(account@, rec@),
                ..old(self)@
            }));
        }
        Ok(())
    }

    /// The unescrowed part of an account's deposit; zero for an account with
    /// no record.
    pub fn get_available_near(&self, account: &String) -> (r: u128)
        requires
            self.wf(),
        ensures
            r as int == if self@.has_account(account@) {
                self@.available(account@)
            } else {
                0
            },
    {
        proof {
            lemma_map_of_dom(self.account_ids@, self.account_records@, account@);
        }
        match self.find(account) {
            Some(i) => {
                proof {
                    lemma_map_of_index(self.account_ids@, self.account_records@, i as int);
                    assert(self@.accounts[account@] == self.account_records@[i as int]@);
                    assert(account_wf(self@.deposit_for_contract, self@.accounts[account@]));
                }
                let rec = &self.account_records[i];
                rec.near_deposited - rec.near_used_for_storage
            },
            None => 0,
        }
    }

    /// The instances an account has requested, pending or confirmed, in
    /// recorded order.
    #[verifier::loop_isolation(false)]
    pub fn deployed_contracts(&self, account: &String) -> (r: Vec<String>)
        requires
            self.wf(),
        ensures
            r.deep_view() == if self@.has_account(account@) {
                self@.accounts[account@].deployed
            } else {
                Seq::<Seq<char>>::empty()
            },
    {
        proof {
            lemma_map_of_dom(self.account_ids@, self.account_records@, account@);
        }
        let mut out: Vec<String> = Vec::new();
        match self.find(account) {
            Some(i) => {
                proof {
                    lemma_map_of_index(self.account_ids@, self.account_records@, i as int);
                }
                let list = &self.account_records[i].info.deployed_contracts;
                let n = list.len();
                let mut j: usize = 0;
                while j < n
                    invariant
                        j <= n,
                        out@.len() == j,
                        forall|k: int| 0 <= k < j ==> out.deep_view()[k] == list.deep_view()[k],
                    decreases n - j,
                {
                    out.push(list[j].clone());
                    j = j + 1;
                }
                proof {
                    assert(out.deep_view() =~= list.deep_view());
                }
                out
            },
            None => {
                proof {
                    assert(out.deep_view() =~= Seq::<Seq<char>>::empty());
                }
                out
            },
        }
    }

    /// The synchronous phase of a provisioning request: checks that the
    /// caller's unescrowed balance covers the per-instance deposit, moves the
    /// deposit into escrow and records `account_id` as a pending instance.
    /// This commits immediately, before the action chain settles; the caller
    /// then submits the chain and the environment later hands its outcome to
    /// `resolve_contract_deploy`.
    pub fn deploy_contract_code(&mut self, caller: &String, account_id: &String) -> (r: Result<
        (),
        DeployerError,
    >)
        requires
            old(self).wf(),
        ensures
            final(self).wf(),
            r == Err::<(), DeployerError>(DeployerError::NotRegistered) <==> !old(
                self,
            )@.has_account(caller@),
            r == Err::<(), DeployerError>(DeployerError::InsufficientEscrow) <==> old(
                self,
            )@.has_account(caller@) && old(self)@.available(caller@) < old(
                self,
            )@.deposit_for_contract,
            r.is_err() ==> final(self)@ == old(self)@,
            r.is_ok() <==> old(self)@.has_account(caller@) && old(self)@.available(caller@) >= old(
                self,
            )@.deposit_for_contract,
            r.is_ok() ==> final(self)@ == deploy_transition(old(self)@, caller@, account_id@),
    {
        proof {
            lemma_map_of_dom(self.account_ids@, self.account_records@, caller@);
        }
        let i = match self.find(caller) {
            Some(i) => i,
            None => {
                return Err(DeployerError::NotRegistered);
            },
        };
        proof {
            lemma_map_of_index(self.account_ids@, self.account_records@, i as int);
            assert(self@.accounts[caller@] == self.account_records@[i as int]@);
            assert(account_wf(self@.deposit_for_contract, self@.accounts[caller@]));
        }
        let available = self.account_records[i].near_deposited
            - self.account_records[i].near_used_for_storage;
        if available < self.deposit_for_contract {
            return Err(DeployerError::InsufficientEscrow);
        }
        let ghost pre_records = self.account_records@;
        let ghost pre_model = self@.accounts[caller@];
        let mut rec = self.account_records.remove(i);
        rec.near_used_for_storage = rec.near_used_for_storage + self.deposit_for_contract;
        rec.info.deployed_contracts.push(account_id.clone());
        self.account_records.insert(i, rec);
        proof {
            assert(self.account_records@ =~= pre_records.update(i as int, rec));
            lemma_map_of_update(self.account_ids@, pre_records, i as int, rec);
            lemma_account_models_insert(map_of(self.account_ids@, pre_records), caller@, rec);
            assert(rec@.deployed =~= pre_model.deployed.push(account_id@));
            assert(rec@ =~= (AccountModel {
                deposited: pre_model.deposited,
                escrowed: (pre_model.escrowed + old(self)@.deposit_for_contract) as u128,
                deployed: pre_model.deployed.push(account_id@),
            }));
            assert(self@ =~= deploy_transition(old(self)@, caller@, account_id@));
            lemma_mul_is_distributive_add(
                self.deposit_for_contract as int,
                pre_model.deployed.len() as int,
                1,
            );
            assert(account_wf(self@.deposit_for_contract, rec@));
        }
        Ok(())
    }

    /// The continuation of a provisioning request, run by the environment
    /// once the action chain has settled, with the chain's outcome. A
    /// successful chain leaves the ledger untouched — the escrow funded the
    /// new instance. A failed chain is compensated: the escrow is refunded
    /// and the pending instance removed by value, with unordered swap-delete
    /// semantics. Compensation is best-effort: a vanished account record or
    /// an unrecorded instance is reported, not fatal.
    #[verifier::loop_isolation(false)]
    pub fn resolve_contract_deploy(
        &mut self,
        caller: &String,
        contract_id: &String,
        outcome: ChainOutcome,
    ) -> (r: Resolution)
        requires
            old(self).wf(),
        ensures
            final(self).wf(),
            final(self)@ == resolve_transition(old(self)@, caller@, contract_id@, outcome),
            r == expected_resolution(old(self)@, caller@, contract_id@, outcome),
    {
        match outcome {
            ChainOutcome::Success => {
                return Resolution::Confirmed;
            },
            ChainOutcome::Failure => {},
        }
        proof {
            lemma_map_of_dom(self.account_ids@, self.account_records@, caller@);
        }
        let i = match self.find(caller) {
            Some(i) => i,
            None => {
                return Resolution::AccountMissing;
            },
        };
        proof {
            lemma_map_of_index(self.account_ids@, self.account_records@, i as int);
        }
        let ghost pre_model = self@.accounts[caller@];
        proof {
            lemma_first_index_of(pre_model.deployed, contract_id@);
        }
        let list_len = self.account_records[i].info.deployed_contracts.len();
        let mut j: usize = 0;
        let mut found: Option<usize> = None;
        while j < list_len
            invariant
                j <= list_len,
                found is None,
                forall|k: int| 0 <= k < j ==> pre_model.deployed[k] != contract_id@,
            decreases list_len - j,
        {
            if self.account_records[i].info.deployed_contracts[j] == *contract_id {
                found = Some(j);
                break ;
            }
            j = j + 1;
        }
        let j = match found {
            Some(j) => j,
            None => {
                proof {
                    assert(!pre_model.deployed.contains(contract_id@));
                }
                return Resolution::InstanceMissing;
            },
        };
        proof {
            assert(pre_model.deployed[j as int] == contract_id@);
            assert(pre_model.deployed.contains(contract_id@));
            assert(first_index_of(pre_model.deployed, contract_id@) == j);
            lemma_mul_is_distributive_add(
                self.deposit_for_contract as int,
                pre_model.deployed.len() - 1,
                1,
            );
            lemma_mul_nonnegative(
                self.deposit_for_contract as int,
                pre_model.deployed.len() - 1,
            );
        }
        let ghost pre_records = self.account_records@;
        let mut rec = self.account_records.remove(i);
        let _removed = rec.info.deployed_contracts.swap_remove(j);
        rec.near_used_for_storage = rec.near_used_for_storage - self.deposit_for_contract;
        self.account_records.insert(i, rec);
        proof {
            assert(self.account_records@ =~= pre_records.update(i as int, rec));
            lemma_map_of_update(self.account_ids@, pre_records, i as int, rec);
            lemma_account_models_insert(map_of(self.account_ids@, pre_records), caller@, rec);
            assert(rec@.deployed =~= swap_removed(pre_model.deployed, j as int));
            assert(rec@ =~= (AccountModel {
                deposited: pre_model.deposited,
                escrowed: (pre_model.escrowed - old(self)@.deposit_for_contract) as u128,
                deployed: swap_removed(pre_model.deployed, j as int),
            }));
            assert(self@ =~= resolve_transition(old(self)@, caller@, contract_id@, outcome));
            assert(account_wf(self@.deposit_for_contract, rec@));
        }
        Resolution::Compensated
    }
}

} // verus!
