//! The derivative-unit ledger: one balance per registered account, together
//! with the circulating total supply.
//!
//! The ledger's model is a map from account names to balances; its
//! well-formedness ties the stored total supply to the sum of all balances,
//! so no unit is ever created or destroyed except through an explicit
//! deposit or withdrawal.

use vstd::prelude::*;
use crate::store::{
    distinct_keys, lemma_map_of_dom, lemma_map_of_index, lemma_map_of_push, lemma_map_of_update,
    lemma_sum_index, lemma_sum_push, lemma_sum_update, map_of, sum_of,
};

verus! {

/// The balance an account holds in `m`, zero when it is not registered.
pub open spec fn balance_in(m: Map<Seq<char>, u128>, account: Seq<char>) -> u128 {
    if m.dom().contains(account) {
        m[account]
    } else {
        0
    }
}

pub(crate) struct TokenLedger {
    pub(crate) accounts: Vec<String>,
    pub(crate) amounts: Vec<u128>,
    pub(crate) total_supply: u128,
}

impl TokenLedger {
    /// The ledger as a map from registered account names to balances.
    pub(crate) open spec fn balances(self) -> Map<Seq<char>, u128> {
        map_of(self.accounts@, self.amounts@)
    }

    /// One balance per account, each account recorded once, and the stored
    /// total supply equal to the sum of all balances.
    pub(crate) open spec fn wf(&self) -> bool {
        &&& self.accounts@.len() == self.amounts@.len()
        &&& distinct_keys(self.accounts@)
        &&& self.total_supply == sum_of(self.amounts@)
    }

    pub(crate) fn new() -> (r: TokenLedger)
        ensures
            r.wf(),
            r.balances() == Map::<Seq<char>, u128>::empty(),
            r.total_supply == 0,
    {
        TokenLedger { accounts: Vec::new(), amounts: Vec::new(), total_supply: 0 }
    }

    fn find(&self, account: &String) -> (r: Option<usize>)
        ensures
            match r {
                Some(i) => i < self.accounts@.len() && self.accounts@[i as int]@ == account@,
                None => forall|j: int|
                    0 <= j < self.accounts@.len() ==> self.accounts@[j]@ != account@,
            },
    {
        let n = self.accounts.len();
        let mut i: usize = 0;
        while i < n
            invariant
                n == self.accounts@.len(),
                i <= n,
                forall|j: int| 0 <= j < i ==> self.accounts@[j]@ != account@,
            decreases n - i,
        {
            if self.accounts[i] == *account {
                return Some(i);
            }
            i = i + 1;
        }
        None
    }

    pub(crate) fn contains(&self, account: &String) -> (r: bool)
        requires
            self.wf(),
        ensures
            r == self.balances().dom().contains(account@),
    {
        proof {
            lemma_map_of_dom(self.accounts@, self.amounts@, account@);
        }
        self.find(account).is_some()
    }

    pub(crate) fn balance_or_zero(&self, account: &String) -> (r: u128)
        requires
            self.wf(),
        ensures
            r == balance_in(self.balances(), account@),
    {
        proof {
            lemma_map_of_dom(self.accounts@, self.amounts@, account@);
        }
        match self.find(account) {
            Some(i) => {
                proof {
                    lemma_map_of_index(self.accounts@, self.amounts@, i as int);
                }
                self.amounts[i]
            },
            None => 0,
        }
    }

    /// Adds an account with a zero balance.
    pub(crate) fn register(&mut self, account: &String)
        requires
            old(self).wf(),
            !old(self).balances().dom().contains(account@),
        ensures
            final(self).wf(),
            final(self).balances() == old(self).balances().insert(account@, 0u128),
            final(self).total_supply == old(self).total_supply,
    {
        proof {
            lemma_map_of_dom(old(self).accounts@, old(self).amounts@, account@);
            lemma_map_of_push(old(self).accounts@, old(self).amounts@, *account, 0u128);
            lemma_sum_push(old(self).amounts@, 0u128);
        }
        self.accounts.push(account.clone());
        self.amounts.push(0);
    }

    /// Credits a registered account, growing the total supply by the same
    /// amount.
    pub(crate) fn deposit(&mut self, account: &String, amount: u128)
        requires
            old(self).wf(),
            old(self).balances().dom().contains(account@),
            old(self).total_supply + amount <= u128::MAX,
        ensures
            final(self).wf(),
            old(self).balances()[account@] + amount <= u128::MAX,
            final(self).balances() == old(self).balances().insert(
                account@,
                (old(self).balances()[account@] + amount) as u128,
            ),
            final(self).total_supply == old(self).total_supply + amount,
    {
        proof {
            lemma_map_of_dom(self.accounts@, self.amounts@, account@);
        }
        let i = self.find(account).unwrap();
        proof {
            lemma_map_of_index(self.accounts@, self.amounts@, i as int);
            lemma_sum_index(self.amounts@, i as int);
        }
        let cur = self.amounts[i];
        let ghost pre_accounts = self.accounts@;
        let ghost pre_amounts = self.amounts@;
        self.amounts[i] = cur + amount;
        self.total_supply = self.total_supply + amount;
        proof {
            lemma_map_of_update(pre_accounts, pre_amounts, i as int, (cur + amount) as u128);
            lemma_sum_update(pre_amounts, i as int, (cur + amount) as u128);
        }
    }

    /// Debits a registered account, shrinking the total supply by the same
    /// amount.
    pub(crate) fn withdraw(&mut self, account: &String, amount: u128)
        requires
            old(self).wf(),
            old(self).balances().dom().contains(account@),
            amount <= old(self).balances()[account@],
        ensures
            final(self).wf(),
            final(self).balances() == old(self).balances().insert(
                account@,
                (old(self).balances()[account@] - amount) as u128,
            ),
            final(self).total_supply == old(self).total_supply - amount,
    {
        proof {
            lemma_map_of_dom(self.accounts@, self.amounts@, account@);
        }
        let i = self.find(account).unwrap();
        proof {
            lemma_map_of_index(self.accounts@, self.amounts@, i as int);
            lemma_sum_index(self.amounts@, i as int);
        }
        let cur = self.amounts[i];
        let ghost pre_accounts = self.accounts@;
        let ghost pre_amounts = self.amounts@;
        self.amounts[i] = cur - amount;
        self.total_supply = self.total_supply - amount;
        proof {
            lemma_map_of_update(pre_accounts, pre_amounts, i as int, (cur - amount) as u128);
            lemma_sum_update(pre_amounts, i as int, (cur - amount) as u128);
        }
    }
}

} // verus!
