//! The per-asset ledger: a balance for every (account, asset) pair that has
//! ever been credited.
//!
//! Its model is a map keyed by the pair of names; a pair that was never
//! credited simply reads as zero, so no registration step is needed here.

use vstd::prelude::*;
use crate::store::{
    distinct_keys, lemma_map_of_dom, lemma_map_of_index, lemma_map_of_push, lemma_map_of_update,
    map_of,
};

verus! {

/// The balance an (account, asset) pair holds in `m`, zero when the pair was
/// never credited.
pub open spec fn pair_balance_in(
    m: Map<(Seq<char>, Seq<char>), u128>,
    account: Seq<char>,
    token: Seq<char>,
) -> u128 {
    if m.dom().contains((account, token)) {
        m[(account, token)]
    } else {
        0
    }
}

pub(crate) struct InternalLedger {
    pub(crate) keys: Vec<(String, String)>,
    pub(crate) amounts: Vec<u128>,
}

impl InternalLedger {
    /// The ledger as a map from (account, asset) pairs to balances.
    pub(crate) open spec fn balances(self) -> Map<(Seq<char>, Seq<char>), u128> {
        map_of(self.keys@, self.amounts@)
    }

    /// One balance per pair, each pair recorded once.
    pub(crate) open spec fn wf(&self) -> bool {
        &&& self.keys@.len() == self.amounts@.len()
        &&& distinct_keys(self.keys@)
    }

    pub(crate) fn new() -> (r: InternalLedger)
        ensures
            r.wf(),
            r.balances() == Map::<(Seq<char>, Seq<char>), u128>::empty(),
    {
        InternalLedger { keys: Vec::new(), amounts: Vec::new() }
    }

    fn find(&self, account: &String, token: &String) -> (r: Option<usize>)
        ensures
            match r {
                Some(i) => i < self.keys@.len() && self.keys@[i as int]@ == (account@, token@),
                None => forall|j: int|
                    0 <= j < self.keys@.len() ==> self.keys@[j]@ != (account@, token@),
            },
    {
        let n = self.keys.len();
        let mut i: usize = 0;
        while i < n
            invariant
                n == self.keys@.len(),
                i <= n,
                forall|j: int| 0 <= j < i ==> self.keys@[j]@ != (account@, token@),
            decreases n - i,
        {
            let entry = &self.keys[i];
            if entry.0 == *account && entry.1 == *token {
                return Some(i);
            }
            i = i + 1;
        }
        None
    }

    pub(crate) fn balance(&self, account: &String, token: &String) -> (r: u128)
        requires
            self.wf(),
        ensures
            r == pair_balance_in(self.balances(), account@, token@),
    {
        proof {
            lemma_map_of_dom(self.keys@, self.amounts@, (account@, token@));
        }
        match self.find(account, token) {
            Some(i) => {
                proof {
                    lemma_map_of_index(self.keys@, self.amounts@, i as int);
                }
                self.amounts[i]
            },
            None => 0,
        }
    }

    /// Credits a pair, creating its entry when it has none yet.
    pub(crate) fn increase(&mut self, account: &String, token: &String, amount: u128)
        requires
            old(self).wf(),
            pair_balance_in(old(self).balances(), account@, token@) + amount <= u128::MAX,
        ensures
            final(self).wf(),
            final(self).balances() == old(self).balances().insert(
                (account@, token@),
                (pair_balance_in(old(self).balances(), account@, token@) + amount) as u128,
            ),
    {
        proof {
            lemma_map_of_dom(self.keys@, self.amounts@, (account@, token@));
        }
        match self.find(account, token) {
            Some(i) => {
                proof {
                    lemma_map_of_index(self.keys@, self.amounts@, i as int);
                }
                let cur = self.amounts[i];
                let ghost pre_keys = self.keys@;
                let ghost pre_amounts = self.amounts@;
                self.amounts[i] = cur + amount;
                proof {
                    lemma_map_of_update(pre_keys, pre_amounts, i as int, (cur + amount) as u128);
                }
            },
            None => {
                proof {
                    lemma_map_of_push(self.keys@, self.amounts@, (*account, *token), amount);
                }
                self.keys.push((account.clone(), token.clone()));
                self.amounts.push(amount);
            },
        }
    }

    /// Debits a pair; the balance must cover the amount.
    pub(crate) fn decrease(&mut self, account: &String, token: &String, amount: u128)
        requires
            old(self).wf(),
            amount <= pair_balance_in(old(self).balances(), account@, token@),
        ensures
            final(self).wf(),
            final(self).balances() == if old(self).balances().dom().contains((account@, token@)) {
                old(self).balances().insert(
                    (account@, token@),
                    (pair_balance_in(old(self).balances(), account@, token@) - amount) as u128,
                )
            } else {
                old(self).balances()
            },
    {
        proof {
            lemma_map_of_dom(self.keys@, self.amounts@, (account@, token@));
        }
        match self.find(account, token) {
            Some(i) => {
                proof {
                    lemma_map_of_index(self.keys@, self.amounts@, i as int);
                }
                let cur = self.amounts[i];
                let ghost pre_keys = self.keys@;
                let ghost pre_amounts = self.amounts@;
                self.amounts[i] = cur - amount;
                proof {
                    lemma_map_of_update(pre_keys, pre_amounts, i as int, (cur - amount) as u128);
                }
            },
            None => {},
        }
    }
}

} // verus!
