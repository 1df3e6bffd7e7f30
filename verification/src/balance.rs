//! Spendable balances, one per account and asset.
use vstd::prelude::*;
use crate::errors::LedgerError;

verus! {

/// The model of a balance ledger: the amount held under each
/// `(account, asset)` pair that was ever credited.
pub type Balances = Map<(Seq<char>, Seq<char>), nat>;

/// What `account` can spend of `asset`: its entry, or nothing where it has none.
pub open spec fn balance_in(balances: Balances, account: Seq<char>, asset: Seq<char>) -> nat {
    if balances.contains_key((account, asset)) {
        balances[(account, asset)]
    } else {
        0
    }
}

/// The balances after `amount` is added to the entry of `account` and
/// `asset`; an absent entry starts from zero.
pub open spec fn credited(balances: Balances, account: Seq<char>, asset: Seq<char>, amount: nat) -> Balances {
    balances.insert((account, asset), balance_in(balances, account, asset) + amount)
}

/// Whether `amount` can be taken from the entry of `account` and `asset`:
/// the entry exists and holds at least that much.
pub open spec fn can_debit(balances: Balances, account: Seq<char>, asset: Seq<char>, amount: nat) -> bool {
    balances.contains_key((account, asset)) && amount <= balances[(account, asset)]
}

/// The balances after `amount` is taken from the entry of `account` and
/// `asset`. The entry stays, also at zero.
pub open spec fn debited(balances: Balances, account: Seq<char>, asset: Seq<char>, amount: nat) -> Balances {
    balances.insert((account, asset), (balances[(account, asset)] - amount) as nat)
}

/// What one account holds of one asset.
#[derive(Debug, PartialEq, Eq)]
pub struct BalanceEntry {
    /// The account.
    pub account: String,
    /// The asset.
    pub asset: String,
    /// What the account can spend of the asset.
    pub amount: u128,
}

/// Per-account, per-asset spendable balances.
///
/// The field is open so that a host can store the balances and build them
/// again from what it stored; [`BalanceLedger::is_wf`] tells whether what
/// was built is a ledger.
pub struct BalanceLedger {
    /// The entries, in the order of their creation.
    pub entries: Vec<BalanceEntry>,
}

impl View for BalanceLedger {
    type V = Balances;

    closed spec fn view(&self) -> Balances {
        Map::new(
            |k: (Seq<char>, Seq<char>)| exists|i: int| self.holds_at(i, k),
            |k: (Seq<char>, Seq<char>)| self.entries[choose|i: int| self.holds_at(i, k)].amount as nat,
        )
    }
}

impl BalanceLedger {
    spec fn holds_at(&self, i: int, k: (Seq<char>, Seq<char>)) -> bool {
        0 <= i < self.entries.len() && self.entries[i].account@ == k.0 && self.entries[i].asset@ == k.1
    }

    /// No pair of account and asset has two entries.
    pub closed spec fn wf(&self) -> bool {
        forall|i: int, j: int, k: (Seq<char>, Seq<char>)|
            self.holds_at(i, k) && self.holds_at(j, k) ==> i == j
    }

    /// Whether the ledger is well-formed.
    pub fn is_wf(&self) -> (ok: bool)
        ensures
            ok == self.wf(),
    {
        let mut j: usize = 0;
        while j < self.entries.len()
            invariant
                j <= self.entries.len(),
                forall|a: int, b: int| 0 <= a < b < j ==>
                    !(self.entries[a].account@ == self.entries[b].account@
                        && self.entries[a].asset@ == self.entries[b].asset@),
            decreases self.entries.len() - j,
        {
            let mut i: usize = 0;
            while i < j
                invariant
                    i <= j < self.entries.len(),
                    forall|a: int| 0 <= a < i ==>
                        !(self.entries[a].account@ == self.entries[j as int].account@
                            && self.entries[a].asset@ == self.entries[j as int].asset@),
                decreases j - i,
            {
                if self.entries[i].account == self.entries[j].account
                    && self.entries[i].asset == self.entries[j].asset {
                    let ghost key = (self.entries[i as int].account@, self.entries[i as int].asset@);
                    assert(self.holds_at(i as int, key));
                    assert(self.holds_at(j as int, key));
                    return false;
                }
                i += 1;
            }
            j += 1;
        }
        assert forall|a: int, b: int, k: (Seq<char>, Seq<char>)| self.holds_at(a, k) && self.holds_at(b, k)
            implies a == b by {
            if a < b {
                assert(!(self.entries[a].account@ == self.entries[b].account@
                    && self.entries[a].asset@ == self.entries[b].asset@));
            } else if b < a {
                assert(!(self.entries[b].account@ == self.entries[a].account@
                    && self.entries[b].asset@ == self.entries[a].asset@));
            }
        }
        true
    }

    /// A ledger without entries.
    pub fn new() -> (ledger: BalanceLedger)
        ensures
            ledger.wf(),
            ledger@ == Map::<(Seq<char>, Seq<char>), nat>::empty(),
    {
        let ledger = BalanceLedger { entries: Vec::new() };
        assert(ledger@ =~= Map::<(Seq<char>, Seq<char>), nat>::empty());
        ledger
    }

    fn find(&self, account: &String, asset: &String) -> (found: Option<usize>)
        requires
            self.wf(),
        ensures
            match found {
                Some(i) => self.holds_at(i as int, (account@, asset@))
                    && self@.contains_key((account@, asset@))
                    && self@[(account@, asset@)] == self.entries[i as int].amount,
                None => !self@.contains_key((account@, asset@)),
            },
    {
        let mut i: usize = 0;
        while i < self.entries.len()
            invariant
                self.wf(),
                i <= self.entries.len(),
                forall|j: int| 0 <= j < i ==> !self.holds_at(j, (account@, asset@)),
            decreases self.entries.len() - i,
        {
            if self.entries[i].account == *account && self.entries[i].asset == *asset {
                proof {
                    let key = (account@, asset@);
                    assert(self.holds_at(i as int, key));
                    let j = choose|j: int| self.holds_at(j, key);
                    assert(self.holds_at(j, key));
                }
                return Some(i);
            }
            i += 1;
        }
        None
    }

    /// Whether `account` has an entry for `asset`, be it zero.
    pub fn has_entry(&self, account: &String, asset: &String) -> (present: bool)
        requires
            self.wf(),
        ensures
            present == self@.contains_key((account@, asset@)),
    {
        self.find(account, asset).is_some()
    }

    /// What `account` can spend of `asset`.
    pub fn balance_of(&self, account: &String, asset: &String) -> (amount: u128)
        requires
            self.wf(),
        ensures
            amount == balance_in(self@, account@, asset@),
    {
        match self.find(account, asset) {
            Some(i) => self.entries[i].amount,
            None => 0,
        }
    }

    /// Adds `amount` to the balance of `account` in `asset`, creating the
    /// entry where there is none. Always succeeds.
    pub fn credit(&mut self, account: &String, asset: &String, amount: u128)
        requires
            old(self).wf(),
            balance_in(old(self)@, account@, asset@) + amount <= u128::MAX,
        ensures
            final(self).wf(),
            final(self)@ == credited(old(self)@, account@, asset@, amount as nat),
    {
        match self.find(account, asset) {
            Some(i) => {
                let current = self.entries[i].amount;
                self.entries[i].amount = current + amount;
                proof {
                    self.lemma_updated(*old(self), i as int);
                }
            },
            None => {
                self.entries.push(BalanceEntry { account: account.clone(), asset: asset.clone(), amount });
                proof {
                    self.lemma_pushed(*old(self));
                }
            },
        }
    }

    /// Takes `amount` from the balance of `account` in `asset`. Fails, and
    /// changes nothing, where the account has no entry for the asset or the
    /// entry holds less than `amount`.
    pub fn debit(
        &mut self,
        account: &String,
        asset: &String,
        amount: u128,
    ) -> (outcome: Result<(), LedgerError>)
        requires
            old(self).wf(),
        ensures
            final(self).wf(),
            outcome is Ok <==> can_debit(old(self)@, account@, asset@, amount as nat),
            outcome is Ok ==> final(self)@ == debited(old(self)@, account@, asset@, amount as nat),
            outcome is Err ==>
                outcome == Err::<(), LedgerError>(LedgerError::InsufficientBalance)
                    && final(self)@ == old(self)@,
    {
        match self.find(account, asset) {
            Some(i) => {
                let current = self.entries[i].amount;
                if amount > current {
                    return Err(LedgerError::InsufficientBalance);
                }
                self.entries[i].amount = current - amount;
                proof {
                    self.lemma_updated(*old(self), i as int);
                }
                Ok(())
            },
            None => Err(LedgerError::InsufficientBalance),
        }
    }

    /// Changing the amount of one entry changes the model at its key only.
    proof fn lemma_updated(&self, before: BalanceLedger, i: int)
        requires
            before.wf(),
            0 <= i < before.entries.len(),
            self.entries.len() == before.entries.len(),
            forall|j: int| 0 <= j < before.entries.len() ==>
                self.entries[j].account == before.entries[j].account
                && self.entries[j].asset == before.entries[j].asset,
            forall|j: int| 0 <= j < before.entries.len() && j != i ==>
                self.entries[j].amount == before.entries[j].amount,
        ensures
            self.wf(),
            self@ == before@.insert(
                (before.entries[i].account@, before.entries[i].asset@),
                self.entries[i].amount as nat,
            ),
    {
        assert forall|j: int, k: (Seq<char>, Seq<char>)| self.holds_at(j, k) == before.holds_at(j, k) by {}
        let key = (before.entries[i].account@, before.entries[i].asset@);
        assert(before.holds_at(i, key));
        assert forall|k: (Seq<char>, Seq<char>)| #[trigger] self@.contains_key(k)
            implies self@[k] == before@.insert(key, self.entries[i].amount as nat)[k] by {
            let j = choose|j: int| self.holds_at(j, k);
            let j0 = choose|j: int| before.holds_at(j, k);
            assert(before.holds_at(j, k));
            assert(before.holds_at(j0, k));
        }
        assert(self@ =~= before@.insert(key, self.entries[i].amount as nat));
    }

    /// A new entry under a key that had none extends the model by that key.
    proof fn lemma_pushed(&self, before: BalanceLedger)
        requires
            before.wf(),
            self.entries@.len() == before.entries@.len() + 1,
            forall|j: int| 0 <= j < before.entries.len() ==> self.entries[j] == before.entries[j],
            !before@.contains_key((self.entries@.last().account@, self.entries@.last().asset@)),
        ensures
            self.wf(),
            self@ == before@.insert(
                (self.entries@.last().account@, self.entries@.last().asset@),
                self.entries@.last().amount as nat,
            ),
    {
        let n = before.entries.len() as int;
        let key = (self.entries[n].account@, self.entries[n].asset@);
        assert forall|j: int, k: (Seq<char>, Seq<char>)| j != n
            implies self.holds_at(j, k) == before.holds_at(j, k) by {}
        assert forall|j: int| !before.holds_at(j, key) by {
            if before.holds_at(j, key) {
                assert(before@.contains_key(key));
            }
        }
        assert(self.holds_at(n, key));
        assert forall|k: (Seq<char>, Seq<char>)| #[trigger] self@.contains_key(k)
            implies self@[k] == before@.insert(key, self.entries[n].amount as nat)[k] by {
            let j = choose|j: int| self.holds_at(j, k);
            if k != key {
                assert(before.holds_at(j, k));
                let j0 = choose|j: int| before.holds_at(j, k);
                assert(before.holds_at(j0, k));
            }
        }
        assert forall|k: (Seq<char>, Seq<char>)| before@.contains_key(k)
            implies #[trigger] self@.contains_key(k) by {
            let j0 = choose|j: int| before.holds_at(j, k);
            assert(self.holds_at(j0, k));
        }
        assert(self@ =~= before@.insert(key, self.entries[n].amount as nat));
    }
}

} // verus!
