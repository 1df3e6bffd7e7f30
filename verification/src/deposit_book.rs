//! Opening, closing and growing deposits.
//!
//! A deposit moves its principal from the owner's balance into the asset's
//! reserve and back. The growth it earns is credited on top and does not
//! come out of the reserve.
use std::collections::HashMap;
use vstd::prelude::*;
use crate::contract::Contract;
use crate::deposit::{Deposit, DepositId};
use crate::errors::LedgerError;
use crate::laws::{
    lemma_close_deposit_keeps_order, lemma_create_deposit_keeps_order, lemma_refresh_deposits_growth_keeps_order,
    lemma_take_deposit_growth_keeps_order,
};
use crate::state::APR_DEPOSIT;

verus! {

impl Contract {
    /// Whether the reserve's total stays within 128 bits if the deposit is
    /// opened. A deposit that is refused anyway fits.
    pub fn create_deposit_fits(&self, caller: &String, asset: &String, amount: u128) -> (fits: bool)
        requires
            self.wf(),
        ensures
            fits == self@.create_deposit_fits(caller@, asset@, amount as nat),
    {
        if !self.balances_map.has_entry(caller, asset) || amount > self.balances_map.balance_of(caller, asset) {
            return true;
        }
        match self.reserves.get(asset) {
            Some(reserve) => amount <= u128::MAX - reserve.deposited,
            None => true,
        }
    }

    /// Opens a deposit of `amount` of `asset` for `caller` at `now`: the
    /// amount leaves the caller's balance and joins the asset's reserve, and
    /// the new deposit earns the deposit rate from `now` on. Returns the
    /// deposit's identifier, which no other deposit ever gets.
    pub fn create_deposit(
        &mut self,
        caller: &String,
        asset: &String,
        amount: u128,
        now: u64,
    ) -> (outcome: Result<DepositId, LedgerError>)
        requires
            old(self).wf(),
            old(self)@.create_deposit_fits(caller@, asset@, amount as nat),
        ensures
            final(self).wf(),
            match outcome {
                Ok(id) => old(self)@.create_deposit_refusal(caller@, asset@, amount as nat) is None
                    && id == old(self)@.deposits_created_number
                    && final(self)@ == old(self)@.create_deposit(caller@, asset@, amount as nat, now as nat),
                Err(e) => old(self)@.create_deposit_refusal(caller@, asset@, amount as nat) == Some(e)
                    && final(self)@ == old(self)@,
            },
    {
        if !self.balances_map.has_entry(caller, asset) || amount > self.balances_map.balance_of(caller, asset) {
            return Err(LedgerError::InsufficientBalance);
        }
        if self.reserves.get(asset).is_none() {
            return Err(LedgerError::ReserveNotFound);
        }
        let _ = self.balances_map.debit(caller, asset, amount);
        let _ = self.reserves.increase_deposited(asset, amount);
        let id = self.deposits.issue(
            Deposit {
                owner_id: caller.clone(),
                asset: asset.clone(),
                amount,
                timestamp: now,
                last_update_timestamp: now,
                apr: APR_DEPOSIT,
                growth: 0,
            },
        );
        proof {
            lemma_create_deposit_keeps_order(old(self)@, caller@, asset@, amount as nat, now as nat);
        }
        Ok(id)
    }

    /// Why `caller` cannot close the deposit `deposit_id`, if anything.
    pub fn close_deposit_refusal(
        &self,
        caller: &String,
        deposit_id: DepositId,
    ) -> (refusal: Option<LedgerError>)
        requires
            self.wf(),
        ensures
            refusal == self@.close_deposit_refusal(caller@, deposit_id as nat),
    {
        match self.deposits.get(deposit_id) {
            None => Some(LedgerError::DepositNotFound),
            Some(deposit) => {
                if deposit.owner_id != *caller {
                    return Some(LedgerError::NotOwner);
                }
                match self.reserves.get(&deposit.asset) {
                    None => Some(LedgerError::ReserveNotFound),
                    Some(reserve) => {
                        proof {
                            self.reserves.lemma_solvent();
                        }
                        if deposit.amount > reserve.deposited - reserve.borrowed {
                            Some(LedgerError::ReserveUnderflow)
                        } else {
                            None
                        }
                    },
                }
            },
        }
    }

    /// Whether the owner's balance stays within 128 bits if the deposit is
    /// closed at `now`. A call that is refused anyway fits.
    pub fn close_deposit_fits(&self, caller: &String, deposit_id: DepositId, now: u64) -> (fits: bool)
        requires
            self.wf(),
        ensures
            fits == self@.close_deposit_fits(caller@, deposit_id as nat, now as nat),
    {
        if self.close_deposit_refusal(caller, deposit_id).is_some() {
            return true;
        }
        match self.deposits.get(deposit_id) {
            None => true,
            Some(deposit) => {
                let balance = self.balances_map.balance_of(&deposit.owner_id, &deposit.asset);
                match deposit.pending_growth(now) {
                    None => false,
                    Some(pending) => {
                        pending <= u128::MAX - deposit.growth && deposit.amount <= u128::MAX - (deposit.growth
                            + pending) && balance <= u128::MAX - (deposit.amount + (deposit.growth + pending))
                    },
                }
            },
        }
    }

    /// Closes the deposit `deposit_id` at `now`: growth is accrued up to
    /// `now`, the principal and all growth go to the owner's balance, the
    /// principal leaves the asset's reserve, and the deposit is gone. Returns
    /// what was paid out.
    pub fn close_deposit(
        &mut self,
        caller: &String,
        deposit_id: DepositId,
        now: u64,
    ) -> (outcome: Result<u128, LedgerError>)
        requires
            old(self).wf(),
            old(self)@.close_deposit_fits(caller@, deposit_id as nat, now as nat),
        ensures
            final(self).wf(),
            match outcome {
                Ok(payout) => old(self)@.close_deposit_refusal(caller@, deposit_id as nat) is None
                    && payout == old(self)@.close_deposit_payout(deposit_id as nat, now as nat)
                    && final(self)@ == old(self)@.close_deposit(deposit_id as nat, now as nat),
                Err(e) => old(self)@.close_deposit_refusal(caller@, deposit_id as nat) == Some(e)
                    && final(self)@ == old(self)@,
            },
    {
        match self.close_deposit_refusal(caller, deposit_id) {
            Some(e) => {
                return Err(e);
            },
            None => {},
        }
        let mut deposit = self.deposits.remove(deposit_id).unwrap();
        deposit.refresh_growth(now);
        let payout = deposit.amount + deposit.growth;
        self.balances_map.credit(&deposit.owner_id, &deposit.asset, payout);
        let _ = self.reserves.decrease_deposited(&deposit.asset, deposit.amount);
        proof {
            lemma_close_deposit_keeps_order(old(self)@, caller@, deposit_id as nat, now as nat);
        }
        Ok(payout)
    }

    /// Whether the growth of every open deposit stays within 128 bits if it
    /// is accrued up to `now`.
    pub fn refresh_deposits_growth_fits(&self, now: u64) -> (fits: bool)
        requires
            self.wf(),
        ensures
            fits == self@.refresh_deposits_growth_fits(now as nat),
    {
        let created = self.deposits.created_number();
        let mut id: u128 = 0;
        proof {
            self.deposits.lemma_ids_created();
        }
        while id < created
            invariant
                id <= created,
                created == self@.deposits_created_number,
                forall|k: nat| #[trigger] self@.deposits.contains_key(k) ==> k < created,
                forall|k: nat| k < id && #[trigger] self@.deposits.contains_key(k) ==>
                    self@.deposits[k].refreshed(now as nat).growth <= u128::MAX,
            decreases created - id,
        {
            match self.deposits.get(id) {
                Some(deposit) => {
                    if !deposit.growth_fits(now) {
                        assert(self@.deposits.contains_key(id as nat));
                        return false;
                    }
                },
                None => {},
            }
            id += 1;
        }
        true
    }

    /// Accrues the growth of every open deposit up to `now`.
    pub fn refresh_deposits_growth(&mut self, now: u64)
        requires
            old(self).wf(),
            old(self)@.refresh_deposits_growth_fits(now as nat),
        ensures
            final(self).wf(),
            final(self)@ == old(self)@.refresh_deposits_growth(now as nat),
    {
        let created = self.deposits.created_number();
        let mut id: u128 = 0;
        proof {
            self.deposits.lemma_ids_created();
        }
        while id < created
            invariant
                id <= created,
                created == old(self)@.deposits_created_number,
                old(self).wf(),
                old(self)@.refresh_deposits_growth_fits(now as nat),
                self.inv(),
                self@.deposits_created_number == created,
                self@.owner_id == old(self)@.owner_id,
                self@.locked_nfts == old(self)@.locked_nfts,
                self@.balances == old(self)@.balances,
                self@.reserves == old(self)@.reserves,
                self@.borrows == old(self)@.borrows,
                self@.borrows_number == old(self)@.borrows_number,
                self@.deposits.dom() == old(self)@.deposits.dom(),
                forall|k: nat|
                    k < id && #[trigger] self@.deposits.contains_key(k) ==> self@.deposits[k] == old(
                        self,
                    )@.deposits[k].refreshed(now as nat),
                forall|k: nat|
                    k >= id && #[trigger] self@.deposits.contains_key(k) ==> self@.deposits[k] == old(
                        self,
                    )@.deposits[k],
            decreases created - id,
        {
            match self.deposits.remove(id) {
                Some(mut deposit) => {
                    assert(old(self)@.deposits.contains_key(id as nat));
                    deposit.refresh_growth(now);
                    self.deposits.put(id, deposit);
                    assert(self@.deposits.dom() =~= old(self)@.deposits.dom());
                },
                None => {
                    assert(self@.deposits.dom() =~= old(self)@.deposits.dom());
                },
            }
            id += 1;
        }
        proof {
            assert(self@.deposits =~= old(self)@.refresh_deposits_growth(now as nat).deposits);
            lemma_refresh_deposits_growth_keeps_order(old(self)@, now as nat);
        }
    }

    /// Whether the deposit's growth and the owner's balance stay within 128
    /// bits if the growth is claimed at `now`. A call that is refused anyway
    /// fits.
    pub fn take_deposit_growth_fits(
        &self,
        caller: &String,
        deposit_id: DepositId,
        amount: u128,
        now: u64,
    ) -> (fits: bool)
        requires
            self.wf(),
        ensures
            fits == self@.take_deposit_growth_fits(caller@, deposit_id as nat, amount as nat, now as nat),
    {
        match self.deposits.get(deposit_id) {
            None => true,
            Some(deposit) => {
                if deposit.owner_id != *caller {
                    return true;
                }
                let balance = self.balances_map.balance_of(&deposit.owner_id, &deposit.asset);
                match deposit.pending_growth(now) {
                    None => false,
                    Some(pending) => {
                        if pending > u128::MAX - deposit.growth {
                            return false;
                        }
                        let growth = deposit.growth + pending;
                        let released = if amount <= growth {
                            amount
                        } else {
                            growth
                        };
                        balance <= u128::MAX - released
                    },
                }
            },
        }
    }

    /// Claims up to `amount` of the growth of the deposit `deposit_id` for
    /// its owner: growth is accrued up to `now`, then `amount` of it, or all
    /// of it where there is less, goes to the owner's balance. Returns what
    /// was released. Asking for more than there is is no failure.
    pub fn take_deposit_growth(
        &mut self,
        caller: &String,
        deposit_id: DepositId,
        amount: u128,
        now: u64,
    ) -> (outcome: Result<u128, LedgerError>)
        requires
            old(self).wf(),
            old(self)@.take_deposit_growth_fits(caller@, deposit_id as nat, amount as nat, now as nat),
        ensures
            final(self).wf(),
            match outcome {
                Ok(released) => old(self)@.deposit_access_refusal(caller@, deposit_id as nat) is None
                    && released == old(self)@.take_deposit_growth_released(
                    deposit_id as nat,
                    amount as nat,
                    now as nat,
                ) && final(self)@ == old(self)@.take_deposit_growth(
                    deposit_id as nat,
                    amount as nat,
                    now as nat,
                ),
                Err(e) => old(self)@.deposit_access_refusal(caller@, deposit_id as nat) == Some(e)
                    && final(self)@ == old(self)@,
            },
    {
        match self.deposits.get(deposit_id) {
            None => {
                return Err(LedgerError::DepositNotFound);
            },
            Some(deposit) => {
                if deposit.owner_id != *caller {
                    return Err(LedgerError::NotOwner);
                }
            },
        }
        proof {
            self.deposits.lemma_ids_created();
        }
        let mut deposit = self.deposits.remove(deposit_id).unwrap();
        deposit.refresh_growth(now);
        let released = deposit.take_growth(amount);
        self.balances_map.credit(&deposit.owner_id, &deposit.asset, released);
        self.deposits.put(deposit_id, deposit);
        proof {
            assert(self@.deposits =~= old(self)@.take_deposit_growth(
                deposit_id as nat,
                amount as nat,
                now as nat,
            ).deposits);
            lemma_take_deposit_growth_keeps_order(
                old(self)@,
                caller@,
                deposit_id as nat,
                amount as nat,
                now as nat,
            );
        }
        Ok(released)
    }

    /// The open deposits of `account_id`, by their identifiers.
    pub fn get_account_deposits(&self, account_id: &String) -> (result: HashMap<DepositId, Deposit>)
        ensures
            forall|id: DepositId|
                result@.contains_key(id) <==> self@.deposits_of(account_id@).contains_key(id as nat),
            forall|id: DepositId|
                result@.contains_key(id) ==>
                    (#[trigger] result@[id])@ == self@.deposits_of(account_id@)[id as nat],
    {
        broadcast use vstd::std_specs::hash::group_hash_axioms;

        let mut result: HashMap<DepositId, Deposit> = HashMap::new();
        let created = self.deposits.created_number();
        let mut id: u128 = 0;
        proof {
            self.deposits.lemma_ids_created();
        }
        while id < created
            invariant
                id <= created,
                forall|k: nat| #[trigger] self@.deposits.contains_key(k) ==> k < created,
                forall|k: DepositId|
                    result@.contains_key(k) <==> k < id
                        && self@.deposits_of(account_id@).contains_key(k as nat),
                forall|k: DepositId|
                    result@.contains_key(k) ==> (#[trigger] result@[k])@ == self@.deposits[k as nat],
            decreases created - id,
        {
            match self.deposits.get(id) {
                Some(deposit) => {
                    if deposit.owner_id == *account_id {
                        result.insert(id, deposit.clone());
                    }
                },
                None => {},
            }
            id += 1;
        }
        result
    }
}

} // verus!
