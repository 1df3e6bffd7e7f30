//! Opening, repaying and revaluing borrows.
//!
//! A borrow is opened against a locked collateral item by the account that
//! the item is locked for, and is repaid by the same account.
use vstd::prelude::*;
use crate::borrow::{compute_amount_to_borrow, Borrow, BorrowId, OPENING_HEALTH_FACTOR_BPS};
use crate::contract::Contract;
use crate::decimal::decimal_string;
use crate::errors::LedgerError;
use crate::laws::{
    lemma_return_collateral_and_repay_keeps_order, lemma_supply_collateral_and_borrow_keeps_order,
    lemma_update_collateral_value_keeps_order,
};
use crate::state::APR_BORROW;

verus! {

impl Contract {
    /// Why `caller` cannot borrow `token` against the collateral item
    /// `position_id` worth `collateral`, if anything.
    pub fn supply_collateral_and_borrow_refusal(
        &self,
        caller: &String,
        position_id: u128,
        collateral: u128,
        token: &String,
    ) -> (refusal: Option<LedgerError>)
        requires
            self.wf(),
        ensures
            refusal == self@.supply_collateral_and_borrow_refusal(
                caller@,
                position_id as nat,
                collateral as nat,
                token@,
            ),
    {
        let token_id = decimal_string(position_id);
        if !self.account_owns_nft_on_lending(&token_id, caller) {
            return Some(LedgerError::NotCollateralOwner);
        }
        match self.reserves.get(token) {
            None => Some(LedgerError::ReserveNotFound),
            Some(reserve) => {
                proof {
                    self.reserves.lemma_solvent();
                }
                if compute_amount_to_borrow(collateral) > reserve.deposited - reserve.borrowed {
                    Some(LedgerError::ReserveUnderflow)
                } else {
                    None
                }
            },
        }
    }

    /// Whether the caller's balance stays within 128 bits if the borrow is
    /// opened. A borrow that is refused anyway fits.
    pub fn supply_collateral_and_borrow_fits(
        &self,
        caller: &String,
        position_id: u128,
        collateral: u128,
        token: &String,
    ) -> (fits: bool)
        requires
            self.wf(),
        ensures
            fits == self@.supply_collateral_and_borrow_fits(
                caller@,
                position_id as nat,
                collateral as nat,
                token@,
            ),
    {
        if self.supply_collateral_and_borrow_refusal(caller, position_id, collateral, token).is_some() {
            return true;
        }
        self.balances_map.balance_of(caller, token) <= u128::MAX - compute_amount_to_borrow(collateral)
    }

    /// Opens a borrow of `token` for `caller` at `now` against the locked
    /// collateral item `position_id`, which the valuation feed values at
    /// `collateral`. The caller must be the recorded owner of the item. The
    /// value times the borrow ratio is lent: it goes to the caller's balance
    /// and is added to what the token's reserve has lent out. The position
    /// opens with a health factor of one over the borrow ratio. Returns the
    /// borrow's identifier, which no other borrow ever gets.
    pub fn supply_collateral_and_borrow(
        &mut self,
        caller: &String,
        position_id: u128,
        collateral: u128,
        token: &String,
        now: u64,
    ) -> (outcome: Result<BorrowId, LedgerError>)
        requires
            old(self).wf(),
            old(self)@.supply_collateral_and_borrow_fits(
                caller@,
                position_id as nat,
                collateral as nat,
                token@,
            ),
        ensures
            final(self).wf(),
            match outcome {
                Ok(id) => old(self)@.supply_collateral_and_borrow_refusal(
                    caller@,
                    position_id as nat,
                    collateral as nat,
                    token@,
                ) is None
                    && id == old(self)@.borrows_number
                    && final(self)@ == old(self)@.supply_collateral_and_borrow(
                        caller@,
                        position_id as nat,
                        collateral as nat,
                        token@,
                        now as nat,
                    ),
                Err(e) => old(self)@.supply_collateral_and_borrow_refusal(
                    caller@,
                    position_id as nat,
                    collateral as nat,
                    token@,
                ) == Some(e)
                    && final(self)@ == old(self)@,
            },
    {
        match self.supply_collateral_and_borrow_refusal(caller, position_id, collateral, token) {
            Some(e) => {
                return Err(e);
            },
            None => {},
        }
        let to_borrow = compute_amount_to_borrow(collateral);
        self.balances_map.credit(caller, token, to_borrow);
        let _ = self.reserves.increase_borrowed(token, to_borrow);
        let id = self.borrows.issue(Borrow {
            asset: token.clone(),
            amount: to_borrow,
            collateral,
            position_id,
            health_factor: OPENING_HEALTH_FACTOR_BPS,
            last_update_timestamp: now,
            apr: APR_BORROW,
            fees: 0,
        });
        proof {
            lemma_supply_collateral_and_borrow_keeps_order(
                old(self)@,
                caller@,
                position_id as nat,
                collateral as nat,
                token@,
                now as nat,
            );
        }
        Ok(id)
    }

    /// Why `caller` cannot repay the borrow `borrow_id`, if anything.
    pub fn return_collateral_and_repay_refusal(
        &self,
        caller: &String,
        borrow_id: BorrowId,
    ) -> (refusal: Option<LedgerError>)
        requires
            self.wf(),
        ensures
            refusal == self@.return_collateral_and_repay_refusal(caller@, borrow_id as nat),
    {
        match self.borrows.get(borrow_id) {
            None => Some(LedgerError::BorrowNotFound),
            Some(borrow) => {
                let token_id = decimal_string(borrow.position_id);
                if !self.account_owns_nft_on_lending(&token_id, caller) {
                    return Some(LedgerError::NotCollateralOwner);
                }
                if borrow.is_liquidatable() {
                    return Some(LedgerError::HealthFactorTooLow);
                }
                match self.reserves.get(&borrow.asset) {
                    None => Some(LedgerError::ReserveNotFound),
                    Some(reserve) => {
                        if borrow.amount > reserve.borrowed {
                            Some(LedgerError::ReserveUnderflow)
                        } else {
                            None
                        }
                    },
                }
            },
        }
    }

    /// Whether the caller's balance stays within 128 bits if the borrow is
    /// repaid. A call that is refused anyway fits.
    pub fn return_collateral_and_repay_fits(
        &self,
        caller: &String,
        borrow_id: BorrowId,
    ) -> (fits: bool)
        requires
            self.wf(),
        ensures
            fits == self@.return_collateral_and_repay_fits(caller@, borrow_id as nat),
    {
        if self.return_collateral_and_repay_refusal(caller, borrow_id).is_some() {
            return true;
        }
        match self.borrows.get(borrow_id) {
            None => true,
            Some(borrow) => {
                self.balances_map.balance_of(caller, &borrow.asset) <= u128::MAX - borrow.repayment()
            },
        }
    }

    /// Repays the borrow `borrow_id` and releases its collateral. The caller
    /// must be the recorded owner of the collateral item, and the position
    /// must be safe: a borrower cannot walk away from a position that may be
    /// liquidated. The debt less the fees goes to the caller's balance, or
    /// nothing where the fees have outgrown the debt; the whole debt is taken
    /// off what the reserve has lent out, the collateral item is no longer
    /// locked, and the borrow is gone. Returns the collateral item to hand
    /// back.
    pub fn return_collateral_and_repay(
        &mut self,
        caller: &String,
        borrow_id: BorrowId,
    ) -> (outcome: Result<u128, LedgerError>)
        requires
            old(self).wf(),
            old(self)@.return_collateral_and_repay_fits(caller@, borrow_id as nat),
        ensures
            final(self).wf(),
            match outcome {
                Ok(position_id) => old(self)@.return_collateral_and_repay_refusal(
                    caller@,
                    borrow_id as nat,
                ) is None
                    && position_id == old(self)@.borrows[borrow_id as nat].position_id && final(self)@ == old(
                    self,
                )@.return_collateral_and_repay(caller@, borrow_id as nat),
                Err(e) => old(self)@.return_collateral_and_repay_refusal(caller@, borrow_id as nat) == Some(e)
                    && final(self)@ == old(self)@,
            },
    {
        match self.return_collateral_and_repay_refusal(caller, borrow_id) {
            Some(e) => {
                return Err(e);
            },
            None => {},
        }
        let borrow = self.borrows.remove(borrow_id).unwrap();
        self.balances_map.credit(caller, &borrow.asset, borrow.repayment());
        let _ = self.reserves.decrease_borrowed(&borrow.asset, borrow.amount);
        let token_id = decimal_string(borrow.position_id);
        let _ = self.locked_nfts.remove(&token_id);
        proof {
            lemma_return_collateral_and_repay_keeps_order(old(self)@, caller@, borrow_id as nat);
        }
        Ok(borrow.position_id)
    }

    /// Values the collateral of the borrow `borrow_id` at `collateral`, as
    /// the valuation feed reports it, and computes the health factor anew.
    pub fn update_collateral_value(
        &mut self,
        borrow_id: BorrowId,
        collateral: u128,
    ) -> (outcome: Result<(), LedgerError>)
        requires
            old(self).wf(),
        ensures
            final(self).wf(),
            match outcome {
                Ok(()) => old(self)@.update_collateral_value_refusal(borrow_id as nat) is None && final(self)@
                    == old(self)@.update_collateral_value(borrow_id as nat, collateral as nat),
                Err(e) => old(self)@.update_collateral_value_refusal(borrow_id as nat) == Some(e)
                    && final(self)@ == old(self)@,
            },
    {
        proof {
            self.borrows.lemma_ids_created();
        }
        match self.borrows.remove(borrow_id) {
            None => {
                assert(self@.borrows =~= old(self)@.borrows);
                Err(LedgerError::BorrowNotFound)
            },
            Some(mut borrow) => {
                borrow.revalue(collateral);
                self.borrows.put(borrow_id, borrow);
                assert(self@.borrows =~= old(self)@.update_collateral_value(
                    borrow_id as nat,
                    collateral as nat,
                ).borrows);
                proof {
                    lemma_update_collateral_value_keeps_order(old(self)@, borrow_id as nat, collateral as nat);
                }
                Ok(())
            },
        }
    }
}

} // verus!
