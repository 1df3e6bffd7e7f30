//! The operations of the ledger as values, and runs of them.
//!
//! A run applies operations one after the other; a refused operation leaves
//! the state as it was. What holds after every run holds of every state the
//! ledger can reach.
use vstd::prelude::*;
use crate::errors::LedgerError;
use crate::state::ContractView;

verus! {

/// One call of an operation of the ledger, with its arguments.
pub enum Operation {
    /// [`crate::contract::Contract::deposit_ft`] and
    /// [`crate::contract::Contract::increase_balance`].
    Credit { account: Seq<char>, asset: Seq<char>, amount: nat },
    /// [`crate::contract::Contract::decrease_balance`] and
    /// [`crate::contract::Contract::balance_withdraw`].
    Debit { account: Seq<char>, asset: Seq<char>, amount: nat },
    /// [`crate::contract::Contract::create_reserve`].
    CreateReserve { caller: Seq<char>, asset: Seq<char> },
    /// [`crate::contract::Contract::on_collateral_received`].
    CollateralReceived { token_id: Seq<char>, owner: Seq<char> },
    /// [`crate::contract::Contract::create_deposit`].
    CreateDeposit { caller: Seq<char>, asset: Seq<char>, amount: nat, now: nat },
    /// [`crate::contract::Contract::close_deposit`].
    CloseDeposit { caller: Seq<char>, id: nat, now: nat },
    /// [`crate::contract::Contract::refresh_deposits_growth`].
    RefreshDepositsGrowth { now: nat },
    /// [`crate::contract::Contract::take_deposit_growth`].
    TakeDepositGrowth { caller: Seq<char>, id: nat, requested: nat, now: nat },
    /// [`crate::contract::Contract::supply_collateral_and_borrow`].
    SupplyCollateralAndBorrow { caller: Seq<char>, position_id: nat, collateral: nat, asset: Seq<char>, now: nat },
    /// [`crate::contract::Contract::return_collateral_and_repay`].
    ReturnCollateralAndRepay { caller: Seq<char>, id: nat },
    /// [`crate::contract::Contract::update_collateral_value`].
    UpdateCollateralValue { id: nat, collateral: nat },
    /// [`crate::contract::Contract::liquidate`].
    Liquidate { id: nat, amount_in: nat, amount_out: nat },
}

impl ContractView {
    /// Why the operation is refused in this state, if it is.
    pub open spec fn refusal(self, operation: Operation) -> Option<LedgerError> {
        match operation {
            Operation::Credit { .. } => None,
            Operation::Debit { account, asset, amount } => self.debit_refusal(account, asset, amount),
            Operation::CreateReserve { caller, asset } => self.create_reserve_refusal(caller, asset),
            Operation::CollateralReceived { .. } => None,
            Operation::CreateDeposit { caller, asset, amount, now } => self.create_deposit_refusal(
                caller,
                asset,
                amount,
            ),
            Operation::CloseDeposit { caller, id, now } => self.close_deposit_refusal(caller, id),
            Operation::RefreshDepositsGrowth { .. } => None,
            Operation::TakeDepositGrowth { caller, id, requested, now } => self.deposit_access_refusal(
                caller,
                id,
            ),
            Operation::SupplyCollateralAndBorrow { caller, position_id, collateral, asset, now } =>
                self.supply_collateral_and_borrow_refusal(caller, position_id, collateral, asset),
            Operation::ReturnCollateralAndRepay { caller, id } => self.return_collateral_and_repay_refusal(
                caller,
                id,
            ),
            Operation::UpdateCollateralValue { id, collateral } => self.update_collateral_value_refusal(id),
            Operation::Liquidate { id, amount_in, amount_out } => self.liquidate_refusal(
                id,
                amount_in,
                amount_out,
            ),
        }
    }

    /// The state after the operation: changed as the operation says where it
    /// is accepted, and as it was where it is refused.
    pub open spec fn apply(self, operation: Operation) -> ContractView {
        if self.refusal(operation) is Some {
            self
        } else {
            match operation {
                Operation::Credit { account, asset, amount } => self.credit(account, asset, amount),
                Operation::Debit { account, asset, amount } => self.debit(account, asset, amount),
                Operation::CreateReserve { caller, asset } => self.create_reserve(asset),
                Operation::CollateralReceived { token_id, owner } => self.collateral_received(token_id, owner),
                Operation::CreateDeposit { caller, asset, amount, now } => self.create_deposit(
                    caller,
                    asset,
                    amount,
                    now,
                ),
                Operation::CloseDeposit { caller, id, now } => self.close_deposit(id, now),
                Operation::RefreshDepositsGrowth { now } => self.refresh_deposits_growth(now),
                Operation::TakeDepositGrowth { caller, id, requested, now } => self.take_deposit_growth(
                    id,
                    requested,
                    now,
                ),
                Operation::SupplyCollateralAndBorrow { caller, position_id, collateral, asset, now } =>
                    self.supply_collateral_and_borrow(caller, position_id, collateral, asset, now),
                Operation::ReturnCollateralAndRepay { caller, id } => self.return_collateral_and_repay(
                    caller,
                    id,
                ),
                Operation::UpdateCollateralValue { id, collateral } => self.update_collateral_value(
                    id,
                    collateral,
                ),
                Operation::Liquidate { id, amount_in, amount_out } => self.liquidate(id, amount_out),
            }
        }
    }

    /// The state after the operations were applied one after the other.
    pub open spec fn run(self, operations: Seq<Operation>) -> ContractView
        decreases operations.len(),
    {
        if operations.len() == 0 {
            self
        } else {
            self.run(operations.drop_last()).apply(operations.last())
        }
    }
}

} // verus!
