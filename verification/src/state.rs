//! The ledger as a mathematical state, and its operations as transitions.
//!
//! Each operation has a `*_refusal` function that names the failure an input
//! meets first, if any, and a transition function that gives the state after
//! an accepted call. The executable ledger is proved to follow both.
use vstd::prelude::*;
use crate::balance::{balance_in, can_debit, credited, debited, Balances};
use crate::borrow::{amount_to_borrow, is_liquidatable, opened_borrow, BorrowView};
use crate::decimal::decimal_text;
use crate::deposit::{opened_deposit, DepositView};
use crate::errors::LedgerError;
use crate::totals::{borrowed_total, deposited_total};
use crate::reserve::{
    all_solvent, borrowed_decreased, borrowed_increased, decrease_borrowed_refusal, deposited_decreased,
    deposited_increased, increase_deposited_refusal, opened, outflow_refusal, Reserves,
};

verus! {

/// Annual rate that deposits earn, in basis points.
pub const APR_DEPOSIT: u16 = 500;

/// Annual rate that borrows are charged, in basis points.
pub const APR_BORROW: u16 = 1000;

/// Every open deposit has an identifier that was handed out, and is in an
/// asset that has a reserve.
pub open spec fn deposits_in_order(deposits: Map<nat, DepositView>, created: nat, reserves: Reserves) -> bool {
    forall|id: nat| #[trigger]
        deposits.contains_key(id) ==> id < created && reserves.contains_key(deposits[id].asset)
}

/// Every open borrow has an identifier that was handed out, and is in an
/// asset that has a reserve.
pub open spec fn borrows_in_order(borrows: Map<nat, BorrowView>, created: nat, reserves: Reserves) -> bool {
    forall|id: nat| #[trigger]
        borrows.contains_key(id) ==> id < created && reserves.contains_key(borrows[id].asset)
}

/// The deposited total of every reserve is the principal of the open
/// deposits in its asset.
pub open spec fn deposits_backed(deposits: Map<nat, DepositView>, created: nat, reserves: Reserves) -> bool {
    forall|asset: Seq<char>| #[trigger]
        reserves.contains_key(asset) ==> reserves[asset].deposited == deposited_total(deposits, created, asset)
}

/// The borrowed total of every reserve covers the outstanding amounts of the
/// open borrows in its asset.
pub open spec fn borrows_covered(borrows: Map<nat, BorrowView>, created: nat, reserves: Reserves) -> bool {
    forall|asset: Seq<char>| #[trigger]
        reserves.contains_key(asset) ==> borrowed_total(borrows, created, asset) <= reserves[asset].borrowed
}

/// The model of the whole ledger.
pub struct ContractView {
    /// The administrator.
    pub owner_id: Seq<char>,
    /// The owner of each locked collateral item, by the item's name.
    pub locked_nfts: Map<Seq<char>, Seq<char>>,
    /// The spendable balances.
    pub balances: Balances,
    /// The open deposits.
    pub deposits: Map<nat, DepositView>,
    /// How many deposits were ever opened; the next deposit's identifier.
    pub deposits_created_number: nat,
    /// The reserves by asset.
    pub reserves: Reserves,
    /// The open borrows.
    pub borrows: Map<nat, BorrowView>,
    /// How many borrows were ever opened; the next borrow's identifier.
    pub borrows_number: nat,
}

impl ContractView {
    /// A ledger that `owner_id` administers and that holds nothing yet.
    pub open spec fn initial(owner_id: Seq<char>) -> ContractView {
        ContractView {
            owner_id,
            locked_nfts: Map::empty(),
            balances: Map::empty(),
            deposits: Map::empty(),
            deposits_created_number: 0,
            reserves: Map::empty(),
            borrows: Map::empty(),
            borrows_number: 0,
        }
    }

    /// What holds of the ledger between operations: every reserve is solvent,
    /// the deposits and the borrows are in order, and the totals of the
    /// reserves agree with them.
    pub open spec fn wf(self) -> bool {
        &&& all_solvent(self.reserves)
        &&& deposits_in_order(self.deposits, self.deposits_created_number, self.reserves)
        &&& borrows_in_order(self.borrows, self.borrows_number, self.reserves)
        &&& deposits_backed(self.deposits, self.deposits_created_number, self.reserves)
        &&& borrows_covered(self.borrows, self.borrows_number, self.reserves)
    }

    /// Whether `account` is recorded as the owner of the collateral item `token_id`.
    pub open spec fn owns_collateral(self, token_id: Seq<char>, account: Seq<char>) -> bool {
        self.locked_nfts.contains_key(token_id) && self.locked_nfts[token_id] == account
    }

    // ---- balances ----
    /// The state after `amount` of `asset` was credited to `account`.
    pub open spec fn credit(self, account: Seq<char>, asset: Seq<char>, amount: nat) -> ContractView {
        ContractView { balances: credited(self.balances, account, asset, amount), ..self }
    }

    /// Why `amount` of `asset` cannot be debited from `account`, if anything.
    pub open spec fn debit_refusal(self, account: Seq<char>, asset: Seq<char>, amount: nat) -> Option<
        LedgerError,
    > {
        if !can_debit(self.balances, account, asset, amount) {
            Some(LedgerError::InsufficientBalance)
        } else {
            None
        }
    }

    /// The state after `amount` of `asset` was debited from `account`.
    pub open spec fn debit(self, account: Seq<char>, asset: Seq<char>, amount: nat) -> ContractView {
        ContractView { balances: debited(self.balances, account, asset, amount), ..self }
    }

    // ---- reserves ----
    /// Why `caller` cannot open a reserve for `asset`, if anything.
    pub open spec fn create_reserve_refusal(self, caller: Seq<char>, asset: Seq<char>) -> Option<LedgerError> {
        if caller != self.owner_id {
            Some(LedgerError::Unauthorized)
        } else if self.reserves.contains_key(asset) {
            Some(LedgerError::ReserveAlreadyExists)
        } else {
            None
        }
    }

    /// The state with a zeroed reserve for `asset`.
    pub open spec fn create_reserve(self, asset: Seq<char>) -> ContractView {
        ContractView { reserves: opened(self.reserves, asset), ..self }
    }

    // ---- collateral ----
    /// The state after the collateral item `token_id` was locked for `owner`.
    /// An item that was locked before goes over to the new owner.
    pub open spec fn collateral_received(self, token_id: Seq<char>, owner: Seq<char>) -> ContractView {
        ContractView { locked_nfts: self.locked_nfts.insert(token_id, owner), ..self }
    }

    // ---- deposits ----
    /// Why `caller` cannot open a deposit of `amount` of `asset`, if anything.
    pub open spec fn create_deposit_refusal(self, caller: Seq<char>, asset: Seq<char>, amount: nat) -> Option<
        LedgerError,
    > {
        if !can_debit(self.balances, caller, asset, amount) {
            Some(LedgerError::InsufficientBalance)
        } else {
            increase_deposited_refusal(self.reserves, asset)
        }
    }

    /// The state after `caller` opened a deposit of `amount` of `asset` at
    /// `now`. The deposit has the identifier `self.deposits_created_number`.
    pub open spec fn create_deposit(
        self,
        caller: Seq<char>,
        asset: Seq<char>,
        amount: nat,
        now: nat,
    ) -> ContractView {
        ContractView {
            balances: debited(self.balances, caller, asset, amount),
            deposits: self.deposits.insert(
                self.deposits_created_number,
                opened_deposit(caller, asset, amount, APR_DEPOSIT as nat, now),
            ),
            deposits_created_number: self.deposits_created_number + 1,
            reserves: deposited_increased(self.reserves, asset, amount),
            ..self
        }
    }

    /// Why `caller` cannot use the deposit `id` as its owner, if anything.
    pub open spec fn deposit_access_refusal(self, caller: Seq<char>, id: nat) -> Option<LedgerError> {
        if !self.deposits.contains_key(id) {
            Some(LedgerError::DepositNotFound)
        } else if self.deposits[id].owner_id != caller {
            Some(LedgerError::NotOwner)
        } else {
            None
        }
    }

    /// Why `caller` cannot close the deposit `id`, if anything.
    pub open spec fn close_deposit_refusal(self, caller: Seq<char>, id: nat) -> Option<LedgerError> {
        if self.deposit_access_refusal(caller, id) is Some {
            self.deposit_access_refusal(caller, id)
        } else {
            outflow_refusal(self.reserves, self.deposits[id].asset, self.deposits[id].amount)
        }
    }

    /// What closing the deposit `id` at `now` pays out: the principal and the
    /// growth accrued up to `now`.
    pub open spec fn close_deposit_payout(self, id: nat, now: nat) -> nat {
        self.deposits[id].amount + self.deposits[id].refreshed(now).growth
    }

    /// The state after the deposit `id` was closed at `now`.
    pub open spec fn close_deposit(self, id: nat, now: nat) -> ContractView {
        let deposit = self.deposits[id];
        ContractView {
            balances: credited(
                self.balances,
                deposit.owner_id,
                deposit.asset,
                self.close_deposit_payout(id, now),
            ),
            deposits: self.deposits.remove(id),
            reserves: deposited_decreased(self.reserves, deposit.asset, deposit.amount),
            ..self
        }
    }

    /// The state after the growth of every open deposit was accrued up to `now`.
    pub open spec fn refresh_deposits_growth(self, now: nat) -> ContractView {
        ContractView {
            deposits: Map::new(
                |id: nat| self.deposits.contains_key(id),
                |id: nat| self.deposits[id].refreshed(now),
            ),
            ..self
        }
    }

    /// What a claim of `requested` on the deposit `id` at `now` releases.
    pub open spec fn take_deposit_growth_released(self, id: nat, requested: nat, now: nat) -> nat {
        self.deposits[id].refreshed(now).released(requested)
    }

    /// The state after `requested` of the growth of the deposit `id` was
    /// claimed at `now`.
    pub open spec fn take_deposit_growth(self, id: nat, requested: nat, now: nat) -> ContractView {
        let deposit = self.deposits[id];
        ContractView {
            balances: credited(
                self.balances,
                deposit.owner_id,
                deposit.asset,
                self.take_deposit_growth_released(id, requested, now),
            ),
            deposits: self.deposits.insert(id, deposit.refreshed(now).after_take(requested)),
            ..self
        }
    }

    /// Whether the totals that opening the deposit would reach fit in 128
    /// bits, where the deposit is not refused.
    pub open spec fn create_deposit_fits(self, caller: Seq<char>, asset: Seq<char>, amount: nat) -> bool {
        self.create_deposit_refusal(caller, asset, amount) is None ==> self.reserves[asset].deposited + amount
            <= u128::MAX
    }

    /// Whether the balance that closing the deposit at `now` would reach
    /// fits in 128 bits, where closing is not refused.
    pub open spec fn close_deposit_fits(self, caller: Seq<char>, id: nat, now: nat) -> bool {
        self.close_deposit_refusal(caller, id) is None ==> balance_in(
            self.balances,
            self.deposits[id].owner_id,
            self.deposits[id].asset,
        ) + self.close_deposit_payout(id, now) <= u128::MAX
    }

    /// Whether the growth of every open deposit, accrued up to `now`, fits in
    /// 128 bits.
    pub open spec fn refresh_deposits_growth_fits(self, now: nat) -> bool {
        forall|id: nat| #[trigger]
            self.deposits.contains_key(id) ==> self.deposits[id].refreshed(now).growth <= u128::MAX
    }

    /// Whether the growth of the deposit, accrued up to `now`, and the
    /// balance that the claim would reach fit in 128 bits, where the claim is
    /// not refused.
    pub open spec fn take_deposit_growth_fits(
        self,
        caller: Seq<char>,
        id: nat,
        requested: nat,
        now: nat,
    ) -> bool {
        self.deposit_access_refusal(caller, id) is None ==> {
            &&& self.deposits[id].refreshed(now).growth <= u128::MAX
            &&& balance_in(self.balances, self.deposits[id].owner_id, self.deposits[id].asset)
                + self.take_deposit_growth_released(id, requested, now) <= u128::MAX
        }
    }

    /// The open deposits of `account`, by their identifiers.
    pub open spec fn deposits_of(self, account: Seq<char>) -> Map<nat, DepositView> {
        Map::new(
            |id: nat| self.deposits.contains_key(id) && self.deposits[id].owner_id == account,
            |id: nat| self.deposits[id],
        )
    }

    // ---- borrows ----
    /// Why `caller` cannot borrow `asset` against the collateral item
    /// `position_id` worth `collateral`, if anything.
    pub open spec fn supply_collateral_and_borrow_refusal(
        self,
        caller: Seq<char>,
        position_id: nat,
        collateral: nat,
        asset: Seq<char>,
    ) -> Option<LedgerError> {
        if !self.owns_collateral(decimal_text(position_id), caller) {
            Some(LedgerError::NotCollateralOwner)
        } else {
            outflow_refusal(self.reserves, asset, amount_to_borrow(collateral))
        }
    }

    /// The state after `caller` borrowed `asset` at `now` against the
    /// collateral item `position_id` worth `collateral`. The borrow has the
    /// identifier `self.borrows_number`.
    pub open spec fn supply_collateral_and_borrow(
        self,
        caller: Seq<char>,
        position_id: nat,
        collateral: nat,
        asset: Seq<char>,
        now: nat,
    ) -> ContractView {
        ContractView {
            balances: credited(self.balances, caller, asset, amount_to_borrow(collateral)),
            reserves: borrowed_increased(self.reserves, asset, amount_to_borrow(collateral)),
            borrows: self.borrows.insert(
                self.borrows_number,
                opened_borrow(asset, collateral, position_id, APR_BORROW as nat, now),
            ),
            borrows_number: self.borrows_number + 1,
            ..self
        }
    }

    /// Whether the balance that the borrow would bring `caller` to fits in 128
    /// bits, where the borrow is not refused.
    pub open spec fn supply_collateral_and_borrow_fits(
        self,
        caller: Seq<char>,
        position_id: nat,
        collateral: nat,
        asset: Seq<char>,
    ) -> bool {
        self.supply_collateral_and_borrow_refusal(caller, position_id, collateral, asset) is None ==>
            balance_in(
            self.balances,
            caller,
            asset,
        ) + amount_to_borrow(collateral) <= u128::MAX
    }

    /// Why `caller` cannot repay the borrow `id`, if anything.
    pub open spec fn return_collateral_and_repay_refusal(
        self,
        caller: Seq<char>,
        id: nat,
    ) -> Option<LedgerError> {
        if !self.borrows.contains_key(id) {
            Some(LedgerError::BorrowNotFound)
        } else if !self.owns_collateral(decimal_text(self.borrows[id].position_id), caller) {
            Some(LedgerError::NotCollateralOwner)
        } else if is_liquidatable(self.borrows[id].health_factor) {
            Some(LedgerError::HealthFactorTooLow)
        } else {
            decrease_borrowed_refusal(self.reserves, self.borrows[id].asset, self.borrows[id].amount)
        }
    }

    /// The state after `caller` repaid the borrow `id`: the debt less the
    /// fees is credited, or nothing where the fees have outgrown the debt;
    /// the reserve gets the whole debt back; the collateral item is
    /// released; and the borrow is gone.
    pub open spec fn return_collateral_and_repay(self, caller: Seq<char>, id: nat) -> ContractView {
        let borrow = self.borrows[id];
        ContractView {
            balances: credited(self.balances, caller, borrow.asset, borrow.repayment()),
            reserves: borrowed_decreased(self.reserves, borrow.asset, borrow.amount),
            locked_nfts: self.locked_nfts.remove(decimal_text(borrow.position_id)),
            borrows: self.borrows.remove(id),
            ..self
        }
    }

    /// Whether the balance that the repayment would bring `caller` to fits in
    /// 128 bits, where the repayment is not refused.
    pub open spec fn return_collateral_and_repay_fits(self, caller: Seq<char>, id: nat) -> bool {
        self.return_collateral_and_repay_refusal(caller, id) is None ==> balance_in(
            self.balances,
            caller,
            self.borrows[id].asset,
        ) + self.borrows[id].repayment() <= u128::MAX
    }

    /// Why the collateral of the borrow `id` cannot be valued anew, if anything.
    pub open spec fn update_collateral_value_refusal(self, id: nat) -> Option<LedgerError> {
        if !self.borrows.contains_key(id) {
            Some(LedgerError::BorrowNotFound)
        } else {
            None
        }
    }

    /// The state after the collateral of the borrow `id` was valued at `collateral`.
    pub open spec fn update_collateral_value(self, id: nat, collateral: nat) -> ContractView {
        ContractView { borrows: self.borrows.insert(id, self.borrows[id].revalued(collateral)), ..self }
    }

    // ---- liquidation ----
    /// Whether the borrow `id` is open and may be liquidated.
    pub open spec fn liquidatable(self, id: nat) -> bool {
        self.borrows.contains_key(id) && is_liquidatable(self.borrows[id].health_factor)
    }

    /// Whether `found` is the first borrow from `from` on that may be
    /// liquidated, or `None` where there is none.
    pub open spec fn is_next_liquidatable(self, from: nat, found: Option<nat>) -> bool {
        match found {
            Some(id) => from <= id && self.liquidatable(id) && forall|k: nat|
                from <= k < id ==> !#[trigger] self.liquidatable(k),
            None => forall|k: nat| from <= k ==> !#[trigger] self.liquidatable(k),
        }
    }

    /// Whether `listing` holds the borrows that may be liquidated, in the
    /// order of their identifiers.
    pub open spec fn lists_liquidatable(self, listing: Seq<nat>) -> bool {
        &&& forall|i: int| 0 <= i < listing.len() ==> self.liquidatable(#[trigger] listing[i])
        &&& forall|i: int, j: int| 0 <= i < j < listing.len() ==> #[trigger] listing[i] < #[trigger] listing[j]
        &&& forall|id: nat| #[trigger]
            self.liquidatable(id) ==> exists|i: int| 0 <= i < listing.len() && #[trigger] listing[i] == id
    }

    /// Why the borrow `id` cannot be liquidated by `amount_out` for a payment
    /// of `amount_in`, if anything.
    pub open spec fn liquidate_refusal(self, id: nat, amount_in: nat, amount_out: nat) -> Option<LedgerError> {
        if !self.borrows.contains_key(id) {
            Some(LedgerError::BorrowNotFound)
        } else {
            self.borrows[id].liquidation_refusal(amount_in, amount_out)
        }
    }

    /// The state after `amount_out` of the borrow `id` was liquidated.
    pub open spec fn liquidate(self, id: nat, amount_out: nat) -> ContractView {
        ContractView { borrows: self.borrows.insert(id, self.borrows[id].liquidated(amount_out)), ..self }
    }
}

} // verus!
