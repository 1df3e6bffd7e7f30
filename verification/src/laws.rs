//! What holds of the ledger whatever it is asked to do.
use vstd::prelude::*;
use crate::balance::{balance_in, can_debit, credited, debited, Balances};
use crate::borrow::{amount_to_borrow, health_factor, is_liquidatable, payment_covers, BorrowView};
use crate::decimal::decimal_text;
use crate::deposit::{lemma_no_time_no_growth, DepositView};
use crate::errors::LedgerError;
use crate::fixed::BPS;
use crate::operation::Operation;
use crate::reserve::ReserveView;
use crate::state::ContractView;
use crate::totals::{
    borrow_weight, borrowed_total, deposit_weight, deposited_total, lemma_borrowed_total_change,
    lemma_borrow_within_total, lemma_borrowed_total_none, lemma_deposit_within_total,
    lemma_deposited_total_change, lemma_deposited_total_none,
};

verus! {

// ------------------------------------------------------------------ balances
/// Crediting an amount and debiting it again is accepted and leaves every
/// balance as it was.
pub proof fn law_credit_then_debit(balances: Balances, account: Seq<char>, asset: Seq<char>, amount: nat)
    ensures
        can_debit(credited(balances, account, asset, amount), account, asset, amount),
        forall|any_account: Seq<char>, any_asset: Seq<char>|
            balance_in(
                debited(credited(balances, account, asset, amount), account, asset, amount),
                any_account,
                any_asset,
            ) == balance_in(balances, any_account, any_asset),
{
}

/// The same of the ledger as a whole: a credit followed by a debit of the
/// same amount is accepted, and every account can spend what it could before.
pub proof fn law_ledger_credit_then_debit(
    state: ContractView,
    account: Seq<char>,
    asset: Seq<char>,
    amount: nat,
)
    ensures
        state.credit(account, asset, amount).debit_refusal(account, asset, amount) is None,
        forall|any_account: Seq<char>, any_asset: Seq<char>|
            balance_in(
                state.credit(account, asset, amount).debit(account, asset, amount).balances,
                any_account,
                any_asset,
            ) == balance_in(state.balances, any_account, any_asset),
{
    law_credit_then_debit(state.balances, account, asset, amount);
}

/// A debit of more than the account can spend is refused, with
/// `InsufficientBalance`, and a refused operation changes nothing.
pub proof fn law_overdraft_refused(state: ContractView, account: Seq<char>, asset: Seq<char>, amount: nat)
    requires
        amount > balance_in(state.balances, account, asset),
    ensures
        !can_debit(state.balances, account, asset, amount),
        state.debit_refusal(account, asset, amount) == Some(LedgerError::InsufficientBalance),
        state.apply(Operation::Debit { account, asset, amount }) == state,
{
}

// ------------------------------------------------------------------ reserves
/// Opening a reserve keeps the ledger in order.
pub proof fn lemma_create_reserve_keeps_order(state: ContractView, caller: Seq<char>, asset: Seq<char>)
    requires
        state.wf(),
        state.create_reserve_refusal(caller, asset) is None,
    ensures
        state.create_reserve(asset).wf(),
{
    let after = state.create_reserve(asset);
    assert forall|a: Seq<char>| #[trigger] after.reserves.contains_key(a) implies after.reserves[a].deposited
        == deposited_total(after.deposits, after.deposits_created_number, a) && borrowed_total(
        after.borrows,
        after.borrows_number,
        a,
    ) <= after.reserves[a].borrowed by {
        if a == asset {
            assert forall|k: nat| k < state.deposits_created_number implies #[trigger] deposit_weight(
                state.deposits,
                k,
                a,
            ) == 0 by {
                if state.deposits.contains_key(k) {
                    assert(state.reserves.contains_key(state.deposits[k].asset));
                }
            }
            lemma_deposited_total_none(state.deposits, state.deposits_created_number, a);
            assert forall|k: nat| k < state.borrows_number implies #[trigger] borrow_weight(state.borrows, k, a)
                == 0 by {
                if state.borrows.contains_key(k) {
                    assert(state.reserves.contains_key(state.borrows[k].asset));
                }
            }
            lemma_borrowed_total_none(state.borrows, state.borrows_number, a);
        } else {
            assert(state.reserves.contains_key(a));
        }
    }
}

/// Opening a deposit keeps the ledger in order.
pub proof fn lemma_create_deposit_keeps_order(
    state: ContractView,
    caller: Seq<char>,
    asset: Seq<char>,
    amount: nat,
    now: nat,
)
    requires
        state.wf(),
        state.create_deposit_refusal(caller, asset, amount) is None,
    ensures
        state.create_deposit(caller, asset, amount, now).wf(),
{
    let after = state.create_deposit(caller, asset, amount, now);
    let id = state.deposits_created_number;
    assert(!state.deposits.contains_key(id));
    assert forall|a: Seq<char>| #[trigger] after.reserves.contains_key(a) implies after.reserves[a].deposited
        == deposited_total(after.deposits, after.deposits_created_number, a) && borrowed_total(
        after.borrows,
        after.borrows_number,
        a,
    ) <= after.reserves[a].borrowed by {
        assert(state.reserves.contains_key(a));
        lemma_deposited_total_change(state.deposits, after.deposits, id, a, id);
    }
}

/// Closing a deposit keeps the ledger in order.
pub proof fn lemma_close_deposit_keeps_order(state: ContractView, caller: Seq<char>, id: nat, now: nat)
    requires
        state.wf(),
        state.close_deposit_refusal(caller, id) is None,
    ensures
        state.close_deposit(id, now).wf(),
{
    let after = state.close_deposit(id, now);
    assert forall|a: Seq<char>| #[trigger] after.reserves.contains_key(a) implies after.reserves[a].deposited
        == deposited_total(after.deposits, after.deposits_created_number, a) && borrowed_total(
        after.borrows,
        after.borrows_number,
        a,
    ) <= after.reserves[a].borrowed by {
        assert(state.reserves.contains_key(a));
        lemma_deposited_total_change(state.deposits, after.deposits, state.deposits_created_number, a, id);
    }
}

/// Accruing the growth of all deposits keeps the ledger in order.
pub proof fn lemma_refresh_deposits_growth_keeps_order(state: ContractView, now: nat)
    requires
        state.wf(),
    ensures
        state.refresh_deposits_growth(now).wf(),
{
    let after = state.refresh_deposits_growth(now);
    assert forall|id: nat| #[trigger] after.deposits.contains_key(id) implies id < after.deposits_created_number
        && after.reserves.contains_key(after.deposits[id].asset) by {
        assert(state.deposits.contains_key(id));
    }
    assert forall|a: Seq<char>| #[trigger] after.reserves.contains_key(a) implies after.reserves[a].deposited
        == deposited_total(after.deposits, after.deposits_created_number, a) by {
        lemma_deposited_total_change(
            state.deposits,
            after.deposits,
            state.deposits_created_number,
            a,
            state.deposits_created_number,
        );
    }
}

/// Claiming growth keeps the ledger in order.
pub proof fn lemma_take_deposit_growth_keeps_order(
    state: ContractView,
    caller: Seq<char>,
    id: nat,
    requested: nat,
    now: nat,
)
    requires
        state.wf(),
        state.deposit_access_refusal(caller, id) is None,
    ensures
        state.take_deposit_growth(id, requested, now).wf(),
{
    let after = state.take_deposit_growth(id, requested, now);
    assert forall|a: Seq<char>| #[trigger] after.reserves.contains_key(a) implies after.reserves[a].deposited
        == deposited_total(after.deposits, after.deposits_created_number, a) by {
        lemma_deposited_total_change(
            state.deposits,
            after.deposits,
            state.deposits_created_number,
            a,
            state.deposits_created_number,
        );
    }
}

/// Opening a borrow keeps the ledger in order.
pub proof fn lemma_supply_collateral_and_borrow_keeps_order(
    state: ContractView,
    caller: Seq<char>,
    position_id: nat,
    collateral: nat,
    asset: Seq<char>,
    now: nat,
)
    requires
        state.wf(),
        state.supply_collateral_and_borrow_refusal(caller, position_id, collateral, asset) is None,
    ensures
        state.supply_collateral_and_borrow(caller, position_id, collateral, asset, now).wf(),
{
    let after = state.supply_collateral_and_borrow(caller, position_id, collateral, asset, now);
    let id = state.borrows_number;
    assert(!state.borrows.contains_key(id));
    assert forall|a: Seq<char>| #[trigger] after.reserves.contains_key(a) implies after.reserves[a].deposited
        == deposited_total(after.deposits, after.deposits_created_number, a) && borrowed_total(
        after.borrows,
        after.borrows_number,
        a,
    ) <= after.reserves[a].borrowed by {
        assert(state.reserves.contains_key(a));
        lemma_borrowed_total_change(state.borrows, after.borrows, id, a, id);
    }
}

/// Repaying a borrow keeps the ledger in order.
pub proof fn lemma_return_collateral_and_repay_keeps_order(state: ContractView, caller: Seq<char>, id: nat)
    requires
        state.wf(),
        state.return_collateral_and_repay_refusal(caller, id) is None,
    ensures
        state.return_collateral_and_repay(caller, id).wf(),
{
    let after = state.return_collateral_and_repay(caller, id);
    assert forall|a: Seq<char>| #[trigger] after.reserves.contains_key(a) implies after.reserves[a].deposited
        == deposited_total(after.deposits, after.deposits_created_number, a) && borrowed_total(
        after.borrows,
        after.borrows_number,
        a,
    ) <= after.reserves[a].borrowed by {
        assert(state.reserves.contains_key(a));
        lemma_borrowed_total_change(state.borrows, after.borrows, state.borrows_number, a, id);
    }
}

/// Valuing collateral anew keeps the ledger in order.
pub proof fn lemma_update_collateral_value_keeps_order(state: ContractView, id: nat, collateral: nat)
    requires
        state.wf(),
        state.update_collateral_value_refusal(id) is None,
    ensures
        state.update_collateral_value(id, collateral).wf(),
{
    let after = state.update_collateral_value(id, collateral);
    assert forall|a: Seq<char>| #[trigger] after.reserves.contains_key(a) implies borrowed_total(
        after.borrows,
        after.borrows_number,
        a,
    ) <= after.reserves[a].borrowed by {
        lemma_borrowed_total_change(
            state.borrows,
            after.borrows,
            state.borrows_number,
            a,
            state.borrows_number,
        );
    }
}

/// A liquidation keeps the ledger in order.
pub proof fn lemma_liquidate_keeps_order(state: ContractView, id: nat, amount_in: nat, amount_out: nat)
    requires
        state.wf(),
        state.liquidate_refusal(id, amount_in, amount_out) is None,
    ensures
        state.liquidate(id, amount_out).wf(),
{
    let after = state.liquidate(id, amount_out);
    assert forall|a: Seq<char>| #[trigger] after.reserves.contains_key(a) implies borrowed_total(
        after.borrows,
        after.borrows_number,
        a,
    ) <= after.reserves[a].borrowed by {
        lemma_borrowed_total_change(state.borrows, after.borrows, state.borrows_number, a, id);
    }
}

/// No operation takes the ledger out of order: where the state is
/// well-formed before, it is well-formed after, be the operation accepted or
/// refused.
pub proof fn law_operation_keeps_order(state: ContractView, operation: Operation)
    requires
        state.wf(),
    ensures
        state.apply(operation).wf(),
{
    if state.refusal(operation) is None {
        match operation {
            Operation::Credit { .. } => {},
            Operation::Debit { .. } => {},
            Operation::CreateReserve { caller, asset } => {
                lemma_create_reserve_keeps_order(state, caller, asset);
            },
            Operation::CollateralReceived { .. } => {},
            Operation::CreateDeposit { caller, asset, amount, now } => {
                lemma_create_deposit_keeps_order(state, caller, asset, amount, now);
            },
            Operation::CloseDeposit { caller, id, now } => {
                lemma_close_deposit_keeps_order(state, caller, id, now);
            },
            Operation::RefreshDepositsGrowth { now } => {
                lemma_refresh_deposits_growth_keeps_order(state, now);
            },
            Operation::TakeDepositGrowth { caller, id, requested, now } => {
                lemma_take_deposit_growth_keeps_order(state, caller, id, requested, now);
            },
            Operation::SupplyCollateralAndBorrow { caller, position_id, collateral, asset, now } => {
                lemma_supply_collateral_and_borrow_keeps_order(
                    state,
                    caller,
                    position_id,
                    collateral,
                    asset,
                    now,
                );
            },
            Operation::ReturnCollateralAndRepay { caller, id } => {
                lemma_return_collateral_and_repay_keeps_order(state, caller, id);
            },
            Operation::UpdateCollateralValue { id, collateral } => {
                lemma_update_collateral_value_keeps_order(state, id, collateral);
            },
            Operation::Liquidate { id, amount_in, amount_out } => {
                lemma_liquidate_keeps_order(state, id, amount_in, amount_out);
            },
        }
    }
}

/// The same of every run of operations.
pub proof fn law_run_keeps_order(state: ContractView, operations: Seq<Operation>)
    requires
        state.wf(),
    ensures
        state.run(operations).wf(),
    decreases operations.len(),
{
    if operations.len() > 0 {
        law_run_keeps_order(state, operations.drop_last());
        law_operation_keeps_order(state.run(operations.drop_last()), operations.last());
    }
}

/// Protocol solvency: whatever operations a new ledger is asked to perform,
/// no reserve ever has more lent out than was deposited.
pub proof fn law_reserves_stay_solvent(owner_id: Seq<char>, operations: Seq<Operation>, asset: Seq<char>)
    ensures
        ({
            let state = ContractView::initial(owner_id).run(operations);
            state.reserves.contains_key(asset) ==> 0 <= state.reserves[asset].borrowed
                <= state.reserves[asset].deposited
        }),
{
    law_run_keeps_order(ContractView::initial(owner_id), operations);
}

/// Whatever operations a new ledger is asked to perform, the deposited total
/// of every reserve is the principal of the open deposits in its asset, and
/// its borrowed total covers the outstanding amounts of the open borrows in
/// its asset.
pub proof fn law_reserve_totals_agree(owner_id: Seq<char>, operations: Seq<Operation>, asset: Seq<char>)
    ensures
        ({
            let state = ContractView::initial(owner_id).run(operations);
            state.reserves.contains_key(asset) ==> {
                &&& state.reserves[asset].deposited == deposited_total(
                    state.deposits,
                    state.deposits_created_number,
                    asset,
                )
                &&& borrowed_total(state.borrows, state.borrows_number, asset) <= state.reserves[asset].borrowed
            }
        }),
{
    law_run_keeps_order(ContractView::initial(owner_id), operations);
}

/// The owner of a deposit can always close it unless the reserve has lent
/// out too much of what was deposited: no other failure is left for the
/// reserve to report.
pub proof fn law_close_refused_for_liquidity_only(state: ContractView, caller: Seq<char>, id: nat)
    requires
        state.wf(),
        state.deposit_access_refusal(caller, id) is None,
    ensures
        state.reserves.contains_key(state.deposits[id].asset),
        state.deposits[id].amount <= state.reserves[state.deposits[id].asset].deposited,
        state.close_deposit_refusal(caller, id) == (if state.deposits[id].amount
            > state.reserves[state.deposits[id].asset].available() {
            Some(LedgerError::ReserveUnderflow)
        } else {
            None
        }),
{
    lemma_deposit_within_total(state.deposits, state.deposits_created_number, state.deposits[id].asset, id);
}

/// The owner of the collateral can always repay a safe position: the
/// reserve never stands in the way.
pub proof fn law_repay_not_refused_by_reserve(state: ContractView, caller: Seq<char>, id: nat)
    requires
        state.wf(),
        state.borrows.contains_key(id),
        state.owns_collateral(decimal_text(state.borrows[id].position_id), caller),
        !is_liquidatable(state.borrows[id].health_factor),
    ensures
        state.return_collateral_and_repay_refusal(caller, id) is None,
{
    lemma_borrow_within_total(state.borrows, state.borrows_number, state.borrows[id].asset, id);
}

/// Identifiers are handed out in order and once: no operation lowers a
/// counter, and a deposit or borrow that an operation opens gets the number
/// that the counter stood at, which no record had before.
pub proof fn law_identifiers_not_reused(state: ContractView, operation: Operation)
    requires
        state.wf(),
    ensures
        ({
            let after = state.apply(operation);
            &&& state.deposits_created_number <= after.deposits_created_number
            &&& state.borrows_number <= after.borrows_number
            &&& forall|id: nat|
                after.deposits.contains_key(id) && !state.deposits.contains_key(id) ==> id
                    == state.deposits_created_number && after.deposits_created_number == id + 1
            &&& forall|id: nat|
                after.borrows.contains_key(id) && !state.borrows.contains_key(id) ==> id == state.borrows_number
                    && after.borrows_number == id + 1
        }),
{
}

/// Closing a deposit is refused, with `ReserveUnderflow`, exactly where its
/// principal exceeds what the reserve has not lent out. An accepted close
/// takes exactly the principal off the deposited total of the deposit's
/// asset, leaves the borrowed total and every other reserve alone, and
/// leaves the reserve solvent.
pub proof fn law_close_deposit_reserve(state: ContractView, caller: Seq<char>, id: nat, now: nat)
    requires
        state.wf(),
        state.deposit_access_refusal(caller, id) is None,
    ensures
        ({
            let deposit = state.deposits[id];
            let reserve = state.reserves[deposit.asset];
            let after = state.close_deposit(id, now);
            &&& state.reserves.contains_key(deposit.asset)
            &&& state.close_deposit_refusal(caller, id) is None <==> deposit.amount + reserve.borrowed
                <= reserve.deposited
            &&& state.close_deposit_refusal(caller, id) is Some ==> state.close_deposit_refusal(caller, id)
                == Some(LedgerError::ReserveUnderflow) && state.apply(Operation::CloseDeposit { caller, id, now })
                == state
            &&& state.close_deposit_refusal(caller, id) is None ==> {
                &&& after.reserves.dom() == state.reserves.dom()
                &&& after.reserves[deposit.asset] == (ReserveView {
                    deposited: (reserve.deposited - deposit.amount) as nat,
                    borrowed: reserve.borrowed,
                })
                &&& reserve.borrowed <= reserve.deposited - deposit.amount
                &&& forall|other: Seq<char>|
                    other != deposit.asset && state.reserves.contains_key(other) ==> after.reserves[other]
                        == state.reserves[other]
            }
        }),
{
    law_close_refused_for_liquidity_only(state, caller, id);
    if state.close_deposit_refusal(caller, id) is None {
        assert(state.close_deposit(id, now).reserves.dom() =~= state.reserves.dom());
    }
}

/// A borrow by the owner of the collateral, in an asset that has a reserve,
/// is refused, with `ReserveUnderflow`, exactly where the amount to lend
/// exceeds what the reserve has not lent out. An accepted borrow adds
/// exactly the amount lent to the borrowed total of the asset, keeps it
/// within the deposited total, and leaves every other reserve alone.
pub proof fn law_borrow_reserve(
    state: ContractView,
    caller: Seq<char>,
    position_id: nat,
    collateral: nat,
    asset: Seq<char>,
    now: nat,
)
    requires
        state.wf(),
        state.owns_collateral(decimal_text(position_id), caller),
        state.reserves.contains_key(asset),
    ensures
        ({
            let reserve = state.reserves[asset];
            let lent = amount_to_borrow(collateral);
            let refusal = state.supply_collateral_and_borrow_refusal(caller, position_id, collateral, asset);
            let after = state.supply_collateral_and_borrow(caller, position_id, collateral, asset, now);
            &&& refusal is None <==> reserve.borrowed + lent <= reserve.deposited
            &&& refusal is Some ==> refusal == Some(LedgerError::ReserveUnderflow) && state.apply(
                Operation::SupplyCollateralAndBorrow { caller, position_id, collateral, asset, now },
            ) == state
            &&& refusal is None ==> {
                &&& after.reserves.dom() == state.reserves.dom()
                &&& after.reserves[asset] == (ReserveView {
                    deposited: reserve.deposited,
                    borrowed: reserve.borrowed + lent,
                })
                &&& forall|other: Seq<char>|
                    other != asset && state.reserves.contains_key(other) ==> after.reserves[other]
                        == state.reserves[other]
            }
        }),
{
    if state.supply_collateral_and_borrow_refusal(caller, position_id, collateral, asset) is None {
        assert(state.supply_collateral_and_borrow(caller, position_id, collateral, asset, now).reserves.dom()
            =~= state.reserves.dom());
    }
}

/// An accepted repayment takes exactly the debt off the borrowed total of
/// the borrow's asset, which holds at least that much, leaves the deposited
/// total and every other reserve alone, and leaves every reserve solvent.
pub proof fn law_repay_reserve(state: ContractView, caller: Seq<char>, id: nat)
    requires
        state.wf(),
        state.return_collateral_and_repay_refusal(caller, id) is None,
    ensures
        ({
            let borrow = state.borrows[id];
            let reserve = state.reserves[borrow.asset];
            let after = state.return_collateral_and_repay(caller, id);
            &&& state.reserves.contains_key(borrow.asset)
            &&& borrow.amount <= reserve.borrowed
            &&& after.reserves.dom() == state.reserves.dom()
            &&& after.reserves[borrow.asset] == (ReserveView {
                deposited: reserve.deposited,
                borrowed: (reserve.borrowed - borrow.amount) as nat,
            })
            &&& forall|other: Seq<char>|
                other != borrow.asset && state.reserves.contains_key(other) ==> after.reserves[other]
                    == state.reserves[other]
            &&& forall|any: Seq<char>| #[trigger]
                after.reserves.contains_key(any) ==> after.reserves[any].borrowed
                    <= after.reserves[any].deposited
        }),
{
    lemma_return_collateral_and_repay_keeps_order(state, caller, id);
    assert(state.return_collateral_and_repay(caller, id).reserves.dom() =~= state.reserves.dom());
}

// ------------------------------------------------------------------ deposits
/// A deposit that is closed at the moment it was opened pays out the
/// principal and no growth, and the ledger is as it was before the deposit
/// was opened, but for the identifier that was used up.
pub proof fn law_open_then_close(
    state: ContractView,
    caller: Seq<char>,
    asset: Seq<char>,
    amount: nat,
    now: nat,
)
    requires
        state.wf(),
        state.create_deposit_refusal(caller, asset, amount) is None,
    ensures
        ({
            let id = state.deposits_created_number;
            let opened = state.create_deposit(caller, asset, amount, now);
            &&& opened.close_deposit_refusal(caller, id) is None
            &&& opened.deposits[id].refreshed(now).growth == 0
            &&& opened.close_deposit_payout(id, now) == amount
            &&& opened.close_deposit(id, now) == (ContractView { deposits_created_number: id + 1, ..state })
        }),
{
    let id = state.deposits_created_number;
    let opened = state.create_deposit(caller, asset, amount, now);
    let closed = opened.close_deposit(id, now);
    lemma_no_time_no_growth(amount, crate::state::APR_DEPOSIT as nat);
    assert(!state.deposits.contains_key(id));
    assert(closed.balances =~= state.balances);
    assert(closed.deposits =~= state.deposits);
    assert(closed.reserves =~= state.reserves);
}

/// A claim releases no more than the growth there is, and leaves no more
/// growth than there was.
pub proof fn law_take_growth_bounded(deposit: DepositView, requested: nat)
    ensures
        deposit.released(requested) <= deposit.growth,
        deposit.released(requested) <= requested,
        deposit.after_take(requested).growth + deposit.released(requested) == deposit.growth,
        deposit.after_take(requested).growth <= deposit.growth,
{
}

/// Claim after claim, the growth that remains does not rise.
pub proof fn law_take_growth_monotone(deposit: DepositView, first: nat, second: nat)
    ensures
        deposit.after_take(first).after_take(second).growth <= deposit.after_take(first).growth <=
            deposit.growth,
{
}

/// The same of the ledger: a claim releases no more than was asked and no
/// more than the growth accrued up to then, credits the owner with exactly
/// what it releases, and a second claim at the same time finds no more growth
/// than the first left.
pub proof fn law_ledger_take_growth(
    state: ContractView,
    caller: Seq<char>,
    id: nat,
    first: nat,
    second: nat,
    now: nat,
)
    requires
        state.deposit_access_refusal(caller, id) is None,
    ensures
        ({
            let accrued = state.deposits[id].refreshed(now).growth;
            let once = state.take_deposit_growth(id, first, now);
            let twice = once.take_deposit_growth(id, second, now);
            &&& state.take_deposit_growth_released(id, first, now) <= accrued
            &&& state.take_deposit_growth_released(id, first, now) <= first
            &&& once.deposits[id].growth + state.take_deposit_growth_released(id, first, now) == accrued
            &&& balance_in(once.balances, caller, state.deposits[id].asset) == balance_in(
                state.balances,
                caller,
                state.deposits[id].asset,
            ) + state.take_deposit_growth_released(id, first, now)
            &&& once.deposit_access_refusal(caller, id) is None
            &&& once.take_deposit_growth_released(id, second, now) <= once.deposits[id].growth
            &&& twice.deposits[id].growth <= once.deposits[id].growth <= accrued
        }),
{
    let once = state.take_deposit_growth(id, first, now);
    let left = once.deposits[id];
    assert(left.elapsed(now) == 0);
    lemma_no_time_no_growth(left.amount, left.apr);
}

// ---------------------------------------------------------------- collateral
/// Recording the arrival of a collateral item a second time, for the same
/// owner, changes nothing.
pub proof fn law_collateral_received_twice(state: ContractView, token_id: Seq<char>, owner: Seq<char>)
    ensures
        state.collateral_received(token_id, owner).collateral_received(token_id, owner)
            == state.collateral_received(token_id, owner),
        state.collateral_received(token_id, owner).owns_collateral(token_id, owner),
{
    assert(state.locked_nfts.insert(token_id, owner).insert(token_id, owner) =~= state.locked_nfts.insert(
        token_id,
        owner,
    ));
}

// --------------------------------------------------------------- liquidation
/// A position whose health factor is `1.0` or more cannot be liquidated,
/// whatever is offered: the attempt fails with `HealthFactorAboveThreshold`.
pub proof fn law_safe_position_not_liquidated(state: ContractView, id: nat, amount_in: nat, amount_out: nat)
    requires
        state.borrows.contains_key(id),
        state.borrows[id].health_factor >= BPS,
    ensures
        state.liquidate_refusal(id, amount_in, amount_out) == Some(LedgerError::HealthFactorAboveThreshold),
        state.apply(Operation::Liquidate { id, amount_in, amount_out }) == state,
{
}

/// An accepted liquidation takes exactly `amount_out` off the collateral and
/// off the debt, and leaves the position with a health factor below `1.0`:
/// it stays open and may be liquidated further.
pub proof fn law_liquidation_narrows(state: ContractView, id: nat, amount_in: nat, amount_out: nat)
    requires
        state.liquidate_refusal(id, amount_in, amount_out) is None,
    ensures
        ({
            let before = state.borrows[id];
            let after = state.liquidate(id, amount_out).borrows[id];
            &&& state.liquidate(id, amount_out).borrows.contains_key(id)
            &&& amount_out <= before.collateral
            &&& amount_out <= before.amount
            &&& after.collateral == before.collateral - amount_out
            &&& after.amount == before.amount - amount_out
            &&& is_liquidatable(after.health_factor)
            &&& state.liquidate(id, amount_out).liquidatable(id)
        }),
{
}

/// A liquidation is accepted exactly when the position is open and below
/// `1.0`, the payment covers what is claimed at the discount, the step is
/// within both the collateral and the debt, and the position is still below
/// `1.0` after it. Fees play no part. An accepted step changes the
/// collateral, the debt and the health factor of that position and nothing
/// else: the position keeps its asset and its collateral item, and every
/// other borrow is as it was.
pub proof fn law_liquidation_accepted(state: ContractView, id: nat, amount_in: nat, amount_out: nat)
    ensures
        state.liquidate_refusal(id, amount_in, amount_out) is None <==> {
            &&& state.borrows.contains_key(id)
            &&& is_liquidatable(state.borrows[id].health_factor)
            &&& payment_covers(state.borrows[id].health_factor, amount_in, amount_out)
            &&& amount_out <= state.borrows[id].collateral
            &&& amount_out <= state.borrows[id].amount
            &&& is_liquidatable(
                health_factor(
                    (state.borrows[id].collateral - amount_out) as nat,
                    (state.borrows[id].amount - amount_out) as nat,
                ),
            )
        },
        state.liquidate_refusal(id, amount_in, amount_out) is None ==> {
            let before = state.borrows[id];
            let after = state.liquidate(id, amount_out);
            &&& after.borrows.dom() == state.borrows.dom()
            &&& after.borrows[id].collateral == before.collateral - amount_out
            &&& after.borrows[id].amount == before.amount - amount_out
            &&& after.borrows[id].health_factor == health_factor(
                after.borrows[id].collateral,
                after.borrows[id].amount,
            )
            &&& after.borrows[id].asset == before.asset
            &&& after.borrows[id].position_id == before.position_id
            &&& after.borrows[id].fees == before.fees
            &&& forall|other: nat|
                other != id && state.borrows.contains_key(other) ==> after.borrows[other]
                    == state.borrows[other]
            &&& after.balances == state.balances
            &&& after.reserves == state.reserves
        },
{
    if state.liquidate_refusal(id, amount_in, amount_out) is None {
        assert(state.liquidate(id, amount_out).borrows.dom() =~= state.borrows.dom());
    }
}

/// The same of a single position.
pub proof fn law_position_liquidation(position: BorrowView, amount_in: nat, amount_out: nat)
    ensures
        !is_liquidatable(position.health_factor) ==>
            position.liquidation_refusal(amount_in, amount_out) == Some(
            LedgerError::HealthFactorAboveThreshold,
        ),
        position.liquidation_refusal(amount_in, amount_out) is None ==> {
            &&& position.liquidated(amount_out).collateral == position.collateral - amount_out
            &&& position.liquidated(amount_out).amount == position.amount - amount_out
            &&& is_liquidatable(position.liquidated(amount_out).health_factor)
        },
{
}

} // verus!
