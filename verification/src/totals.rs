//! What the open deposits and borrows of an asset add up to.
use vstd::prelude::*;
use crate::borrow::BorrowView;
use crate::deposit::DepositView;

verus! {

/// What the deposit `id` adds to the deposits in `asset`: its principal, if
/// it is open and in that asset.
pub open spec fn deposit_weight(deposits: Map<nat, DepositView>, id: nat, asset: Seq<char>) -> nat {
    if deposits.contains_key(id) && deposits[id].asset == asset {
        deposits[id].amount
    } else {
        0
    }
}

/// The principal of all open deposits in `asset` with identifiers below `bound`.
pub open spec fn deposited_total(deposits: Map<nat, DepositView>, bound: nat, asset: Seq<char>) -> nat
    decreases bound,
{
    if bound == 0 {
        0
    } else {
        deposited_total(deposits, (bound - 1) as nat, asset) + deposit_weight(
            deposits,
            (bound - 1) as nat,
            asset,
        )
    }
}

/// What the borrow `id` adds to the debt in `asset`: its outstanding amount,
/// if it is open and in that asset.
pub open spec fn borrow_weight(borrows: Map<nat, BorrowView>, id: nat, asset: Seq<char>) -> nat {
    if borrows.contains_key(id) && borrows[id].asset == asset {
        borrows[id].amount
    } else {
        0
    }
}

/// The outstanding amount of all open borrows in `asset` with identifiers
/// below `bound`.
pub open spec fn borrowed_total(borrows: Map<nat, BorrowView>, bound: nat, asset: Seq<char>) -> nat
    decreases bound,
{
    if bound == 0 {
        0
    } else {
        borrowed_total(borrows, (bound - 1) as nat, asset) + borrow_weight(borrows, (bound - 1) as nat, asset)
    }
}

/// Where two sets of deposits differ in what one identifier adds at most,
/// their totals differ by that.
pub proof fn lemma_deposited_total_change(
    before: Map<nat, DepositView>,
    after: Map<nat, DepositView>,
    bound: nat,
    asset: Seq<char>,
    id: nat,
)
    requires
        forall|k: nat|
            k < bound && k != id ==> #[trigger] deposit_weight(after, k, asset) == deposit_weight(
                before,
                k,
                asset,
            ),
    ensures
        id < bound ==> deposited_total(after, bound, asset) + deposit_weight(before, id, asset)
            == deposited_total(before, bound, asset) + deposit_weight(after, id, asset),
        id >= bound ==> deposited_total(after, bound, asset) == deposited_total(before, bound, asset),
    decreases bound,
{
    if bound > 0 {
        lemma_deposited_total_change(before, after, (bound - 1) as nat, asset, id);
        if id != bound - 1 {
            assert(deposit_weight(after, (bound - 1) as nat, asset) == deposit_weight(
                before,
                (bound - 1) as nat,
                asset,
            ));
        }
    }
}

/// Where no deposit is in `asset`, the total is nothing.
pub proof fn lemma_deposited_total_none(deposits: Map<nat, DepositView>, bound: nat, asset: Seq<char>)
    requires
        forall|k: nat| k < bound ==> #[trigger] deposit_weight(deposits, k, asset) == 0,
    ensures
        deposited_total(deposits, bound, asset) == 0,
    decreases bound,
{
    if bound > 0 {
        lemma_deposited_total_none(deposits, (bound - 1) as nat, asset);
        assert(deposit_weight(deposits, (bound - 1) as nat, asset) == 0);
    }
}

/// What one deposit adds is within the total.
pub proof fn lemma_deposit_within_total(deposits: Map<nat, DepositView>, bound: nat, asset: Seq<char>, id: nat)
    requires
        id < bound,
    ensures
        deposit_weight(deposits, id, asset) <= deposited_total(deposits, bound, asset),
    decreases bound,
{
    if id < bound - 1 {
        lemma_deposit_within_total(deposits, (bound - 1) as nat, asset, id);
    }
}

/// The total grows with the bound.
pub proof fn lemma_deposited_total_monotone(
    deposits: Map<nat, DepositView>,
    low: nat,
    high: nat,
    asset: Seq<char>,
)
    requires
        low <= high,
    ensures
        deposited_total(deposits, low, asset) <= deposited_total(deposits, high, asset),
    decreases high,
{
    if low < high {
        lemma_deposited_total_monotone(deposits, low, (high - 1) as nat, asset);
    }
}

/// Where two sets of borrows differ in what one identifier adds at most,
/// their totals differ by that.
pub proof fn lemma_borrowed_total_change(
    before: Map<nat, BorrowView>,
    after: Map<nat, BorrowView>,
    bound: nat,
    asset: Seq<char>,
    id: nat,
)
    requires
        forall|k: nat|
            k < bound && k != id ==>
                #[trigger] borrow_weight(after, k, asset) == borrow_weight(before, k, asset),
    ensures
        id < bound ==> borrowed_total(after, bound, asset) + borrow_weight(before, id, asset) == borrowed_total(
            before,
            bound,
            asset,
        ) + borrow_weight(after, id, asset),
        id >= bound ==> borrowed_total(after, bound, asset) == borrowed_total(before, bound, asset),
    decreases bound,
{
    if bound > 0 {
        lemma_borrowed_total_change(before, after, (bound - 1) as nat, asset, id);
        if id != bound - 1 {
            assert(borrow_weight(after, (bound - 1) as nat, asset) == borrow_weight(
                before,
                (bound - 1) as nat,
                asset,
            ));
        }
    }
}

/// What one borrow adds is within the total.
pub proof fn lemma_borrow_within_total(borrows: Map<nat, BorrowView>, bound: nat, asset: Seq<char>, id: nat)
    requires
        id < bound,
    ensures
        borrow_weight(borrows, id, asset) <= borrowed_total(borrows, bound, asset),
    decreases bound,
{
    if id < bound - 1 {
        lemma_borrow_within_total(borrows, (bound - 1) as nat, asset, id);
    }
}

/// The total grows with the bound.
pub proof fn lemma_borrowed_total_monotone(borrows: Map<nat, BorrowView>, low: nat, high: nat, asset: Seq<char>)
    requires
        low <= high,
    ensures
        borrowed_total(borrows, low, asset) <= borrowed_total(borrows, high, asset),
    decreases high,
{
    if low < high {
        lemma_borrowed_total_monotone(borrows, low, (high - 1) as nat, asset);
    }
}

/// Where no borrow is in `asset`, the total is nothing.
pub proof fn lemma_borrowed_total_none(borrows: Map<nat, BorrowView>, bound: nat, asset: Seq<char>)
    requires
        forall|k: nat| k < bound ==> #[trigger] borrow_weight(borrows, k, asset) == 0,
    ensures
        borrowed_total(borrows, bound, asset) == 0,
    decreases bound,
{
    if bound > 0 {
        lemma_borrowed_total_none(borrows, (bound - 1) as nat, asset);
        assert(borrow_weight(borrows, (bound - 1) as nat, asset) == 0);
    }
}

} // verus!
