//! Finding the positions that may be liquidated, and liquidating them in part.
use vstd::prelude::*;
use crate::borrow::BorrowId;
use crate::contract::Contract;
use crate::errors::LedgerError;
use crate::laws::lemma_liquidate_keeps_order;

verus! {

impl Contract {
    /// The first borrow from `from` on that may be liquidated: one whose
    /// health factor, as last computed, is below `1.0`. Calling this again
    /// with the identifier after the one returned walks through all of them.
    pub fn next_liquidatable(&self, from: BorrowId) -> (found: Option<BorrowId>)
        ensures
            self@.is_next_liquidatable(from as nat, match found {
                Some(id) => Some(id as nat),
                None => None,
            }),
    {
        let created = self.borrows.created_number();
        let mut id: u128 = from;
        proof {
            self.borrows.lemma_ids_created();
        }
        while id < created
            invariant
                from <= id,
                created == self@.borrows_number,
                forall|k: nat| #[trigger] self@.borrows.contains_key(k) ==> k < created,
                forall|k: nat| from <= k < id ==> !#[trigger] self@.liquidatable(k),
            decreases created - id,
        {
            match self.borrows.get(id) {
                Some(borrow) => {
                    if borrow.is_liquidatable() {
                        return Some(id);
                    }
                },
                None => {},
            }
            id += 1;
        }
        None
    }

    /// The borrows that may be liquidated, in the order of their identifiers.
    pub fn get_liquidation_list(&self) -> (listing: Vec<BorrowId>)
        ensures
            self@.lists_liquidatable(listing@.map_values(|id: BorrowId| id as nat)),
    {
        let mut listing: Vec<BorrowId> = Vec::new();
        let mut from: u128 = 0;
        let mut done = false;
        proof {
            self.borrows.lemma_ids_created();
        }
        while !done
            invariant
                forall|k: nat| #[trigger] self@.borrows.contains_key(k) ==> k < self@.borrows_number,
                self@.borrows_number <= usize::MAX,
                from <= self@.borrows_number,
                forall|i: int| 0 <= i < listing.len() ==> #[trigger] listing[i] < from && self@.liquidatable(
                    listing[i] as nat,
                ),
                forall|i: int, j: int| 0 <= i < j < listing.len() ==>
                    #[trigger] listing[i] < #[trigger] listing[j],
                forall|k: nat|
                    k < from && #[trigger] self@.liquidatable(k) ==> exists|i: int|
                        0 <= i < listing.len() && #[trigger] listing[i] == k,
                done ==> forall|k: nat| from <= k ==> !#[trigger] self@.liquidatable(k),
            decreases self@.borrows_number - from + (if done { 0int } else { 1int }),
        {
            match self.next_liquidatable(from) {
                Some(id) => {
                    let ghost before = listing@;
                    listing.push(id);
                    proof {
                        let last = before.len() as int;
                        assert(listing[last] == id);
                        assert forall|k: nat| k < id + 1 && #[trigger] self@.liquidatable(k)
                            implies exists|i: int|
                            0 <= i < listing.len() && #[trigger] listing[i] == k by {
                            if k < from {
                                let i = choose|i: int| 0 <= i < before.len() && #[trigger] before[i] == k;
                                assert(listing[i] == k);
                            } else {
                                assert(k == id);
                                assert(listing[last] == k);
                            }
                        }
                    }
                    from = id + 1;
                },
                None => {
                    done = true;
                },
            }
        }
        proof {
            let shown = listing@.map_values(|id: BorrowId| id as nat);
            assert forall|k: nat| #[trigger] self@.liquidatable(k) implies exists|i: int|
                0 <= i < shown.len() && #[trigger] shown[i] == k by {
                let i = choose|i: int| 0 <= i < listing.len() && #[trigger] listing[i] == k;
                assert(shown[i] == k);
            }
            assert forall|i: int| 0 <= i < shown.len() implies self@.liquidatable(#[trigger] shown[i]) by {
                assert(listing[i] < from);
            }
            assert forall|i: int, j: int| 0 <= i < j < shown.len()
                implies #[trigger] shown[i] < #[trigger] shown[j] by {
                assert(listing[i] < listing[j]);
            }
        }
        listing
    }

    /// Liquidates `amount_out` of the collateral and of the debt of the
    /// borrow `borrow_id` for a payment of `amount_in`. The position must be
    /// below `1.0`, the payment must cover the collateral at the liquidation
    /// discount, and the position must still be below `1.0` afterwards: a
    /// liquidation narrows a position and never closes it.
    pub fn liquidate(
        &mut self,
        borrow_id: BorrowId,
        amount_in: u128,
        amount_out: u128,
    ) -> (outcome: Result<(), LedgerError>)
        requires
            old(self).wf(),
        ensures
            final(self).wf(),
            match outcome {
                Ok(()) => old(self)@.liquidate_refusal(
                    borrow_id as nat,
                    amount_in as nat,
                    amount_out as nat,
                ) is None
                    && final(self)@ == old(self)@.liquidate(borrow_id as nat, amount_out as nat),
                Err(e) => old(self)@.liquidate_refusal(borrow_id as nat, amount_in as nat, amount_out as nat)
                    == Some(e) && final(self)@ == old(self)@,
            },
    {
        proof {
            self.borrows.lemma_ids_created();
        }
        match self.borrows.remove(borrow_id) {
            None => {
                assert(self@.borrows =~= old(self)@.borrows);
                Err(LedgerError::BorrowNotFound)
            },
            Some(mut borrow) => {
                let outcome = borrow.liquidate(amount_in, amount_out);
                self.borrows.put(borrow_id, borrow);
                proof {
                    if outcome is Ok {
                        assert(self@.borrows =~= old(self)@.liquidate(
                            borrow_id as nat,
                            amount_out as nat,
                        ).borrows);
                        lemma_liquidate_keeps_order(
                            old(self)@,
                            borrow_id as nat,
                            amount_in as nat,
                            amount_out as nat,
                        );
                    } else {
                        assert(self@.borrows =~= old(self)@.borrows);
                    }
                }
                outcome
            },
        }
    }
}

} // verus!
