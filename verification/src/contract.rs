//! The executable ledger: its state, what is read from it, and the
//! operations on balances, reserves and locked collateral.
//!
//! The operations on deposits, borrows and liquidations are in
//! [`crate::deposit_book`], [`crate::borrow_book`] and [`crate::liquidation`].
use vstd::prelude::*;
use crate::arena::Arena;
use crate::balance::{balance_in, BalanceLedger};
use crate::borrow::{Borrow, BorrowId};
use crate::deposit::{Deposit, DepositId};
use crate::errors::LedgerError;
use crate::laws::lemma_create_reserve_keeps_order;
use crate::reserve::{Reserve, ReserveTracker};
use crate::state::{borrows_covered, borrows_in_order, deposits_backed, deposits_in_order, ContractView};
use crate::text_map::TextMap;
use crate::totals::{
    borrowed_total, deposited_total, lemma_borrowed_total_monotone, lemma_deposited_total_monotone,
};

verus! {

/// A transfer that the host is to pass on to the asset's token contract
/// after a withdrawal was booked.
#[derive(Debug, PartialEq, Eq)]
pub struct TransferRequest {
    /// The account that receives the tokens.
    pub receiver_id: String,
    /// The asset to transfer.
    pub token: String,
    /// How much to transfer.
    pub amount: u128,
}

/// The ledger: balances, reserves, deposits, borrows and locked collateral.
///
/// The fields are open so that a host can store the ledger and build it
/// again from what it stored. The operations ask for a ledger that is in
/// order, [`Contract::wf`]; a ledger that [`Contract::new`] made and that
/// only the operations changed is, and [`Contract::is_wf`] tells it of any
/// other.
pub struct Contract {
    /// The administrator.
    pub owner_id: String,
    /// The owner of each locked collateral item, by the item's name.
    pub locked_nfts: TextMap<String>,
    /// The spendable balances.
    pub balances_map: BalanceLedger,
    /// The open deposits; the arena's counter is the number of deposits ever
    /// opened.
    pub deposits: Arena<Deposit>,
    /// The reserves by asset.
    pub reserves: ReserveTracker,
    /// The open borrows; the arena's counter is the number of borrows ever
    /// opened.
    pub borrows: Arena<Borrow>,
}

impl View for Contract {
    type V = ContractView;

    open spec fn view(&self) -> ContractView {
        ContractView {
            owner_id: self.owner_id@,
            locked_nfts: self.locked_nfts@,
            balances: self.balances_map@,
            deposits: self.deposits@,
            deposits_created_number: self.deposits.created(),
            reserves: self.reserves@,
            borrows: self.borrows@,
            borrows_number: self.borrows.created(),
        }
    }
}

impl Contract {
    /// The stores are well-formed each by itself.
    pub open spec fn inv(&self) -> bool {
        &&& self.locked_nfts.wf()
        &&& self.balances_map.wf()
        &&& self.reserves.wf()
    }

    /// The ledger is in a state that its operations accept and keep.
    pub open spec fn wf(&self) -> bool {
        self.inv() && self@.wf()
    }

    /// A ledger that `owner_id` administers and that holds nothing yet.
    pub fn new(owner_id: String) -> (contract: Contract)
        ensures
            contract.wf(),
            contract@ == ContractView::initial(owner_id@),
    {
        let contract = Contract {
            owner_id,
            locked_nfts: TextMap::new(),
            balances_map: BalanceLedger::new(),
            deposits: Arena::new(),
            reserves: ReserveTracker::new(),
            borrows: Arena::new(),
        };
        contract
    }

    /// The principal of all open deposits in `asset`; `None` where it
    /// exceeds 128 bits.
    pub fn deposited_in(&self, asset: &String) -> (total: Option<u128>)
        ensures
            match total {
                Some(t) => t == deposited_total(self@.deposits, self@.deposits_created_number, asset@),
                None => deposited_total(self@.deposits, self@.deposits_created_number, asset@) > u128::MAX,
            },
    {
        let created = self.deposits.created_number();
        let mut total: u128 = 0;
        let mut id: u128 = 0;
        while id < created
            invariant
                id <= created,
                created == self@.deposits_created_number,
                total == deposited_total(self@.deposits, id as nat, asset@),
            decreases created - id,
        {
            match self.deposits.get(id) {
                Some(deposit) => {
                    if deposit.asset == *asset {
                        if deposit.amount > u128::MAX - total {
                            proof {
                                lemma_deposited_total_monotone(
                                    self@.deposits,
                                    (id + 1) as nat,
                                    created as nat,
                                    asset@,
                                );
                            }
                            return None;
                        }
                        total = total + deposit.amount;
                    }
                },
                None => {},
            }
            id += 1;
        }
        Some(total)
    }

    /// The outstanding amount of all open borrows in `asset`; `None` where it
    /// exceeds 128 bits.
    pub fn borrowed_in(&self, asset: &String) -> (total: Option<u128>)
        ensures
            match total {
                Some(t) => t == borrowed_total(self@.borrows, self@.borrows_number, asset@),
                None => borrowed_total(self@.borrows, self@.borrows_number, asset@) > u128::MAX,
            },
    {
        let created = self.borrows.created_number();
        let mut total: u128 = 0;
        let mut id: u128 = 0;
        while id < created
            invariant
                id <= created,
                created == self@.borrows_number,
                total == borrowed_total(self@.borrows, id as nat, asset@),
            decreases created - id,
        {
            match self.borrows.get(id) {
                Some(borrow) => {
                    if borrow.asset == *asset {
                        if borrow.amount > u128::MAX - total {
                            proof {
                                lemma_borrowed_total_monotone(
                                    self@.borrows,
                                    (id + 1) as nat,
                                    created as nat,
                                    asset@,
                                );
                            }
                            return None;
                        }
                        total = total + borrow.amount;
                    }
                },
                None => {},
            }
            id += 1;
        }
        Some(total)
    }

    /// Whether every open deposit and borrow is in an asset that has a
    /// reserve.
    fn records_in_order(&self) -> (ok: bool)
        requires
            self.inv(),
        ensures
            ok == (deposits_in_order(self@.deposits, self@.deposits_created_number, self@.reserves)
                && borrows_in_order(self@.borrows, self@.borrows_number, self@.reserves)),
    {
        proof {
            self.deposits.lemma_ids_created();
            self.borrows.lemma_ids_created();
        }
        let created = self.deposits.created_number();
        let mut id: u128 = 0;
        while id < created
            invariant
                id <= created,
                self.inv(),
                forall|k: nat| #[trigger] self@.deposits.contains_key(k) ==> k < created,
                created == self@.deposits_created_number,
                forall|k: nat|
                    k < id && #[trigger] self@.deposits.contains_key(k) ==> self@.reserves.contains_key(
                        self@.deposits[k].asset,
                    ),
            decreases created - id,
        {
            match self.deposits.get(id) {
                Some(deposit) => {
                    if self.reserves.get(&deposit.asset).is_none() {
                        assert(self@.deposits.contains_key(id as nat));
                        return false;
                    }
                },
                None => {},
            }
            id += 1;
        }
        let opened = self.borrows.created_number();
        let mut id: u128 = 0;
        while id < opened
            invariant
                id <= opened,
                self.inv(),
                deposits_in_order(self@.deposits, self@.deposits_created_number, self@.reserves),
                forall|k: nat| #[trigger] self@.borrows.contains_key(k) ==> k < opened,
                opened == self@.borrows_number,
                forall|k: nat|
                    k < id && #[trigger] self@.borrows.contains_key(k) ==> self@.reserves.contains_key(
                        self@.borrows[k].asset,
                    ),
            decreases opened - id,
        {
            match self.borrows.get(id) {
                Some(borrow) => {
                    if self.reserves.get(&borrow.asset).is_none() {
                        assert(self@.borrows.contains_key(id as nat));
                        return false;
                    }
                },
                None => {},
            }
            id += 1;
        }
        true
    }

    /// Whether the totals of every reserve agree with the open deposits and
    /// borrows in its asset.
    fn totals_agree(&self) -> (ok: bool)
        requires
            self.inv(),
        ensures
            ok == (deposits_backed(
                self@.deposits,
                self@.deposits_created_number,
                self@.reserves,
            ) && borrows_covered(self@.borrows, self@.borrows_number, self@.reserves)),
    {
        proof {
            self.reserves.lemma_entries();
        }
        let mut i: usize = 0;
        while i < self.reserves.reserves.keys.len()
            invariant
                i <= self.reserves.reserves.keys.len(),
                self.inv(),
                self.reserves.reserves.keys.len() == self.reserves.reserves.values.len(),
                forall|j: int| 0 <= j < self.reserves.reserves.keys.len() ==>
                    self@.reserves.contains_key(#[trigger] self.reserves.reserves.keys[j]@)
                        && self@.reserves[self.reserves.reserves.keys[j]@] == self.reserves.reserves.values[j]@,
                forall|k: Seq<char>| #[trigger] self@.reserves.contains_key(k) ==>
                    exists|j: int| 0 <= j < self.reserves.reserves.keys.len()
                        && #[trigger] self.reserves.reserves.keys[j]@ == k,
                forall|j: int| 0 <= j < i ==>
                    self@.reserves[#[trigger] self.reserves.reserves.keys[j]@].deposited == deposited_total(
                        self@.deposits,
                        self@.deposits_created_number,
                        self.reserves.reserves.keys[j]@,
                    )
                        && borrowed_total(
                            self@.borrows,
                            self@.borrows_number,
                            self.reserves.reserves.keys[j]@,
                        ) <= self@.reserves[self.reserves.reserves.keys[j]@].borrowed,
            decreases self.reserves.reserves.keys.len() - i,
        {
            let asset = &self.reserves.reserves.keys[i];
            let reserve = &self.reserves.reserves.values[i];
            assert(self@.reserves.contains_key(self.reserves.reserves.keys[i as int]@));
            match self.deposited_in(asset) {
                Some(total) => {
                    if total != reserve.deposited {
                        return false;
                    }
                },
                None => {
                    return false;
                },
            }
            match self.borrowed_in(asset) {
                Some(total) => {
                    if total > reserve.borrowed {
                        return false;
                    }
                },
                None => {
                    return false;
                },
            }
            i += 1;
        }
        proof {
            assert forall|asset: Seq<char>| #[trigger] self@.reserves.contains_key(asset)
                implies self@.reserves[asset].deposited == deposited_total(
                    self@.deposits,
                    self@.deposits_created_number,
                    asset,
                )
                    && borrowed_total(
                        self@.borrows,
                        self@.borrows_number,
                        asset,
                    ) <= self@.reserves[asset].borrowed by {
                let j = choose|j: int| 0 <= j < self.reserves.reserves.keys.len()
                    && #[trigger] self.reserves.reserves.keys[j]@ == asset;
                assert(self@.reserves[self.reserves.reserves.keys[j]@].deposited == deposited_total(
                    self@.deposits,
                    self@.deposits_created_number,
                    self.reserves.reserves.keys[j]@,
                ));
            }
        }
        true
    }

    /// Whether the ledger is in order. A host that builds a ledger from what
    /// it stored asks this before it calls an operation.
    pub fn is_wf(&self) -> (ok: bool)
        ensures
            ok == self.wf(),
    {
        if !self.locked_nfts.is_wf() || !self.balances_map.is_wf() || !self.reserves.is_wf() {
            return false;
        }
        proof {
            self.reserves.lemma_solvent();
        }
        self.records_in_order() && self.totals_agree()
    }

    /// The administrator.
    pub fn owner_id(&self) -> (owner: &String)
        ensures
            owner@ == self@.owner_id,
    {
        &self.owner_id
    }

    /// What `account_id` can spend of `token`.
    pub fn balance_of(&self, account_id: &String, token: &String) -> (amount: u128)
        requires
            self.wf(),
        ensures
            amount == balance_in(self@.balances, account_id@, token@),
    {
        self.balances_map.balance_of(account_id, token)
    }

    /// The reserve of `token`, if it has one.
    pub fn get_reserve(&self, token: &String) -> (reserve: Option<Reserve>)
        requires
            self.wf(),
        ensures
            match reserve {
                Some(r) => self@.reserves.contains_key(token@) && r@ == self@.reserves[token@],
                None => !self@.reserves.contains_key(token@),
            },
    {
        self.reserves.get(token)
    }

    /// The open deposit `deposit_id`, if there is one.
    pub fn get_deposit(&self, deposit_id: DepositId) -> (deposit: Option<Deposit>)
        ensures
            match deposit {
                Some(d) => self@.deposits.contains_key(deposit_id as nat)
                    && d@ == self@.deposits[deposit_id as nat],
                None => !self@.deposits.contains_key(deposit_id as nat),
            },
    {
        match self.deposits.get(deposit_id) {
            Some(d) => Some(d.clone()),
            None => None,
        }
    }

    /// The open borrow `borrow_id`, if there is one.
    pub fn get_borrow(&self, borrow_id: BorrowId) -> (borrow: Option<Borrow>)
        ensures
            match borrow {
                Some(b) => self@.borrows.contains_key(borrow_id as nat)
                    && b@ == self@.borrows[borrow_id as nat],
                None => !self@.borrows.contains_key(borrow_id as nat),
            },
    {
        match self.borrows.get(borrow_id) {
            Some(b) => Some(b.clone()),
            None => None,
        }
    }

    /// How many deposits were ever opened.
    pub fn deposits_created_number(&self) -> (n: DepositId)
        ensures
            n == self@.deposits_created_number,
    {
        self.deposits.created_number()
    }

    /// How many borrows were ever opened.
    pub fn borrows_number(&self) -> (n: BorrowId)
        ensures
            n == self@.borrows_number,
    {
        self.borrows.created_number()
    }

    /// Whether `account_id` is recorded as the owner of the locked
    /// collateral item `token_id`.
    pub fn account_owns_nft_on_lending(&self, token_id: &String, account_id: &String) -> (owns: bool)
        requires
            self.wf(),
        ensures
            owns == self@.owns_collateral(token_id@, account_id@),
    {
        match self.locked_nfts.get(token_id) {
            Some(owner) => *owner == *account_id,
            None => false,
        }
    }

    /// Books `amount` of `token_in` that arrived for `account_id`. Always
    /// succeeds; the account's entry is created where there is none.
    pub fn deposit_ft(&mut self, account_id: &String, token_in: &String, amount: u128)
        requires
            old(self).wf(),
            balance_in(old(self)@.balances, account_id@, token_in@) + amount <= u128::MAX,
        ensures
            final(self).wf(),
            final(self)@ == old(self)@.credit(account_id@, token_in@, amount as nat),
    {
        self.balances_map.credit(account_id, token_in, amount);
    }

    /// Adds `amount` of `token` to the balance of `account_id`. Always
    /// succeeds; the account's entry is created where there is none.
    pub fn increase_balance(&mut self, account_id: &String, token: &String, amount: u128)
        requires
            old(self).wf(),
            balance_in(old(self)@.balances, account_id@, token@) + amount <= u128::MAX,
        ensures
            final(self).wf(),
            final(self)@ == old(self)@.credit(account_id@, token@, amount as nat),
    {
        self.balances_map.credit(account_id, token, amount);
    }

    /// Takes `amount` of `token` from the balance of `account_id`. Fails
    /// where the account has no entry for the token or holds less.
    pub fn decrease_balance(
        &mut self,
        account_id: &String,
        token: &String,
        amount: u128,
    ) -> (outcome: Result<(), LedgerError>)
        requires
            old(self).wf(),
        ensures
            final(self).wf(),
            match outcome {
                Ok(()) => old(self)@.debit_refusal(account_id@, token@, amount as nat) is None
                    && final(self)@ == old(self)@.debit(account_id@, token@, amount as nat),
                Err(e) => old(self)@.debit_refusal(account_id@, token@, amount as nat) == Some(e)
                    && final(self)@ == old(self)@,
            },
    {
        self.balances_map.debit(account_id, token, amount)
    }

    /// Takes `amount` of `token` from the balance of `account_id` and hands
    /// back the transfer that pays it out. Fails like a debit.
    pub fn balance_withdraw(
        &mut self,
        account_id: &String,
        token: &String,
        amount: u128,
    ) -> (outcome: Result<TransferRequest, LedgerError>)
        requires
            old(self).wf(),
        ensures
            final(self).wf(),
            match outcome {
                Ok(transfer) => old(self)@.debit_refusal(account_id@, token@, amount as nat) is None
                    && final(self)@ == old(self)@.debit(account_id@, token@, amount as nat)
                    && transfer.receiver_id@ == account_id@ && transfer.token@ == token@ && transfer.amount
                    == amount,
                Err(e) => old(self)@.debit_refusal(account_id@, token@, amount as nat) == Some(e)
                    && final(self)@ == old(self)@,
            },
    {
        match self.balances_map.debit(account_id, token, amount) {
            Ok(()) => Ok(TransferRequest { receiver_id: account_id.clone(), token: token.clone(), amount }),
            Err(e) => Err(e),
        }
    }

    /// Opens a zeroed reserve for `reserve_token`. Only the administrator
    /// may; fails where the token has a reserve already.
    pub fn create_reserve(
        &mut self,
        caller: &String,
        reserve_token: &String,
    ) -> (outcome: Result<(), LedgerError>)
        requires
            old(self).wf(),
        ensures
            final(self).wf(),
            match outcome {
                Ok(()) => old(self)@.create_reserve_refusal(caller@, reserve_token@) is None
                    && final(self)@ == old(self)@.create_reserve(reserve_token@),
                Err(e) => old(self)@.create_reserve_refusal(caller@, reserve_token@) == Some(e)
                    && final(self)@ == old(self)@,
            },
    {
        if *caller != self.owner_id {
            return Err(LedgerError::Unauthorized);
        }
        let opened = self.reserves.open(reserve_token);
        proof {
            if opened is Ok {
                lemma_create_reserve_keeps_order(old(self)@, caller@, reserve_token@);
            }
        }
        opened
    }

    /// Records that the collateral item `token_id` arrived and is locked for
    /// `owner_id`. Recording the same pair again changes nothing; an item
    /// that was locked for another account goes over to `owner_id`.
    pub fn on_collateral_received(&mut self, token_id: &String, owner_id: &String)
        requires
            old(self).wf(),
        ensures
            final(self).wf(),
            final(self)@ == old(self)@.collateral_received(token_id@, owner_id@),
    {
        self.locked_nfts.insert(token_id, owner_id.clone());
    }
}

} // verus!
