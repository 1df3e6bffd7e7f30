//! Pooled reserves: per asset, the total deposited and the total lent out.
use vstd::prelude::*;
use crate::errors::LedgerError;
use crate::text_map::TextMap;

verus! {

/// The model of a reserve.
pub struct ReserveView {
    /// Total of the open deposits in the asset.
    pub deposited: nat,
    /// Total currently lent out.
    pub borrowed: nat,
}

impl ReserveView {
    /// Protocol solvency: a reserve never lends more than was deposited.
    pub open spec fn solvent(self) -> bool {
        self.borrowed <= self.deposited
    }

    /// What the reserve can still lend out or pay back to depositors.
    pub open spec fn available(self) -> nat {
        (self.deposited - self.borrowed) as nat
    }
}

/// The reserves by asset.
pub type Reserves = Map<Seq<char>, ReserveView>;

/// Every reserve is solvent.
pub open spec fn all_solvent(reserves: Reserves) -> bool {
    forall|asset: Seq<char>| #[trigger] reserves.contains_key(asset) ==> reserves[asset].solvent()
}

/// Why a reserve for `asset` cannot be opened, if anything.
pub open spec fn open_refusal(reserves: Reserves, asset: Seq<char>) -> Option<LedgerError> {
    if reserves.contains_key(asset) {
        Some(LedgerError::ReserveAlreadyExists)
    } else {
        None
    }
}

/// The reserves with a zeroed reserve for `asset`.
pub open spec fn opened(reserves: Reserves, asset: Seq<char>) -> Reserves {
    reserves.insert(asset, ReserveView { deposited: 0, borrowed: 0 })
}

/// Why the deposited total of `asset` cannot grow, if anything.
pub open spec fn increase_deposited_refusal(reserves: Reserves, asset: Seq<char>) -> Option<LedgerError> {
    if !reserves.contains_key(asset) {
        Some(LedgerError::ReserveNotFound)
    } else {
        None
    }
}

/// Why `amount` cannot leave the reserve of `asset`, be it paid back to a
/// depositor or lent out: there is no reserve, or the amount exceeds what is
/// deposited and not lent out.
pub open spec fn outflow_refusal(reserves: Reserves, asset: Seq<char>, amount: nat) -> Option<LedgerError> {
    if !reserves.contains_key(asset) {
        Some(LedgerError::ReserveNotFound)
    } else if amount > reserves[asset].available() {
        Some(LedgerError::ReserveUnderflow)
    } else {
        None
    }
}

/// Why the borrowed total of `asset` cannot shrink by `amount`, if anything.
pub open spec fn decrease_borrowed_refusal(
    reserves: Reserves,
    asset: Seq<char>,
    amount: nat,
) -> Option<LedgerError> {
    if !reserves.contains_key(asset) {
        Some(LedgerError::ReserveNotFound)
    } else if amount > reserves[asset].borrowed {
        Some(LedgerError::ReserveUnderflow)
    } else {
        None
    }
}

/// The reserves after the deposited total of `asset` grew by `amount`.
pub open spec fn deposited_increased(reserves: Reserves, asset: Seq<char>, amount: nat) -> Reserves {
    reserves.insert(
        asset,
        ReserveView { deposited: reserves[asset].deposited + amount, borrowed: reserves[asset].borrowed },
    )
}

/// The reserves after the deposited total of `asset` shrank by `amount`.
pub open spec fn deposited_decreased(reserves: Reserves, asset: Seq<char>, amount: nat) -> Reserves {
    reserves.insert(
        asset,
        ReserveView {
            deposited: (reserves[asset].deposited - amount) as nat,
            borrowed: reserves[asset].borrowed,
        },
    )
}

/// The reserves after the borrowed total of `asset` grew by `amount`.
pub open spec fn borrowed_increased(reserves: Reserves, asset: Seq<char>, amount: nat) -> Reserves {
    reserves.insert(
        asset,
        ReserveView { deposited: reserves[asset].deposited, borrowed: reserves[asset].borrowed + amount },
    )
}

/// The reserves after the borrowed total of `asset` shrank by `amount`.
pub open spec fn borrowed_decreased(reserves: Reserves, asset: Seq<char>, amount: nat) -> Reserves {
    reserves.insert(
        asset,
        ReserveView {
            deposited: reserves[asset].deposited,
            borrowed: (reserves[asset].borrowed - amount) as nat,
        },
    )
}

/// The totals of one asset.
#[derive(Clone, Copy, Debug, PartialEq, Eq, Structural)]
pub struct Reserve {
    /// Total of the open deposits in the asset.
    pub deposited: u128,
    /// Total currently lent out.
    pub borrowed: u128,
}

impl View for Reserve {
    type V = ReserveView;

    open spec fn view(&self) -> ReserveView {
        ReserveView { deposited: self.deposited as nat, borrowed: self.borrowed as nat }
    }
}

impl Default for Reserve {
    /// The zeroed reserve.
    fn default() -> (reserve: Reserve)
        ensures
            reserve@ == (ReserveView { deposited: 0, borrowed: 0 }),
    {
        Reserve { deposited: 0, borrowed: 0 }
    }
}

impl Reserve {
    /// Adds `amount` to the deposited total.
    pub fn increase_deposit(&mut self, amount: u128)
        requires
            old(self).deposited + amount <= u128::MAX,
        ensures
            final(self)@ == (ReserveView {
                deposited: old(self)@.deposited + amount as nat,
                borrowed: old(self)@.borrowed,
            }),
    {
        self.deposited = self.deposited + amount;
    }

    /// Takes `amount` from the deposited total, unless that would leave less
    /// deposited than is lent out.
    pub fn decrease_deposit(&mut self, amount: u128) -> (outcome: Result<(), LedgerError>)
        requires
            old(self)@.solvent(),
        ensures
            outcome is Ok <==> amount <= old(self)@.available(),
            outcome is Ok ==> final(self)@ == (ReserveView {
                deposited: (old(self)@.deposited - amount) as nat,
                borrowed: old(self)@.borrowed,
            }),
            outcome is Err ==>
                outcome == Err::<(), LedgerError>(LedgerError::ReserveUnderflow) && *final(self) == *old(self),
    {
        if amount > self.deposited - self.borrowed {
            return Err(LedgerError::ReserveUnderflow);
        }
        self.deposited = self.deposited - amount;
        Ok(())
    }

    /// Adds `amount` to the borrowed total, unless the reserve has less than
    /// that left to lend.
    pub fn increase_borrowed(&mut self, amount: u128) -> (outcome: Result<(), LedgerError>)
        requires
            old(self)@.solvent(),
        ensures
            outcome is Ok <==> amount <= old(self)@.available(),
            outcome is Ok ==> final(self)@ == (ReserveView {
                deposited: old(self)@.deposited,
                borrowed: old(self)@.borrowed + amount as nat,
            }),
            outcome is Err ==> outcome == Err::<(), LedgerError>(LedgerError::ReserveUnderflow)
                && *final(self) == *old(self),
    {
        if amount > self.deposited - self.borrowed {
            return Err(LedgerError::ReserveUnderflow);
        }
        self.borrowed = self.borrowed + amount;
        Ok(())
    }

    /// Takes `amount` from the borrowed total, unless less than that is lent out.
    pub fn decrease_borrowed(&mut self, amount: u128) -> (outcome: Result<(), LedgerError>)
        ensures
            outcome is Ok <==> amount <= old(self)@.borrowed,
            outcome is Ok ==> final(self)@ == (ReserveView {
                deposited: old(self)@.deposited,
                borrowed: (old(self)@.borrowed - amount) as nat,
            }),
            outcome is Err ==>
                outcome == Err::<(), LedgerError>(LedgerError::ReserveUnderflow) && *final(self) == *old(self),
    {
        if amount > self.borrowed {
            return Err(LedgerError::ReserveUnderflow);
        }
        self.borrowed = self.borrowed - amount;
        Ok(())
    }
}

/// The reserves of all assets.
///
/// The field is open so that a host can store the reserves and build them
/// again from what it stored; [`ReserveTracker::is_wf`] tells whether what
/// was built is in order.
pub struct ReserveTracker {
    /// The reserve of each asset.
    pub reserves: TextMap<Reserve>,
}

impl View for ReserveTracker {
    type V = Reserves;
    closed spec fn view(&self) -> Reserves {
        self.reserves@
    }
}

impl ReserveTracker {
    /// No asset has two reserves, and every reserve is solvent.
    pub closed spec fn wf(&self) -> bool {
        &&& self.reserves.wf()
        &&& all_solvent(self@)
    }

    /// Solvency can be read off a well-formed tracker.
    pub proof fn lemma_solvent(&self)
        requires
            self.wf(),
        ensures
            all_solvent(self@),
    {
    }

    /// What the entries say of the model: each asset listed has the reserve
    /// at its index, and the model has no other assets.
    pub proof fn lemma_entries(&self)
        requires
            self.wf(),
        ensures
            self.reserves.keys.len() == self.reserves.values.len(),
            forall|i: int|
                0 <= i < self.reserves.keys.len() ==> self@.contains_key(#[trigger] self.reserves.keys[i]@)
                    && self@[self.reserves.keys[i]@] == self.reserves.values[i]@,
            forall|k: Seq<char>| #[trigger]
                self@.contains_key(k) ==> exists|i: int|
                    0 <= i < self.reserves.keys.len() && #[trigger] self.reserves.keys[i]@ == k,
    {
        self.reserves.lemma_entries();
    }

    /// Whether the tracker is well-formed.
    pub fn is_wf(&self) -> (ok: bool)
        ensures
            ok == self.wf(),
    {
        if !self.reserves.is_wf() {
            return false;
        }
        proof {
            self.reserves.lemma_entries();
        }
        let mut i: usize = 0;
        while i < self.reserves.values.len()
            invariant
                i <= self.reserves.values.len(),
                self.reserves.wf(),
                self.reserves.keys.len() == self.reserves.values.len(),
                forall|j: int| 0 <= j < i ==> (#[trigger] self.reserves.values[j])@.solvent(),
                forall|j: int| 0 <= j < self.reserves.keys.len() ==>
                    self@.contains_key(#[trigger] self.reserves.keys[j]@)
                        && self@[self.reserves.keys[j]@] == self.reserves.values[j]@,
                forall|k: Seq<char>| #[trigger] self@.contains_key(k) ==>
                    exists|j: int| 0 <= j < self.reserves.keys.len() && #[trigger] self.reserves.keys[j]@ == k,
            decreases self.reserves.values.len() - i,
        {
            if self.reserves.values[i].borrowed > self.reserves.values[i].deposited {
                assert(self@.contains_key(self.reserves.keys[i as int]@));
                return false;
            }
            i += 1;
        }
        assert forall|asset: Seq<char>| #[trigger] self@.contains_key(asset) implies self@[asset].solvent() by {
            let j = choose|j: int| 0 <= j < self.reserves.keys.len()
                && #[trigger] self.reserves.keys[j]@ == asset;
            assert(self.reserves.values[j]@.solvent());
        }
        true
    }

    /// A tracker without reserves.
    pub fn new() -> (tracker: ReserveTracker)
        ensures
            tracker.wf(),
            tracker@ == Map::<Seq<char>, ReserveView>::empty(),
    {
        let tracker = ReserveTracker { reserves: TextMap::new() };
        assert(tracker@ =~= Map::<Seq<char>, ReserveView>::empty());
        tracker
    }

    /// The reserve of `asset`, if it has one.
    pub fn get(&self, asset: &String) -> (reserve: Option<Reserve>)
        requires
            self.wf(),
        ensures
            match reserve {
                Some(r) => self@.contains_key(asset@) && r@ == self@[asset@],
                None => !self@.contains_key(asset@),
            },
    {
        match self.reserves.get(asset) {
            Some(r) => Some(*r),
            None => None,
        }
    }

    fn put(&mut self, asset: &String, reserve: Reserve)
        requires
            old(self).wf(),
            reserve@.solvent(),
        ensures
            final(self).wf(),
            final(self)@ == old(self)@.insert(asset@, reserve@),
    {
        self.reserves.insert(asset, reserve);
        assert(self@ =~= old(self)@.insert(asset@, reserve@));
    }

    /// Creates a zeroed reserve for `asset`. Fails where it has one already.
    pub fn open(&mut self, asset: &String) -> (outcome: Result<(), LedgerError>)
        requires
            old(self).wf(),
        ensures
            final(self).wf(),
            match outcome {
                Ok(()) => open_refusal(old(self)@, asset@) is None
                    && final(self)@ == opened(old(self)@, asset@),
                Err(e) => open_refusal(old(self)@, asset@) == Some(e) && final(self)@ == old(self)@,
            },
    {
        if self.reserves.contains_key(asset) {
            return Err(LedgerError::ReserveAlreadyExists);
        }
        self.put(asset, Reserve::default());
        Ok(())
    }

    /// Adds `amount` to the deposited total of `asset`.
    pub fn increase_deposited(&mut self, asset: &String, amount: u128) -> (outcome: Result<(), LedgerError>)
        requires
            old(self).wf(),
            old(self)@.contains_key(asset@) ==> old(self)@[asset@].deposited + amount <= u128::MAX,
        ensures
            final(self).wf(),
            match outcome {
                Ok(()) => increase_deposited_refusal(old(self)@, asset@) is None
                    && final(self)@ == deposited_increased(old(self)@, asset@, amount as nat),
                Err(e) => increase_deposited_refusal(old(self)@, asset@) == Some(e)
                    && final(self)@ == old(self)@,
            },
    {
        match self.get(asset) {
            Some(mut reserve) => {
                reserve.increase_deposit(amount);
                self.put(asset, reserve);
                Ok(())
            },
            None => Err(LedgerError::ReserveNotFound),
        }
    }

    /// Takes `amount` from the deposited total of `asset`.
    pub fn decrease_deposited(
        &mut self,
        asset: &String,
        amount: u128,
    ) -> (outcome: Result<(), LedgerError>)
        requires
            old(self).wf(),
        ensures
            final(self).wf(),
            match outcome {
                Ok(()) => outflow_refusal(old(self)@, asset@, amount as nat) is None
                    && final(self)@ == deposited_decreased(old(self)@, asset@, amount as nat),
                Err(e) => outflow_refusal(old(self)@, asset@, amount as nat) == Some(e)
                    && final(self)@ == old(self)@,
            },
    {
        match self.get(asset) {
            Some(mut reserve) => {
                match reserve.decrease_deposit(amount) {
                    Ok(()) => {
                        self.put(asset, reserve);
                        Ok(())
                    },
                    Err(e) => Err(e),
                }
            },
            None => Err(LedgerError::ReserveNotFound),
        }
    }

    /// Adds `amount` to the borrowed total of `asset`.
    pub fn increase_borrowed(&mut self, asset: &String, amount: u128) -> (outcome: Result<(), LedgerError>)
        requires
            old(self).wf(),
        ensures
            final(self).wf(),
            match outcome {
                Ok(()) => outflow_refusal(old(self)@, asset@, amount as nat) is None
                    && final(self)@ == borrowed_increased(old(self)@, asset@, amount as nat),
                Err(e) => outflow_refusal(old(self)@, asset@, amount as nat) == Some(e)
                    && final(self)@ == old(self)@,
            },
    {
        match self.get(asset) {
            Some(mut reserve) => {
                match reserve.increase_borrowed(amount) {
                    Ok(()) => {
                        self.put(asset, reserve);
                        Ok(())
                    },
                    Err(e) => Err(e),
                }
            },
            None => Err(LedgerError::ReserveNotFound),
        }
    }

    /// Takes `amount` from the borrowed total of `asset`.
    pub fn decrease_borrowed(&mut self, asset: &String, amount: u128) -> (outcome: Result<(), LedgerError>)
        requires
            old(self).wf(),
        ensures
            final(self).wf(),
            match outcome {
                Ok(()) => decrease_borrowed_refusal(old(self)@, asset@, amount as nat) is None
                    && final(self)@ == borrowed_decreased(old(self)@, asset@, amount as nat),
                Err(e) => decrease_borrowed_refusal(old(self)@, asset@, amount as nat) == Some(e)
                    && final(self)@ == old(self)@,
            },
    {
        match self.get(asset) {
            Some(mut reserve) => {
                match reserve.decrease_borrowed(amount) {
                    Ok(()) => {
                        self.put(asset, reserve);
                        Ok(())
                    },
                    Err(e) => Err(e),
                }
            },
            None => Err(LedgerError::ReserveNotFound),
        }
    }
}

} // verus!
