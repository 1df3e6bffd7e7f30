//! Interest-bearing deposits and the growth they accrue.
use vstd::prelude::*;
use crate::fixed::{mul_div_rem, BPS};

verus! {

/// Identifier of a deposit.
pub type DepositId = u128;

/// Length of the year that annual rates refer to, in the unit of the
/// ledger's timestamps: 365 days in nanoseconds.
pub const NANOS_PER_YEAR: u128 = 31_536_000_000_000_000;

/// Simple interest on `principal` at `apr` basis points a year over
/// `elapsed` nanoseconds, rounded down.
pub open spec fn accrued_growth(principal: nat, apr: nat, elapsed: nat) -> nat {
    (principal * (apr * elapsed)) / (BPS as nat * NANOS_PER_YEAR as nat)
}

/// The model of a deposit.
pub struct DepositView {
    /// The account the deposit belongs to.
    pub owner_id: Seq<char>,
    /// The asset deposited.
    pub asset: Seq<char>,
    /// The principal.
    pub amount: nat,
    /// When the deposit was opened.
    pub timestamp: nat,
    /// Up to when growth was accrued.
    pub last_update_timestamp: nat,
    /// Annual rate, in basis points.
    pub apr: nat,
    /// Growth accrued and unclaimed.
    pub growth: nat,
}

impl DepositView {
    /// Time since the last accrual; none where `now` is not later.
    pub open spec fn elapsed(self, now: nat) -> nat {
        if now > self.last_update_timestamp {
            (now - self.last_update_timestamp) as nat
        } else {
            0
        }
    }

    /// Growth that a refresh at `now` would add.
    pub open spec fn pending_growth(self, now: nat) -> nat {
        accrued_growth(self.amount, self.apr, self.elapsed(now))
    }

    /// The deposit after growth was accrued up to `now`.
    pub open spec fn refreshed(self, now: nat) -> DepositView {
        DepositView {
            growth: self.growth + self.pending_growth(now),
            last_update_timestamp: if now > self.last_update_timestamp {
                now
            } else {
                self.last_update_timestamp
            },
            ..self
        }
    }

    /// What a claim of `requested` releases: that much, up to the growth there is.
    pub open spec fn released(self, requested: nat) -> nat {
        if requested <= self.growth {
            requested
        } else {
            self.growth
        }
    }

    /// The deposit after a claim of `requested`.
    pub open spec fn after_take(self, requested: nat) -> DepositView {
        DepositView { growth: (self.growth - self.released(requested)) as nat, ..self }
    }
}

/// A deposit newly opened at `now`: no growth yet, accrual starts at `now`.
pub open spec fn opened_deposit(
    owner_id: Seq<char>,
    asset: Seq<char>,
    amount: nat,
    apr: nat,
    now: nat,
) -> DepositView {
    DepositView { owner_id, asset, amount, timestamp: now, last_update_timestamp: now, apr, growth: 0 }
}

/// Accruing over no time adds nothing.
pub proof fn lemma_no_time_no_growth(principal: nat, apr: nat)
    ensures
        accrued_growth(principal, apr, 0) == 0,
{
    assert(principal * (apr * 0) == 0) by (nonlinear_arith);
}

/// A refresh at the time of the last accrual, or before it, changes nothing.
pub proof fn lemma_refresh_without_time(deposit: DepositView, now: nat)
    requires
        now <= deposit.last_update_timestamp,
    ensures
        deposit.refreshed(now) == deposit,
{
    lemma_no_time_no_growth(deposit.amount, deposit.apr);
}

/// Simple interest on `principal` at `apr` basis points a year over `elapsed`
/// nanoseconds, rounded down; `None` where it exceeds 128 bits.
pub fn compute_accrued_growth(principal: u128, apr: u16, elapsed: u64) -> (growth: Option<u128>)
    ensures
        match growth {
            Some(g) => g == accrued_growth(principal as nat, apr as nat, elapsed as nat),
            None => accrued_growth(principal as nat, apr as nat, elapsed as nat) > u128::MAX,
        },
{
    assert(apr * elapsed <= 0xffff * 0xffff_ffff_ffff_ffff) by (nonlinear_arith)
        requires
            apr <= 0xffff,
            elapsed <= 0xffff_ffff_ffff_ffff,
    {
    }
    let weight: u128 = (apr as u128) * (elapsed as u128);
    match mul_div_rem(principal, weight, BPS * NANOS_PER_YEAR) {
        Some((q, _)) => Some(q),
        None => None,
    }
}

/// An interest-bearing deposit of one account.
#[derive(Debug, PartialEq, Eq)]
pub struct Deposit {
    /// The account the deposit belongs to.
    pub owner_id: String,
    /// The asset deposited.
    pub asset: String,
    /// The principal.
    pub amount: u128,
    /// When the deposit was opened.
    pub timestamp: u64,
    /// Up to when growth was accrued.
    pub last_update_timestamp: u64,
    /// Annual rate, in basis points.
    pub apr: u16,
    /// Growth accrued and unclaimed.
    pub growth: u128,
}

impl View for Deposit {
    type V = DepositView;

    open spec fn view(&self) -> DepositView {
        DepositView {
            owner_id: self.owner_id@,
            asset: self.asset@,
            amount: self.amount as nat,
            timestamp: self.timestamp as nat,
            last_update_timestamp: self.last_update_timestamp as nat,
            apr: self.apr as nat,
            growth: self.growth as nat,
        }
    }
}

impl Clone for Deposit {
    fn clone(&self) -> (copy: Deposit)
        ensures
            copy@ == self@,
    {
        Deposit {
            owner_id: self.owner_id.clone(),
            asset: self.asset.clone(),
            amount: self.amount,
            timestamp: self.timestamp,
            last_update_timestamp: self.last_update_timestamp,
            apr: self.apr,
            growth: self.growth,
        }
    }
}

impl Deposit {
    /// Growth that a refresh at `now` would add; `None` where it exceeds 128 bits.
    pub fn pending_growth(&self, now: u64) -> (growth: Option<u128>)
        ensures
            match growth {
                Some(g) => g == self@.pending_growth(now as nat),
                None => self@.pending_growth(now as nat) > u128::MAX,
            },
    {
        let elapsed: u64 = if now > self.last_update_timestamp {
            now - self.last_update_timestamp
        } else {
            0
        };
        compute_accrued_growth(self.amount, self.apr, elapsed)
    }

    /// Whether the growth after a refresh at `now` still fits in 128 bits.
    pub fn growth_fits(&self, now: u64) -> (fits: bool)
        ensures
            fits == (self@.refreshed(now as nat).growth <= u128::MAX),
    {
        match self.pending_growth(now) {
            Some(g) => g <= u128::MAX - self.growth,
            None => false,
        }
    }

    /// Accrues growth for the time since the last accrual, at the deposit's
    /// rate on its principal, and moves the last accrual to `now`. With `now`
    /// at the last accrual, or before it, nothing changes.
    pub fn refresh_growth(&mut self, now: u64)
        requires
            old(self)@.refreshed(now as nat).growth <= u128::MAX,
        ensures
            final(self)@ == old(self)@.refreshed(now as nat),
    {
        let pending = self.pending_growth(now).unwrap();
        self.growth = self.growth + pending;
        if now > self.last_update_timestamp {
            self.last_update_timestamp = now;
        }
    }

    /// Releases `requested` of the growth, or all the growth where it is
    /// less, and returns what was released.
    pub fn take_growth(&mut self, requested: u128) -> (released: u128)
        ensures
            released == old(self)@.released(requested as nat),
            final(self)@ == old(self)@.after_take(requested as nat),
    {
        let released = if requested <= self.growth {
            requested
        } else {
            self.growth
        };
        self.growth = self.growth - released;
        released
    }
}

} // verus!
