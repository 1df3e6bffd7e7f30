//! Collateral-backed borrow positions and their health factor.
//!
//! Ratios are kept in basis points: a health factor of `10_000` is `1.0`.
use vstd::prelude::*;
use vstd::arithmetic::div_mod::{
    lemma_div_multiples_vanish_quotient, lemma_fundamental_div_mod_converse, lemma_fundamental_div_mod,
};
use crate::errors::LedgerError;
use crate::fixed::{mul_div_rem, BPS};

verus! {

/// Identifier of a borrow.
pub type BorrowId = u128;

/// Share of the collateral's value that is lent out, in basis points: `0.8`.
pub const BORROW_RATIO_BPS: u128 = 8_000;

/// The liquidation threshold, as a fraction: the collateral that each unit
/// of debt must be matched by for a position to be safe, `25 / 12`.
pub const LIQUIDATION_THRESHOLD_NUMERATOR: u128 = 25;

/// The denominator of the liquidation threshold.
pub const LIQUIDATION_THRESHOLD_DENOMINATOR: u128 = 12;

/// The health factor of a position whose collateral is worth just its debt,
/// in basis points: one over the liquidation threshold, `0.48`.
pub const HEALTH_FACTOR_AT_PAR_BPS: u128 = 4_800;

/// Health factor that a position opens with, in basis points: one over the
/// borrow ratio, `1.25`. It is granted, not computed: the first time the
/// factor of a position is computed from its collateral and debt, it falls
/// to what [`health_factor`] gives, which is `0.6` for a position that was
/// lent at the borrow ratio and whose collateral kept its value.
pub const OPENING_HEALTH_FACTOR_BPS: u128 = 12_500;

/// What is lent against collateral worth `collateral`: that value times the
/// borrow ratio, rounded to the nearest unit, halves upwards.
pub open spec fn amount_to_borrow(collateral: nat) -> nat {
    (collateral * BORROW_RATIO_BPS as nat + BPS as nat / 2) / (BPS as nat)
}

/// The health factor of a position in basis points, rounded down:
/// `collateral / (amount * liquidation threshold)`. A position without debt,
/// or one whose factor exceeds 128 bits, has the largest value.
pub open spec fn health_factor(collateral: nat, amount: nat) -> nat {
    if amount == 0 {
        u128::MAX as nat
    } else {
        let exact = (collateral * BPS as nat * LIQUIDATION_THRESHOLD_DENOMINATOR as nat) / (amount
            * LIQUIDATION_THRESHOLD_NUMERATOR as nat);
        if exact > u128::MAX {
            u128::MAX as nat
        } else {
            exact
        }
    }
}

/// A position may be liquidated while its health factor is below `1.0`.
pub open spec fn is_liquidatable(health_factor: nat) -> bool {
    health_factor < BPS
}

/// The liquidation discount of a position that may be liquidated, in basis
/// points, rounded down: half of what the health factor lacks to `1.0`. The
/// deeper the position is under water, the steeper the discount, up to one
/// half. A safe position has none.
pub open spec fn liquidation_discount(health_factor: nat) -> nat {
    if is_liquidatable(health_factor) {
        ((BPS as nat - health_factor) / 2) as nat
    } else {
        0
    }
}

/// Whether `amount_in` pays for `amount_out` of collateral at the liquidation
/// discount: `amount_out * (1 - discount) <= amount_in`. With the discount
/// at `(1 - h) / 2`, for the health factor `h`, the liquidator owes
/// `amount_out * (1 + h) / 2`. With `h` in basis points and both sides
/// multiplied by `2 * BPS`, no rounding is left in the comparison.
pub open spec fn payment_covers(health_factor: nat, amount_in: nat, amount_out: nat) -> bool {
    amount_out * (BPS as nat + health_factor) <= 2 * BPS as nat * amount_in
}

/// The discount grows as the health factor falls, and is one half at most.
pub proof fn lemma_discount_monotone(lower: nat, higher: nat)
    requires
        lower <= higher,
    ensures
        liquidation_discount(higher) <= liquidation_discount(lower) <= BPS / 2,
{
}

/// Where the discount is a whole number of basis points, the payment covers
/// the collateral exactly when it covers `amount_out * (1 - discount)`.
pub proof fn lemma_payment_at_discount(health_factor: nat, amount_in: nat, amount_out: nat)
    requires
        is_liquidatable(health_factor),
        (BPS as nat - health_factor) % 2 == 0,
    ensures
        payment_covers(
            health_factor,
            amount_in,
            amount_out,
        ) <==> amount_out * (BPS as nat - liquidation_discount(
            health_factor,
        )) <= BPS as nat * amount_in,
{
    let s = BPS as nat;
    let discount = liquidation_discount(health_factor);
    assert(s + health_factor == 2 * (s - discount));
    assert(amount_out * (s + health_factor) == 2 * (amount_out * (s - discount))) by (nonlinear_arith)
        requires
            s + health_factor == 2 * (s - discount),
    {
    }
    assert(2 * s * amount_in == 2 * (s * amount_in)) by (nonlinear_arith);
}

/// The factor at par is one over the liquidation threshold.
pub proof fn lemma_health_factor_at_par()
    ensures
        HEALTH_FACTOR_AT_PAR_BPS * LIQUIDATION_THRESHOLD_NUMERATOR == BPS * LIQUIDATION_THRESHOLD_DENOMINATOR,
{
}

/// The opening health factor is one over the borrow ratio.
pub proof fn lemma_opening_health_factor()
    ensures
        OPENING_HEALTH_FACTOR_BPS * BORROW_RATIO_BPS == BPS * BPS,
{
}

/// The model of a borrow position.
pub struct BorrowView {
    /// The asset borrowed.
    pub asset: Seq<char>,
    /// The amount outstanding.
    pub amount: nat,
    /// The value of the collateral, in units of the asset borrowed.
    pub collateral: nat,
    /// The locked collateral item the position is linked to.
    pub position_id: nat,
    /// The health factor as last computed, in basis points.
    pub health_factor: nat,
    /// Up to when fees were accrued.
    pub last_update_timestamp: nat,
    /// Annual rate, in basis points.
    pub apr: nat,
    /// Fees accrued on the position.
    pub fees: nat,
}

impl BorrowView {
    /// What a repayment credits: the debt less the fees, and nothing where
    /// the fees have outgrown the debt.
    pub open spec fn repayment(self) -> nat {
        if self.fees <= self.amount {
            (self.amount - self.fees) as nat
        } else {
            0
        }
    }

    /// The position with its health factor computed anew.
    pub open spec fn refreshed(self) -> BorrowView {
        BorrowView { health_factor: health_factor(self.collateral, self.amount), ..self }
    }

    /// The position with its collateral valued at `collateral`.
    pub open spec fn revalued(self, collateral: nat) -> BorrowView {
        (BorrowView { collateral, ..self }).refreshed()
    }

    /// Why the position cannot be liquidated by `amount_out` for a payment of
    /// `amount_in`, if anything: it is safe; the payment is too low; the
    /// position holds less than is claimed; or the step would make it safe.
    pub open spec fn liquidation_refusal(self, amount_in: nat, amount_out: nat) -> Option<LedgerError> {
        if !is_liquidatable(self.health_factor) {
            Some(LedgerError::HealthFactorAboveThreshold)
        } else if !payment_covers(self.health_factor, amount_in, amount_out) {
            Some(LedgerError::InsufficientPayment)
        } else if amount_out > self.collateral || amount_out > self.amount {
            Some(LedgerError::LiquidationTooLarge)
        } else if !is_liquidatable(
            health_factor((self.collateral - amount_out) as nat, (self.amount - amount_out) as nat),
        ) {
            Some(LedgerError::HealthFactorAboveThreshold)
        } else {
            None
        }
    }

    /// The position after `amount_out` of collateral and of debt was liquidated.
    pub open spec fn liquidated(self, amount_out: nat) -> BorrowView {
        (BorrowView {
            collateral: (self.collateral - amount_out) as nat,
            amount: (self.amount - amount_out) as nat,
            ..self
        }).refreshed()
    }
}

/// A position newly opened at `now` against collateral worth `collateral`.
pub open spec fn opened_borrow(
    asset: Seq<char>,
    collateral: nat,
    position_id: nat,
    apr: nat,
    now: nat,
) -> BorrowView {
    BorrowView {
        asset,
        amount: amount_to_borrow(collateral),
        collateral,
        position_id,
        health_factor: OPENING_HEALTH_FACTOR_BPS as nat,
        last_update_timestamp: now,
        apr,
        fees: 0,
    }
}

/// What is lent against collateral worth `collateral`.
pub fn compute_amount_to_borrow(collateral: u128) -> (amount: u128)
    ensures
        amount == amount_to_borrow(collateral as nat),
        amount <= collateral,
{
    let whole: u128 = collateral / BPS;
    let part: u128 = collateral % BPS;
    let rounded: u128 = (part * BORROW_RATIO_BPS + BPS / 2) / BPS;
    proof {
        let d = BPS as int;
        let low = part * BORROW_RATIO_BPS + d / 2;
        lemma_fundamental_div_mod(low, d);
        assert(collateral * BORROW_RATIO_BPS + d / 2 == (whole * BORROW_RATIO_BPS + low / d) * d + low % d)
            by (nonlinear_arith)
            requires
                collateral == whole * d + part,
                low == part * BORROW_RATIO_BPS + d / 2,
                low == d * (low / d) + low % d,
        {
        }
        lemma_fundamental_div_mod_converse(
            collateral * BORROW_RATIO_BPS + d / 2,
            d,
            whole * BORROW_RATIO_BPS + low / d,
            low % d,
        );
    }
    whole * BORROW_RATIO_BPS + rounded
}

/// The health factor of a position with the given collateral and debt.
pub fn compute_health_factor(collateral: u128, amount: u128) -> (factor: u128)
    ensures
        factor == health_factor(collateral as nat, amount as nat),
{
    if amount == 0 {
        return u128::MAX;
    }
    proof {
        let n = LIQUIDATION_THRESHOLD_NUMERATOR as int;
        let par = HEALTH_FACTOR_AT_PAR_BPS as int;
        lemma_health_factor_at_par();
        lemma_div_multiples_vanish_quotient(n, collateral * par, amount as int);
        assert(collateral * BPS * LIQUIDATION_THRESHOLD_DENOMINATOR == n * (collateral * par))
            by (nonlinear_arith)
            requires
                par * n == BPS * LIQUIDATION_THRESHOLD_DENOMINATOR,
        {
        }
        assert(amount * n == n * amount) by (nonlinear_arith);
    }
    match mul_div_rem(collateral, HEALTH_FACTOR_AT_PAR_BPS, amount) {
        Some((q, _)) => q,
        None => u128::MAX,
    }
}

/// Whether `amount_in` pays for `amount_out` of collateral at the discount
/// that `health_factor` gives.
pub fn compute_payment_covers(health_factor: u128, amount_in: u128, amount_out: u128) -> (covers: bool)
    ensures
        covers == payment_covers(health_factor as nat, amount_in as nat, amount_out as nat),
{
    // amount_out * BPS splits by 2 * BPS without a product
    let half: u128 = amount_out / 2;
    let odd: u128 = amount_out % 2;
    let ghost d = 2 * BPS as int;
    let ghost owed = amount_out * (BPS + health_factor);
    match mul_div_rem(amount_out, health_factor, 2 * BPS) {
        Some((q1, r1)) => {
            let extra: u128 = r1 + odd * BPS;
            let carry: u128 = if extra >= 2 * BPS { 1 } else { 0 };
            let r: u128 = if extra >= 2 * BPS { extra - 2 * BPS } else { extra };
            proof {
                lemma_fundamental_div_mod(amount_out * health_factor, d);
                assert(owed == d * (q1 + half + carry) + r) by (nonlinear_arith)
                    requires
                        owed == amount_out * (BPS + health_factor),
                        amount_out * health_factor == d * q1 + r1,
                        amount_out == 2 * half + odd,
                        d == 2 * BPS,
                        r + d * carry == r1 + odd * BPS,
                {
                }
                lemma_compare_split(d, q1 + half + carry, r as int, amount_in as int);
            }
            if q1 > u128::MAX - half || q1 + half > u128::MAX - carry {
                return false;
            }
            let q: u128 = q1 + half + carry;
            q < amount_in || (q == amount_in && r == 0)
        },
        None => {
            proof {
                lemma_fundamental_div_mod(amount_out * health_factor, d);
                let q1 = (amount_out * health_factor) / d;
                assert(owed >= d * q1) by (nonlinear_arith)
                    requires
                        owed == amount_out * (BPS + health_factor),
                        amount_out * health_factor == d * q1 + (amount_out * health_factor) % d,
                        (amount_out * health_factor) % d >= 0,
                {
                }
                lemma_compare_split(d, q1, 0, amount_in as int);
            }
            false
        },
    }
}

/// A sum `d * q + r` with `r` below `d` compares to `d * n` as `q` does to
/// `n`, the remainder deciding where they are equal.
proof fn lemma_compare_split(d: int, q: int, r: int, n: int)
    requires
        d > 0,
        0 <= r < d,
    ensures
        d * q + r <= d * n <==> (q < n || (q == n && r == 0)),
        q > n ==> d * q > d * n,
{
    assert(q < n ==> d * q + d <= d * n) by (nonlinear_arith)
        requires
            d > 0,
    {
    }
    assert(q > n ==> d * q >= d * n + d) by (nonlinear_arith)
        requires
            d > 0,
    {
    }
}

/// A collateral-backed borrow position.
#[derive(Debug, PartialEq, Eq)]
pub struct Borrow {
    /// The asset borrowed.
    pub asset: String,
    /// The amount outstanding.
    pub amount: u128,
    /// The value of the collateral, in units of the asset borrowed.
    pub collateral: u128,
    /// The locked collateral item the position is linked to.
    pub position_id: u128,
    /// The health factor as last computed, in basis points.
    pub health_factor: u128,
    /// Up to when fees were accrued.
    pub last_update_timestamp: u64,
    /// Annual rate, in basis points.
    pub apr: u16,
    /// Fees accrued on the position.
    pub fees: u128,
}

impl View for Borrow {
    type V = BorrowView;

    open spec fn view(&self) -> BorrowView {
        BorrowView {
            asset: self.asset@,
            amount: self.amount as nat,
            collateral: self.collateral as nat,
            position_id: self.position_id as nat,
            health_factor: self.health_factor as nat,
            last_update_timestamp: self.last_update_timestamp as nat,
            apr: self.apr as nat,
            fees: self.fees as nat,
        }
    }
}

impl Clone for Borrow {
    fn clone(&self) -> (copy: Borrow)
        ensures
            copy@ == self@,
    {
        Borrow {
            asset: self.asset.clone(),
            amount: self.amount,
            collateral: self.collateral,
            position_id: self.position_id,
            health_factor: self.health_factor,
            last_update_timestamp: self.last_update_timestamp,
            apr: self.apr,
            fees: self.fees,
        }
    }
}

impl Borrow {
    /// Sets the time up to which the position is accounted for.
    pub fn update_timestamp(&mut self, current_timestamp: u64)
        ensures
            final(self)@ == (BorrowView { last_update_timestamp: current_timestamp as nat, ..old(self)@ }),
    {
        self.last_update_timestamp = current_timestamp;
    }

    /// Computes the health factor anew from collateral and debt.
    pub fn refresh_health_factor(&mut self)
        ensures
            final(self)@ == old(self)@.refreshed(),
    {
        self.health_factor = compute_health_factor(self.collateral, self.amount);
    }

    /// The liquidation discount of the position, in basis points.
    pub fn liquidation_discount(&self) -> (discount: u128)
        ensures
            discount == liquidation_discount(self@.health_factor),
    {
        if self.health_factor < BPS {
            (BPS - self.health_factor) / 2
        } else {
            0
        }
    }

    /// What a repayment of the position credits: the debt less the fees, and
    /// nothing where the fees have outgrown the debt.
    pub fn repayment(&self) -> (credit: u128)
        ensures
            credit == self@.repayment(),
    {
        if self.fees <= self.amount {
            self.amount - self.fees
        } else {
            0
        }
    }

    /// Whether the position may be liquidated.
    pub fn is_liquidatable(&self) -> (unsafe_position: bool)
        ensures
            unsafe_position == is_liquidatable(self@.health_factor),
    {
        self.health_factor < BPS
    }

    /// Values the collateral at `collateral` and refreshes the health factor.
    pub fn revalue(&mut self, collateral: u128)
        ensures
            final(self)@ == old(self)@.revalued(collateral as nat),
    {
        self.collateral = collateral;
        self.refresh_health_factor();
    }

    /// Liquidates `amount_out` of the collateral and of the debt for a
    /// payment of `amount_in`, or says why not and leaves the position as it was.
    pub fn liquidate(&mut self, amount_in: u128, amount_out: u128) -> (outcome: Result<(), LedgerError>)
        ensures
            match outcome {
                Ok(()) => old(self)@.liquidation_refusal(amount_in as nat, amount_out as nat) is None
                    && final(self)@ == old(self)@.liquidated(amount_out as nat),
                Err(e) => old(self)@.liquidation_refusal(amount_in as nat, amount_out as nat) == Some(e)
                    && final(self)@ == old(self)@,
            },
    {
        if !self.is_liquidatable() {
            return Err(LedgerError::HealthFactorAboveThreshold);
        }
        if !compute_payment_covers(self.health_factor, amount_in, amount_out) {
            return Err(LedgerError::InsufficientPayment);
        }
        if amount_out > self.collateral || amount_out > self.amount {
            return Err(LedgerError::LiquidationTooLarge);
        }
        let factor = compute_health_factor(self.collateral - amount_out, self.amount - amount_out);
        if factor >= BPS {
            return Err(LedgerError::HealthFactorAboveThreshold);
        }
        self.collateral = self.collateral - amount_out;
        self.amount = self.amount - amount_out;
        self.health_factor = factor;
        Ok(())
    }
}

} // verus!
