//! The failures an operation of the ledger can report.
use vstd::prelude::*;

verus! {

/// Why an operation was refused. Every failure is detected before the state
/// is touched, so an `Err` always means "nothing changed".
#[derive(Clone, Copy, Debug, PartialEq, Eq, Structural)]
pub enum LedgerError {
    /// A debit asks for more than the account holds of the asset.
    InsufficientBalance,
    /// The asset has no reserve.
    ReserveNotFound,
    /// The asset already has a reserve.
    ReserveAlreadyExists,
    /// The reserve cannot give up the requested amount.
    ReserveUnderflow,
    /// No open deposit has this identifier.
    DepositNotFound,
    /// No open borrow has this identifier.
    BorrowNotFound,
    /// The caller does not own the deposit.
    NotOwner,
    /// The caller is not the recorded owner of the collateral.
    NotCollateralOwner,
    /// The position is below the safe threshold and cannot be repaid away.
    HealthFactorTooLow,
    /// The position is safe, or would become safe, so it cannot be liquidated.
    HealthFactorAboveThreshold,
    /// The caller is not the administrator.
    Unauthorized,
    /// The liquidator pays less than the discounted value of what it claims.
    InsufficientPayment,
    /// The liquidation claims more than the position holds.
    LiquidationTooLarge,
}

impl LedgerError {
    /// A short description for logs and panics at the host boundary.
    pub fn message(&self) -> (text: &'static str)
        ensures
            text@ == Self::spec_message(*self),
    {
        match self {
            LedgerError::InsufficientBalance => "insufficient balance",
            LedgerError::ReserveNotFound => "reserve not found",
            LedgerError::ReserveAlreadyExists => "reserve already exists",
            LedgerError::ReserveUnderflow => "reserve underflow",
            LedgerError::DepositNotFound => "deposit not found",
            LedgerError::BorrowNotFound => "borrow not found",
            LedgerError::NotOwner => "caller does not own this deposit",
            LedgerError::NotCollateralOwner => "caller did not lock this collateral",
            LedgerError::HealthFactorTooLow => "health factor is below the safe threshold",
            LedgerError::HealthFactorAboveThreshold => "health factor is not below the liquidation threshold",
            LedgerError::Unauthorized => "caller is not the administrator",
            LedgerError::InsufficientPayment => "payment is below the discounted value",
            LedgerError::LiquidationTooLarge => "liquidation exceeds the position",
        }
    }

    /// The text that [`LedgerError::message`] returns.
    pub open spec fn spec_message(e: LedgerError) -> Seq<char> {
        match e {
            LedgerError::InsufficientBalance => "insufficient balance"@,
            LedgerError::ReserveNotFound => "reserve not found"@,
            LedgerError::ReserveAlreadyExists => "reserve already exists"@,
            LedgerError::ReserveUnderflow => "reserve underflow"@,
            LedgerError::DepositNotFound => "deposit not found"@,
            LedgerError::BorrowNotFound => "borrow not found"@,
            LedgerError::NotOwner => "caller does not own this deposit"@,
            LedgerError::NotCollateralOwner => "caller did not lock this collateral"@,
            LedgerError::HealthFactorTooLow => "health factor is below the safe threshold"@,
            LedgerError::HealthFactorAboveThreshold => "health factor is not below the liquidation threshold"@,
            LedgerError::Unauthorized => "caller is not the administrator"@,
            LedgerError::InsufficientPayment => "payment is below the discounted value"@,
            LedgerError::LiquidationTooLarge => "liquidation exceeds the position"@,
        }
    }
}

} // verus!
