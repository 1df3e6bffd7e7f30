//! Accounting core of a collateralized lending protocol.
//!
//! The crate keeps per-account token balances, pooled reserves per asset,
//! interest-bearing deposits and collateral-backed borrow positions, and
//! decides when a borrow position may be liquidated. Every operation is a
//! verified state transition: it either commits in full or reports a
//! [`LedgerError`] and leaves the state as it was.
//!
//! The ledger does no input or output. The host hands it the caller's
//! identity, the current time in nanoseconds and the valuation of collateral
//! as plain values, and carries out what an operation hands back, such as a
//! [`TransferRequest`].
//!
//! [`state::ContractView`] is the mathematical model of the ledger, with one
//! transition function per operation; [`Contract`] is the executable ledger,
//! proved to follow the model; [`laws`] holds what is proved of every state
//! that the ledger can reach.
//!
//! Amounts are unsigned 128-bit integers. Rates and ratios are in basis
//! points, [`fixed::BPS`] to the whole. Where an operation would take a
//! total beyond 128 bits it asks its caller not to call it: each such
//! operation has a companion, named with `_fits`, that tells beforehand.
pub mod errors;
pub mod fixed;
pub mod decimal;
pub mod text_map;
pub mod arena;
pub mod balance;
pub mod reserve;
pub mod deposit;
pub mod borrow;
pub mod totals;
pub mod state;
pub mod operation;
pub mod contract;
pub mod deposit_book;
pub mod borrow_book;
pub mod liquidation;
pub mod laws;

pub use crate::balance::BalanceLedger;
pub use crate::borrow::{Borrow, BorrowId, BORROW_RATIO_BPS};
pub use crate::contract::{Contract, TransferRequest};
pub use crate::deposit::{Deposit, DepositId};
pub use crate::errors::LedgerError;
pub use crate::reserve::{Reserve, ReserveTracker};
pub use crate::state::{APR_BORROW, APR_DEPOSIT};
