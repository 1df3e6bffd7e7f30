use lending::deposit::{compute_accrued_growth, NANOS_PER_YEAR};
use lending::{Contract, Deposit, LedgerError};

fn text(s: &str) -> String {
    String::from(s)
}

const YEAR: u64 = 31_536_000_000_000_000;

fn sample(amount: u128, last: u64, growth: u128) -> Deposit {
    Deposit {
        owner_id: text("alice"),
        asset: text("x.token"),
        amount,
        timestamp: 0,
        last_update_timestamp: last,
        apr: 500,
        growth,
    }
}

#[test]
fn year_constant_is_365_days_in_nanoseconds() {
    assert_eq!(NANOS_PER_YEAR, 365 * 24 * 60 * 60 * 1_000_000_000);
    assert_eq!(NANOS_PER_YEAR, YEAR as u128);
}

#[test]
fn accrual_is_simple_interest_rounded_down() {
    assert_eq!(compute_accrued_growth(1_000_000, 500, YEAR), Some(50_000));
    assert_eq!(compute_accrued_growth(1_000_000, 500, YEAR / 2), Some(25_000));
    assert_eq!(compute_accrued_growth(1_000_000, 1000, 3 * YEAR), Some(300_000));
    assert_eq!(compute_accrued_growth(1_000_000, 500, 0), Some(0));
    assert_eq!(compute_accrued_growth(0, 500, YEAR), Some(0));
    assert_eq!(compute_accrued_growth(1_000_000, 0, YEAR), Some(0));
    // 19 * 5% = 0.95 rounds down
    assert_eq!(compute_accrued_growth(19, 500, YEAR), Some(0));
    assert_eq!(compute_accrued_growth(20, 500, YEAR), Some(1));
    assert_eq!(compute_accrued_growth(39, 500, YEAR), Some(1));
    // one nanosecond short of the year that earns the unit
    assert_eq!(compute_accrued_growth(20, 500, YEAR - 1), Some(0));
}

#[test]
fn accrual_works_where_the_product_exceeds_128_bits() {
    // 10^30 * 500 * 3.15 * 10^16 is far beyond 2^128; the result is not
    let principal: u128 = 1_000_000_000_000_000_000_000_000_000_000;
    assert_eq!(compute_accrued_growth(principal, 500, YEAR), Some(principal / 20));
    assert_eq!(compute_accrued_growth(u128::MAX, 10_000, YEAR), Some(u128::MAX));
    assert_eq!(compute_accrued_growth(u128::MAX, 10_000, YEAR + 1), None);
    assert_eq!(compute_accrued_growth(u128::MAX, 20_000, YEAR), None);
    assert_eq!(compute_accrued_growth(u128::MAX, u16::MAX, u64::MAX), None);
}

#[test]
fn refresh_accrues_and_moves_the_last_accrual() {
    let mut deposit = sample(1_000_000, 10, 7);
    assert_eq!(deposit.pending_growth(10 + YEAR), Some(50_000));
    assert!(deposit.growth_fits(10 + YEAR));
    deposit.refresh_growth(10 + YEAR);
    assert_eq!(deposit.growth, 50_007);
    assert_eq!(deposit.last_update_timestamp, 10 + YEAR);
    assert_eq!(deposit.amount, 1_000_000);
    assert_eq!(deposit.timestamp, 0);
}

#[test]
fn refresh_at_the_last_accrual_changes_nothing() {
    let mut deposit = sample(1_000_000, 10, 7);
    deposit.refresh_growth(10);
    assert_eq!(deposit, sample(1_000_000, 10, 7));
    // a time before the last accrual accrues nothing and moves nothing
    deposit.refresh_growth(3);
    assert_eq!(deposit, sample(1_000_000, 10, 7));
}

#[test]
fn growth_that_would_not_fit_is_told_beforehand() {
    let deposit = sample(u128::MAX, 0, 0);
    assert!(deposit.growth_fits(YEAR));
    let deposit = sample(u128::MAX, 0, u128::MAX);
    assert!(!deposit.growth_fits(YEAR));
    assert!(deposit.growth_fits(0));
    let mut deposit = sample(u128::MAX, 0, 0);
    deposit.apr = 20_000;
    assert!(!deposit.growth_fits(YEAR));
}

#[test]
fn take_growth_is_a_claim_up_to() {
    let mut deposit = sample(1000, 0, 40);
    assert_eq!(deposit.take_growth(15), 15);
    assert_eq!(deposit.growth, 25);
    assert_eq!(deposit.take_growth(0), 0);
    assert_eq!(deposit.growth, 25);
    assert_eq!(deposit.take_growth(26), 25);
    assert_eq!(deposit.growth, 0);
    assert_eq!(deposit.take_growth(u128::MAX), 0);
    assert_eq!(deposit.growth, 0);
    assert_eq!(deposit.amount, 1000);
}

#[test]
fn deposit_clone_is_equal() {
    let deposit = sample(1000, 3, 40);
    assert_eq!(deposit.clone(), deposit);
}

fn funded() -> Contract {
    let mut ledger = Contract::new(text("admin"));
    ledger.create_reserve(&text("admin"), &text("x.token")).unwrap();
    ledger.create_reserve(&text("admin"), &text("y.token")).unwrap();
    ledger.deposit_ft(&text("alice"), &text("x.token"), 1000);
    ledger.deposit_ft(&text("alice"), &text("y.token"), 1000);
    ledger.deposit_ft(&text("bob"), &text("x.token"), 1000);
    ledger
}

#[test]
fn deposit_needs_balance_and_reserve() {
    let a = text("alice");
    let x = text("x.token");
    let z = text("z.token");
    let mut ledger = funded();
    assert_eq!(ledger.create_deposit(&a, &x, 1001, 0), Err(LedgerError::InsufficientBalance));
    assert_eq!(ledger.create_deposit(&text("carol"), &x, 0, 0), Err(LedgerError::InsufficientBalance));
    ledger.deposit_ft(&a, &z, 5);
    assert_eq!(ledger.create_deposit(&a, &z, 5, 0), Err(LedgerError::ReserveNotFound));
    assert_eq!(ledger.balance_of(&a, &z), 5);
    assert_eq!(ledger.balance_of(&a, &x), 1000);
    assert_eq!(ledger.deposits_created_number(), 0);
}

#[test]
fn a_new_deposit_records_what_was_asked() {
    let a = text("alice");
    let x = text("x.token");
    let mut ledger = funded();
    let id = ledger.create_deposit(&a, &x, 250, 77).unwrap();
    assert_eq!(
        ledger.get_deposit(id),
        Some(Deposit {
            owner_id: a.clone(),
            asset: x.clone(),
            amount: 250,
            timestamp: 77,
            last_update_timestamp: 77,
            apr: 500,
            growth: 0,
        })
    );
    assert_eq!(ledger.balance_of(&a, &x), 750);
}

#[test]
fn deposit_identifiers_count_up_and_are_not_used_again() {
    let a = text("alice");
    let x = text("x.token");
    let mut ledger = funded();
    assert_eq!(ledger.create_deposit(&a, &x, 10, 0), Ok(0));
    assert_eq!(ledger.create_deposit(&a, &x, 10, 0), Ok(1));
    assert_eq!(ledger.close_deposit(&a, 0, 0), Ok(10));
    assert_eq!(ledger.close_deposit(&a, 1, 0), Ok(10));
    assert_eq!(ledger.create_deposit(&a, &x, 10, 0), Ok(2));
    assert!(ledger.get_deposit(0).is_none());
    assert!(ledger.get_deposit(1).is_none());
    assert!(ledger.get_deposit(2).is_some());
    assert!(ledger.get_deposit(3).is_none());
    assert!(ledger.get_deposit(u128::MAX).is_none());
    assert_eq!(ledger.deposits_created_number(), 3);
}

#[test]
fn only_the_owner_closes_or_claims() {
    let a = text("alice");
    let b = text("bob");
    let x = text("x.token");
    let mut ledger = funded();
    let id = ledger.create_deposit(&a, &x, 100, 0).unwrap();
    assert_eq!(ledger.close_deposit(&b, id, YEAR), Err(LedgerError::NotOwner));
    assert_eq!(ledger.take_deposit_growth(&b, id, 1, YEAR), Err(LedgerError::NotOwner));
    assert_eq!(ledger.close_deposit(&a, id + 1, YEAR), Err(LedgerError::DepositNotFound));
    assert_eq!(ledger.take_deposit_growth(&a, id + 1, 1, YEAR), Err(LedgerError::DepositNotFound));
    // refused calls accrue nothing
    assert_eq!(ledger.get_deposit(id).unwrap().growth, 0);
    assert_eq!(ledger.get_deposit(id).unwrap().last_update_timestamp, 0);
    assert_eq!(ledger.balance_of(&b, &x), 1000);
}

#[test]
fn batch_refresh_accrues_every_open_deposit() {
    let a = text("alice");
    let b = text("bob");
    let x = text("x.token");
    let y = text("y.token");
    let mut ledger = funded();
    let first = ledger.create_deposit(&a, &x, 1000, 0).unwrap();
    let second = ledger.create_deposit(&b, &x, 400, YEAR / 2).unwrap();
    let third = ledger.create_deposit(&a, &y, 200, 0).unwrap();
    ledger.close_deposit(&a, third, 0).unwrap();
    assert!(ledger.refresh_deposits_growth_fits(YEAR));
    ledger.refresh_deposits_growth(YEAR);
    assert_eq!(ledger.get_deposit(first).unwrap().growth, 50);
    assert_eq!(ledger.get_deposit(first).unwrap().last_update_timestamp, YEAR);
    assert_eq!(ledger.get_deposit(second).unwrap().growth, 10);
    assert_eq!(ledger.get_deposit(second).unwrap().last_update_timestamp, YEAR);
    assert!(ledger.get_deposit(third).is_none());
    // a second refresh at the same time adds nothing
    ledger.refresh_deposits_growth(YEAR);
    assert_eq!(ledger.get_deposit(first).unwrap().growth, 50);
    assert_eq!(ledger.get_deposit(second).unwrap().growth, 10);
    // balances and reserves are not touched by accrual
    assert_eq!(ledger.balance_of(&a, &x), 0);
    assert_eq!(ledger.get_reserve(&x).unwrap().deposited, 1400);
}

#[test]
fn account_deposits_are_those_the_account_owns() {
    let a = text("alice");
    let b = text("bob");
    let x = text("x.token");
    let y = text("y.token");
    let mut ledger = funded();
    assert!(ledger.get_account_deposits(&a).is_empty());
    ledger.create_deposit(&a, &x, 1, 0).unwrap();
    ledger.create_deposit(&b, &x, 2, 0).unwrap();
    ledger.create_deposit(&a, &y, 3, 0).unwrap();
    ledger.create_deposit(&a, &x, 4, 0).unwrap();
    ledger.close_deposit(&a, 0, 0).unwrap();
    let of_alice = ledger.get_account_deposits(&a);
    assert_eq!(of_alice.len(), 2);
    assert_eq!(of_alice[&2].amount, 3);
    assert_eq!(of_alice[&2].asset, y);
    assert_eq!(of_alice[&3].amount, 4);
    assert_eq!(of_alice.get(&3), ledger.get_deposit(3).as_ref());
    assert!(!of_alice.contains_key(&0));
    assert!(!of_alice.contains_key(&1));
    let of_bob = ledger.get_account_deposits(&b);
    assert_eq!(of_bob.len(), 1);
    assert_eq!(of_bob[&1].owner_id, b);
    assert_eq!(of_bob[&1].amount, 2);
    assert!(ledger.get_account_deposits(&text("carol")).is_empty());
}

#[test]
fn fits_tells_when_a_total_would_leave_128_bits() {
    let a = text("alice");
    let b = text("bob");
    let x = text("x.token");
    let mut ledger = Contract::new(text("admin"));
    ledger.create_reserve(&text("admin"), &x).unwrap();
    ledger.deposit_ft(&a, &x, u128::MAX);
    ledger.deposit_ft(&b, &x, 10);
    ledger.create_deposit(&a, &x, u128::MAX, 0).unwrap();
    // the reserve is full
    assert!(!ledger.create_deposit_fits(&b, &x, 1));
    assert!(ledger.create_deposit_fits(&b, &x, 0));
    // a deposit that is refused anyway fits
    assert!(ledger.create_deposit_fits(&b, &x, 11));
    // the growth of a year on top of the principal does not fit the balance
    assert!(!ledger.close_deposit_fits(&a, 0, YEAR));
    assert!(ledger.close_deposit_fits(&a, 0, 0));
    assert!(ledger.close_deposit_fits(&b, 0, YEAR));
    assert!(ledger.refresh_deposits_growth_fits(YEAR));
    ledger.refresh_deposits_growth(20 * YEAR);
    assert_eq!(ledger.get_deposit(0).unwrap().growth, u128::MAX);
    assert!(!ledger.refresh_deposits_growth_fits(21 * YEAR));
    assert!(ledger.refresh_deposits_growth_fits(20 * YEAR));
    assert!(!ledger.take_deposit_growth_fits(&a, 0, 1, 21 * YEAR));
    assert!(ledger.take_deposit_growth_fits(&a, 0, 1, 20 * YEAR));
    assert!(ledger.take_deposit_growth_fits(&b, 0, 1, 21 * YEAR));
    ledger.deposit_ft(&a, &x, 5);
    assert!(ledger.take_deposit_growth_fits(&a, 0, u128::MAX - 5, 20 * YEAR));
    assert!(!ledger.take_deposit_growth_fits(&a, 0, u128::MAX - 4, 20 * YEAR));
}

#[test]
fn closing_is_refused_for_the_first_reason_that_holds() {
    let a = text("alice");
    let b = text("bob");
    let x = text("x.token");
    let mut ledger = funded();
    let id = ledger.create_deposit(&a, &x, 100, 0).unwrap();
    assert_eq!(ledger.close_deposit_refusal(&a, id), None);
    assert_eq!(ledger.close_deposit_refusal(&b, id), Some(LedgerError::NotOwner));
    assert_eq!(ledger.close_deposit_refusal(&b, id + 1), Some(LedgerError::DepositNotFound));
    ledger.on_collateral_received(&text("9"), &b);
    ledger.supply_collateral_and_borrow(&b, 9, 100, &x, 0).unwrap();
    // 80 of the 100 are lent out
    assert_eq!(ledger.close_deposit_refusal(&a, id), Some(LedgerError::ReserveUnderflow));
    assert_eq!(ledger.close_deposit_refusal(&b, id), Some(LedgerError::NotOwner));
    assert_eq!(ledger.close_deposit(&a, id, 0), Err(LedgerError::ReserveUnderflow));
    assert_eq!(ledger.balance_of(&a, &x), 900);
}
