use lending::borrow::{
    compute_amount_to_borrow, compute_health_factor, compute_payment_covers, BORROW_RATIO_BPS,
    HEALTH_FACTOR_AT_PAR_BPS, LIQUIDATION_THRESHOLD_DENOMINATOR, LIQUIDATION_THRESHOLD_NUMERATOR,
    OPENING_HEALTH_FACTOR_BPS,
};
use lending::fixed::BPS;
use lending::{Borrow, Contract, LedgerError};

fn text(s: &str) -> String {
    String::from(s)
}

fn position(collateral: u128, amount: u128, health_factor: u128, fees: u128) -> Borrow {
    Borrow {
        asset: text("x.token"),
        amount,
        collateral,
        position_id: 17,
        health_factor,
        last_update_timestamp: 0,
        apr: 1000,
        fees,
    }
}

#[test]
fn constants_agree_with_each_other() {
    assert_eq!(BPS, 10_000);
    assert_eq!(BORROW_RATIO_BPS, 8_000);
    assert_eq!(LIQUIDATION_THRESHOLD_NUMERATOR, 25);
    assert_eq!(LIQUIDATION_THRESHOLD_DENOMINATOR, 12);
    assert_eq!(HEALTH_FACTOR_AT_PAR_BPS * LIQUIDATION_THRESHOLD_NUMERATOR, BPS * LIQUIDATION_THRESHOLD_DENOMINATOR);
    assert_eq!(OPENING_HEALTH_FACTOR_BPS * BORROW_RATIO_BPS, BPS * BPS);
}

#[test]
fn borrowed_amount_is_rounded_to_the_nearest_unit() {
    assert_eq!(compute_amount_to_borrow(1000), 800);
    assert_eq!(compute_amount_to_borrow(0), 0);
    assert_eq!(compute_amount_to_borrow(1), 1); // 0.8
    assert_eq!(compute_amount_to_borrow(2), 2); // 1.6
    assert_eq!(compute_amount_to_borrow(3), 2); // 2.4
    assert_eq!(compute_amount_to_borrow(4), 3); // 3.2
    assert_eq!(compute_amount_to_borrow(5), 4);
    assert_eq!(compute_amount_to_borrow(7), 6); // 5.6
    assert_eq!(compute_amount_to_borrow(8), 6); // 6.4
    assert_eq!(compute_amount_to_borrow(9_999), 7_999); // 7999.2
    assert_eq!(compute_amount_to_borrow(10_000), 8_000);
    assert_eq!(compute_amount_to_borrow(10_003), 8_002); // 8002.4
    // 0.8 * 625 is whole
    assert_eq!(compute_amount_to_borrow(625), 500);
    assert_eq!(compute_amount_to_borrow(u128::MAX), 272225893536750770770699685945414569164);
}

#[test]
fn health_factor_is_collateral_over_debt_and_threshold() {
    // 1000 / (800 * 25 / 12)
    assert_eq!(compute_health_factor(1000, 800), 6_000);
    assert_eq!(compute_health_factor(500, 300), 8_000);
    assert_eq!(compute_health_factor(2500, 1200), 10_000);
    assert_eq!(compute_health_factor(3000, 1200), 12_000);
    assert_eq!(compute_health_factor(600, 1000), 2_880);
    assert_eq!(compute_health_factor(480, 800), 2_880);
    assert_eq!(compute_health_factor(800, 800), 4_800);
    assert_eq!(compute_health_factor(799, 800), 4_794);
    assert_eq!(compute_health_factor(0, 800), 0);
    assert_eq!(compute_health_factor(1, 3), 1_600);
    // rounded down: 20_833 * 0.48 = 9999.84
    assert_eq!(compute_health_factor(20_833, 10_000), 9_999);
    assert_eq!(compute_health_factor(20_834, 10_000), 10_000);
    // no debt, or a factor beyond 128 bits: the largest value
    assert_eq!(compute_health_factor(1000, 0), u128::MAX);
    assert_eq!(compute_health_factor(0, 0), u128::MAX);
    assert_eq!(compute_health_factor(u128::MAX, 1), u128::MAX);
    assert_eq!(compute_health_factor(u128::MAX, 4_799), u128::MAX);
    assert_eq!(compute_health_factor(u128::MAX, 4_800), u128::MAX);
    assert_eq!(compute_health_factor(u128::MAX, 4_801), 340211489527286945349760074083000919596);
    assert_eq!(compute_health_factor(u128::MAX, u128::MAX), 4_800);
}

#[test]
fn payment_must_cover_the_discounted_collateral() {
    // health factor 0.6: discount 0.2
    assert!(compute_payment_covers(6_000, 450, 500));
    assert!(compute_payment_covers(6_000, 400, 500));
    assert!(!compute_payment_covers(6_000, 399, 500));
    // health factor 0: discount 0.5
    assert!(compute_payment_covers(0, 250, 500));
    assert!(!compute_payment_covers(0, 249, 500));
    // odd amounts leave a half that the payment must round up to
    assert!(!compute_payment_covers(0, 250, 501));
    assert!(compute_payment_covers(0, 251, 501));
    // health factor 0.9999: discount 0.00005, 10_000 cost 9999.5
    assert!(!compute_payment_covers(9_999, 9_999, 10_000));
    assert!(compute_payment_covers(9_999, 10_000, 10_000));
    assert!(compute_payment_covers(9_999, 19_999, 20_000));
    // nothing claimed costs nothing
    assert!(compute_payment_covers(6_000, 0, 0));
    assert!(compute_payment_covers(u128::MAX, 0, 0));
    // large values
    assert!(compute_payment_covers(0, u128::MAX / 2 + 1, u128::MAX));
    assert!(!compute_payment_covers(0, u128::MAX / 2, u128::MAX));
    assert!(!compute_payment_covers(u128::MAX, u128::MAX, u128::MAX));
    assert!(compute_payment_covers(10_000, u128::MAX, u128::MAX));
    assert!(!compute_payment_covers(10_001, u128::MAX, u128::MAX));
    assert!(compute_payment_covers(u128::MAX, u128::MAX, 1));
}

#[test]
fn position_liquidation_checks_in_order() {
    let mut safe = position(1000, 800, 12_500, 0);
    assert_eq!(safe.liquidate(0, 5000), Err(LedgerError::HealthFactorAboveThreshold));
    let mut unsafe_position = position(600, 1000, 6_000, 0);
    assert!(unsafe_position.is_liquidatable());
    assert_eq!(unsafe_position.liquidate(0, 5000), Err(LedgerError::InsufficientPayment));
    assert_eq!(unsafe_position.liquidate(5000, 601), Err(LedgerError::LiquidationTooLarge));
    assert_eq!(unsafe_position, position(600, 1000, 6_000, 0));
    assert_eq!(unsafe_position.liquidate(5000, 600), Ok(()));
    assert_eq!(unsafe_position, position(0, 400, 0, 0));
}

#[test]
fn liquidation_does_not_look_at_the_fees() {
    let mut with_fees = position(900, 1000, 9_000, 300);
    assert_eq!(with_fees.repayment(), 700);
    assert_eq!(with_fees.liquidate(5000, 901), Err(LedgerError::LiquidationTooLarge));
    assert_eq!(with_fees.liquidate(5000, 701), Ok(()));
    assert_eq!(with_fees, position(199, 299, 3_194, 300));
    // the fees have outgrown the debt: a repayment credits nothing
    assert_eq!(with_fees.repayment(), 0);
    assert_eq!(position(199, 300, 3_184, 300).repayment(), 0);
    assert_eq!(position(199, 301, 3_173, 300).repayment(), 1);
}

#[test]
fn liquidation_that_would_make_the_position_safe_is_refused() {
    // a stale factor on a position whose collateral covers the debt 25 / 12 times
    let mut stale = position(2500, 1200, 5_000, 0);
    assert_eq!(stale.liquidate(5000, 1200), Err(LedgerError::HealthFactorAboveThreshold));
    assert_eq!(stale.liquidate(5000, 10), Err(LedgerError::HealthFactorAboveThreshold));
    assert_eq!(stale, position(2500, 1200, 5_000, 0));
}

#[test]
fn position_factor_is_refreshed_and_revalued() {
    let mut p = position(1000, 800, 12_500, 0);
    assert!(!p.is_liquidatable());
    p.refresh_health_factor();
    assert_eq!(p.health_factor, 6_000);
    assert!(p.is_liquidatable());
    p.revalue(400);
    assert_eq!(p, position(400, 800, 2_400, 0));
    p.revalue(2000);
    assert_eq!(p, position(2000, 800, 12_000, 0));
    assert!(!p.is_liquidatable());
    p.update_timestamp(99);
    assert_eq!(p.last_update_timestamp, 99);
    assert_eq!(p.health_factor, 12_000);
    assert_eq!(p.clone(), p);
}

fn lending_ledger() -> Contract {
    let mut ledger = Contract::new(text("admin"));
    ledger.create_reserve(&text("admin"), &text("x.token")).unwrap();
    ledger.deposit_ft(&text("alice"), &text("x.token"), 10_000);
    ledger.create_deposit(&text("alice"), &text("x.token"), 10_000, 0).unwrap();
    ledger
}

#[test]
fn borrowing_needs_the_locked_collateral() {
    let b = text("bob");
    let x = text("x.token");
    let mut ledger = lending_ledger();
    assert_eq!(ledger.supply_collateral_and_borrow(&b, 17, 1000, &x, 0), Err(LedgerError::NotCollateralOwner));
    ledger.on_collateral_received(&text("17"), &text("carol"));
    assert_eq!(ledger.supply_collateral_and_borrow(&b, 17, 1000, &x, 0), Err(LedgerError::NotCollateralOwner));
    ledger.on_collateral_received(&text("017"), &b);
    assert_eq!(ledger.supply_collateral_and_borrow(&b, 17, 1000, &x, 0), Err(LedgerError::NotCollateralOwner));
    assert_eq!(ledger.supply_collateral_and_borrow(&text("carol"), 17, 1000, &text("y.token"), 0), Err(LedgerError::ReserveNotFound));
    assert_eq!(ledger.borrows_number(), 0);
    assert_eq!(ledger.balance_of(&b, &x), 0);
    assert_eq!(ledger.supply_collateral_and_borrow(&text("carol"), 17, 1000, &x, 0), Ok(0));
}

#[test]
fn collateral_arrival_is_recorded_and_overridden() {
    let b = text("bob");
    let c = text("carol");
    let mut ledger = lending_ledger();
    let item = text("340282366920938463463374607431768211455");
    assert!(!ledger.account_owns_nft_on_lending(&item, &b));
    ledger.on_collateral_received(&item, &b);
    assert!(ledger.account_owns_nft_on_lending(&item, &b));
    // the same delivery again changes nothing
    ledger.on_collateral_received(&item, &b);
    assert!(ledger.account_owns_nft_on_lending(&item, &b));
    assert!(!ledger.account_owns_nft_on_lending(&item, &c));
    // a later owner takes the item over
    ledger.on_collateral_received(&item, &c);
    assert!(ledger.account_owns_nft_on_lending(&item, &c));
    assert!(!ledger.account_owns_nft_on_lending(&item, &b));
    // the item is found by the decimal text of its number
    assert_eq!(ledger.supply_collateral_and_borrow(&c, u128::MAX, 10, &text("x.token"), 0), Ok(0));
}

#[test]
fn liquidatable_borrows_are_walked_in_order() {
    let b = text("bob");
    let x = text("x.token");
    let mut ledger = lending_ledger();
    for item in ["1", "2", "3", "4"] {
        ledger.on_collateral_received(&text(item), &b);
    }
    for position_id in 1..5u128 {
        ledger.supply_collateral_and_borrow(&b, position_id, 1000, &x, 0).unwrap();
    }
    assert_eq!(ledger.next_liquidatable(0), None);
    ledger.update_collateral_value(1, 700).unwrap();
    ledger.update_collateral_value(3, 100).unwrap();
    ledger.update_collateral_value(2, 2000).unwrap();
    assert_eq!(ledger.get_liquidation_list(), vec![1, 3]);
    assert_eq!(ledger.next_liquidatable(0), Some(1));
    assert_eq!(ledger.next_liquidatable(1), Some(1));
    assert_eq!(ledger.next_liquidatable(2), Some(3));
    assert_eq!(ledger.next_liquidatable(3), Some(3));
    assert_eq!(ledger.next_liquidatable(4), None);
    assert_eq!(ledger.next_liquidatable(u128::MAX), None);
    // reading changes nothing: the walk can start over
    assert_eq!(ledger.get_liquidation_list(), vec![1, 3]);
    ledger.update_collateral_value(1, 1700).unwrap();
    assert_eq!(ledger.get_liquidation_list(), vec![3]);
    assert_eq!(ledger.update_collateral_value(4, 1), Err(LedgerError::BorrowNotFound));
}

#[test]
fn borrow_fits_tells_when_the_balance_would_leave_128_bits() {
    let b = text("bob");
    let x = text("x.token");
    let mut ledger = lending_ledger();
    ledger.on_collateral_received(&text("1"), &b);
    ledger.deposit_ft(&b, &x, u128::MAX - 799);
    assert!(!ledger.supply_collateral_and_borrow_fits(&b, 1, 1000, &x));
    assert!(ledger.supply_collateral_and_borrow_fits(&b, 1, 999, &x));
    // refused anyway
    assert!(ledger.supply_collateral_and_borrow_fits(&b, 2, 1000, &x));
    let id = ledger.supply_collateral_and_borrow(&b, 1, 999, &x, 0).unwrap();
    assert_eq!(ledger.balance_of(&b, &x), u128::MAX);
    assert!(!ledger.return_collateral_and_repay_fits(&b, id));
    assert!(ledger.return_collateral_and_repay_fits(&text("carol"), id));
    ledger.decrease_balance(&b, &x, 799).unwrap();
    assert!(ledger.return_collateral_and_repay_fits(&b, id));
}

#[test]
fn borrowing_and_repaying_are_refused_for_the_first_reason_that_holds() {
    let b = text("bob");
    let c = text("carol");
    let x = text("x.token");
    let y = text("y.token");
    let mut ledger = lending_ledger();
    ledger.on_collateral_received(&text("1"), &b);
    assert_eq!(ledger.supply_collateral_and_borrow_refusal(&b, 1, 1000, &x), None);
    assert_eq!(ledger.supply_collateral_and_borrow_refusal(&c, 1, 1000, &y), Some(LedgerError::NotCollateralOwner));
    assert_eq!(ledger.supply_collateral_and_borrow_refusal(&b, 1, 1000, &y), Some(LedgerError::ReserveNotFound));
    assert_eq!(ledger.supply_collateral_and_borrow_refusal(&b, 1, 12_501, &x), Some(LedgerError::ReserveUnderflow));
    assert_eq!(ledger.supply_collateral_and_borrow_refusal(&b, 1, 12_500, &x), None);
    let id = ledger.supply_collateral_and_borrow(&b, 1, 12_500, &x, 0).unwrap();
    assert_eq!(ledger.get_borrow(id).unwrap().amount, 10_000);

    assert_eq!(ledger.return_collateral_and_repay_refusal(&b, id), None);
    assert_eq!(ledger.return_collateral_and_repay_refusal(&b, id + 1), Some(LedgerError::BorrowNotFound));
    assert_eq!(ledger.return_collateral_and_repay_refusal(&c, id), Some(LedgerError::NotCollateralOwner));
    ledger.update_collateral_value(id, 20_833).unwrap();
    assert_eq!(ledger.return_collateral_and_repay_refusal(&b, id), Some(LedgerError::HealthFactorTooLow));
    assert_eq!(ledger.return_collateral_and_repay_refusal(&c, id), Some(LedgerError::NotCollateralOwner));
    ledger.update_collateral_value(id, 20_834).unwrap();
    assert_eq!(ledger.return_collateral_and_repay_refusal(&b, id), None);
}

#[test]
fn a_borrow_is_repaid_by_whom_the_collateral_is_locked_for() {
    let b = text("bob");
    let c = text("carol");
    let x = text("x.token");
    let mut ledger = lending_ledger();
    ledger.on_collateral_received(&text("1"), &b);
    let id = ledger.supply_collateral_and_borrow(&b, 1, 1000, &x, 0).unwrap();
    // the item is delivered again, for another account
    ledger.on_collateral_received(&text("1"), &c);
    assert_eq!(ledger.return_collateral_and_repay(&b, id), Err(LedgerError::NotCollateralOwner));
    assert_eq!(ledger.return_collateral_and_repay(&c, id), Ok(1));
    assert_eq!(ledger.balance_of(&c, &x), 800);
    assert_eq!(ledger.balance_of(&b, &x), 800);
}

#[test]
fn discount_is_half_of_what_is_lacking() {
    assert_eq!(position(600, 1000, 6_000, 0).liquidation_discount(), 2_000);
    assert_eq!(position(0, 1000, 0, 0).liquidation_discount(), 5_000);
    assert_eq!(position(999, 1000, 9_990, 0).liquidation_discount(), 5);
    assert_eq!(position(9_999, 10_000, 9_999, 0).liquidation_discount(), 0);
    assert_eq!(position(1000, 1000, 10_000, 0).liquidation_discount(), 0);
    assert_eq!(position(1000, 800, 12_500, 0).liquidation_discount(), 0);
    assert_eq!(position(1000, 0, u128::MAX, 0).liquidation_discount(), 0);
}
