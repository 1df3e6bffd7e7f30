use lending::decimal::decimal_string;
use lending::fixed::mul_div_rem;
use lending::LedgerError;

#[test]
fn product_is_divided_without_truncation() {
    assert_eq!(mul_div_rem(6, 7, 5), Some((8, 2)));
    assert_eq!(mul_div_rem(0, 7, 5), Some((0, 0)));
    assert_eq!(mul_div_rem(6, 0, 5), Some((0, 0)));
    assert_eq!(mul_div_rem(1, 1, 1), Some((1, 0)));
    assert_eq!(mul_div_rem(10, 10, 100), Some((1, 0)));
    assert_eq!(mul_div_rem(10, 10, 101), Some((0, 100)));
    assert_eq!(mul_div_rem(u128::MAX, u128::MAX, u128::MAX), Some((u128::MAX, 0)));
    assert_eq!(mul_div_rem(u128::MAX, 2, 2), Some((u128::MAX, 0)));
    assert_eq!(mul_div_rem(u128::MAX, 3, 4), Some((u128::MAX / 4 * 3 + 2, 1)));
    assert_eq!(mul_div_rem(u128::MAX - 1, u128::MAX - 1, u128::MAX), Some((u128::MAX - 2, 1)));
    assert_eq!(mul_div_rem(1 << 127, 1 << 127, 1 << 126), None);
    assert_eq!(mul_div_rem(1 << 127, 1 << 127, 1 << 127), Some((1 << 127, 0)));
    assert_eq!(mul_div_rem(1 << 100, 1 << 100, (1 << 72) + 1), Some((340282366920938463463302549837730283520, 72057594037927936)));
}

#[test]
fn quotient_beyond_128_bits_is_none() {
    assert_eq!(mul_div_rem(u128::MAX, 2, 1), None);
    assert_eq!(mul_div_rem(u128::MAX, u128::MAX, 1), None);
    assert_eq!(mul_div_rem(u128::MAX, u128::MAX, u128::MAX - 1), None);
    assert_eq!(mul_div_rem(1 << 64, 1 << 64, 1), None);
    assert_eq!(mul_div_rem((1 << 64) - 1, (1 << 64) + 1, 1), Some((u128::MAX, 0)));
}

#[test]
fn numbers_are_written_in_decimal() {
    assert_eq!(decimal_string(0), "0");
    assert_eq!(decimal_string(7), "7");
    assert_eq!(decimal_string(10), "10");
    assert_eq!(decimal_string(1234567890), "1234567890");
    assert_eq!(decimal_string(100_000), "100000");
    assert_eq!(decimal_string(u128::MAX), "340282366920938463463374607431768211455");
    for n in [0u128, 9, 11, 99, 101, 4096, 1 << 64, u128::MAX - 1] {
        assert_eq!(decimal_string(n), n.to_string());
    }
}

#[test]
fn every_failure_has_its_message() {
    let all = [
        (LedgerError::InsufficientBalance, "insufficient balance"),
        (LedgerError::ReserveNotFound, "reserve not found"),
        (LedgerError::ReserveAlreadyExists, "reserve already exists"),
        (LedgerError::ReserveUnderflow, "reserve underflow"),
        (LedgerError::DepositNotFound, "deposit not found"),
        (LedgerError::BorrowNotFound, "borrow not found"),
        (LedgerError::NotOwner, "caller does not own this deposit"),
        (LedgerError::NotCollateralOwner, "caller did not lock this collateral"),
        (LedgerError::HealthFactorTooLow, "health factor is below the safe threshold"),
        (LedgerError::HealthFactorAboveThreshold, "health factor is not below the liquidation threshold"),
        (LedgerError::Unauthorized, "caller is not the administrator"),
        (LedgerError::InsufficientPayment, "payment is below the discounted value"),
        (LedgerError::LiquidationTooLarge, "liquidation exceeds the position"),
    ];
    for (error, message) in all {
        assert_eq!(error.message(), message);
    }
}
