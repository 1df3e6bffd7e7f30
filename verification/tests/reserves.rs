use lending::{Contract, LedgerError, Reserve, ReserveTracker};

fn text(s: &str) -> String {
    String::from(s)
}

#[test]
fn only_the_administrator_opens_reserves() {
    let x = text("x.token");
    let mut ledger = Contract::new(text("admin"));
    assert_eq!(ledger.create_reserve(&text("mallory"), &x), Err(LedgerError::Unauthorized));
    assert_eq!(ledger.get_reserve(&x), None);
    assert_eq!(ledger.create_reserve(&text("admin"), &x), Ok(()));
    assert_eq!(ledger.get_reserve(&x), Some(Reserve { deposited: 0, borrowed: 0 }));
    assert_eq!(ledger.create_reserve(&text("admin"), &x), Err(LedgerError::ReserveAlreadyExists));
    assert_eq!(ledger.create_reserve(&text("mallory"), &x), Err(LedgerError::Unauthorized));
}

#[test]
fn tracker_opens_each_reserve_once() {
    let x = text("x.token");
    let mut tracker = ReserveTracker::new();
    assert_eq!(tracker.get(&x), None);
    assert_eq!(tracker.open(&x), Ok(()));
    assert_eq!(tracker.increase_deposited(&x, 9), Ok(()));
    assert_eq!(tracker.open(&x), Err(LedgerError::ReserveAlreadyExists));
    assert_eq!(tracker.get(&x), Some(Reserve { deposited: 9, borrowed: 0 }));
}

#[test]
fn tracker_operations_need_a_reserve() {
    let x = text("x.token");
    let mut tracker = ReserveTracker::new();
    assert_eq!(tracker.increase_deposited(&x, 1), Err(LedgerError::ReserveNotFound));
    assert_eq!(tracker.decrease_deposited(&x, 1), Err(LedgerError::ReserveNotFound));
    assert_eq!(tracker.increase_borrowed(&x, 1), Err(LedgerError::ReserveNotFound));
    assert_eq!(tracker.decrease_borrowed(&x, 1), Err(LedgerError::ReserveNotFound));
    assert_eq!(tracker.decrease_borrowed(&x, 0), Err(LedgerError::ReserveNotFound));
    assert_eq!(tracker.get(&x), None);
}

#[test]
fn tracker_keeps_borrowed_within_deposited() {
    let x = text("x.token");
    let mut tracker = ReserveTracker::new();
    tracker.open(&x).unwrap();
    assert_eq!(tracker.increase_borrowed(&x, 1), Err(LedgerError::ReserveUnderflow));
    tracker.increase_deposited(&x, 100).unwrap();
    assert_eq!(tracker.increase_borrowed(&x, 101), Err(LedgerError::ReserveUnderflow));
    assert_eq!(tracker.increase_borrowed(&x, 60), Ok(()));
    assert_eq!(tracker.get(&x), Some(Reserve { deposited: 100, borrowed: 60 }));
    assert_eq!(tracker.increase_borrowed(&x, 41), Err(LedgerError::ReserveUnderflow));
    // what is lent out cannot be paid back to depositors
    assert_eq!(tracker.decrease_deposited(&x, 41), Err(LedgerError::ReserveUnderflow));
    assert_eq!(tracker.decrease_deposited(&x, 101), Err(LedgerError::ReserveUnderflow));
    assert_eq!(tracker.decrease_deposited(&x, 40), Ok(()));
    assert_eq!(tracker.get(&x), Some(Reserve { deposited: 60, borrowed: 60 }));
    assert_eq!(tracker.decrease_borrowed(&x, 61), Err(LedgerError::ReserveUnderflow));
    assert_eq!(tracker.decrease_borrowed(&x, 60), Ok(()));
    assert_eq!(tracker.get(&x), Some(Reserve { deposited: 60, borrowed: 0 }));
    assert_eq!(tracker.decrease_deposited(&x, 60), Ok(()));
    assert_eq!(tracker.get(&x), Some(Reserve { deposited: 0, borrowed: 0 }));
    assert_eq!(tracker.decrease_deposited(&x, 0), Ok(()));
}

#[test]
fn reserve_totals_move_one_at_a_time() {
    let mut reserve = Reserve::default();
    assert_eq!(reserve, Reserve { deposited: 0, borrowed: 0 });
    reserve.increase_deposit(10);
    assert_eq!(reserve.increase_borrowed(11), Err(LedgerError::ReserveUnderflow));
    assert_eq!(reserve.increase_borrowed(4), Ok(()));
    assert_eq!(reserve.decrease_deposit(7), Err(LedgerError::ReserveUnderflow));
    assert_eq!(reserve, Reserve { deposited: 10, borrowed: 4 });
    assert_eq!(reserve.decrease_deposit(6), Ok(()));
    assert_eq!(reserve.decrease_borrowed(5), Err(LedgerError::ReserveUnderflow));
    assert_eq!(reserve.decrease_borrowed(4), Ok(()));
    assert_eq!(reserve, Reserve { deposited: 4, borrowed: 0 });
}

#[test]
fn reserves_stay_solvent_through_a_run_of_operations() {
    let admin = text("admin");
    let a = text("alice");
    let b = text("bob");
    let x = text("x.token");
    let mut ledger = Contract::new(admin.clone());
    let solvent = |ledger: &Contract| match ledger.get_reserve(&text("x.token")) {
        Some(r) => r.borrowed <= r.deposited,
        None => true,
    };
    assert!(solvent(&ledger));
    ledger.create_reserve(&admin, &x).unwrap();
    ledger.deposit_ft(&a, &x, 1000);
    ledger.on_collateral_received(&text("1"), &b);
    // nothing is deposited yet, so nothing can be lent
    assert_eq!(ledger.supply_collateral_and_borrow(&b, 1, 100, &x, 0), Err(LedgerError::ReserveUnderflow));
    assert!(solvent(&ledger));
    let first = ledger.create_deposit(&a, &x, 600, 0).unwrap();
    let second = ledger.create_deposit(&a, &x, 400, 0).unwrap();
    assert!(solvent(&ledger));
    // 0.8 * 1251 rounds to 1001, one more than the reserve holds
    assert_eq!(ledger.supply_collateral_and_borrow(&b, 1, 1251, &x, 0), Err(LedgerError::ReserveUnderflow));
    let borrow = ledger.supply_collateral_and_borrow(&b, 1, 1000, &x, 0).unwrap();
    assert_eq!(ledger.get_reserve(&x), Some(Reserve { deposited: 1000, borrowed: 800 }));
    // 200 are left: the deposit of 400 cannot leave, nor the one of 600
    assert_eq!(ledger.close_deposit(&a, second, 0), Err(LedgerError::ReserveUnderflow));
    assert_eq!(ledger.close_deposit(&a, first, 0), Err(LedgerError::ReserveUnderflow));
    assert_eq!(ledger.get_reserve(&x), Some(Reserve { deposited: 1000, borrowed: 800 }));
    assert!(ledger.get_deposit(second).is_some());
    assert!(solvent(&ledger));
    ledger.return_collateral_and_repay(&b, borrow).unwrap();
    assert!(solvent(&ledger));
    assert_eq!(ledger.close_deposit(&a, second, 0), Ok(400));
    assert_eq!(ledger.close_deposit(&a, first, 0), Ok(600));
    assert_eq!(ledger.get_reserve(&x), Some(Reserve { deposited: 0, borrowed: 0 }));
}
