use payments_engine::amount::Amount;
use payments_engine::transaction::Transaction;

fn amt(n: i64) -> Amount {
    Amount::from_int(n)
}

#[test]
fn tx_is_mutated_when_setting_under_deposit() {
    let mut deposit = Transaction::deposit(1, 1, amt(1));
    deposit.set_under_dispute(true);
    assert_eq!(deposit, Transaction::deposit_under_dispute(1, 1, amt(1)));
}

#[test]
fn tx_is_mutated_when_toggling_under_deposit() {
    let mut deposit_not_under = Transaction::deposit(1, 1, amt(1));
    let mut deposit_under = Transaction::deposit_under_dispute(2, 1, amt(1));
    deposit_not_under.toggle_under_dispute();
    deposit_under.toggle_under_dispute();
    assert_eq!(deposit_not_under, Transaction::deposit_under_dispute(1, 1, amt(1)));
    assert_eq!(deposit_under, Transaction::deposit(2, 1, amt(1)));
}

#[test]
fn has_negative_amount_works() {
    let deposit_negative = Transaction::deposit(1, 1, amt(-1));
    let deposit_positive = Transaction::deposit_under_dispute(2, 1, amt(1));
    let deposit_zero = Transaction::deposit_under_dispute(2, 1, Amount::zero());
    let dispute = Transaction::dispute(2, 1);

    assert!(deposit_negative.has_negative_amount());
    assert!(!deposit_positive.has_negative_amount());
    assert!(!deposit_zero.has_negative_amount());
    assert!(!dispute.has_negative_amount());
}

#[test]
fn info_and_amount_expose_the_header_and_amount() {
    let deposit = Transaction::deposit(7, 3, amt(5));
    assert_eq!(deposit.info().id, 7);
    assert_eq!(deposit.info().client_id, 3);
    assert_eq!(deposit.amount(), Some(amt(5)));
    let dispute = Transaction::dispute(7, 3);
    assert_eq!(dispute.amount(), None);
}
