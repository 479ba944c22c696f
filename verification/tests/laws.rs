use payments_engine::amount::Amount;
use payments_engine::engine::Engine;
use payments_engine::model::{Account, Outcome, Transaction};

fn dec(mantissa: i128, scale: u32) -> Amount {
    Amount::new(mantissa, scale).unwrap()
}

fn busy_run() -> Vec<Transaction> {
    vec![
        Transaction::Deposit { client_id: 1, id: 1, amount: dec(100, 0) },
        Transaction::Deposit { client_id: 1, id: 2, amount: dec(255, 2) },
        Transaction::Deposit { client_id: 2, id: 3, amount: dec(7, 4) },
        Transaction::Withdrawal { client_id: 1, id: 4, amount: dec(3333, 3) },
        Transaction::Dispute { client_id: 1, id: 2 },
        Transaction::Dispute { client_id: 1, id: 1 },
        Transaction::Resolve { client_id: 1, id: 2 },
        Transaction::Deposit { client_id: 3, id: 5, amount: dec(1, 0) },
        Transaction::Withdrawal { client_id: 3, id: 6, amount: dec(1, 0) },
        Transaction::Dispute { client_id: 2, id: 3 },
        Transaction::Chargeback { client_id: 2, id: 3 },
        Transaction::Chargeback { client_id: 1, id: 1 },
        Transaction::Deposit { client_id: 1, id: 7, amount: dec(1, 0) },
        Transaction::Dispute { client_id: 1, id: 2 },
    ]
}

fn balanced(account: &Account) -> bool {
    account.available.sums_to(account.held, account.total)
}

#[test]
fn total_is_available_plus_held_after_every_step() {
    let mut engine = Engine::new();
    for transaction in busy_run() {
        engine.apply(transaction);
        for client_id in 0..5 {
            if let Some(account) = engine.account(client_id) {
                assert!(balanced(&account));
                assert_eq!(account.client_id, client_id);
            }
        }
    }
    let account = engine.account(1).unwrap();
    assert_eq!(account.available, dec(-3333, 3));
    assert_eq!(account.held, dec(255, 2));
    assert_eq!(account.total, dec(-783, 3));
    assert!(account.locked);
}

#[test]
fn held_is_the_sum_of_the_deposits_under_dispute() {
    let mut engine = Engine::new();
    let zero = dec(0, 0);
    for transaction in busy_run() {
        engine.apply(transaction);
        for client_id in 0..5u16 {
            if let Some(account) = engine.account(client_id) {
                let mut sum = zero;
                let mut disputed = 0;
                for id in 0..10u32 {
                    if let Some(record) = engine.record(id) {
                        if record.client_id == client_id && record.disputed {
                            sum = sum.checked_add(record.amount).unwrap();
                            disputed += 1;
                        }
                    }
                }
                assert_eq!(account.held, sum);
                assert!(!zero.greater_than(account.held));
                assert!(account.held == zero || disputed > 0);
            }
        }
    }
}

#[test]
fn successful_withdrawal_leaves_available_positive() {
    let mut engine = Engine::new();
    engine.apply(Transaction::Deposit { client_id: 1, id: 1, amount: dec(100, 1) });
    for (id, amount) in [(2u32, dec(99, 1)), (3, dec(1, 1)), (4, dec(1, 2))] {
        let before = engine.account(1).unwrap();
        let outcome = engine.apply(Transaction::Withdrawal { client_id: 1, id, amount });
        let after = engine.account(1).unwrap();
        if after.available != before.available {
            assert_eq!(outcome, Outcome::Applied);
            assert!(before.available.greater_than(amount));
            assert!(after.available.greater_than(dec(0, 0)));
            assert!(after.available.sums_to(amount, before.available));
        } else {
            assert_ne!(outcome, Outcome::Applied);
        }
    }
    let account = engine.account(1).unwrap();
    assert_eq!(account.available, dec(1, 1));
    assert!(account.locked);
}

#[test]
fn locked_account_ignores_deposits_and_withdrawals() {
    let mut engine = Engine::new();
    engine.apply(Transaction::Deposit { client_id: 1, id: 1, amount: dec(100, 1) });
    engine.apply(Transaction::Deposit { client_id: 1, id: 2, amount: dec(50, 1) });
    engine.apply(Transaction::Dispute { client_id: 1, id: 2 });
    engine.apply(Transaction::Withdrawal { client_id: 1, id: 3, amount: dec(1000, 1) });
    let locked = engine.account(1).unwrap();
    assert!(locked.locked);
    for (id, amount) in [(4u32, dec(1, 0)), (5, dec(0, 0)), (6, dec(100, 1)), (7, dec(-1, 0))] {
        assert_eq!(
            engine.apply(Transaction::Deposit { client_id: 1, id, amount }),
            Outcome::AccountLocked
        );
        assert_eq!(engine.account(1).unwrap(), locked);
        assert_eq!(
            engine.apply(Transaction::Withdrawal { client_id: 1, id: id + 10, amount }),
            Outcome::AccountLocked
        );
        assert_eq!(engine.account(1).unwrap(), locked);
    }
}

#[test]
fn reusing_the_id_of_a_disputed_deposit_leaves_funds_held_without_a_dispute() {
    let mut engine = Engine::new();
    engine.apply(Transaction::Deposit { client_id: 1, id: 1, amount: dec(50, 1) });
    engine.apply(Transaction::Dispute { client_id: 1, id: 1 });
    engine.apply(Transaction::Deposit { client_id: 1, id: 1, amount: dec(10, 1) });
    assert!(!engine.record(1).unwrap().disputed);
    assert_eq!(engine.account(1).unwrap().held, dec(50, 1));
}

#[test]
fn a_negative_deposit_under_dispute_leaves_held_negative() {
    let mut engine = Engine::new();
    engine.apply(Transaction::Deposit { client_id: 1, id: 1, amount: dec(50, 1) });
    engine.apply(Transaction::Deposit { client_id: 1, id: 2, amount: dec(-20, 1) });
    assert_eq!(engine.apply(Transaction::Dispute { client_id: 1, id: 2 }), Outcome::Applied);
    let account = engine.account(1).unwrap();
    assert_eq!(account.held, dec(-20, 1));
    assert_eq!(account.available, dec(50, 1));
    assert_eq!(account.total, dec(30, 1));
}
