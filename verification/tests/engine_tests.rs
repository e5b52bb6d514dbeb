use payments_engine::account::{Account, StoredTransaction, TransactionType};
use payments_engine::error::EngineError;
use payments_engine::transaction::InputTransaction;
use payments_engine::types::{SignedDecimal, UnsignedDecimal};
use payments_engine::PaymentsEngine;

fn amount(s: &str) -> UnsignedDecimal {
    UnsignedDecimal::parse(s).unwrap()
}

fn signed(s: &str) -> SignedDecimal {
    SignedDecimal::parse(s).unwrap()
}

fn deposit(client: u16, tx: u32, a: &str) -> InputTransaction {
    InputTransaction::Deposit { client, tx, amount: amount(a) }
}

fn withdrawal(client: u16, tx: u32, a: &str) -> InputTransaction {
    InputTransaction::Withdrawal { client, tx, amount: amount(a) }
}

fn account(e: &PaymentsEngine, client: u16) -> Account {
    *e.accounts.get(&client).unwrap()
}

fn same_accounts(x: &[Account], y: &[Account]) -> bool {
    x.len() == y.len()
        && x.iter().zip(y.iter()).all(|(a, b)| {
            a.client == b.client
                && a.available == b.available
                && a.held == b.held
                && a.total == b.total
                && a.locked == b.locked
        })
}

fn assert_balanced(a: &Account) {
    assert_eq!(a.total, a.available.checked_add(a.held).unwrap());
}

#[test]
fn error_zero_amount() {
    let mut e = PaymentsEngine::new();
    assert_eq!(e.process_transaction(deposit(1, 1, "0")), Err(EngineError::ZeroAmount));
    assert_eq!(e.process_transaction(withdrawal(1, 1, "0.0")), Err(EngineError::ZeroAmount));
    assert!(e.accounts.is_empty());
    assert!(e.transactions.is_empty());
}

#[test]
fn error_duplicate_and_not_found() {
    let mut e = PaymentsEngine::default();
    e.process_transaction(deposit(1, 1, "10")).unwrap();
    assert_eq!(e.process_transaction(deposit(2, 1, "10")), Err(EngineError::DuplicateTransaction));
    assert!(e.accounts.get(&2).is_none());
    assert_eq!(e.process_transaction(withdrawal(3, 2, "1")), Err(EngineError::AccountNotFound));
    assert_eq!(
        e.process_transaction(InputTransaction::Dispute { client: 1, tx: 99 }),
        Err(EngineError::TransactionNotFound)
    );
    assert_eq!(
        e.process_transaction(InputTransaction::Dispute { client: 2, tx: 1 }),
        Err(EngineError::ClientMismatch)
    );
}

#[test]
fn error_insufficient_and_not_disputable() {
    let mut e = PaymentsEngine::new();
    e.process_transaction(deposit(1, 1, "10")).unwrap();
    assert_eq!(e.process_transaction(withdrawal(1, 2, "10.0001")), Err(EngineError::InsufficientFunds));
    e.process_transaction(withdrawal(1, 3, "10")).unwrap();
    assert_eq!(account(&e, 1).available, signed("0"));
    assert_eq!(
        e.process_transaction(InputTransaction::Dispute { client: 1, tx: 3 }),
        Err(EngineError::NotDisputable)
    );
    assert_eq!(
        e.process_transaction(InputTransaction::Resolve { client: 1, tx: 1 }),
        Err(EngineError::NotDisputed)
    );
    assert_eq!(
        e.process_transaction(InputTransaction::Chargeback { client: 1, tx: 1 }),
        Err(EngineError::NotDisputed)
    );
}

#[test]
fn error_already_disputed_and_locked() {
    let mut e = PaymentsEngine::new();
    e.process_transaction(deposit(1, 1, "10")).unwrap();
    e.process_transaction(deposit(1, 2, "5")).unwrap();
    e.process_transaction(deposit(1, 3, "7")).unwrap();
    e.process_transaction(InputTransaction::Dispute { client: 1, tx: 1 }).unwrap();
    e.process_transaction(InputTransaction::Dispute { client: 1, tx: 2 }).unwrap();
    assert_eq!(
        e.process_transaction(InputTransaction::Dispute { client: 1, tx: 1 }),
        Err(EngineError::AlreadyDisputed)
    );
    e.process_transaction(InputTransaction::Chargeback { client: 1, tx: 1 }).unwrap();
    assert_eq!(e.process_transaction(deposit(1, 4, "1")), Err(EngineError::AccountLocked));
    // A dispute on a locked account marks the deposit but holds nothing.
    let before = account(&e, 1);
    e.process_transaction(InputTransaction::Dispute { client: 1, tx: 3 }).unwrap();
    assert!(e.transactions.get(&3).unwrap().disputed);
    assert_eq!(account(&e, 1).available, before.available);
    assert_eq!(account(&e, 1).held, before.held);
    // A resolve on a locked account clears the mark and releases nothing.
    e.process_transaction(InputTransaction::Resolve { client: 1, tx: 3 }).unwrap();
    assert!(!e.transactions.get(&3).unwrap().disputed);
    assert_eq!(account(&e, 1).held, before.held);
    // A chargeback still applies to a locked account.
    e.process_transaction(InputTransaction::Chargeback { client: 1, tx: 2 }).unwrap();
    let a = account(&e, 1);
    assert_eq!(a.total, signed("7"));
    assert_eq!(a.held, UnsignedDecimal::zero());
    assert!(a.locked);
    assert_balanced(&a);
}

#[test]
fn chargeback_of_more_than_held_changes_nothing() {
    let mut e = PaymentsEngine::new();
    e.process_transaction(deposit(1, 1, "10")).unwrap();
    e.process_transaction(deposit(1, 2, "5")).unwrap();
    e.process_transaction(InputTransaction::Dispute { client: 1, tx: 1 }).unwrap();
    e.process_transaction(InputTransaction::Chargeback { client: 1, tx: 1 }).unwrap();
    e.process_transaction(InputTransaction::Dispute { client: 1, tx: 2 }).unwrap();
    let before = account(&e, 1);
    e.process_transaction(InputTransaction::Chargeback { client: 1, tx: 2 }).unwrap();
    let after = account(&e, 1);
    assert_eq!(after.total, before.total);
    assert_eq!(after.held, before.held);
    assert!(!e.transactions.get(&2).unwrap().disputed);
}

#[test]
fn precision_beyond_four_places_is_kept() {
    let mut e = PaymentsEngine::new();
    e.process_transaction(deposit(1, 1, "0.00004")).unwrap();
    e.process_transaction(deposit(1, 2, "0.00004")).unwrap();
    assert_eq!(account(&e, 1).total, signed("0.00008"));
}

#[test]
fn error_overflow() {
    let mut e = PaymentsEngine::new();
    let big = UnsignedDecimal { coefficient: u128::MAX, scale: -32768 };
    e.process_transaction(InputTransaction::Deposit { client: 1, tx: 1, amount: big }).unwrap();
    let before = e.get_accounts();
    assert_eq!(
        e.process_transaction(InputTransaction::Deposit { client: 1, tx: 2, amount: big }),
        Err(EngineError::Overflow)
    );
    assert!(same_accounts(&e.get_accounts(), &before));
    assert!(!e.transactions.contains_key(&2));
}

#[test]
fn thirty_eight_decimal_places_are_applied() {
    let mut e = PaymentsEngine::new();
    e.process_transaction(deposit(1, 1, "2")).unwrap();
    let fine = UnsignedDecimal { coefficient: 150_000_000_000_000_000_000_000_000_000_000_000_000, scale: 38 };
    e.process_transaction(InputTransaction::Withdrawal { client: 1, tx: 2, amount: fine }).unwrap();
    assert_eq!(account(&e, 1).available, signed("0.5"));
    assert_eq!(account(&e, 1).total, signed("0.5"));
    e.process_transaction(InputTransaction::Deposit { client: 1, tx: 3, amount: fine }).unwrap();
    assert_eq!(account(&e, 1).available, signed("2"));
    e.process_transaction(InputTransaction::Dispute { client: 1, tx: 3 }).unwrap();
    assert_eq!(account(&e, 1).available, signed("0.5"));
    assert_eq!(account(&e, 1).held, fine);
    e.process_transaction(InputTransaction::Resolve { client: 1, tx: 3 }).unwrap();
    assert_eq!(account(&e, 1).available, signed("2"));
    e.process_transaction(InputTransaction::Dispute { client: 1, tx: 3 }).unwrap();
    e.process_transaction(InputTransaction::Chargeback { client: 1, tx: 3 }).unwrap();
    assert_eq!(account(&e, 1).total, signed("0.5"));
    assert!(account(&e, 1).locked);
}

#[test]
fn account_with_thirty_eight_places() {
    let fine = UnsignedDecimal { coefficient: 150_000_000_000_000_000_000_000_000_000_000_000_000, scale: 38 };
    let mut a = Account::new(1);
    a.deposit(amount("2")).unwrap();
    a.withdraw(fine).unwrap();
    assert_eq!(a.available, signed("0.5"));
    a.deposit(amount("3")).unwrap();
    assert_eq!(a.available, signed("3.5"));
    a.hold_funds(fine).unwrap();
    assert_eq!(a.available, signed("2"));
    assert_eq!(a.held, fine);
    a.release_funds(fine).unwrap();
    assert_eq!(a.available, signed("3.5"));
    a.hold_funds(fine).unwrap();
    a.chargeback(fine).unwrap();
    assert_eq!(a.total, signed("2"));
    assert!(a.locked);
}

#[test]
fn law_hold_then_release_gives_back_the_account() {
    let mut a = Account::new(4);
    a.deposit(amount("10.25")).unwrap();
    let before = a;
    a.hold_funds(amount("12.5")).unwrap();
    assert_eq!(a.available, signed("-2.25"));
    a.release_funds(amount("12.5")).unwrap();
    assert_eq!(a.client, before.client);
    assert_eq!(a.available, before.available);
    assert_eq!(a.held, before.held);
    assert_eq!(a.total, before.total);
    assert_eq!(a.locked, before.locked);
}

#[test]
fn law_default_behaves_as_new() {
    let inputs = [
        deposit(1, 1, "5"),
        withdrawal(1, 2, "1.5"),
        deposit(2, 3, "2"),
        InputTransaction::Dispute { client: 1, tx: 1 },
        withdrawal(2, 4, "9"),
        InputTransaction::Chargeback { client: 1, tx: 1 },
    ];
    let mut d = PaymentsEngine::default();
    let mut n = PaymentsEngine::new();
    assert!(same_accounts(&d.get_accounts(), &n.get_accounts()));
    for input in inputs {
        assert_eq!(d.process_transaction(input), n.process_transaction(input));
        assert!(same_accounts(&d.get_accounts(), &n.get_accounts()));
    }
}

#[test]
fn law_resolve_undoes_dispute() {
    let mut e = PaymentsEngine::new();
    e.process_transaction(deposit(1, 1, "12.5")).unwrap();
    e.process_transaction(withdrawal(1, 2, "2.5")).unwrap();
    let before = account(&e, 1);
    e.process_transaction(InputTransaction::Dispute { client: 1, tx: 1 }).unwrap();
    let during = account(&e, 1);
    assert_eq!(during.available, signed("-2.5"));
    assert_eq!(during.held, amount("12.5"));
    assert_eq!(during.total, before.total);
    e.process_transaction(InputTransaction::Resolve { client: 1, tx: 1 }).unwrap();
    let after = account(&e, 1);
    assert_eq!(after.available, before.available);
    assert_eq!(after.held, before.held);
    assert_eq!(after.total, before.total);
    assert!(!e.transactions.get(&1).unwrap().disputed);
}

#[test]
fn law_refusal_leaves_engine_unchanged() {
    let mut e = PaymentsEngine::new();
    e.process_transaction(deposit(1, 1, "5")).unwrap();
    let before = account(&e, 1);
    assert!(e.process_transaction(withdrawal(1, 2, "6")).is_err());
    let after = account(&e, 1);
    assert_eq!(before.available, after.available);
    assert_eq!(before.total, after.total);
    assert_eq!(e.transactions.len(), 1);
}

#[test]
fn law_other_clients_untouched() {
    let mut e = PaymentsEngine::new();
    e.process_transaction(deposit(1, 1, "5")).unwrap();
    e.process_transaction(deposit(2, 2, "7")).unwrap();
    e.process_transaction(InputTransaction::Dispute { client: 1, tx: 1 }).unwrap();
    e.process_transaction(InputTransaction::Chargeback { client: 1, tx: 1 }).unwrap();
    let b = account(&e, 2);
    assert_eq!(b.available, signed("7"));
    assert!(!b.locked);
    assert_balanced(&account(&e, 1));
    assert_balanced(&b);
}

#[test]
fn get_accounts_sorted() {
    let mut e = PaymentsEngine::new();
    for (i, c) in [500u16, 3, 65535, 0, 42].iter().enumerate() {
        e.process_transaction(deposit(*c, i as u32, "1")).unwrap();
    }
    let clients: Vec<u16> = e.get_accounts().iter().map(|a| a.client).collect();
    assert_eq!(clients, vec![0, 3, 42, 500, 65535]);
}

#[test]
fn account_operations() {
    let mut a = Account::new(4);
    assert_eq!(a.client, 4);
    a.deposit(amount("3")).unwrap();
    assert_eq!(a.withdraw(amount("4")), Err(EngineError::InsufficientFunds));
    a.hold_funds(amount("2")).unwrap();
    assert_eq!(a.available, signed("1"));
    a.release_funds(amount("5")).unwrap();
    assert_eq!(a.held, amount("2"));
    a.release_funds(amount("1")).unwrap();
    a.chargeback(amount("1")).unwrap();
    assert!(a.locked);
    assert_eq!(a.total, signed("2"));
    assert_eq!(a.deposit(amount("1")), Err(EngineError::AccountLocked));
    a.hold_funds(amount("1")).unwrap();
    assert_eq!(a.held, UnsignedDecimal::zero());
    assert_balanced(&a);
}

#[test]
fn stored_transaction_new() {
    let t = StoredTransaction::new(7, 8, TransactionType::Withdrawal, amount("1"));
    assert_eq!((t.tx_id, t.client_id, t.tx_type, t.amount, t.disputed), (7, 8, TransactionType::Withdrawal, amount("1"), false));
}
