use payments_engine::transaction::InputTransaction;
use payments_engine::types::{SignedDecimal, UnsignedDecimal};
use payments_engine::PaymentsEngine;

fn signed(s: &str) -> SignedDecimal {
    SignedDecimal::parse(s).unwrap()
}

fn unsigned(s: &str) -> UnsignedDecimal {
    UnsignedDecimal::parse(s).unwrap()
}

#[test]
fn main_test_basic_deposit() {
    let mut engine = PaymentsEngine::new();
    let _ = engine.process_transaction(InputTransaction::Deposit {
        client: 1,
        tx: 1,
        amount: unsigned("100.0"),
    });

    let accounts = engine.get_accounts();
    assert_eq!(accounts.len(), 1);
    assert_eq!(accounts[0].client, 1);
    assert_eq!(accounts[0].available, signed("100.0"));
    assert_eq!(accounts[0].total, signed("100.0"));
    assert_eq!(accounts[0].held, UnsignedDecimal::zero());
}

#[test]
fn main_test_basic_withdrawal() {
    let mut engine = PaymentsEngine::new();
    let _ = engine.process_transaction(InputTransaction::Deposit {
        client: 1,
        tx: 1,
        amount: unsigned("100.0"),
    });
    let _ = engine.process_transaction(InputTransaction::Withdrawal {
        client: 1,
        tx: 2,
        amount: unsigned("30.0"),
    });

    let accounts = engine.get_accounts();
    assert_eq!(accounts[0].available, signed("70.0"));
    assert_eq!(accounts[0].total, signed("70.0"));
}

#[test]
fn main_test_insufficient_funds_withdrawal() {
    let mut engine = PaymentsEngine::new();
    let _ = engine.process_transaction(InputTransaction::Deposit {
        client: 1,
        tx: 1,
        amount: unsigned("50.0"),
    });
    let _ = engine.process_transaction(InputTransaction::Withdrawal {
        client: 1,
        tx: 2,
        amount: unsigned("100.0"),
    });

    let accounts = engine.get_accounts();
    // Withdrawal should fail, balance should remain 50.0
    assert_eq!(accounts[0].available, signed("50.0"));
    assert_eq!(accounts[0].total, signed("50.0"));
}

#[test]
fn main_test_dispute() {
    let mut engine = PaymentsEngine::new();
    let _ = engine.process_transaction(InputTransaction::Deposit {
        client: 1,
        tx: 1,
        amount: unsigned("100.0"),
    });
    let _ = engine.process_transaction(InputTransaction::Dispute { client: 1, tx: 1 });

    let accounts = engine.get_accounts();
    assert_eq!(accounts[0].available, SignedDecimal::zero());
    assert_eq!(accounts[0].held, unsigned("100.0"));
    assert_eq!(accounts[0].total, signed("100.0"));
    assert!(!accounts[0].locked);
}

#[test]
fn main_test_dispute_with_negative_available() {
    let mut engine = PaymentsEngine::new();
    let _ = engine.process_transaction(InputTransaction::Deposit {
        client: 1,
        tx: 1,
        amount: unsigned("100.0"),
    });
    let _ = engine.process_transaction(InputTransaction::Withdrawal {
        client: 1,
        tx: 2,
        amount: unsigned("60.0"),
    });
    let _ = engine.process_transaction(InputTransaction::Dispute { client: 1, tx: 1 });

    let accounts = engine.get_accounts();
    // available: 40 - 100 = -60
    assert_eq!(accounts[0].available, signed("-60.0"));
    assert_eq!(accounts[0].held, unsigned("100.0"));
    assert_eq!(accounts[0].total, signed("40.0"));
}

#[test]
fn main_test_resolve() {
    let mut engine = PaymentsEngine::new();
    let _ = engine.process_transaction(InputTransaction::Deposit {
        client: 1,
        tx: 1,
        amount: unsigned("100.0"),
    });
    let _ = engine.process_transaction(InputTransaction::Dispute { client: 1, tx: 1 });
    let _ = engine.process_transaction(InputTransaction::Resolve { client: 1, tx: 1 });

    let accounts = engine.get_accounts();
    assert_eq!(accounts[0].available, signed("100.0"));
    assert_eq!(accounts[0].held, UnsignedDecimal::zero());
    assert_eq!(accounts[0].total, signed("100.0"));
    assert!(!accounts[0].locked);
}

#[test]
fn main_test_chargeback() {
    let mut engine = PaymentsEngine::new();
    let _ = engine.process_transaction(InputTransaction::Deposit {
        client: 1,
        tx: 1,
        amount: unsigned("100.0"),
    });
    let _ = engine.process_transaction(InputTransaction::Dispute { client: 1, tx: 1 });
    let _ = engine.process_transaction(InputTransaction::Chargeback { client: 1, tx: 1 });

    let accounts = engine.get_accounts();
    assert_eq!(accounts[0].available, SignedDecimal::zero());
    assert_eq!(accounts[0].held, UnsignedDecimal::zero());
    assert_eq!(accounts[0].total, SignedDecimal::zero());
    assert!(accounts[0].locked);
}

#[test]
fn main_test_locked_account_prevents_deposits() {
    let mut engine = PaymentsEngine::new();
    let _ = engine.process_transaction(InputTransaction::Deposit {
        client: 1,
        tx: 1,
        amount: unsigned("100.0"),
    });
    let _ = engine.process_transaction(InputTransaction::Dispute { client: 1, tx: 1 });
    let _ = engine.process_transaction(InputTransaction::Chargeback { client: 1, tx: 1 });
    // Try to deposit after account is locked
    let _ = engine.process_transaction(InputTransaction::Deposit {
        client: 1,
        tx: 2,
        amount: unsigned("50.0"),
    });

    let accounts = engine.get_accounts();
    // Balance should still be 0, deposit should be rejected
    assert_eq!(accounts[0].total, SignedDecimal::zero());
    assert!(accounts[0].locked);
}

#[test]
fn main_test_multiple_clients() {
    let mut engine = PaymentsEngine::new();
    let _ = engine.process_transaction(InputTransaction::Deposit {
        client: 1,
        tx: 1,
        amount: unsigned("100.0"),
    });
    let _ = engine.process_transaction(InputTransaction::Deposit {
        client: 2,
        tx: 2,
        amount: unsigned("200.0"),
    });

    let accounts = engine.get_accounts();
    assert_eq!(accounts.len(), 2);
    assert_eq!(accounts[0].client, 1);
    assert_eq!(accounts[0].total, signed("100.0"));
    assert_eq!(accounts[1].client, 2);
    assert_eq!(accounts[1].total, signed("200.0"));
}

#[test]
fn main_test_dispute_only_affects_deposits() {
    let mut engine = PaymentsEngine::new();
    let _ = engine.process_transaction(InputTransaction::Deposit {
        client: 1,
        tx: 1,
        amount: unsigned("100.0"),
    });
    let _ = engine.process_transaction(InputTransaction::Withdrawal {
        client: 1,
        tx: 2,
        amount: unsigned("30.0"),
    });
    // Try to dispute the withdrawal
    let _ = engine.process_transaction(InputTransaction::Dispute { client: 1, tx: 2 });

    let accounts = engine.get_accounts();
    // Dispute should be ignored, balance unchanged
    assert_eq!(accounts[0].available, signed("70.0"));
    assert_eq!(accounts[0].held, UnsignedDecimal::zero());
}

#[test]
fn main_test_precision() {
    let mut engine = PaymentsEngine::new();
    let _ = engine.process_transaction(InputTransaction::Deposit {
        client: 1,
        tx: 1,
        amount: unsigned("1.2345"),
    });

    let accounts = engine.get_accounts();
    assert_eq!(accounts[0].available, signed("1.2345"));
}

#[test]
fn main_test_cannot_resolve_without_dispute() {
    let mut engine = PaymentsEngine::new();
    let _ = engine.process_transaction(InputTransaction::Deposit {
        client: 1,
        tx: 1,
        amount: unsigned("100.0"),
    });
    let _ = engine.process_transaction(InputTransaction::Resolve { client: 1, tx: 1 });

    let accounts = engine.get_accounts();
    // Resolve should be ignored without prior dispute
    assert_eq!(accounts[0].available, signed("100.0"));
    assert_eq!(accounts[0].held, UnsignedDecimal::zero());
}

#[test]
fn main_test_cannot_chargeback_without_dispute() {
    let mut engine = PaymentsEngine::new();
    let _ = engine.process_transaction(InputTransaction::Deposit {
        client: 1,
        tx: 1,
        amount: unsigned("100.0"),
    });
    let _ = engine.process_transaction(InputTransaction::Chargeback { client: 1, tx: 1 });

    let accounts = engine.get_accounts();
    // Chargeback should be ignored without prior dispute
    assert_eq!(accounts[0].available, signed("100.0"));
    assert_eq!(accounts[0].total, signed("100.0"));
    assert!(!accounts[0].locked);
}
