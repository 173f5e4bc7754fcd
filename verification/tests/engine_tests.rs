//! Engine behaviour: deposits, withdrawals, the dispute lifecycle, account
//! locking, and duplicate rejection. Amounts are in units of 1/10000.

use rusty_reckoning::Engine;
use rusty_reckoning::Error;
use rusty_reckoning::Transaction;
use rusty_reckoning::TransactionType;

fn create_transaction(
    tx_type: TransactionType,
    client: u16,
    tx: u32,
    amount: Option<i64>,
) -> Transaction {
    Transaction {
        tx_type,
        client,
        tx,
        amount,
    }
}

#[test]
fn test_valid_deposit() {
    let mut engine = Engine::new();
    let tx = create_transaction(TransactionType::Deposit, 1, 1, Some(1_000_000));

    engine.process_transaction(tx).unwrap();

    let accounts = engine.accounts();
    let account = &accounts[0];
    assert_eq!(account.available, 1_000_000);
    assert_eq!(account.total(), 1_000_000);
    assert_eq!(account.held, 0);
    assert!(!account.locked);
}

#[test]
fn test_duplicate_deposit() {
    let mut engine = Engine::new();
    let tx = create_transaction(TransactionType::Deposit, 1, 1, Some(1_000_000));

    engine.process_transaction(tx.clone()).unwrap();
    assert!(matches!(
        engine.process_transaction(tx),
        Err(Error::DuplicateTransaction)
    ));

    let accounts = engine.accounts();
    assert_eq!(accounts[0].available, 1_000_000);
}

#[test]
fn test_valid_withdrawal() {
    let mut engine = Engine::new();

    // First deposit
    engine
        .process_transaction(create_transaction(
            TransactionType::Deposit,
            1,
            1,
            Some(1_000_000),
        ))
        .unwrap();

    // Then withdraw
    engine
        .process_transaction(create_transaction(
            TransactionType::Withdrawal,
            1,
            2,
            Some(500_000),
        ))
        .unwrap();

    let accounts = engine.accounts();
    assert_eq!(accounts[0].available, 500_000);
}

#[test]
fn test_withdrawal_insufficient_funds() {
    let mut engine = Engine::new();

    // Deposit 100
    engine
        .process_transaction(create_transaction(
            TransactionType::Deposit,
            1,
            1,
            Some(1_000_000),
        ))
        .unwrap();

    // Try to withdraw 150
    let result = engine.process_transaction(create_transaction(
        TransactionType::Withdrawal,
        1,
        2,
        Some(1_500_000),
    ));

    assert!(matches!(result, Err(Error::InsufficientFunds)));

    let accounts = engine.accounts();
    assert_eq!(accounts[0].available, 1_000_000);
}

#[test]
fn test_withdrawal_from_nonexistent_account() {
    let mut engine = Engine::new();
    let result = engine.process_transaction(create_transaction(
        TransactionType::Withdrawal,
        1,
        1,
        Some(500_000),
    ));

    assert!(matches!(result, Err(Error::AccountNotFound)));
}

#[test]
fn test_deposit_non_positive_amount() {
    let mut engine = Engine::new();

    // Test zero amount
    let result =
        engine.process_transaction(create_transaction(TransactionType::Deposit, 1, 1, Some(0)));
    assert!(matches!(result, Err(Error::AmountMustBePositive)));

    // Test negative amount
    let result = engine.process_transaction(create_transaction(
        TransactionType::Deposit,
        1,
        2,
        Some(-100_000),
    ));
    assert!(matches!(result, Err(Error::AmountMustBePositive)));
}

#[test]
fn test_withdrawal_non_positive_amount() {
    let mut engine = Engine::new();

    // First make a deposit
    engine
        .process_transaction(create_transaction(
            TransactionType::Deposit,
            1,
            1,
            Some(1_000_000),
        ))
        .unwrap();

    // Test zero amount
    let result = engine.process_transaction(create_transaction(
        TransactionType::Withdrawal,
        1,
        2,
        Some(0),
    ));
    assert!(matches!(result, Err(Error::AmountMustBePositive)));

    // Test negative amount
    let result = engine.process_transaction(create_transaction(
        TransactionType::Withdrawal,
        1,
        3,
        Some(-100_000),
    ));
    assert!(matches!(result, Err(Error::AmountMustBePositive)));
}

#[test]
fn test_duplicate_withdrawal() {
    let mut engine = Engine::new();

    // First make a deposit to have funds
    engine
        .process_transaction(create_transaction(
            TransactionType::Deposit,
            1,
            1,
            Some(1_000_000),
        ))
        .unwrap();

    // First withdrawal succeeds
    let withdrawal = create_transaction(TransactionType::Withdrawal, 1, 2, Some(500_000));
    engine.process_transaction(withdrawal.clone()).unwrap();

    // Second withdrawal with same tx ID fails
    let result = engine.process_transaction(withdrawal);
    assert!(matches!(result, Err(Error::DuplicateTransaction)));

    // Verify account state hasn't changed after failed withdrawal
    let accounts = engine.accounts();
    assert_eq!(accounts[0].available, 500_000);
    assert_eq!(accounts[0].total(), 500_000);
}

#[test]
fn test_valid_dispute() {
    let mut engine = Engine::new();

    // Make a deposit
    engine
        .process_transaction(create_transaction(
            TransactionType::Deposit,
            1,
            1,
            Some(1_000_000),
        ))
        .unwrap();

    // Dispute it
    engine
        .process_transaction(create_transaction(TransactionType::Dispute, 1, 1, None))
        .unwrap();

    let accounts = engine.accounts();
    assert_eq!(accounts[0].available, 0);
    assert_eq!(accounts[0].held, 1_000_000);
    assert_eq!(accounts[0].total(), 1_000_000);
}

#[test]
fn test_duplicate_dispute() {
    let mut engine = Engine::new();

    // Make a deposit
    engine
        .process_transaction(create_transaction(
            TransactionType::Deposit,
            1,
            1,
            Some(1_000_000),
        ))
        .unwrap();

    // First dispute
    let tx = create_transaction(TransactionType::Dispute, 1, 1, None);
    engine.process_transaction(tx.clone()).unwrap();

    // Second dispute
    let result = engine.process_transaction(tx);

    assert!(matches!(result, Err(Error::TransactionAlreadyDisputed)));
}

#[test]
fn test_dispute_nonexistent_transaction() {
    let mut engine = Engine::new();
    let result =
        engine.process_transaction(create_transaction(TransactionType::Dispute, 1, 999, None));

    assert!(matches!(result, Err(Error::TransactionNotFound)));
}

#[test]
fn test_dispute_wrong_client() {
    let mut engine = Engine::new();

    // Make a deposit for client 1
    engine
        .process_transaction(create_transaction(
            TransactionType::Deposit,
            1,
            1,
            Some(1_000_000),
        ))
        .unwrap();

    // Try to dispute it as client 2
    let result =
        engine.process_transaction(create_transaction(TransactionType::Dispute, 2, 1, None));

    assert!(matches!(result, Err(Error::TransactionClientMismatch)));
}

#[test]
fn test_valid_resolve() {
    let mut engine = Engine::new();

    // Make a deposit
    engine
        .process_transaction(create_transaction(
            TransactionType::Deposit,
            1,
            1,
            Some(1_000_000),
        ))
        .unwrap();

    // Dispute it
    engine
        .process_transaction(create_transaction(TransactionType::Dispute, 1, 1, None))
        .unwrap();

    // Resolve it
    engine
        .process_transaction(create_transaction(TransactionType::Resolve, 1, 1, None))
        .unwrap();

    let accounts = engine.accounts();
    assert_eq!(accounts[0].available, 1_000_000);
    assert_eq!(accounts[0].held, 0);
    assert_eq!(accounts[0].total(), 1_000_000);
}

#[test]
fn test_resolve_without_dispute() {
    let mut engine = Engine::new();

    // Make a deposit
    engine
        .process_transaction(create_transaction(
            TransactionType::Deposit,
            1,
            1,
            Some(1_000_000),
        ))
        .unwrap();

    // Try to resolve without dispute
    let result =
        engine.process_transaction(create_transaction(TransactionType::Resolve, 1, 1, None));

    assert!(matches!(result, Err(Error::TransactionNotDisputed)));
}

#[test]
fn test_valid_chargeback() {
    let mut engine = Engine::new();

    // Make a deposit
    engine
        .process_transaction(create_transaction(
            TransactionType::Deposit,
            1,
            1,
            Some(1_000_000),
        ))
        .unwrap();

    // Dispute it
    engine
        .process_transaction(create_transaction(TransactionType::Dispute, 1, 1, None))
        .unwrap();

    // Chargeback
    engine
        .process_transaction(create_transaction(TransactionType::Chargeback, 1, 1, None))
        .unwrap();

    let accounts = engine.accounts();
    assert_eq!(accounts[0].available, 0);
    assert_eq!(accounts[0].held, 0);
    assert_eq!(accounts[0].total(), 0);
    assert!(accounts[0].locked);
}

#[test]
fn test_chargeback_without_dispute() {
    let mut engine = Engine::new();

    // Make a deposit
    engine
        .process_transaction(create_transaction(
            TransactionType::Deposit,
            1,
            1,
            Some(1_000_000),
        ))
        .unwrap();

    // Try chargeback without dispute
    let result =
        engine.process_transaction(create_transaction(TransactionType::Chargeback, 1, 1, None));

    assert!(matches!(result, Err(Error::TransactionNotDisputed)));
    let accounts = engine.accounts();
    assert_eq!(accounts[0].available, 1_000_000);
    assert!(!accounts[0].locked);
}

#[test]
fn test_locked_account_rejects_transactions() {
    let mut engine = Engine::new();

    // Make a deposit
    engine
        .process_transaction(create_transaction(
            TransactionType::Deposit,
            1,
            1,
            Some(1_000_000),
        ))
        .unwrap();

    // Dispute and chargeback to lock the account
    engine
        .process_transaction(create_transaction(TransactionType::Dispute, 1, 1, None))
        .unwrap();
    engine
        .process_transaction(create_transaction(TransactionType::Chargeback, 1, 1, None))
        .unwrap();

    // Try new deposit
    let result = engine.process_transaction(create_transaction(
        TransactionType::Deposit,
        1,
        2,
        Some(500_000),
    ));
    assert!(matches!(result, Err(Error::AccountLocked)));

    // Try withdrawal
    let result = engine.process_transaction(create_transaction(
        TransactionType::Withdrawal,
        1,
        3,
        Some(500_000),
    ));
    assert!(matches!(result, Err(Error::AccountLocked)));
}

#[test]
fn test_redispute_after_resolve() {
    let mut engine = Engine::new();

    // Make a deposit
    engine
        .process_transaction(create_transaction(
            TransactionType::Deposit,
            1,
            1,
            Some(1_000_000),
        ))
        .unwrap();

    // First dispute cycle
    engine
        .process_transaction(create_transaction(TransactionType::Dispute, 1, 1, None))
        .unwrap();
    engine
        .process_transaction(create_transaction(TransactionType::Resolve, 1, 1, None))
        .unwrap();

    // Second dispute should work
    engine
        .process_transaction(create_transaction(TransactionType::Dispute, 1, 1, None))
        .unwrap();

    let accounts = engine.accounts();
    assert_eq!(accounts[0].available, 0);
    assert_eq!(accounts[0].held, 1_000_000);
    assert_eq!(accounts[0].total(), 1_000_000);
}

#[test]
fn test_chargeback_results_in_negative_balance() {
    let mut engine = Engine::new();

    // Make a deposit of 100
    engine
        .process_transaction(create_transaction(
            TransactionType::Deposit,
            1,
            1,
            Some(1_000_000),
        ))
        .unwrap();

    // Verify initial state after deposit
    {
        let accounts = engine.accounts();
        assert_eq!(accounts[0].available, 1_000_000);
        assert_eq!(accounts[0].held, 0);
        assert_eq!(accounts[0].total(), 1_000_000);
        assert!(!accounts[0].locked);
    }

    // Withdraw 75
    engine
        .process_transaction(create_transaction(
            TransactionType::Withdrawal,
            1,
            2,
            Some(750_000),
        ))
        .unwrap();

    // Verify state after withdrawal: available = 25, held = 0, total = 25
    {
        let accounts = engine.accounts();
        assert_eq!(accounts[0].available, 250_000);
        assert_eq!(accounts[0].held, 0);
        assert_eq!(accounts[0].total(), 250_000);
        assert!(!accounts[0].locked);
    }

    // Dispute the original deposit
    engine
        .process_transaction(create_transaction(TransactionType::Dispute, 1, 1, None))
        .unwrap();

    // Verify state after dispute: available = -75, held = 100, total = 25
    {
        let accounts = engine.accounts();
        assert_eq!(accounts[0].available, -750_000);
        assert_eq!(accounts[0].held, 1_000_000);
        assert_eq!(accounts[0].total(), 250_000);
        assert!(!accounts[0].locked);
    }

    // Chargeback the deposit
    engine
        .process_transaction(create_transaction(TransactionType::Chargeback, 1, 1, None))
        .unwrap();

    // Verify final state: available = -75, held = 0, total = -75, locked = true
    let accounts = engine.accounts();
    assert_eq!(accounts[0].available, -750_000);
    assert_eq!(accounts[0].held, 0);
    assert_eq!(accounts[0].total(), -750_000);
    assert!(accounts[0].locked);
}

#[test]
fn test_deposit_missing_amount_is_invalid() {
    let mut engine = Engine::new();

    let result =
        engine.process_transaction(create_transaction(TransactionType::Deposit, 1, 1, None));
    assert!(matches!(result, Err(Error::InvalidTransaction)));

    let result =
        engine.process_transaction(create_transaction(TransactionType::Withdrawal, 1, 2, None));
    assert!(matches!(result, Err(Error::InvalidTransaction)));

    assert!(engine.accounts().is_empty());
}

#[test]
fn test_locked_account_rejects_dispute_lifecycle() {
    let mut engine = Engine::new();

    // Two deposits, dispute and charge back the first to lock the account
    engine
        .process_transaction(create_transaction(
            TransactionType::Deposit,
            1,
            1,
            Some(1_000_000),
        ))
        .unwrap();
    engine
        .process_transaction(create_transaction(
            TransactionType::Deposit,
            1,
            2,
            Some(500_000),
        ))
        .unwrap();
    engine
        .process_transaction(create_transaction(TransactionType::Dispute, 1, 1, None))
        .unwrap();
    engine
        .process_transaction(create_transaction(TransactionType::Chargeback, 1, 1, None))
        .unwrap();

    // Every kind of transaction for that client is now rejected
    let dispute =
        engine.process_transaction(create_transaction(TransactionType::Dispute, 1, 2, None));
    assert!(matches!(dispute, Err(Error::AccountLocked)));
    let resolve =
        engine.process_transaction(create_transaction(TransactionType::Resolve, 1, 2, None));
    assert!(matches!(resolve, Err(Error::AccountLocked)));
    let chargeback =
        engine.process_transaction(create_transaction(TransactionType::Chargeback, 1, 2, None));
    assert!(matches!(chargeback, Err(Error::AccountLocked)));

    // The state did not move
    let accounts = engine.accounts();
    assert_eq!(accounts[0].available, 500_000);
    assert_eq!(accounts[0].held, 0);
    assert!(accounts[0].locked);
}

#[test]
fn test_cross_client_dispute_mutates_neither_account() {
    let mut engine = Engine::new();

    engine
        .process_transaction(create_transaction(
            TransactionType::Deposit,
            1,
            1,
            Some(1_000_000),
        ))
        .unwrap();
    engine
        .process_transaction(create_transaction(
            TransactionType::Deposit,
            2,
            2,
            Some(2_000_000),
        ))
        .unwrap();

    let result =
        engine.process_transaction(create_transaction(TransactionType::Dispute, 2, 1, None));
    assert!(matches!(result, Err(Error::TransactionClientMismatch)));

    let accounts = engine.accounts();
    assert_eq!(accounts[0].available, 1_000_000);
    assert_eq!(accounts[0].held, 0);
    assert_eq!(accounts[1].available, 2_000_000);
    assert_eq!(accounts[1].held, 0);
}

#[test]
fn test_withdrawal_rejected_while_available_is_negative() {
    let mut engine = Engine::new();

    // Deposit, withdraw most of it, then dispute the deposit: available
    // goes negative while the account stays unlocked.
    engine
        .process_transaction(create_transaction(
            TransactionType::Deposit,
            1,
            1,
            Some(1_000_000),
        ))
        .unwrap();
    engine
        .process_transaction(create_transaction(
            TransactionType::Withdrawal,
            1,
            2,
            Some(750_000),
        ))
        .unwrap();
    engine
        .process_transaction(create_transaction(TransactionType::Dispute, 1, 1, None))
        .unwrap();

    let accounts = engine.accounts();
    assert_eq!(accounts[0].available, -750_000);
    assert!(!accounts[0].locked);

    // No funds are available, so even the smallest withdrawal is rejected.
    let result = engine.process_transaction(create_transaction(
        TransactionType::Withdrawal,
        1,
        3,
        Some(1),
    ));
    assert!(matches!(result, Err(Error::InsufficientFunds)));
}

#[test]
fn test_conservation_over_deposits_and_withdrawals() {
    let mut engine = Engine::new();

    // Applied: +100 +200 -50 for client 1, +75 for client 2;
    // rejected: an overdraft and a duplicate, which move nothing.
    engine
        .process_transaction(create_transaction(
            TransactionType::Deposit,
            1,
            1,
            Some(1_000_000),
        ))
        .unwrap();
    engine
        .process_transaction(create_transaction(
            TransactionType::Deposit,
            1,
            2,
            Some(2_000_000),
        ))
        .unwrap();
    engine
        .process_transaction(create_transaction(
            TransactionType::Withdrawal,
            1,
            3,
            Some(500_000),
        ))
        .unwrap();
    engine
        .process_transaction(create_transaction(
            TransactionType::Deposit,
            2,
            4,
            Some(750_000),
        ))
        .unwrap();
    let overdraft = engine.process_transaction(create_transaction(
        TransactionType::Withdrawal,
        2,
        5,
        Some(10_000_000),
    ));
    assert!(matches!(overdraft, Err(Error::InsufficientFunds)));
    let duplicate = engine.process_transaction(create_transaction(
        TransactionType::Deposit,
        2,
        1,
        Some(750_000),
    ));
    assert!(matches!(duplicate, Err(Error::DuplicateTransaction)));

    let total_available: i128 = engine.accounts().iter().map(|a| a.available).sum();
    assert_eq!(total_available, 1_000_000 + 2_000_000 - 500_000 + 750_000);
}
