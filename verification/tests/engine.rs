use payments::client::error::ClientAccountError;
use payments::engine::error::EngineError;
use payments::engine::payments_engine::PaymentsEngine;
use payments::transaction::{Transaction, Type};
use payments::types::Amount;

#[test]
fn handle_deposit_errors() {
    let mut payments_engine = PaymentsEngine::new();

    assert!(payments_engine
        .handle_deposit(Transaction {
            t_type: Type::Deposit,
            t_client_id: 1,
            transaction_id: 1,
            amount: Some(Amount::from_units(15050)),
        })
        .is_ok());

    assert_eq!(
        payments_engine
            .handle_deposit(Transaction {
                t_type: Type::Deposit,
                t_client_id: 1,
                transaction_id: 1,
                amount: Some(Amount::from_units(15050)),
            })
            .unwrap_err(),
        EngineError::TransactionAlreadyExists
    );

    assert_eq!(
        payments_engine
            .handle_deposit(Transaction {
                t_type: Type::Deposit,
                t_client_id: 1,
                transaction_id: 2,
                amount: None,
            })
            .unwrap_err(),
        EngineError::InvalidLedger(2)
    );

    assert_eq!(
        payments_engine
            .handle_deposit(Transaction {
                t_type: Type::Deposit,
                t_client_id: 1,
                transaction_id: 3,
                amount: Some(Amount::from_units(-15050)),
            })
            .unwrap_err(),
        EngineError::ClientAccountError(ClientAccountError::NegativeAmount)
    );
}

#[test]
fn handle_withdrawals_errors() {
    let mut payments_engine = PaymentsEngine::new();

    assert!(payments_engine
        .handle_deposit(Transaction {
            t_type: Type::Deposit,
            t_client_id: 1,
            transaction_id: 1,
            amount: Some(Amount::from_units(15050)),
        })
        .is_ok());

    assert_eq!(
        payments_engine
            .handle_deposit(Transaction {
                t_type: Type::Deposit,
                t_client_id: 1,
                transaction_id: 1,
                amount: Some(Amount::from_units(15050)),
            })
            .unwrap_err(),
        EngineError::TransactionAlreadyExists
    );

    assert_eq!(
        payments_engine
            .handle_withdrawals(Transaction {
                t_type: Type::Withdrawal,
                t_client_id: 1,
                transaction_id: 1,
                amount: None,
            })
            .unwrap_err(),
        EngineError::TransactionAlreadyExists
    );

    assert_eq!(
        payments_engine
            .handle_withdrawals(Transaction {
                t_type: Type::Withdrawal,
                t_client_id: 1,
                transaction_id: 2,
                amount: None,
            })
            .unwrap_err(),
        EngineError::InvalidLedger(2)
    );

    assert_eq!(
        payments_engine
            .handle_withdrawals(Transaction {
                t_type: Type::Withdrawal,
                t_client_id: 1,
                transaction_id: 3,
                amount: Some(Amount::from_units(50000)),
            })
            .unwrap_err(),
        EngineError::ClientAccountError(ClientAccountError::InsufficientBalance)
    );
}

#[test]
fn handle_basic_dispute_errors() {
    let mut payments_engine = PaymentsEngine::new();

    assert!(payments_engine
        .handle_deposit(Transaction {
            t_type: Type::Deposit,
            t_client_id: 1,
            transaction_id: 1,
            amount: Some(Amount::from_units(15050)),
        })
        .is_ok());

    assert!(payments_engine
        .handle_dispute(Transaction {
            t_type: Type::Dispute,
            t_client_id: 1,
            transaction_id: 1,
            amount: None,
        })
        .is_ok());

    assert_eq!(
        payments_engine
            .handle_dispute(Transaction {
                t_type: Type::Dispute,
                t_client_id: 1,
                transaction_id: 1,
                amount: None,
            })
            .unwrap_err(),
        EngineError::TransactionAlreadyDisputed(1)
    );

    assert_eq!(
        payments_engine
            .handle_dispute(Transaction {
                t_type: Type::Dispute,
                t_client_id: 2,
                transaction_id: 3,
                amount: None,
            })
            .unwrap_err(),
        EngineError::TransactionNotFound(3)
    );

    assert_eq!(
        payments_engine
            .handle_dispute(Transaction {
                t_type: Type::Dispute,
                t_client_id: 1,
                transaction_id: 10,
                amount: None,
            })
            .unwrap_err(),
        EngineError::TransactionNotFound(10)
    );
}

#[test]
fn dispute_not_client_owned_transaction() {
    let mut payments_engine = PaymentsEngine::new();

    assert!(payments_engine
        .handle_deposit(Transaction {
            t_type: Type::Deposit,
            t_client_id: 1,
            transaction_id: 1,
            amount: Some(Amount::from_units(15050)),
        })
        .is_ok());

    assert!(payments_engine
        .handle_dispute(Transaction {
            t_type: Type::Dispute,
            t_client_id: 1,
            transaction_id: 1,
            amount: None,
        })
        .is_ok());

    assert!(payments_engine
        .handle_deposit(Transaction {
            t_type: Type::Deposit,
            t_client_id: 100,
            transaction_id: 100,
            amount: Some(Amount::from_units(15050)),
        })
        .is_ok());

    assert_eq!(
        payments_engine
            .handle_resolve(Transaction {
                t_type: Type::Resolve,
                t_client_id: 100,
                transaction_id: 1,
                amount: None,
            })
            .unwrap_err(),
        EngineError::NotClientOwnedTransaction(1, 100)
    );
}

#[test]
fn handle_basic_resolve_errors() {
    let mut payments_engine = PaymentsEngine::new();

    assert!(payments_engine
        .handle_deposit(Transaction {
            t_type: Type::Deposit,
            t_client_id: 1,
            transaction_id: 1,
            amount: Some(Amount::from_units(15050)),
        })
        .is_ok());

    assert!(payments_engine
        .handle_dispute(Transaction {
            t_type: Type::Dispute,
            t_client_id: 1,
            transaction_id: 1,
            amount: None,
        })
        .is_ok());

    assert_eq!(
        payments_engine
            .handle_resolve(Transaction {
                t_type: Type::Resolve,
                t_client_id: 1,
                transaction_id: 2,
                amount: None,
            })
            .unwrap_err(),
        EngineError::TransactionNotDisputed(2)
    );
}

#[test]
fn handle_basic_chargeback_errors() {
    let mut payments_engine = PaymentsEngine::new();

    assert!(payments_engine
        .handle_deposit(Transaction {
            t_type: Type::Deposit,
            t_client_id: 1,
            transaction_id: 1,
            amount: Some(Amount::from_units(15050)),
        })
        .is_ok());

    assert!(payments_engine
        .handle_dispute(Transaction {
            t_type: Type::Dispute,
            t_client_id: 1,
            transaction_id: 1,
            amount: None,
        })
        .is_ok());

    assert_eq!(
        payments_engine
            .handle_chargeback(Transaction {
                t_type: Type::Chargeback,
                t_client_id: 1,
                transaction_id: 2,
                amount: None,
            })
            .unwrap_err(),
        EngineError::TransactionNotDisputed(2)
    );
}
