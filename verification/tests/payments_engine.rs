use std::io::ErrorKind;

use payments::payments_engine::{PaymentsEngine, TransactionsDatabase};
use payments::transaction::{Transaction, Type};
use payments::types::Amount;

//TransactionsDatabase
#[test]
fn payments_engine_transaction_database() {
    let t_client_id = 1;
    let transaction_id = 1;
    let amount = Amount::from_units(10000);

    let mut transactions_database = TransactionsDatabase::new();

    transactions_database.insert_transaction(t_client_id, transaction_id, amount);

    let received_amout = transactions_database.read_transaction_amount(t_client_id, transaction_id);

    assert!(received_amout.is_ok());
    assert_eq!(received_amout.unwrap(), amount);
}

#[test]
fn payments_engine_error_transaction_database() {
    let t_client_id = 1;
    let transaction_id = 1;
    let amount = Amount::from_units(10000);

    let mut transactions_database = TransactionsDatabase::new();

    transactions_database.insert_transaction(t_client_id, transaction_id, amount);

    let received_amout = transactions_database.read_transaction_amount(t_client_id, 100);

    assert!(received_amout.is_err());
    assert_eq!(received_amout.unwrap_err(), ErrorKind::NotFound);
}

//PaymentsEngine
#[test]
fn handle_transaction() {
    let transactions = vec![
        Transaction {
            t_type: Type::Deposit,
            t_client_id: 1,
            transaction_id: 1,
            amount: Some(Amount::from_units(15050)),
        },
        Transaction {
            t_type: Type::Deposit,
            t_client_id: 2,
            transaction_id: 2,
            amount: Some(Amount::from_units(21010)),
        },
        Transaction {
            t_type: Type::Deposit,
            t_client_id: 1,
            transaction_id: 3,
            amount: Some(Amount::from_units(10000)),
        },
        Transaction {
            t_type: Type::Withdrawal,
            t_client_id: 1,
            transaction_id: 4,
            amount: Some(Amount::from_units(15000)),
        },
        Transaction {
            t_type: Type::Withdrawal,
            t_client_id: 2,
            transaction_id: 5,
            amount: Some(Amount::from_units(30000)),
        },
        Transaction {
            t_type: Type::Dispute,
            t_client_id: 1,
            transaction_id: 1,
            amount: None,
        },
        Transaction {
            t_type: Type::Resolve,
            t_client_id: 1,
            transaction_id: 1,
            amount: None,
        },
        Transaction {
            t_type: Type::Dispute,
            t_client_id: 1,
            transaction_id: 1,
            amount: None,
        },
        Transaction {
            t_type: Type::Chargeback,
            t_client_id: 1,
            transaction_id: 1,
            amount: None,
        },
    ];

    let mut payments_engine = PaymentsEngine::new();

    for transaction in transactions {
        payments_engine.handle_transaction(transaction);
    }
    let output = payments_engine.write_state();

    let expected_output = "client,available,held,total,locked\n\
                           1,-0.5000,0.0000,-0.5000,true\n\
                           2,2.1010,0.0000,2.1010,false\n";

    assert_eq!(output, expected_output);
}
