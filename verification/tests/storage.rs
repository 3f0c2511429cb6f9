use payments::storage::{TransactionType, TransactionsDatabase};
use payments::types::Amount;

//TransactionsDatabase
#[test]
fn storage_transaction_database() {
    let t_client_id = 1;
    let transaction_id = 1;
    let amount = Amount::from_units(10000);

    let mut transactions_database = TransactionsDatabase::new();

    let transaction: TransactionType = (t_client_id, amount);

    transactions_database.insert(transaction_id, transaction);

    let received_amout = transactions_database.get(transaction_id);

    assert!(received_amout.is_some());
    assert_eq!(received_amout.unwrap(), transaction);
}

#[test]
fn storage_error_transaction_database() {
    let t_client_id = 1;
    let transaction_id = 1;
    let amount = Amount::from_units(10000);

    let mut transactions_database = TransactionsDatabase::new();

    let transaction: TransactionType = (t_client_id, amount);

    transactions_database.insert(transaction_id, transaction);

    let received_amout = transactions_database.get(100);

    assert!(received_amout.is_none());
}
