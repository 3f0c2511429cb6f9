use payments::transaction::{parse_record, DecodeError, Transaction, Type};
use payments::types::Amount;

#[test]
fn read_desposit() {
    let csv_data = "deposit,1,1,10.50\n";

    // deposit,1,1,10.50
    let expected = Transaction {
        t_type: Type::Deposit,
        t_client_id: 1,
        transaction_id: 1,
        amount: Some(Amount::from_units(105000)),
    };

    let transaction = parse_record(csv_data);
    assert!(transaction.is_ok());
    assert_eq!(expected, transaction.unwrap());
}

#[test]
fn read_desposit_4_decimal() {
    let csv_data = "deposit,1,2,10.5555\n";

    let expected = Transaction {
        t_type: Type::Deposit,
        t_client_id: 1,
        transaction_id: 2,
        amount: Some(Amount::from_units(105555)),
    };

    let transaction = parse_record(csv_data);
    assert!(transaction.is_ok());
    assert_eq!(expected, transaction.unwrap());
}

#[test]
fn read_desposit_more_4_decimal() {
    let csv_data = "deposit,1,2,10.55557\n";

    let expected_amount_4_decimal = Amount::from_units(105556);
    let transaction = parse_record(csv_data);
    assert!(transaction.is_ok());

    let amount_4_decimal = transaction.unwrap().amount.unwrap();

    assert_eq!(expected_amount_4_decimal, amount_4_decimal);
}

#[test]
fn read_wrong_type_transaction() {
    let transaction = parse_record("test,1,1,1.1\n");

    assert!(transaction.is_err());
    let transaction_error = transaction.unwrap_err();
    println!(
        "Erro while deserializing transaction: {:?} ",
        transaction_error
    );
    assert_eq!(transaction_error, DecodeError::UnknownTransactionType);
}

#[test]
fn read_wrong_deposit_transaction() {
    let transaction = parse_record("deposit,1,-1,1.1\n");

    assert!(transaction.is_err());
    let transaction_error = transaction.unwrap_err();
    println!(
        "Erro while deserializing transaction: {:?} ",
        transaction_error
    );
    assert_eq!(transaction_error, DecodeError::InvalidTransactionId);
}

#[test]
fn read_withdrawal_transaction() {
    let csv_data = "withdrawal,1,100,10.50\n";

    let expected = Transaction {
        t_type: Type::Withdrawal,
        t_client_id: 1,
        transaction_id: 100,
        amount: Some(Amount::from_units(105000)),
    };

    let transaction = parse_record(csv_data);
    assert!(transaction.is_ok());
    assert_eq!(expected, transaction.unwrap());
}

#[test]
fn read_resolve_transaction() {
    let csv_data = "resolve,1,100\n";

    let expected = Transaction {
        t_type: Type::Resolve,
        t_client_id: 1,
        transaction_id: 100,
        amount: None,
    };

    let transaction = parse_record(csv_data);
    assert!(transaction.is_ok());
    assert_eq!(expected, transaction.unwrap());
}

#[test]
fn read_chargeback_transaction() {
    let csv_data = "chargeback,1,100\n";

    let expected = Transaction {
        t_type: Type::Chargeback,
        t_client_id: 1,
        transaction_id: 100,
        amount: None,
    };

    let transaction = parse_record(csv_data);
    assert!(transaction.is_ok());
    assert_eq!(expected, transaction.unwrap());
}
