use payments::client::client_account::ClientAccount;
use payments::client::error::ClientAccountError;
use payments::engine::error::EngineError;
use payments::engine::payments_engine::PaymentsEngine;
use payments::report::{format_amount, format_u64};
use payments::transaction::{parse_record, DecodeError, Transaction, Type};
use payments::types::Amount;

fn deposit(client: u16, tx: u32, units: i64) -> Transaction {
    Transaction {
        t_type: Type::Deposit,
        t_client_id: client,
        transaction_id: tx,
        amount: Some(Amount::from_units(units)),
    }
}

fn withdrawal(client: u16, tx: u32, units: i64) -> Transaction {
    Transaction {
        t_type: Type::Withdrawal,
        t_client_id: client,
        transaction_id: tx,
        amount: Some(Amount::from_units(units)),
    }
}

fn lifecycle(kind: Type, client: u16, tx: u32) -> Transaction {
    Transaction {
        t_type: kind,
        t_client_id: client,
        transaction_id: tx,
        amount: None,
    }
}

#[test]
fn scenario_deposit_reports_balances() {
    let mut engine = PaymentsEngine::new();
    assert!(engine.handle_transaction(deposit(1, 1, 15050)).is_ok());
    assert_eq!(
        engine.write_state(),
        "client,available,held,total,locked\n1,1.5050,0.0000,1.5050,false\n"
    );
}

#[test]
fn scenario_insufficient_withdrawal_changes_nothing() {
    let mut engine = PaymentsEngine::new();
    assert!(engine.handle_transaction(deposit(1, 1, 15050)).is_ok());
    assert_eq!(
        engine.handle_transaction(withdrawal(1, 2, 50000)).unwrap_err(),
        EngineError::ClientAccountError(ClientAccountError::InsufficientBalance)
    );
    assert_eq!(
        engine.write_state(),
        "client,available,held,total,locked\n1,1.5050,0.0000,1.5050,false\n"
    );
}

#[test]
fn scenario_dispute_holds_funds_once() {
    let mut engine = PaymentsEngine::new();
    assert!(engine.handle_transaction(deposit(1, 1, 15555)).is_ok());
    assert!(engine
        .handle_transaction(lifecycle(Type::Dispute, 1, 1))
        .is_ok());
    assert_eq!(
        engine.write_state(),
        "client,available,held,total,locked\n1,0.0000,1.5555,1.5555,false\n"
    );
    assert_eq!(
        engine
            .handle_transaction(lifecycle(Type::Dispute, 1, 1))
            .unwrap_err(),
        EngineError::TransactionAlreadyDisputed(1)
    );
}

#[test]
fn scenario_chargeback_freezes_account() {
    let mut engine = PaymentsEngine::new();
    assert!(engine.handle_transaction(deposit(1, 1, 15555)).is_ok());
    assert!(engine
        .handle_transaction(lifecycle(Type::Dispute, 1, 1))
        .is_ok());
    assert!(engine
        .handle_transaction(lifecycle(Type::Chargeback, 1, 1))
        .is_ok());
    assert_eq!(
        engine.write_state(),
        "client,available,held,total,locked\n1,0.0000,0.0000,0.0000,true\n"
    );
    assert_eq!(
        engine.handle_transaction(deposit(1, 3, 10000)).unwrap_err(),
        EngineError::ClientAccountError(ClientAccountError::Locked)
    );
    assert_eq!(
        engine.write_state(),
        "client,available,held,total,locked\n1,0.0000,0.0000,0.0000,true\n"
    );
    // the dispute lifecycle of the charged-back id is over for good
    assert_eq!(
        engine
            .handle_transaction(lifecycle(Type::Resolve, 1, 1))
            .unwrap_err(),
        EngineError::TransactionNotDisputed(1)
    );
    assert_eq!(
        engine
            .handle_transaction(lifecycle(Type::Chargeback, 1, 1))
            .unwrap_err(),
        EngineError::TransactionNotDisputed(1)
    );
    assert_eq!(
        engine
            .handle_transaction(lifecycle(Type::Dispute, 1, 1))
            .unwrap_err(),
        EngineError::ClientAccountError(ClientAccountError::Locked)
    );
}

#[test]
fn scenario_dispute_of_unknown_transaction() {
    let mut engine = PaymentsEngine::new();
    assert_eq!(
        engine
            .handle_transaction(lifecycle(Type::Dispute, 2, 99))
            .unwrap_err(),
        EngineError::TransactionNotFound(99)
    );
    // no account side effect for a client that never transacted
    assert_eq!(engine.write_state(), "client,available,held,total,locked\n");
}

#[test]
fn engine_deposit_withdrawal_round_trip() {
    let mut engine = PaymentsEngine::new();
    assert!(engine.handle_transaction(deposit(7, 1, 20000)).is_ok());
    assert!(engine.handle_transaction(withdrawal(7, 2, 20000)).is_ok());
    assert_eq!(
        engine.write_state(),
        "client,available,held,total,locked\n7,0.0000,0.0000,0.0000,false\n"
    );
}

#[test]
fn account_deposit_withdrawal_round_trip() {
    let mut account = ClientAccount::new();
    assert!(account.deposit(Amount::from_units(10000)).is_ok());
    assert!(account.deposit(Amount::from_units(5000)).is_ok());
    assert!(account.withdrawal(Amount::from_units(5000)).is_ok());
    assert_eq!(account.available(), Amount::from_units(10000));
    assert_eq!(account.total(), Amount::from_units(10000));
    assert_eq!(account.held(), Amount::from_units(0));
}

#[test]
fn resolve_returns_funds() {
    let mut engine = PaymentsEngine::new();
    assert!(engine.handle_transaction(deposit(1, 1, 15555)).is_ok());
    assert!(engine
        .handle_transaction(lifecycle(Type::Dispute, 1, 1))
        .is_ok());
    assert!(engine
        .handle_transaction(lifecycle(Type::Resolve, 1, 1))
        .is_ok());
    assert_eq!(
        engine.write_state(),
        "client,available,held,total,locked\n1,1.5555,0.0000,1.5555,false\n"
    );
    // the deposit stays on record, so it can be disputed again
    assert!(engine
        .handle_transaction(lifecycle(Type::Dispute, 1, 1))
        .is_ok());
}

#[test]
fn report_lists_clients_in_first_seen_order() {
    let mut engine = PaymentsEngine::new();
    assert!(engine.handle_transaction(deposit(5, 1, 10000)).is_ok());
    assert!(engine.handle_transaction(deposit(2, 2, 20000)).is_ok());
    assert!(engine.handle_transaction(deposit(5, 3, 10000)).is_ok());
    assert_eq!(
        engine.write_state(),
        "client,available,held,total,locked\n\
         5,2.0000,0.0000,2.0000,false\n\
         2,2.0000,0.0000,2.0000,false\n"
    );
}

#[test]
fn amount_rounding_to_four_digits() {
    // a fifth fraction digit above five rounds up
    let t = parse_record("deposit,1,1,10.55557\n").unwrap();
    assert_eq!(t.amount.unwrap(), Amount::from_units(105556));
    // below five rounds down
    let t = parse_record("deposit,1,2,10.55552\n").unwrap();
    assert_eq!(t.amount.unwrap(), Amount::from_units(105555));
    // an exact tie rounds to even
    let t = parse_record("deposit,1,3,0.00005\n").unwrap();
    assert_eq!(t.amount.unwrap(), Amount::from_units(0));
    let t = parse_record("deposit,1,4,0.00015\n").unwrap();
    assert_eq!(t.amount.unwrap(), Amount::from_units(2));
    // a tie broken by a later nonzero digit rounds up
    let t = parse_record("deposit,1,5,0.000051\n").unwrap();
    assert_eq!(t.amount.unwrap(), Amount::from_units(1));
}

#[test]
fn decode_accepts_trimmed_fields_and_short_amounts() {
    let t = parse_record(" deposit ,\t1 , 2 , 1.5 \n").unwrap();
    assert_eq!(
        t,
        Transaction {
            t_type: Type::Deposit,
            t_client_id: 1,
            transaction_id: 2,
            amount: Some(Amount::from_units(15000)),
        }
    );
    let t = parse_record("deposit,1,3,.5\n").unwrap();
    assert_eq!(t.amount.unwrap(), Amount::from_units(5000));
    let t = parse_record("deposit,1,4,7\n").unwrap();
    assert_eq!(t.amount.unwrap(), Amount::from_units(70000));
}

#[test]
fn decode_empty_amount_field_is_absent() {
    let t = parse_record("dispute,1,1,\n").unwrap();
    assert_eq!(t.amount, None);
    // without the trailing newline the record still decodes
    let t = parse_record("resolve,1,1").unwrap();
    assert_eq!(t.t_type, Type::Resolve);
}

#[test]
fn decode_rejections() {
    assert_eq!(
        parse_record("justonefield\n").unwrap_err(),
        DecodeError::MalformedRecord
    );
    assert_eq!(
        parse_record("deposit,1,2,3,4\n").unwrap_err(),
        DecodeError::MalformedRecord
    );
    assert_eq!(
        parse_record("deposit,70000,1,1.0\n").unwrap_err(),
        DecodeError::InvalidClientId
    );
    assert_eq!(
        parse_record("deposit,abc,1,1.0\n").unwrap_err(),
        DecodeError::InvalidClientId
    );
    assert_eq!(
        parse_record("deposit,1,1,abc\n").unwrap_err(),
        DecodeError::InvalidAmount
    );
    assert_eq!(
        parse_record("deposit,1,1,-1.0\n").unwrap_err(),
        DecodeError::NegativeAmount
    );
}

#[test]
fn formatting_is_fixed_point() {
    assert_eq!(format_amount(Amount::from_units(0)), "0.0000");
    assert_eq!(format_amount(Amount::from_units(-5000)), "-0.5000");
    assert_eq!(format_amount(Amount::from_units(105556)), "10.5556");
    assert_eq!(format_amount(Amount::from_units(1)), "0.0001");
    assert_eq!(format_u64(0), "0");
    assert_eq!(format_u64(65535), "65535");
}
