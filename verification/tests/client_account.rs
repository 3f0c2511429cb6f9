use payments::client::client_account::ClientAccount;
use payments::client::error::ClientAccountError;
use payments::types::Amount;

#[test]
fn client_account_client() {
    let client = ClientAccount::new();

    assert_eq!(client.available(), Amount::from_units(0));
    assert_eq!(client.held(), Amount::from_units(0));
    assert_eq!(client.total(), Amount::from_units(0));
    assert!(!client.locked());
}

#[test]
fn client_account_client_deposit() {
    let mut client = ClientAccount::new();

    assert!(client.deposit(Amount::from_units(15555)).is_ok());
    assert_eq!(client.available(), Amount::from_units(15555));
    assert_eq!(client.held(), Amount::from_units(0));
    assert_eq!(client.total(), Amount::from_units(15555));
    assert!(!client.locked());
}

#[test]
fn client_deposit_error() {
    let mut client = ClientAccount {
        available: Amount::from_units(0),
        held: Amount::from_units(0),
        total: Amount::from_units(0),
        locked: true,
    };

    assert_eq!(
        client.deposit(Amount::from_units(15555)).unwrap_err(),
        ClientAccountError::Locked
    );
    client.locked = false;
    assert_eq!(
        client.deposit(Amount::from_units(-10000)).unwrap_err(),
        ClientAccountError::NegativeAmount
    );
}

#[test]
fn client_account_client_withdrawal() {
    let mut client = ClientAccount::new();

    assert!(client.deposit(Amount::from_units(15555)).is_ok());

    assert!(client.withdrawal(Amount::from_units(5555)).is_ok());
    assert_eq!(client.available(), Amount::from_units(10000));
    assert_eq!(client.held(), Amount::from_units(0));
    assert_eq!(client.total(), Amount::from_units(10000));
    assert!(!client.locked());

    assert!(client.withdrawal(Amount::from_units(9999)).is_ok());
    assert_eq!(client.available(), Amount::from_units(1));
    assert_eq!(client.held(), Amount::from_units(0));
    assert_eq!(client.total(), Amount::from_units(1));
    assert!(!client.locked());

    assert!(client.withdrawal(Amount::from_units(2)).is_err()); //insufficient money error
    assert_eq!(client.available(), Amount::from_units(1));
    assert_eq!(client.held(), Amount::from_units(0));
    assert_eq!(client.total(), Amount::from_units(1));
    assert!(!client.locked());
}

#[test]
fn client_withdrawal_error() {
    let mut client = ClientAccount {
        available: Amount::from_units(10000),
        held: Amount::from_units(0),
        total: Amount::from_units(0),
        locked: true,
    };

    assert_eq!(
        client.withdrawal(Amount::from_units(15555)).unwrap_err(),
        ClientAccountError::Locked
    );
    client.locked = false;
    assert_eq!(
        client.withdrawal(Amount::from_units(-10000)).unwrap_err(),
        ClientAccountError::NegativeAmount
    );
    assert_eq!(
        client.withdrawal(Amount::from_units(i64::MAX)).unwrap_err(),
        ClientAccountError::InsufficientBalance
    );
}

#[test]
fn client_account_client_dispute() {
    let mut client = ClientAccount::new();

    assert!(client.deposit(Amount::from_units(15555)).is_ok());

    assert!(client.dispute(Amount::from_units(5555)).is_ok());
    assert_eq!(client.available(), Amount::from_units(10000));
    assert_eq!(client.held(), Amount::from_units(5555));
    assert_eq!(client.total(), Amount::from_units(15555));
    assert!(!client.locked());

    assert!(client.withdrawal(Amount::from_units(9999)).is_ok());
    assert_eq!(client.available(), Amount::from_units(1));
    assert_eq!(client.held(), Amount::from_units(5555));
    assert_eq!(client.total(), Amount::from_units(5556));
    assert!(!client.locked());
}

#[test]
fn client_dispute_error() {
    let mut client = ClientAccount {
        available: Amount::from_units(0),
        held: Amount::from_units(0),
        total: Amount::from_units(0),
        locked: true,
    };

    assert_eq!(
        client.dispute(Amount::from_units(15555)).unwrap_err(),
        ClientAccountError::Locked
    );
}

#[test]
fn client_account_client_resolve() {
    let mut client = ClientAccount::new();

    assert!(client.deposit(Amount::from_units(15555)).is_ok());

    assert!(client.dispute(Amount::from_units(5555)).is_ok());
    assert_eq!(client.available(), Amount::from_units(10000));
    assert_eq!(client.held(), Amount::from_units(5555));
    assert_eq!(client.total(), Amount::from_units(15555));
    assert!(!client.locked());

    assert!(client.withdrawal(Amount::from_units(9999)).is_ok());
    assert_eq!(client.available(), Amount::from_units(1));
    assert_eq!(client.held(), Amount::from_units(5555));
    assert_eq!(client.total(), Amount::from_units(5556));
    assert!(!client.locked());

    assert!(client.resolve(Amount::from_units(5555)).is_ok());
    assert_eq!(client.available(), Amount::from_units(5556));
    assert_eq!(client.held(), Amount::from_units(0));
    assert_eq!(client.total(), Amount::from_units(5556));
    assert!(!client.locked());
}

#[test]
fn client_resolve_error() {
    let mut client = ClientAccount {
        available: Amount::from_units(0),
        held: Amount::from_units(0),
        total: Amount::from_units(0),
        locked: true,
    };

    assert_eq!(
        client.resolve(Amount::from_units(15555)).unwrap_err(),
        ClientAccountError::Locked
    );
}

#[test]
fn client_account_client_chargeback() {
    let mut client = ClientAccount::new();

    assert!(client.deposit(Amount::from_units(15555)).is_ok());

    assert!(client.dispute(Amount::from_units(5555)).is_ok());
    assert_eq!(client.available(), Amount::from_units(10000));
    assert_eq!(client.held(), Amount::from_units(5555));
    assert_eq!(client.total(), Amount::from_units(15555));
    assert!(!client.locked());

    assert!(client.withdrawal(Amount::from_units(9999)).is_ok());
    assert_eq!(client.available(), Amount::from_units(1));
    assert_eq!(client.held(), Amount::from_units(5555));
    assert_eq!(client.total(), Amount::from_units(5556));
    assert!(!client.locked());

    assert!(client.chargeback(Amount::from_units(5555)).is_ok());
    assert_eq!(client.available(), Amount::from_units(1));
    assert_eq!(client.held(), Amount::from_units(0));
    assert_eq!(client.total(), Amount::from_units(1));
    assert!(client.locked());
}
