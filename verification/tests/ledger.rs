use ymnab::balance::{account_balance, budget_total};
use ymnab::ledger::{Transaction, User};
use ymnab::store::{LedgerStore, OpenAccountError, StoreError};

fn tx(inflow: u64, outflow: u64) -> Transaction {
    Transaction {
        id: 1,
        account_id: 1,
        date: String::from("2024-01-01 00:00:00"),
        memo: String::new(),
        inflow,
        outflow,
        cleared: true,
    }
}

#[test]
fn test_account_balance_is_inflow_minus_outflow() {
    let txs = vec![tx(500, 200), tx(300, 100), tx(0, 250)];
    assert_eq!(account_balance(&txs), Some(250));
}

#[test]
fn test_account_balance_empty_is_zero() {
    let txs: Vec<Transaction> = vec![];
    assert_eq!(account_balance(&txs), Some(0));
}

#[test]
fn test_account_balance_can_be_negative() {
    let txs = vec![tx(100, 0), tx(0, 350)];
    assert_eq!(account_balance(&txs), Some(-250));
}

#[test]
fn test_budget_total_empty_is_zero() {
    let balances: Vec<i64> = vec![];
    assert_eq!(budget_total(&balances), Some(0));
}

#[test]
fn test_budget_total_sums_balances() {
    assert_eq!(budget_total(&vec![100, -50, 25]), Some(75));
    assert_eq!(budget_total(&vec![i64::MAX, 1, -1]), Some(i64::MAX));
    assert_eq!(budget_total(&vec![i64::MAX, 1]), None);
    assert_eq!(budget_total(&vec![i64::MIN, -1]), None);
}

#[test]
fn test_open_account_creates_account_and_opening_transaction() {
    let mut store = LedgerStore::new();
    let account_id = store
        .open_account(1, String::from("Main"), String::from("100.00"), String::from("2024-01-01"))
        .expect("open_account should succeed");

    let accounts = store.list_accounts(1);
    assert_eq!(accounts.len(), 1);
    assert_eq!(accounts[0].id, account_id);
    assert_eq!(accounts[0].name, "Main");

    let txs = store.list_transactions(account_id);
    assert_eq!(txs.len(), 1);
    assert_eq!(txs[0].inflow, 10000);
    assert_eq!(txs[0].outflow, 0);
    assert_eq!(txs[0].memo, "Starting balance");
    assert_eq!(txs[0].date, "2024-01-01");
    assert!(txs[0].cleared);
}

#[test]
fn test_open_account_rejects_bad_money_input() {
    let mut store = LedgerStore::new();
    let r = store.open_account(
        1,
        String::from("Main"),
        String::from("abcdefg"),
        String::from("2024-01-01"),
    );
    assert_eq!(r, Err(OpenAccountError::InvalidMoneyFormat));
    assert_eq!(store.list_accounts(1).len(), 0);
}

#[test]
fn test_insert_transaction_requires_existing_account() {
    let mut store = LedgerStore::new();
    let r = store.insert_transaction(
        7,
        String::from("2024-01-01"),
        String::from("memo"),
        100,
        0,
        false,
    );
    assert_eq!(r, Err(StoreError));
}

#[test]
fn test_list_accounts_filters_by_user() {
    let mut store = LedgerStore::new();
    store
        .open_account(1, String::from("Main"), String::from("1.00"), String::from("d"))
        .unwrap();
    store
        .open_account(2, String::from("Other"), String::from("2.00"), String::from("d"))
        .unwrap();
    store
        .open_account(1, String::from("Savings"), String::from("3.00"), String::from("d"))
        .unwrap();
    let mine = store.list_accounts(1);
    assert_eq!(mine.len(), 2);
    assert_eq!(mine[0].name, "Main");
    assert_eq!(mine[1].name, "Savings");
    assert_eq!(store.list_accounts(2).len(), 1);
    assert_eq!(store.list_accounts(3).len(), 0);
}

#[test]
fn test_create_user_enforces_unique_email() {
    let mut store = LedgerStore::new();
    let u1 = User::from_db(
        String::from("test"),
        String::from("test@example.com"),
        String::from(""),
        true,
    );
    let u2 = User::from_db(
        String::from("other"),
        String::from("test@example.com"),
        String::from(""),
        true,
    );
    assert!(store.create_user(u1).is_ok());
    assert!(store.create_user(u2).is_err());
}

#[test]
fn test_get_user_by_email() {
    let mut store = LedgerStore::new();
    let u = User::from_db(
        String::from("test"),
        String::from("test@example.com"),
        String::from(""),
        true,
    );
    store.create_user(u).unwrap();
    let found = store.get_user_by_email("test@example.com").expect("User is not found.");
    assert_eq!(found.name, "test");
    assert_eq!(found.id, Some(1));
    assert!(store.get_user_by_email("absent@example.com").is_none());
}

#[test]
fn test_signup_and_login_round_trip() {
    let mut store = LedgerStore::new();
    let user = User::from_form(
        String::from("Test"),
        String::from("test@example.com"),
        String::from("password"),
    )
    .expect("Could not hash password");
    assert!(user.active);
    assert_ne!(user.password, "password");
    assert_eq!(user.password.len(), 60);
    store.create_user(user).unwrap();

    let authed = store.auth_user("test@example.com", "password");
    assert!(authed.is_some());
    assert_eq!(authed.unwrap().name, "Test");

    assert!(store.auth_user("test@example.com", "password123").is_none());
    assert!(store.auth_user("test@notexample.com", "password").is_none());
    assert!(store.auth_user("not@notexample.com", "notpassword").is_none());
}
