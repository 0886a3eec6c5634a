use ledger::account::Account;
use ledger::amount::Amount;
use ledger::engine::{chargeback, deposit, dispute, resolve, withdrawal, Outcome};
use ledger::transaction::{Transaction, TxType};
use std::collections::HashMap;

fn amount(value: f64) -> Amount {
    Amount::from_decimal(&format!("{}", value)).unwrap()
}

fn record(tx_type: TxType, client: u16, id: u32, amount: Option<Amount>) -> Transaction {
    Transaction { tx_type, client, id, amount }
}

fn account(client: u16, available: u64, held: u64, total: u64, locked: bool) -> Account {
    Account {
        client,
        available: Amount(available),
        held: Amount(held),
        total: Amount(total),
        locked,
    }
}

#[test]
fn deposit_success() {
    let mut accounts: HashMap<u16, Account> = HashMap::new();
    let transaction = Transaction {
        tx_type: TxType::Deposit,
        client: 1,
        id: 1,
        amount: Some(amount(12345.67891)),
    };

    deposit(&mut accounts, &transaction);

    assert_eq!(
        accounts,
        HashMap::from([(
            1,
            Account {
                client: 1,
                available: Amount(123456789),
                held: Amount(0),
                total: Amount(123456789),
                locked: false,
            }
        )])
    );
}

#[test]
fn withdrawal_success() {
    let mut accounts: HashMap<u16, Account> = HashMap::new();
    let deposit_transaction = Transaction {
        tx_type: TxType::Deposit,
        client: 1,
        id: 1,
        amount: Some(amount(12345.67891)),
    };
    let withdrawal_transaction = Transaction {
        tx_type: TxType::Withdrawal,
        client: 1,
        id: 2,
        amount: Some(amount(2345.97891)),
    };

    deposit(&mut accounts, &deposit_transaction);
    withdrawal(&mut accounts, &withdrawal_transaction);

    assert_eq!(
        accounts,
        HashMap::from([(
            1,
            Account {
                client: 1,
                available: Amount(99997000),
                held: Amount(0),
                total: Amount(99997000),
                locked: false,
            }
        )])
    );
}

#[test]
fn withdrawal_failure() {
    let mut accounts: HashMap<u16, Account> = HashMap::new();
    let deposit_transaction = Transaction {
        tx_type: TxType::Deposit,
        client: 1,
        id: 1,
        amount: Some(amount(12345.67891)),
    };
    let withdrawal_transaction = Transaction {
        tx_type: TxType::Withdrawal,
        client: 1,
        id: 2,
        amount: Some(amount(12345.67901)),
    };

    deposit(&mut accounts, &deposit_transaction);
    withdrawal(&mut accounts, &withdrawal_transaction);

    assert_eq!(
        accounts,
        HashMap::from([(
            1,
            Account {
                client: 1,
                available: Amount(123456789),
                held: Amount(0),
                total: Amount(123456789),
                locked: false,
            }
        )])
    );
}

#[test]
fn new_account_is_empty_and_unlocked() {
    assert_eq!(Account::new(7), account(7, 0, 0, 0, false));
    assert_eq!(Account::new(u16::MAX), account(u16::MAX, 0, 0, 0, false));
}

#[test]
fn deposit_reports_that_it_applied() {
    let mut accounts = HashMap::new();
    let outcome = deposit(&mut accounts, &record(TxType::Deposit, 3, 1, Some(Amount(15_000))));
    assert_eq!(outcome, Outcome::Applied);
    assert_eq!(accounts, HashMap::from([(3, account(3, 15_000, 0, 15_000, false))]));
}

#[test]
fn deposits_add_up_and_leave_other_clients_alone() {
    let mut accounts = HashMap::new();
    deposit(&mut accounts, &record(TxType::Deposit, 1, 1, Some(Amount(10_000))));
    deposit(&mut accounts, &record(TxType::Deposit, 2, 2, Some(Amount(20_000))));
    deposit(&mut accounts, &record(TxType::Deposit, 1, 3, Some(Amount(5))));
    assert_eq!(
        accounts,
        HashMap::from([
            (1, account(1, 10_005, 0, 10_005, false)),
            (2, account(2, 20_000, 0, 20_000, false)),
        ])
    );
}

#[test]
fn deposit_adds_to_total_beside_held_funds() {
    let mut accounts = HashMap::from([(1, account(1, 10, 30, 40, false))]);
    deposit(&mut accounts, &record(TxType::Deposit, 1, 9, Some(Amount(5))));
    assert_eq!(accounts, HashMap::from([(1, account(1, 15, 30, 45, false))]));
}

#[test]
fn deposit_without_amount_opens_the_account() {
    let mut accounts = HashMap::new();
    let outcome = deposit(&mut accounts, &record(TxType::Deposit, 4, 1, None));
    assert_eq!(outcome, Outcome::Applied);
    assert_eq!(accounts, HashMap::from([(4, account(4, 0, 0, 0, false))]));
}

#[test]
fn deposit_beyond_the_largest_amount_is_turned_down() {
    let mut accounts = HashMap::new();
    deposit(&mut accounts, &record(TxType::Deposit, 1, 1, Some(Amount(u64::MAX - 1))));
    let before = accounts.clone();
    let outcome = deposit(&mut accounts, &record(TxType::Deposit, 1, 2, Some(Amount(2))));
    assert_eq!(outcome, Outcome::BalanceOverflow);
    assert_eq!(accounts, before);
    let outcome = deposit(&mut accounts, &record(TxType::Deposit, 1, 3, Some(Amount(1))));
    assert_eq!(outcome, Outcome::Applied);
    assert_eq!(
        accounts,
        HashMap::from([(1, account(1, u64::MAX, 0, u64::MAX, false))])
    );
}

#[test]
fn deposit_counts_held_funds_against_the_largest_amount() {
    let mut accounts = HashMap::from([(1, account(1, 0, u64::MAX, u64::MAX, false))]);
    let before = accounts.clone();
    let outcome = deposit(&mut accounts, &record(TxType::Deposit, 1, 2, Some(Amount(1))));
    assert_eq!(outcome, Outcome::BalanceOverflow);
    assert_eq!(accounts, before);
}

#[test]
fn deposit_to_a_locked_account_is_turned_down() {
    let mut accounts = HashMap::from([(1, account(1, 10, 0, 10, true))]);
    let outcome = deposit(&mut accounts, &record(TxType::Deposit, 1, 2, Some(Amount(5))));
    assert_eq!(outcome, Outcome::AccountLocked);
    assert_eq!(accounts, HashMap::from([(1, account(1, 10, 0, 10, true))]));
}

#[test]
fn withdrawal_of_all_available_funds_applies() {
    let mut accounts = HashMap::from([(1, account(1, 10, 30, 40, false))]);
    let outcome = withdrawal(&mut accounts, &record(TxType::Withdrawal, 1, 2, Some(Amount(10))));
    assert_eq!(outcome, Outcome::Applied);
    assert_eq!(accounts, HashMap::from([(1, account(1, 0, 30, 30, false))]));
}

#[test]
fn withdrawal_cannot_touch_held_funds() {
    let mut accounts = HashMap::from([(1, account(1, 10, 30, 40, false))]);
    let outcome = withdrawal(&mut accounts, &record(TxType::Withdrawal, 1, 2, Some(Amount(11))));
    assert_eq!(outcome, Outcome::InsufficientFunds);
    assert_eq!(accounts, HashMap::from([(1, account(1, 10, 30, 40, false))]));
}

#[test]
fn withdrawal_opens_the_account_even_when_it_fails() {
    let mut accounts = HashMap::new();
    let outcome = withdrawal(&mut accounts, &record(TxType::Withdrawal, 5, 1, Some(Amount(1))));
    assert_eq!(outcome, Outcome::InsufficientFunds);
    assert_eq!(accounts, HashMap::from([(5, account(5, 0, 0, 0, false))]));
}

#[test]
fn withdrawal_of_nothing_from_a_new_account_applies() {
    let mut accounts = HashMap::new();
    let outcome = withdrawal(&mut accounts, &record(TxType::Withdrawal, 5, 1, None));
    assert_eq!(outcome, Outcome::Applied);
    assert_eq!(accounts, HashMap::from([(5, account(5, 0, 0, 0, false))]));
}

#[test]
fn withdrawal_from_a_locked_account_is_turned_down() {
    let mut accounts = HashMap::from([(1, account(1, 10, 0, 10, true))]);
    let outcome = withdrawal(&mut accounts, &record(TxType::Withdrawal, 1, 2, Some(Amount(5))));
    assert_eq!(outcome, Outcome::AccountLocked);
    assert_eq!(accounts, HashMap::from([(1, account(1, 10, 0, 10, true))]));
}

#[test]
fn dispute_holds_the_whole_deposit_when_it_is_available() {
    let paid = record(TxType::Deposit, 1, 1, Some(Amount(123456789)));
    let history = HashMap::from([(1, paid)]);
    let mut accounts = HashMap::from([(1, account(1, 123466789, 0, 123466789, false))]);
    let mut disputes = HashMap::new();
    let outcome =
        dispute(&mut accounts, &record(TxType::Dispute, 1, 1, None), &mut disputes, &history);
    assert_eq!(outcome, Outcome::Applied);
    assert_eq!(accounts, HashMap::from([(1, account(1, 10000, 123456789, 123466789, false))]));
    assert_eq!(disputes, HashMap::from([(1, paid)]));
}

#[test]
fn dispute_holds_only_what_is_still_available() {
    let paid = record(TxType::Deposit, 1, 1, Some(Amount(123456789)));
    let history = HashMap::from([(1, paid)]);
    let mut accounts = HashMap::from([(1, account(1, 99997000, 0, 99997000, false))]);
    let mut disputes = HashMap::new();
    let outcome =
        dispute(&mut accounts, &record(TxType::Dispute, 1, 1, None), &mut disputes, &history);
    assert_eq!(outcome, Outcome::Applied);
    assert_eq!(accounts, HashMap::from([(1, account(1, 0, 99997000, 99997000, false))]));
    assert_eq!(disputes, HashMap::from([(1, paid)]));
}

#[test]
fn dispute_opens_the_account_of_a_client_without_one() {
    let paid = record(TxType::Deposit, 1, 1, Some(Amount(500)));
    let history = HashMap::from([(1, paid)]);
    let mut accounts = HashMap::new();
    let mut disputes = HashMap::new();
    let outcome =
        dispute(&mut accounts, &record(TxType::Dispute, 1, 1, None), &mut disputes, &history);
    assert_eq!(outcome, Outcome::Applied);
    assert_eq!(accounts, HashMap::from([(1, account(1, 0, 0, 0, false))]));
    assert_eq!(disputes, HashMap::from([(1, paid)]));
}

#[test]
fn dispute_of_an_unknown_transaction_changes_nothing() {
    let history = HashMap::from([(1, record(TxType::Deposit, 1, 1, Some(Amount(500))))]);
    let mut accounts = HashMap::from([(1, account(1, 500, 0, 500, false))]);
    let mut disputes = HashMap::new();
    let outcome =
        dispute(&mut accounts, &record(TxType::Dispute, 1, 2, None), &mut disputes, &history);
    assert_eq!(outcome, Outcome::UnknownTransaction);
    assert_eq!(accounts, HashMap::from([(1, account(1, 500, 0, 500, false))]));
    assert!(disputes.is_empty());
}

#[test]
fn dispute_by_another_client_changes_nothing() {
    let history = HashMap::from([(1, record(TxType::Deposit, 1, 1, Some(Amount(500))))]);
    let mut accounts = HashMap::from([(1, account(1, 500, 0, 500, false))]);
    let mut disputes = HashMap::new();
    let outcome =
        dispute(&mut accounts, &record(TxType::Dispute, 2, 1, None), &mut disputes, &history);
    assert_eq!(outcome, Outcome::UnauthorizedDispute);
    assert_eq!(accounts, HashMap::from([(1, account(1, 500, 0, 500, false))]));
    assert!(disputes.is_empty());
}

#[test]
fn dispute_of_a_withdrawal_changes_nothing() {
    let history = HashMap::from([(2, record(TxType::Withdrawal, 1, 2, Some(Amount(100))))]);
    let mut accounts = HashMap::from([(1, account(1, 400, 0, 400, false))]);
    let mut disputes = HashMap::new();
    let outcome =
        dispute(&mut accounts, &record(TxType::Dispute, 1, 2, None), &mut disputes, &history);
    assert_eq!(outcome, Outcome::NonDisputableType);
    assert_eq!(accounts, HashMap::from([(1, account(1, 400, 0, 400, false))]));
    assert!(disputes.is_empty());
}

#[test]
fn dispute_of_a_disputed_deposit_changes_nothing() {
    let paid = record(TxType::Deposit, 1, 1, Some(Amount(300)));
    let history = HashMap::from([(1, paid)]);
    let mut accounts = HashMap::from([(1, account(1, 200, 300, 500, false))]);
    let mut disputes = HashMap::from([(1, paid)]);
    let outcome =
        dispute(&mut accounts, &record(TxType::Dispute, 1, 1, None), &mut disputes, &history);
    assert_eq!(outcome, Outcome::AlreadyDisputed);
    assert_eq!(accounts, HashMap::from([(1, account(1, 200, 300, 500, false))]));
    assert_eq!(disputes, HashMap::from([(1, paid)]));
}

#[test]
fn dispute_on_a_locked_account_changes_nothing() {
    let paid = record(TxType::Deposit, 1, 1, Some(Amount(300)));
    let history = HashMap::from([(1, paid)]);
    let mut accounts = HashMap::from([(1, account(1, 500, 0, 500, true))]);
    let mut disputes = HashMap::new();
    let outcome =
        dispute(&mut accounts, &record(TxType::Dispute, 1, 1, None), &mut disputes, &history);
    assert_eq!(outcome, Outcome::AccountLocked);
    assert_eq!(accounts, HashMap::from([(1, account(1, 500, 0, 500, true))]));
    assert!(disputes.is_empty());
}

#[test]
fn dispute_checks_the_owner_before_the_kind() {
    let history = HashMap::from([(2, record(TxType::Withdrawal, 1, 2, Some(Amount(100))))]);
    let mut accounts = HashMap::new();
    let mut disputes = HashMap::new();
    let outcome =
        dispute(&mut accounts, &record(TxType::Dispute, 9, 2, None), &mut disputes, &history);
    assert_eq!(outcome, Outcome::UnauthorizedDispute);
    assert!(accounts.is_empty());
}

#[test]
fn resolve_frees_the_held_funds() {
    let paid = record(TxType::Deposit, 1, 1, Some(Amount(123456789)));
    let mut accounts = HashMap::from([(1, account(1, 0, 123456789, 123456789, false))]);
    let mut disputes = HashMap::from([(1, paid)]);
    let outcome = resolve(&mut accounts, &record(TxType::Resolve, 1, 1, None), &mut disputes);
    assert_eq!(outcome, Outcome::Applied);
    assert_eq!(accounts, HashMap::from([(1, account(1, 123456789, 0, 123456789, false))]));
    assert!(disputes.is_empty());
}

#[test]
fn resolve_keeps_what_other_disputes_of_the_client_hold() {
    let first = record(TxType::Deposit, 1, 1, Some(Amount(100)));
    let second = record(TxType::Deposit, 1, 2, Some(Amount(250)));
    let third = record(TxType::Deposit, 1, 3, Some(Amount(50)));
    let other = record(TxType::Deposit, 2, 4, Some(Amount(7000)));
    let mut accounts = HashMap::from([
        (1, account(1, 600, 400, 1000, false)),
        (2, account(2, 0, 7000, 7000, false)),
    ]);
    let mut disputes = HashMap::from([(1, first), (2, second), (3, third), (4, other)]);
    let outcome = resolve(&mut accounts, &record(TxType::Resolve, 1, 1, None), &mut disputes);
    assert_eq!(outcome, Outcome::Applied);
    assert_eq!(
        accounts,
        HashMap::from([
            (1, account(1, 700, 300, 1000, false)),
            (2, account(2, 0, 7000, 7000, false)),
        ])
    );
    assert_eq!(disputes, HashMap::from([(2, second), (3, third), (4, other)]));
}

#[test]
fn resolve_holds_no_more_than_the_total() {
    let first = record(TxType::Deposit, 1, 1, Some(Amount(100)));
    let second = record(TxType::Deposit, 1, 2, Some(Amount(u64::MAX)));
    let third = record(TxType::Deposit, 1, 3, Some(Amount(u64::MAX)));
    let mut accounts = HashMap::from([(1, account(1, 0, 1000, 1000, false))]);
    let mut disputes = HashMap::from([(1, first), (2, second), (3, third)]);
    let outcome = resolve(&mut accounts, &record(TxType::Resolve, 1, 1, None), &mut disputes);
    assert_eq!(outcome, Outcome::Applied);
    assert_eq!(accounts, HashMap::from([(1, account(1, 0, 1000, 1000, false))]));
    assert_eq!(disputes, HashMap::from([(2, second), (3, third)]));
}

#[test]
fn resolve_without_an_open_dispute_changes_nothing() {
    let paid = record(TxType::Deposit, 1, 1, Some(Amount(100)));
    let mut accounts = HashMap::from([(1, account(1, 600, 100, 700, false))]);
    let mut disputes = HashMap::from([(1, paid)]);
    let outcome = resolve(&mut accounts, &record(TxType::Resolve, 1, 2, None), &mut disputes);
    assert_eq!(outcome, Outcome::NotDisputed);
    assert_eq!(accounts, HashMap::from([(1, account(1, 600, 100, 700, false))]));
    assert_eq!(disputes, HashMap::from([(1, paid)]));
}

#[test]
fn resolve_for_an_unknown_client_opens_no_account() {
    let mut accounts: HashMap<u16, Account> = HashMap::new();
    let mut disputes = HashMap::new();
    let outcome = resolve(&mut accounts, &record(TxType::Resolve, 8, 1, None), &mut disputes);
    assert_eq!(outcome, Outcome::NotDisputed);
    assert!(accounts.is_empty());
    assert!(disputes.is_empty());
}

#[test]
fn resolve_on_a_locked_account_changes_nothing() {
    let paid = record(TxType::Deposit, 1, 1, Some(Amount(100)));
    let mut accounts = HashMap::from([(1, account(1, 0, 100, 100, true))]);
    let mut disputes = HashMap::from([(1, paid)]);
    let outcome = resolve(&mut accounts, &record(TxType::Resolve, 1, 1, None), &mut disputes);
    assert_eq!(outcome, Outcome::AccountLocked);
    assert_eq!(accounts, HashMap::from([(1, account(1, 0, 100, 100, true))]));
    assert_eq!(disputes, HashMap::from([(1, paid)]));
}

#[test]
fn chargeback_takes_the_held_funds_and_locks() {
    let paid = record(TxType::Deposit, 1, 2, Some(Amount(123456789)));
    let mut accounts = HashMap::from([(1, account(1, 10000, 123456789, 123466789, false))]);
    let mut disputes = HashMap::from([(2, paid)]);
    let outcome =
        chargeback(&mut accounts, &record(TxType::Chargeback, 1, 2, None), &mut disputes);
    assert_eq!(outcome, Outcome::Applied);
    assert_eq!(accounts, HashMap::from([(1, account(1, 10000, 0, 10000, true))]));
    assert!(disputes.is_empty());
}

#[test]
fn chargeback_of_more_than_is_held_leaves_nothing_held() {
    let paid = record(TxType::Deposit, 1, 1, Some(Amount(123456789)));
    let mut accounts = HashMap::from([(1, account(1, 0, 123446789, 123446789, false))]);
    let mut disputes = HashMap::from([(1, paid)]);
    let outcome =
        chargeback(&mut accounts, &record(TxType::Chargeback, 1, 1, None), &mut disputes);
    assert_eq!(outcome, Outcome::Applied);
    assert_eq!(accounts, HashMap::from([(1, account(1, 0, 0, 0, true))]));
    assert!(disputes.is_empty());
}

#[test]
fn chargeback_leaves_other_held_funds_held() {
    let first = record(TxType::Deposit, 1, 1, Some(Amount(100)));
    let second = record(TxType::Deposit, 1, 2, Some(Amount(250)));
    let mut accounts = HashMap::from([(1, account(1, 650, 350, 1000, false))]);
    let mut disputes = HashMap::from([(1, first), (2, second)]);
    let outcome =
        chargeback(&mut accounts, &record(TxType::Chargeback, 1, 2, None), &mut disputes);
    assert_eq!(outcome, Outcome::Applied);
    assert_eq!(accounts, HashMap::from([(1, account(1, 650, 100, 750, true))]));
    assert_eq!(disputes, HashMap::from([(1, first)]));
}

#[test]
fn chargeback_without_an_open_dispute_changes_nothing() {
    let paid = record(TxType::Deposit, 1, 1, Some(Amount(100)));
    let mut accounts = HashMap::from([(1, account(1, 600, 100, 700, false))]);
    let mut disputes = HashMap::from([(1, paid)]);
    let outcome =
        chargeback(&mut accounts, &record(TxType::Chargeback, 1, 2, None), &mut disputes);
    assert_eq!(outcome, Outcome::NotDisputed);
    assert_eq!(accounts, HashMap::from([(1, account(1, 600, 100, 700, false))]));
    assert_eq!(disputes, HashMap::from([(1, paid)]));
}

#[test]
fn chargeback_on_a_locked_account_changes_nothing() {
    let paid = record(TxType::Deposit, 1, 1, Some(Amount(100)));
    let mut accounts = HashMap::from([(1, account(1, 0, 100, 100, true))]);
    let mut disputes = HashMap::from([(1, paid)]);
    let outcome =
        chargeback(&mut accounts, &record(TxType::Chargeback, 1, 1, None), &mut disputes);
    assert_eq!(outcome, Outcome::AccountLocked);
    assert_eq!(accounts, HashMap::from([(1, account(1, 0, 100, 100, true))]));
    assert_eq!(disputes, HashMap::from([(1, paid)]));
}

#[test]
fn record_without_amount_moves_nothing() {
    assert_eq!(record(TxType::Dispute, 1, 1, None).amount_or_zero(), Amount(0));
    assert_eq!(record(TxType::Deposit, 1, 1, Some(Amount(42))).amount_or_zero(), Amount(42));
}

#[test]
fn account_balances_when_total_is_available_and_held() {
    assert!(account(1, 0, 0, 0, false).balances());
    assert!(account(1, 10, 30, 40, true).balances());
    assert!(account(1, u64::MAX, 0, u64::MAX, false).balances());
    assert!(account(1, 1, u64::MAX - 1, u64::MAX, false).balances());
    assert!(!account(1, 10, 30, 41, false).balances());
    assert!(!account(1, 10, 30, 39, false).balances());
    assert!(!account(1, 10, 0, 0, false).balances());
    assert!(!account(1, u64::MAX, u64::MAX, u64::MAX, false).balances());
    assert!(!account(1, u64::MAX, 1, 0, false).balances());
}
