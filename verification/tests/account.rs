use bcc::account::{AccountError, AccountInner, Active};
use bcc::common::Value;

#[test]
fn test_withdraw_no_balance() {
    let account = AccountInner::<Active>::default();
    assert!(account.withdraw(Value::one()).is_err());
}

#[test]
fn test_release_no_funds() {
    let account = AccountInner::<Active>::default();
    assert!(account.release_funds(Value::one()).is_err());
}

#[test]
fn test_chargeback_no_funds() {
    let account = AccountInner::<Active>::default();
    assert!(account.chargeback(Value::one()).is_err());
}

#[test]
fn withdraw_without_funds_is_not_enough_funds() {
    let account = AccountInner::<Active>::default();
    assert_eq!(account.withdraw(Value::one()).unwrap_err(), AccountError::NotEnoughFunds);
}

fn amount(text: &str) -> Value {
    Value::parse(text.as_bytes()).unwrap()
}

fn balances(account: &AccountInner<Active>) -> (String, String) {
    (
        String::from_utf8(account.available.to_text()).unwrap(),
        String::from_utf8(account.held.to_text()).unwrap(),
    )
}

#[test]
fn default_account_is_empty_and_active() {
    let account = bcc::account::Account::default();
    assert!(!account.locked());
    assert_eq!(account.available(), Value::zero());
    assert_eq!(account.held(), Value::zero());
}

#[test]
fn operations_change_the_balances() {
    let account = AccountInner::<Active>::default();
    let account = account.deposit(amount("10.00")).unwrap();
    assert_eq!(balances(&account), ("10.00".to_string(), "0".to_string()));
    let account = account.withdraw(amount("2.5")).unwrap();
    assert_eq!(balances(&account), ("7.50".to_string(), "0".to_string()));
    let account = account.freeze_funds(amount("9")).unwrap();
    assert_eq!(balances(&account), ("-1.50".to_string(), "9".to_string()));
    let account = account.release_funds(amount("4")).unwrap();
    assert_eq!(balances(&account), ("2.50".to_string(), "5".to_string()));
    let account = account.chargeback(amount("5")).unwrap();
    assert_eq!(balances(&account), ("2.50".to_string(), "0".to_string()));
    let frozen = account.freeze();
    assert_eq!((frozen.available, frozen.held), (account.available, account.held));
}

#[test]
fn operations_leave_the_account_they_are_called_on() {
    let account = AccountInner::<Active>::default().deposit(amount("1")).unwrap();
    let _ = account.withdraw(amount("1")).unwrap();
    let _ = account.freeze_funds(amount("1")).unwrap();
    assert_eq!(balances(&account), ("1".to_string(), "0".to_string()));
}

#[test]
fn withdrawing_all_is_allowed() {
    let account = AccountInner::<Active>::default().deposit(amount("1.5")).unwrap();
    assert_eq!(account.withdraw(amount("1.50")).unwrap().available, Value::zero());
    assert_eq!(account.withdraw(amount("1.51")).unwrap_err(), AccountError::NotEnoughFunds);
}

#[test]
fn each_error_has_its_input() {
    let account = AccountInner::<Active>::default().deposit(amount("5")).unwrap();
    let negative = amount("-0.01");
    assert_eq!(account.deposit(negative).unwrap_err(), AccountError::NegativeAmount);
    assert_eq!(account.withdraw(amount("5.01")).unwrap_err(), AccountError::NotEnoughFunds);
    assert_eq!(account.release_funds(amount("1")).unwrap_err(), AccountError::NotEnoughFunds);
    assert_eq!(account.chargeback(amount("1")).unwrap_err(), AccountError::NotEnoughFunds);
    let max = amount("79228162514264337593543950335");
    assert_eq!(account.deposit(max).unwrap_err(), AccountError::Overflow);
    let full = AccountInner::<Active>::default().deposit(max).unwrap();
    assert_eq!(full.withdraw(amount("0.1")).unwrap_err(), AccountError::Overflow);
    assert_eq!(full.freeze_funds(amount("0.1")).unwrap_err(), AccountError::Overflow);
    let held = full.freeze_funds(max).unwrap();
    assert_eq!(held.release_funds(amount("0.1")).unwrap_err(), AccountError::Overflow);
    assert_eq!(held.chargeback(amount("0.1")).unwrap_err(), AccountError::Overflow);
    assert_eq!(held.freeze_funds(Value::one()).unwrap_err(), AccountError::Overflow);
}

#[test]
fn only_a_deposit_asks_for_an_amount_that_is_not_negative() {
    let account = AccountInner::<Active>::default().deposit(amount("5")).unwrap();
    let negative = amount("-1");
    assert_eq!(account.deposit(negative).unwrap_err(), AccountError::NegativeAmount);
    let withdrawn = account.withdraw(negative).unwrap();
    assert_eq!(balances(&withdrawn), ("6".to_string(), "0".to_string()));
    let held = account.freeze_funds(negative).unwrap();
    assert_eq!(balances(&held), ("6".to_string(), "-1".to_string()));
    let released = account.release_funds(negative).unwrap();
    assert_eq!(balances(&released), ("4".to_string(), "1".to_string()));
    let charged = account.chargeback(negative).unwrap();
    assert_eq!(balances(&charged), ("5".to_string(), "1".to_string()));
}

#[test]
fn holding_funds_is_never_refused_for_want_of_funds() {
    let account = AccountInner::<Active>::default();
    let held = account.freeze_funds(amount("7.5")).unwrap();
    assert_eq!(balances(&held), ("-7.5".to_string(), "7.5".to_string()));
    let back = held.release_funds(amount("7.5")).unwrap();
    assert_eq!(back.available, account.available);
    assert_eq!(back.held, account.held);
}

#[test]
fn release_and_chargeback_go_through_when_held_covers_the_amount() {
    let account = AccountInner::<Active>::default()
        .deposit(amount("10"))
        .unwrap()
        .freeze_funds(amount("4"))
        .unwrap();
    let released = account.release_funds(amount("4")).unwrap();
    assert_eq!(balances(&released), ("10".to_string(), "0".to_string()));
    let charged = account.chargeback(amount("4")).unwrap();
    assert_eq!(balances(&charged), ("6".to_string(), "0".to_string()));
    assert_eq!(account.release_funds(amount("4.01")).unwrap_err(), AccountError::NotEnoughFunds);
    assert_eq!(account.chargeback(amount("4.01")).unwrap_err(), AccountError::NotEnoughFunds);
}

#[test]
fn release_gives_back_what_was_held_at_the_edge_of_what_fits() {
    let account = AccountInner::<Active>::default()
        .deposit(amount("7922816251426433759354395034"))
        .unwrap();
    let held = account.freeze_funds(amount("1.0")).unwrap();
    assert_eq!(balances(&held), ("7922816251426433759354395033.0".to_string(), "1.0".to_string()));
    let back = held.release_funds(amount("1.0")).unwrap();
    assert_eq!(back.available, account.available);
    assert_eq!(back.held, account.held);
    assert_eq!(balances(&back), ("7922816251426433759354395034".to_string(), "0.0".to_string()));
    let charged = held.chargeback(amount("1.0")).unwrap();
    assert_eq!(
        balances(&charged),
        ("7922816251426433759354395033.0".to_string(), "0.0".to_string())
    );
}

#[test]
fn operations_go_through_wherever_the_new_balance_can_be_written() {
    let large = amount("7922816251426433759354395035");
    let account = AccountInner::<Active>::default().deposit(large).unwrap();
    let one = amount("1.0");
    let deposited = account.deposit(one).unwrap();
    assert_eq!(balances(&deposited).0, "7922816251426433759354395036");
    let withdrawn = account.withdraw(one).unwrap();
    assert_eq!(balances(&withdrawn).0, "7922816251426433759354395034");
    let held = account.freeze_funds(one).unwrap();
    assert_eq!(
        balances(&held),
        ("7922816251426433759354395034".to_string(), "1.0".to_string())
    );
    let with_held = AccountInner::<Active> { held: one, ..account };
    let released = with_held.release_funds(one).unwrap();
    assert_eq!(
        balances(&released),
        ("7922816251426433759354395036".to_string(), "0.0".to_string())
    );
    let all_held = AccountInner::<Active> { held: large, ..AccountInner::<Active>::default() };
    let charged = all_held.chargeback(one).unwrap();
    assert_eq!(balances(&charged), ("0".to_string(), "7922816251426433759354395034".to_string()));
}
