use bcc::account::{Account, AccountInner, Active};
use bcc::common::Value;
use bcc::engine::{Engine, LocalState};
use bcc::report::{summary, Record};
use bcc::transaction::{TType, Transaction, TransactionCompatCsv};

fn amount(text: &str) -> Value {
    Value::parse(text.as_bytes()).unwrap()
}

fn text(value: Value) -> String {
    String::from_utf8(value.to_text()).unwrap()
}

fn line(record: &Record) -> String {
    format!(
        "{},{},{},{},{}",
        record.client,
        text(record.available),
        text(record.held),
        record.total.map_or("-".to_string(), text),
        record.locked
    )
}

#[test]
fn row_of_an_active_account() {
    let account = AccountInner::<Active>::default()
        .deposit(amount("10.0"))
        .unwrap()
        .freeze_funds(amount("2.50"))
        .unwrap();
    let record = Record::from((7, Account::from(account)));
    assert_eq!(line(&record), "7,7.50,2.50,10.00,false");
}

#[test]
fn row_of_a_frozen_account() {
    let account = AccountInner::<Active>::default().deposit(amount("3")).unwrap().freeze();
    let record = Record::from((9, Account::from(account)));
    assert_eq!(line(&record), "9,3,0,3,true");
}

#[test]
fn row_whose_total_cannot_be_written() {
    let max = amount("79228162514264337593543950335");
    let account = AccountInner::<Active>::default().deposit(max).unwrap();
    let account = AccountInner::<Active> { held: Value::one(), ..account };
    let record = Record::from((1, Account::Active(account)));
    assert_eq!(record.total, None);
    assert_eq!(line(&record), "1,79228162514264337593543950335,1,-,false");
}

#[test]
fn example() {
    // type, client, tx, amount
    let csv = [
        (TType::Deposit, 1u16, 1u32, "1.0"),
        (TType::Deposit, 2, 2, "2.0"),
        (TType::Deposit, 1, 3, "2.0"),
        (TType::Withdrawal, 1, 4, "1.5"),
        (TType::Withdrawal, 2, 5, "3.0"),
    ];
    let mut engine = Engine::new(2).unwrap();
    for (kind, client, tx, value) in csv {
        let decoded = TransactionCompatCsv { kind, client, tx, amount: Some(amount(value)) };
        engine.feed(Transaction::try_from(decoded).unwrap()).unwrap();
    }
    let state = engine.finish().unwrap();
    let mut found: Vec<String> = summary(state).iter().map(line).collect();
    found.sort();
    assert_eq!(found, vec!["1,1.5,0,1.5,false", "2,2.0,0,2.0,false"]);
}

#[test]
fn total_is_written_with_the_places_that_fit() {
    let mut state = LocalState::new();
    state.deposit(1, amount("1.0")).unwrap();
    state.freeze_funds(1, amount("1.0")).unwrap();
    state.deposit(1, amount("7922816251426433759354395033.0")).unwrap();
    let rows = summary(state);
    assert_eq!(rows.len(), 1);
    assert_eq!(
        line(&rows[0]),
        "1,7922816251426433759354395033.0,1.0,7922816251426433759354395034,false"
    );
}

#[test]
fn summary_of_no_account() {
    assert!(summary(LocalState::new()).is_empty());
}

#[test]
fn every_account_has_its_row() {
    let mut state = LocalState::new();
    state.deposit(1, amount("79228162514264337593543950335")).unwrap();
    state.deposit(2, amount("3.5")).unwrap();
    state.freeze_funds(1, amount("0.5")).unwrap_err();
    state.freeze_funds(2, amount("0.5")).unwrap();
    state.deposit(3, amount("1")).unwrap();
    state.freeze_account(3).unwrap();
    let mut found: Vec<String> = summary(state).iter().map(line).collect();
    found.sort();
    assert_eq!(
        found,
        vec!["1,79228162514264337593543950335,0,79228162514264337593543950335,false",
            "2,3.0,0.5,3.5,false",
            "3,1,0,1,true"]
    );
}
