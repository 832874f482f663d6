use bcc::common::Value;
use bcc::transaction::{InvalidData, TType, Transaction, TransactionCompatCsv};

fn amount(text: &str) -> Value {
    Value::parse(text.as_bytes()).unwrap()
}

fn decoded(kind: TType, amount: Option<Value>) -> TransactionCompatCsv {
    TransactionCompatCsv { kind, client: 3, tx: 9, amount }
}

#[test]
fn accessors() {
    let deposit = Transaction::Deposit { client: 3, tx_id: 9, value: amount("1.5") };
    assert_eq!(deposit.client(), 3);
    assert_eq!(deposit.tx_id(), 9);
    assert_eq!(deposit.value(), Some(amount("1.5")));
    let withdrawal = Transaction::Withdrawal { client: 4, tx_id: 8, value: amount("2") };
    assert_eq!(withdrawal.client(), 4);
    assert_eq!(withdrawal.value(), Some(amount("2")));
    for tx in [
        Transaction::Dispute { client: 5, tx_id: 7 },
        Transaction::Resolve { client: 5, tx_id: 7 },
        Transaction::Chargeback { client: 5, tx_id: 7 },
    ] {
        assert_eq!(tx.client(), 5);
        assert_eq!(tx.tx_id(), 7);
        assert_eq!(tx.value(), None);
    }
}

#[test]
fn rows_with_an_amount() {
    assert_eq!(
        Transaction::try_from(decoded(TType::Deposit, Some(amount("1.5")))),
        Ok(Transaction::Deposit { client: 3, tx_id: 9, value: amount("1.5") })
    );
    assert_eq!(
        Transaction::try_from(decoded(TType::Withdrawal, Some(amount("0")))),
        Ok(Transaction::Withdrawal { client: 3, tx_id: 9, value: amount("0") })
    );
}

#[test]
fn rows_without_an_amount() {
    assert_eq!(
        Transaction::try_from(decoded(TType::Dispute, None)),
        Ok(Transaction::Dispute { client: 3, tx_id: 9 })
    );
    assert_eq!(
        Transaction::try_from(decoded(TType::Resolve, None)),
        Ok(Transaction::Resolve { client: 3, tx_id: 9 })
    );
    assert_eq!(
        Transaction::try_from(decoded(TType::Chargeback, None)),
        Ok(Transaction::Chargeback { client: 3, tx_id: 9 })
    );
}

#[test]
fn rows_that_are_no_transaction() {
    for kind in [TType::Deposit, TType::Withdrawal] {
        assert_eq!(Transaction::try_from(decoded(kind, None)), Err(InvalidData::MissingAmount));
        assert_eq!(
            Transaction::try_from(decoded(kind, Some(amount("-0.01")))),
            Err(InvalidData::NegativeAmount)
        );
    }
    for kind in [TType::Dispute, TType::Resolve, TType::Chargeback] {
        assert_eq!(
            Transaction::try_from(decoded(kind, Some(amount("1")))),
            Err(InvalidData::UnexpectedAmount)
        );
    }
}
