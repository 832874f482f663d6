use bcc::account::{Account, AccountError};
use bcc::common::Value;
use bcc::engine::{Engine, EngineError, LocalState, StateError, Worker};
use bcc::store::StoreError;
use bcc::transaction::Transaction;

const CLIENT: u16 = 0;

fn amount(text: &str) -> Value {
    Value::parse(text.as_bytes()).unwrap()
}

fn deposit(client: u16, tx_id: u32, value: &str) -> Transaction {
    Transaction::Deposit { client, tx_id, value: amount(value) }
}

fn withdrawal(client: u16, tx_id: u32, value: &str) -> Transaction {
    Transaction::Withdrawal { client, tx_id, value: amount(value) }
}

fn dispute(client: u16, tx_id: u32) -> Transaction {
    Transaction::Dispute { client, tx_id }
}

fn resolve(client: u16, tx_id: u32) -> Transaction {
    Transaction::Resolve { client, tx_id }
}

fn chargeback(client: u16, tx_id: u32) -> Transaction {
    Transaction::Chargeback { client, tx_id }
}

fn run(n_workers: usize, stream: &[Transaction]) -> Vec<(u16, Account)> {
    let mut accounts = Engine::new(n_workers).unwrap().run(stream.to_vec()).unwrap().into_vec();
    accounts.sort_by_key(|(client, _)| *client);
    accounts
}

fn text(value: Value) -> String {
    String::from_utf8(value.to_text()).unwrap()
}

fn row(account: &Account) -> (String, String, bool) {
    (text(account.available()), text(account.held()), account.locked())
}

#[test]
fn test_deposit_withdraw() {
    let mut state = LocalState::default();
    state.deposit(CLIENT, Value::ten()).unwrap();
    assert_eq!(state.get(CLIENT).unwrap().available(), Value::ten());
    state.withdraw(CLIENT, Value::one()).unwrap();
    assert_eq!(state.get(CLIENT).unwrap().available(), Value::ten() - Value::one());
}

#[test]
fn test_freeze_release() {
    let mut state = LocalState::default();
    state.deposit(CLIENT, Value::ten()).unwrap();
    state.freeze_funds(CLIENT, Value::one()).unwrap();
    assert_eq!(state.get(CLIENT).unwrap().available(), Value::ten() - Value::one());
    assert_eq!(state.get(CLIENT).unwrap().held(), Value::one());
    state.release_funds(CLIENT, Value::one()).unwrap();
    assert_eq!(state.get(CLIENT).unwrap().available(), Value::ten());
    assert_eq!(state.get(CLIENT).unwrap().held(), Value::zero());
}

#[test]
fn test_freeze_chargeback() {
    let mut state = LocalState::default();
    state.deposit(CLIENT, Value::ten()).unwrap();
    state.freeze_funds(CLIENT, Value::one()).unwrap();
    assert_eq!(state.get(CLIENT).unwrap().available(), Value::ten() - Value::one());
    assert_eq!(state.get(CLIENT).unwrap().held(), Value::one());
    state.chargeback(CLIENT, Value::one()).unwrap();
    assert_eq!(state.get(CLIENT).unwrap().available(), Value::ten() - Value::one());
    assert_eq!(state.get(CLIENT).unwrap().held(), Value::zero());
}

#[test]
fn test_locked() {
    let mut state = LocalState::default();
    state.deposit(CLIENT, Value::one()).unwrap();
    state.freeze_account(CLIENT).unwrap();
    let account = state.get(CLIENT).unwrap();
    match account {
        Account::Active(_) => panic!("account should be frozen"),
        Account::Frozen(a) => {
            assert_eq!(a.available, Value::one());
            assert_eq!(a.held, Value::zero());
        }
    }
    assert!(state.deposit(CLIENT, Value::one()).is_err());
}

#[test]
fn local_state_reports_why_it_refuses() {
    let mut state = LocalState::new();
    assert_eq!(state.withdraw(CLIENT, Value::one()), Err(StateError::AccountNotFound));
    assert_eq!(state.freeze_funds(CLIENT, Value::one()), Err(StateError::AccountNotFound));
    assert_eq!(state.freeze_account(CLIENT), Err(StateError::AccountNotFound));
    assert!(state.get(CLIENT).is_none());
    state.deposit(CLIENT, Value::one()).unwrap();
    assert_eq!(
        state.withdraw(CLIENT, Value::ten()),
        Err(StateError::Account(AccountError::NotEnoughFunds))
    );
    assert_eq!(
        state.deposit(CLIENT, amount("-1")),
        Err(StateError::Account(AccountError::NegativeAmount))
    );
    assert_eq!(
        state.deposit(CLIENT, amount("79228162514264337593543950335")),
        Err(StateError::Account(AccountError::Overflow))
    );
    assert_eq!(row(&state.get(CLIENT).unwrap()), ("1".to_string(), "0".to_string(), false));
    state.freeze_account(CLIENT).unwrap();
    assert_eq!(state.withdraw(CLIENT, Value::one()), Err(StateError::AccountFrozen));
    assert_eq!(state.freeze_account(CLIENT), Err(StateError::AccountFrozen));
}

#[test]
fn merge_keeps_every_account() {
    let mut left = LocalState::new();
    left.deposit(1, amount("1.5")).unwrap();
    left.deposit(2, amount("2")).unwrap();
    let mut right = LocalState::new();
    right.deposit(3, amount("3")).unwrap();
    right.deposit(2, amount("20")).unwrap();
    let mut merged = left.merge(right).into_vec();
    merged.sort_by_key(|(client, _)| *client);
    let clients: Vec<u16> = merged.iter().map(|(client, _)| *client).collect();
    assert_eq!(clients, vec![1, 2, 3]);
    assert_eq!(text(merged[0].1.available()), "1.5");
    assert_eq!(text(merged[1].1.available()), "20");
    assert_eq!(text(merged[2].1.available()), "3");
}

#[test]
fn single_deposit_round_trip() {
    for n_workers in [1usize, 3, 8] {
        let accounts = run(n_workers, &[deposit(7, 1, "12.50")]);
        assert_eq!(accounts.len(), 1);
        assert_eq!(accounts[0].0, 7);
        assert_eq!(row(&accounts[0].1), ("12.50".to_string(), "0".to_string(), false));
    }
}

#[test]
fn single_withdrawal_opens_no_account() {
    assert!(run(1, &[withdrawal(7, 1, "1")]).is_empty());
    assert!(run(4, &[dispute(7, 1), resolve(7, 1), chargeback(7, 1)]).is_empty());
}

#[test]
fn deposits_and_withdrawals_of_two_clients() {
    let accounts = run(
        2,
        &[
            deposit(1, 1, "1.0"),
            deposit(2, 2, "2.0"),
            deposit(1, 3, "2.0"),
            withdrawal(1, 4, "1.5"),
            withdrawal(2, 5, "3.0"),
        ],
    );
    assert_eq!(accounts.len(), 2);
    assert_eq!(accounts[0].0, 1);
    assert_eq!(row(&accounts[0].1), ("1.5".to_string(), "0".to_string(), false));
    assert_eq!(accounts[1].0, 2);
    assert_eq!(row(&accounts[1].1), ("2.0".to_string(), "0".to_string(), false));
}

#[test]
fn dispute_then_resolve_gives_the_funds_back() {
    let stream =
        [deposit(1, 1, "10.0"), deposit(1, 2, "1.0"), dispute(1, 2), resolve(1, 2)];
    let accounts = run(3, &stream);
    assert_eq!(accounts.len(), 1);
    assert_eq!(row(&accounts[0].1), ("11.0".to_string(), "0.0".to_string(), false));
    assert_eq!(accounts[0].1.available(), amount("11"));
    assert_eq!(accounts[0].1.held(), Value::zero());
    let before = run(3, &stream[..2]);
    assert_eq!(before, accounts);
}

#[test]
fn dispute_then_chargeback_freezes_the_account() {
    let accounts = run(
        3,
        &[deposit(1, 1, "10.0"), deposit(1, 2, "1.0"), dispute(1, 2), chargeback(1, 2)],
    );
    assert_eq!(accounts.len(), 1);
    assert_eq!(row(&accounts[0].1), ("10.0".to_string(), "0.0".to_string(), true));
    assert_eq!(accounts[0].1.available(), amount("10"));
    assert_eq!(accounts[0].1.held(), Value::zero());
}

#[test]
fn dispute_of_spent_funds_leaves_a_debit() {
    let stream = [deposit(1, 1, "5.0"), withdrawal(1, 2, "3.0"), dispute(1, 1)];
    let accounts = run(1, &stream);
    assert_eq!(row(&accounts[0].1), ("-3.0".to_string(), "5.0".to_string(), false));
    let mut longer = stream.to_vec();
    longer.push(chargeback(1, 1));
    let accounts = run(1, &longer);
    assert_eq!(row(&accounts[0].1), ("-3.0".to_string(), "0.0".to_string(), true));
}

#[test]
fn chargeback_without_dispute_changes_nothing() {
    let accounts = run(2, &[deposit(1, 1, "1.0"), chargeback(1, 1)]);
    assert_eq!(accounts.len(), 1);
    assert_eq!(row(&accounts[0].1), ("1.0".to_string(), "0".to_string(), false));
    let accounts = run(2, &[deposit(1, 1, "1.0"), resolve(1, 1)]);
    assert_eq!(row(&accounts[0].1), ("1.0".to_string(), "0".to_string(), false));
}

#[test]
fn frozen_account_ignores_what_follows() {
    let stream = vec![deposit(1, 1, "10"), dispute(1, 1), chargeback(1, 1)];
    let frozen = run(4, &stream);
    assert_eq!(row(&frozen[0].1), ("0".to_string(), "0".to_string(), true));
    let mut longer = stream.clone();
    longer.extend([
        deposit(1, 2, "7"),
        withdrawal(1, 3, "1"),
        dispute(1, 2),
        resolve(1, 2),
        chargeback(1, 2),
        deposit(2, 4, "3"),
    ]);
    let after = run(4, &longer);
    assert_eq!(after.len(), 2);
    assert_eq!(after[0], frozen[0]);
    assert_eq!(row(&after[1].1), ("3".to_string(), "0".to_string(), false));
}

#[test]
fn withdrawal_cannot_be_disputed() {
    let accounts =
        run(1, &[deposit(1, 1, "5"), withdrawal(1, 2, "2"), dispute(1, 2), chargeback(1, 2)]);
    assert_eq!(row(&accounts[0].1), ("3".to_string(), "0".to_string(), false));
}

#[test]
fn second_dispute_is_refused() {
    let mut worker = Worker::new().unwrap();
    worker.process_tx(deposit(1, 1, "5")).unwrap();
    worker.process_tx(dispute(1, 1)).unwrap();
    assert!(matches!(
        worker.process_tx(dispute(1, 1)),
        Err(EngineError::Store(StoreError::NotAvailableForDispute))
    ));
    let state = worker.into_state();
    assert_eq!(row(&state.get(1).unwrap()), ("0".to_string(), "5".to_string(), false));

    let mut worker = Worker::new().unwrap();
    worker.process_tx(deposit(1, 1, "5")).unwrap();
    worker.process_tx(dispute(1, 1)).unwrap();
    worker.process_tx(resolve(1, 1)).unwrap();
    assert!(matches!(
        worker.process_tx(dispute(1, 1)),
        Err(EngineError::Store(StoreError::NotFound))
    ));
    let state = worker.into_state();
    assert_eq!(row(&state.get(1).unwrap()), ("5".to_string(), "0".to_string(), false));
}

#[test]
fn worker_reports_why_it_refuses() {
    let mut worker = Worker::new().unwrap();
    assert!(matches!(
        worker.process_tx(withdrawal(1, 1, "1")),
        Err(EngineError::State(StateError::AccountNotFound))
    ));
    assert!(matches!(
        worker.process_tx(dispute(1, 1)),
        Err(EngineError::Store(StoreError::NotFound))
    ));
    assert!(matches!(
        worker.process_tx(deposit(1, 1, "-1")),
        Err(EngineError::State(StateError::Account(AccountError::NegativeAmount)))
    ));
    worker.process_tx(deposit(1, 1, "4")).unwrap();
    assert!(matches!(
        worker.process_tx(resolve(1, 1)),
        Err(EngineError::Store(StoreError::NoDisputeActive))
    ));
    assert!(matches!(
        worker.process_tx(chargeback(1, 1)),
        Err(EngineError::Store(StoreError::NoDisputeActive))
    ));
    assert!(matches!(
        worker.process_tx(withdrawal(1, 2, "5")),
        Err(EngineError::State(StateError::Account(AccountError::NotEnoughFunds)))
    ));
    // The record of a deposit belongs to its client alone.
    assert!(matches!(
        worker.process_tx(dispute(2, 1)),
        Err(EngineError::Store(StoreError::NotFound))
    ));
    worker.process_tx(dispute(1, 1)).unwrap();
    worker.process_tx(chargeback(1, 1)).unwrap();
    assert!(matches!(
        worker.process_tx(deposit(1, 3, "1")),
        Err(EngineError::State(StateError::AccountFrozen))
    ));
    // A refused deposit leaves no record to dispute.
    assert!(matches!(
        worker.process_tx(dispute(1, 3)),
        Err(EngineError::Store(StoreError::NotFound))
    ));
    let state = worker.into_state();
    assert_eq!(row(&state.get(1).unwrap()), ("0".to_string(), "0".to_string(), true));
    assert!(state.get(2).is_none());
}

#[test]
fn worker_run_drops_what_is_refused() {
    let worker = Worker::new().unwrap();
    let state = worker
        .run(vec![
            withdrawal(1, 1, "1"),
            deposit(1, 2, "2.5"),
            withdrawal(1, 3, "3"),
            dispute(1, 9),
            withdrawal(1, 4, "0.5"),
        ])
        .unwrap();
    assert_eq!(row(&state.get(1).unwrap()), ("2.0".to_string(), "0".to_string(), false));
}

#[test]
fn feed_and_finish_do_what_run_does() {
    let stream = [
        deposit(1, 1, "1.0"),
        deposit(2, 2, "2.0"),
        deposit(1, 3, "2.0"),
        withdrawal(1, 4, "1.5"),
        dispute(2, 2),
    ];
    let mut engine = Engine::new(2).unwrap();
    for tx in stream {
        engine.feed(tx).unwrap();
    }
    let mut fed = engine.finish().unwrap().into_vec();
    fed.sort_by_key(|(client, _)| *client);
    assert_eq!(fed, run(2, &stream));
    assert_eq!(row(&fed[1].1), ("0.0".to_string(), "2.0".to_string(), false));
}

fn stream_of(seed: u64, len: usize) -> Vec<Transaction> {
    let mut state = seed;
    let mut next = move || {
        state = state.wrapping_mul(6364136223846793005).wrapping_add(1442695040888963407);
        (state >> 33) as u32
    };
    let mut deposits: Vec<(u16, u32)> = Vec::new();
    let mut txs = Vec::new();
    for i in 0..len {
        let client = (next() % 11) as u16;
        let tx_id = i as u32;
        // Mostly a deposit that was made, sometimes one that never was.
        let (owner, referred) = if !deposits.is_empty() && next() % 5 != 0 {
            deposits[next() as usize % deposits.len()]
        } else {
            (client, next() % (tx_id + 1))
        };
        let tx = match next() % 8 {
            0..=2 => {
                deposits.push((client, tx_id));
                Transaction::Deposit {
                    client,
                    tx_id,
                    value: Value::new((next() % 100_000) as i64, next() % 5),
                }
            }
            3..=4 => Transaction::Withdrawal {
                client,
                tx_id,
                value: Value::new((next() % 50_000) as i64, next() % 5),
            },
            5 => Transaction::Dispute { client: owner, tx_id: referred },
            6 => Transaction::Resolve { client: owner, tx_id: referred },
            _ => Transaction::Chargeback { client: owner, tx_id: referred },
        };
        txs.push(tx);
    }
    txs
}

#[test]
fn states_compare_as_maps() {
    let stream = stream_of(7, 200);
    let one = Engine::new(1).unwrap().run(stream.clone()).unwrap();
    let many = Engine::new(8).unwrap().run(stream.clone()).unwrap();
    assert_eq!(one, many);
    let mut longer = stream;
    longer.push(deposit(12, 1000, "1"));
    assert_ne!(one, Engine::new(8).unwrap().run(longer).unwrap());
}

#[test]
fn test_parallelism_is_correct() {
    let mut frozen = 0;
    let mut held = 0;
    for seed in 0..12u64 {
        let batch = stream_of(seed, 500);
        let one = run(1, &batch);
        assert_eq!(one, run(8, &batch));
        assert_eq!(one, run(3, &batch));
        assert!(!one.is_empty());
        frozen += one.iter().filter(|(_, account)| account.locked()).count();
        held += one.iter().filter(|(_, account)| account.held() > Value::zero()).count();
    }
    // The streams do reach the dispute lifecycle.
    assert!(frozen > 0);
    assert!(held > 0);
}

#[test]
fn held_is_never_negative() {
    for seed in 100..112u64 {
        for (_, account) in run(2, &stream_of(seed, 500)) {
            assert!(account.held() >= Value::zero());
        }
    }
}

#[test]
fn no_account_without_a_deposit() {
    for seed in 20..24u64 {
        let batch = stream_of(seed, 60);
        let accounts = run(4, &batch);
        for (client, _) in accounts {
            assert!(batch
                .iter()
                .any(|tx| matches!(tx, Transaction::Deposit { client: c, .. } if *c == client)));
        }
    }
}
