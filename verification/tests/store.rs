use bcc::common::Value;
use bcc::store::{StoreError, TransactionStore, Tx};

fn amount(text: &str) -> Value {
    Value::parse(text.as_bytes()).unwrap()
}

fn same(a: Tx, b: Tx) -> bool {
    match (a, b) {
        (Tx::Undisputed(x), Tx::Undisputed(y)) | (Tx::Disputed(x), Tx::Disputed(y)) => {
            x.mantissa() == y.mantissa() && x.scale() == y.scale()
        }
        _ => false,
    }
}

#[test]
fn new_store_is_empty() {
    let store = TransactionStore::new().unwrap();
    assert!(matches!(store.get(0, 0), Err(StoreError::NotFound)));
    assert!(matches!(store.get(65535, 4294967295), Err(StoreError::NotFound)));
}

#[test]
fn insert_then_get() {
    let mut store = TransactionStore::new().unwrap();
    store.insert(1, 2, Tx::Undisputed(amount("1.50"))).unwrap();
    assert!(same(store.get(1, 2).unwrap(), Tx::Undisputed(amount("1.50"))));
    assert!(matches!(store.get(2, 1), Err(StoreError::NotFound)));
    assert!(matches!(store.get(1, 3), Err(StoreError::NotFound)));
    store.insert(1, 2, Tx::Disputed(amount("-7"))).unwrap();
    assert!(same(store.get(1, 2).unwrap(), Tx::Disputed(amount("-7"))));
}

#[test]
fn keys_tell_clients_and_transactions_apart() {
    let mut store = TransactionStore::new().unwrap();
    // Pairs whose bytes would collide if the key were not six bytes wide.
    let keys = [
        (0u16, 1u32),
        (1, 0),
        (0, 256),
        (256, 0),
        (1, 1 << 16),
        (0, 1 << 24),
        (65535, 4294967295),
    ];
    for (i, (client, tx_id)) in keys.iter().enumerate() {
        store.insert(*client, *tx_id, Tx::Undisputed(Value::new(i as i64, 0))).unwrap();
    }
    for (i, (client, tx_id)) in keys.iter().enumerate() {
        assert!(same(store.get(*client, *tx_id).unwrap(), Tx::Undisputed(Value::new(i as i64, 0))));
    }
}

#[test]
fn remove_forgets_one_record() {
    let mut store = TransactionStore::new().unwrap();
    store.insert(1, 1, Tx::Undisputed(amount("1"))).unwrap();
    store.insert(1, 2, Tx::Undisputed(amount("2"))).unwrap();
    store.remove(1, 1).unwrap();
    assert!(matches!(store.get(1, 1), Err(StoreError::NotFound)));
    assert!(same(store.get(1, 2).unwrap(), Tx::Undisputed(amount("2"))));
    assert!(matches!(store.remove(1, 1), Err(StoreError::NotFound)));
    assert!(matches!(store.remove(7, 7), Err(StoreError::NotFound)));
}

#[test]
fn fetch_dispute_marks_the_record() {
    let mut store = TransactionStore::new().unwrap();
    assert!(matches!(store.fetch_dispute(1, 1), Err(StoreError::NotFound)));
    store.insert(1, 1, Tx::Undisputed(amount("2.5"))).unwrap();
    let value = store.fetch_dispute(1, 1).unwrap();
    assert_eq!((value.mantissa(), value.scale()), (25, 1));
    assert!(same(store.get(1, 1).unwrap(), Tx::Disputed(amount("2.5"))));
    assert!(matches!(store.fetch_dispute(1, 1), Err(StoreError::NotAvailableForDispute)));
    assert!(same(store.get(1, 1).unwrap(), Tx::Disputed(amount("2.5"))));
}

#[test]
fn fetch_resolve_forgets_a_disputed_record() {
    let mut store = TransactionStore::new().unwrap();
    assert!(matches!(store.fetch_resolve(1, 1), Err(StoreError::NotFound)));
    store.insert(1, 1, Tx::Undisputed(amount("2.5"))).unwrap();
    assert!(matches!(store.fetch_resolve(1, 1), Err(StoreError::NoDisputeActive)));
    assert!(same(store.get(1, 1).unwrap(), Tx::Undisputed(amount("2.5"))));
    store.fetch_dispute(1, 1).unwrap();
    let value = store.fetch_resolve(1, 1).unwrap();
    assert_eq!((value.mantissa(), value.scale()), (25, 1));
    assert!(matches!(store.get(1, 1), Err(StoreError::NotFound)));
    assert!(matches!(store.fetch_resolve(1, 1), Err(StoreError::NotFound)));
}

#[test]
fn stores_do_not_share_records() {
    let mut first = TransactionStore::new().unwrap();
    let second = TransactionStore::new().unwrap();
    first.insert(1, 1, Tx::Undisputed(amount("1"))).unwrap();
    assert!(matches!(second.get(1, 1), Err(StoreError::NotFound)));
}

#[test]
fn record_bytes_round_trip() {
    for record in [Tx::Undisputed(amount("1.5")), Tx::Disputed(amount("-0.001"))] {
        let bytes = record.to_bytes();
        assert_eq!(bytes.len(), 17);
        assert!(same(Tx::from_bytes(&bytes).unwrap(), record));
    }
    assert_eq!(Tx::Undisputed(amount("1")).to_bytes()[16], 0);
    assert_eq!(Tx::Disputed(amount("1")).to_bytes()[16], 1);
    let mut bytes = Tx::Disputed(amount("1")).to_bytes();
    bytes[16] = 2;
    assert!(Tx::from_bytes(&bytes).is_none());
    assert!(Tx::from_bytes(&bytes[..16]).is_none());
    assert!(Tx::from_bytes(&[]).is_none());
    assert_eq!(Tx::Disputed(amount("4.2")).value(), amount("4.2"));
}
