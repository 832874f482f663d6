//! The dispute store: what is remembered of every deposit that can still be
//! disputed, resolved or charged back.
//!
//! The records live in a temporary embedded database, so that their number
//! is not bounded by memory. Nothing is kept between runs.

use crate::common::{Client, TxId, Value};
use crate::db::{db_clear, db_entries, db_get, db_insert, db_open, db_remove};
use vstd::prelude::*;
use vstd::slice::slice_subrange;

verus! {

/// What the store remembers of a deposit: its amount, and whether it is
/// under dispute. A deposit that was resolved or charged back is forgotten.
#[derive(Clone, Copy, Debug, PartialEq)]
pub enum Tx {
    /// A deposit of this amount that is not under dispute.
    Undisputed(Value),
    /// A deposit of this amount that is under dispute.
    Disputed(Value),
}

impl Tx {
    /// The amount of the deposit.
    pub open spec fn spec_value(self) -> Value {
        match self {
            Tx::Undisputed(value) => value,
            Tx::Disputed(value) => value,
        }
    }

    /// The 17 bytes that stand for the record: the amount, then one byte
    /// that is 1 under dispute and 0 otherwise.
    pub open spec fn spec_bytes(self) -> Seq<u8> {
        match self {
            Tx::Undisputed(value) => value.spec_le_bytes().push(0u8),
            Tx::Disputed(value) => value.spec_le_bytes().push(1u8),
        }
    }

    /// The record that the bytes stand for, if they stand for any.
    pub open spec fn spec_from_bytes(bytes: Seq<u8>) -> Option<Tx> {
        if bytes.len() == 17 {
            match Value::spec_from_le_bytes(bytes.subrange(0, 16)) {
                Some(value) => if bytes[16] == 0 {
                    Some(Tx::Undisputed(value))
                } else if bytes[16] == 1 {
                    Some(Tx::Disputed(value))
                } else {
                    None
                },
                None => None,
            }
        } else {
            None
        }
    }

    /// Reading the bytes of a record gives the record back.
    pub proof fn lemma_bytes_round_trip(self)
        requires
            self.spec_value().wf(),
        ensures
            Tx::spec_from_bytes(self.spec_bytes()) == Some(self),
    {
        let value = self.spec_value();
        value.lemma_bytes_round_trip();
        assert(self.spec_bytes().subrange(0, 16) =~= value.spec_le_bytes());
    }

    /// The amount of the deposit.
    pub fn value(&self) -> (r: Value)
        ensures
            r == self.spec_value(),
    {
        match self {
            Tx::Undisputed(value) => *value,
            Tx::Disputed(value) => *value,
        }
    }

    /// The 17 bytes that stand for the record.
    pub fn to_bytes(&self) -> (r: Vec<u8>)
        ensures
            r@ == self.spec_bytes(),
    {
        match self {
            Tx::Undisputed(value) => {
                let mut bytes = value.to_le_bytes();
                bytes.push(0u8);
                bytes
            },
            Tx::Disputed(value) => {
                let mut bytes = value.to_le_bytes();
                bytes.push(1u8);
                bytes
            },
        }
    }

    /// The record that the bytes stand for, or `None` where they stand for
    /// none.
    pub fn from_bytes(bytes: &[u8]) -> (r: Option<Tx>)
        ensures
            r == Tx::spec_from_bytes(bytes@),
    {
        if bytes.len() != 17 {
            return None;
        }
        match Value::from_le_bytes(slice_subrange(bytes, 0, 16)) {
            Some(value) => {
                if bytes[16] == 0 {
                    Some(Tx::Undisputed(value))
                } else if bytes[16] == 1 {
                    Some(Tx::Disputed(value))
                } else {
                    None
                }
            },
            None => None,
        }
    }
}

/// The key of a deposit's record: the client, then the transaction, each
/// most significant byte first, so that a client's records lie together.
#[verifier::opaque]
pub open spec fn key_bytes(client: Client, tx_id: TxId) -> Seq<u8> {
    seq![
        (client / 256) as u8,
        (client % 256) as u8,
        (tx_id / 16777216) as u8,
        ((tx_id / 65536) % 256) as u8,
        ((tx_id / 256) % 256) as u8,
        (tx_id % 256) as u8,
    ]
}

/// Two deposits have two keys.
pub proof fn lemma_key_bytes_differ(c1: Client, t1: TxId, c2: Client, t2: TxId)
    requires
        key_bytes(c1, t1) == key_bytes(c2, t2),
    ensures
        c1 == c2,
        t1 == t2,
{
    reveal(key_bytes);
    let a = key_bytes(c1, t1);
    let b = key_bytes(c2, t2);
    assert(a[0] == b[0] && a[1] == b[1] && a[2] == b[2] && a[3] == b[3] && a[4] == b[4] && a[5]
        == b[5]);
}

/// The key of a deposit's record.
fn encode_key(client: Client, tx_id: TxId) -> (r: Vec<u8>)
    ensures
        r@ == key_bytes(client, tx_id),
{
    let mut key: Vec<u8> = Vec::new();
    key.push((client / 256) as u8);
    key.push((client % 256) as u8);
    key.push((tx_id / 16777216) as u8);
    key.push(((tx_id / 65536) % 256) as u8);
    key.push(((tx_id / 256) % 256) as u8);
    key.push((tx_id % 256) as u8);
    proof {
        reveal(key_bytes);
    }
    assert(key@ =~= key_bytes(client, tx_id));
    key
}

/// Why the store did not do what it was asked.
#[derive(Debug)]
pub enum StoreError {
    /// No record of the deposit.
    NotFound,
    /// The deposit is already under dispute.
    NotAvailableForDispute,
    /// The deposit is not under dispute.
    NoDisputeActive,
    /// The database failed.
    Db(sled::Error),
}

impl StoreError {
    /// Whether the database failed, rather than the request being refused.
    pub open spec fn is_failure(self) -> bool {
        self is Db
    }
}

/// Records by client and transaction.
pub type Records = Map<(Client, TxId), Tx>;

/// The records of the deposits that can still be disputed, resolved or
/// charged back, by client and transaction.
pub struct TransactionStore {
    db: sled::Db,
}

/// The records that a database's entries stand for. An entry that is not
/// the bytes of a record stands for none.
pub open spec fn records_of(entries: Map<Seq<u8>, Seq<u8>>) -> Records {
    Map::new(
        |k: (Client, TxId)|
            entries.contains_key(key_bytes(k.0, k.1)) && Tx::spec_from_bytes(
                entries[key_bytes(k.0, k.1)],
            ) is Some,
        |k: (Client, TxId)| Tx::spec_from_bytes(entries[key_bytes(k.0, k.1)]).unwrap(),
    )
}

/// Writing a record under a deposit's key changes that deposit's record and
/// no other.
pub proof fn lemma_written(entries: Map<Seq<u8>, Seq<u8>>, client: Client, tx_id: TxId, tx: Tx)
    requires
        tx.spec_value().wf(),
    ensures
        records_of(entries.insert(key_bytes(client, tx_id), tx.spec_bytes())) == records_of(
            entries,
        ).insert((client, tx_id), tx),
{
    let after = records_of(entries.insert(key_bytes(client, tx_id), tx.spec_bytes()));
    let expected = records_of(entries).insert((client, tx_id), tx);
    tx.lemma_bytes_round_trip();
    assert forall|k: (Client, TxId)| #[trigger]
        after.dom().contains(k) == expected.dom().contains(k) by {
        if k != (client, tx_id) && key_bytes(k.0, k.1) == key_bytes(client, tx_id) {
            lemma_key_bytes_differ(k.0, k.1, client, tx_id);
        }
    }
    assert forall|k: (Client, TxId)| after.dom().contains(k) implies #[trigger] after[k]
        == expected[k] by {
        if k != (client, tx_id) && key_bytes(k.0, k.1) == key_bytes(client, tx_id) {
            lemma_key_bytes_differ(k.0, k.1, client, tx_id);
        }
    }
    assert(after =~= expected);
}

/// Removing a deposit's key removes that deposit's record and no other.
pub proof fn lemma_removed(entries: Map<Seq<u8>, Seq<u8>>, client: Client, tx_id: TxId)
    ensures
        records_of(entries.remove(key_bytes(client, tx_id))) == records_of(entries).remove(
            (client, tx_id),
        ),
{
    let after = records_of(entries.remove(key_bytes(client, tx_id)));
    let expected = records_of(entries).remove((client, tx_id));
    assert forall|k: (Client, TxId)| #[trigger]
        after.dom().contains(k) == expected.dom().contains(k) by {
        if k != (client, tx_id) && key_bytes(k.0, k.1) == key_bytes(client, tx_id) {
            lemma_key_bytes_differ(k.0, k.1, client, tx_id);
        }
    }
    assert forall|k: (Client, TxId)| after.dom().contains(k) implies #[trigger] after[k]
        == expected[k] by {
        if k != (client, tx_id) && key_bytes(k.0, k.1) == key_bytes(client, tx_id) {
            lemma_key_bytes_differ(k.0, k.1, client, tx_id);
        }
    }
    assert(after =~= expected);
}

/// The record of a deposit among the records, or that there is none.
pub open spec fn found(records: Records, client: Client, tx_id: TxId) -> Result<Tx, StoreError> {
    if records.contains_key((client, tx_id)) {
        Ok(records[(client, tx_id)])
    } else {
        Err(StoreError::NotFound)
    }
}

/// What putting a deposit under dispute hands back and makes of the
/// records: the amount of the deposit, and its record marked. A deposit
/// that is already under dispute is not available for another.
pub open spec fn disputed(records: Records, client: Client, tx_id: TxId) -> Result<
    (Value, Records),
    StoreError,
> {
    match found(records, client, tx_id) {
        Ok(Tx::Undisputed(value)) => Ok(
            (value, records.insert((client, tx_id), Tx::Disputed(value))),
        ),
        Ok(Tx::Disputed(_)) => Err(StoreError::NotAvailableForDispute),
        Err(e) => Err(e),
    }
}

/// What closing the dispute of a deposit hands back and makes of the
/// records: the amount of the deposit, and its record gone. A deposit that
/// is not under dispute has none to close.
pub open spec fn closed(records: Records, client: Client, tx_id: TxId) -> Result<
    (Value, Records),
    StoreError,
> {
    match found(records, client, tx_id) {
        Ok(Tx::Disputed(value)) => Ok((value, records.remove((client, tx_id)))),
        Ok(Tx::Undisputed(_)) => Err(StoreError::NoDisputeActive),
        Err(e) => Err(e),
    }
}

/// Whether a write ended as it should. Done: the records are `target`.
/// Failed: the database failed, and the records are what they were or
/// already `target`.
pub open spec fn wrote(
    r: Result<(), StoreError>,
    before: Records,
    after: Records,
    target: Records,
) -> bool {
    match r {
        Ok(()) => after == target,
        Err(e) => e.is_failure() && (after == before || after == target),
    }
}

/// Whether a fetch ended as the model says. Done: it handed back the
/// model's amount and left the model's records. Refused: with the model's
/// error, and the records are what they were. The database failed: the
/// records are what they were or already the model's.
pub open spec fn fetched(
    r: Result<Value, StoreError>,
    before: Records,
    after: Records,
    model: Result<(Value, Records), StoreError>,
) -> bool {
    match r {
        Ok(value) => model == Ok::<(Value, Records), StoreError>((value, after)),
        Err(e) => if e.is_failure() {
            after == before || (model is Ok && after == model.unwrap().1)
        } else {
            model == Err::<(Value, Records), StoreError>(e) && after == before
        },
    }
}

impl View for TransactionStore {
    type V = Records;

    closed spec fn view(&self) -> Records {
        records_of(db_entries(self.db))
    }
}

impl TransactionStore {
    /// An empty store.
    pub fn new() -> (r: Result<Self, StoreError>)
        ensures
            match r {
                Ok(store) => store@ == Map::<(Client, TxId), Tx>::empty(),
                Err(e) => e.is_failure(),
            },
    {
        let mut db = match db_open() {
            Ok(db) => db,
            Err(e) => {
                return Err(StoreError::Db(e));
            },
        };
        match db_clear(&mut db) {
            Ok(()) => {
                let store = TransactionStore { db };
                assert(store@ =~= Map::<(Client, TxId), Tx>::empty());
                Ok(store)
            },
            Err(e) => Err(StoreError::Db(e)),
        }
    }

    /// Write the record of a deposit, over what the store held of it.
    pub fn insert(&mut self, client: Client, tx_id: TxId, tx: Tx) -> (r: Result<(), StoreError>)
        ensures
            wrote(r, old(self)@, final(self)@, old(self)@.insert((client, tx_id), tx)),
    {
        let value = tx.value();
        proof {
            use_type_invariant(&value);
            lemma_written(db_entries(self.db), client, tx_id, tx);
        }
        let key = encode_key(client, tx_id);
        let bytes = tx.to_bytes();
        match db_insert(&mut self.db, &key, bytes) {
            Ok(()) => Ok(()),
            Err(e) => Err(StoreError::Db(e)),
        }
    }

    /// The record of a deposit.
    pub fn get(&self, client: Client, tx_id: TxId) -> (r: Result<Tx, StoreError>)
        ensures
            match r {
                Ok(tx) => found(self@, client, tx_id) == Ok::<Tx, StoreError>(tx),
                Err(e) => e.is_failure() || found(self@, client, tx_id) == Err::<Tx, StoreError>(e),
            },
    {
        let key = encode_key(client, tx_id);
        match db_get(&self.db, &key) {
            Ok(Some(bytes)) => match Tx::from_bytes(bytes.as_slice()) {
                Some(tx) => Ok(tx),
                None => Err(StoreError::NotFound),
            },
            Ok(None) => Err(StoreError::NotFound),
            Err(e) => Err(StoreError::Db(e)),
        }
    }

    /// Take a deposit's entry out of the database, whether it is there or
    /// not.
    fn erase(&mut self, client: Client, tx_id: TxId) -> (r: Result<(), StoreError>)
        ensures
            wrote(r, old(self)@, final(self)@, old(self)@.remove((client, tx_id))),
    {
        proof {
            lemma_removed(db_entries(self.db), client, tx_id);
        }
        let key = encode_key(client, tx_id);
        match db_remove(&mut self.db, &key) {
            Ok(()) => Ok(()),
            Err(e) => Err(StoreError::Db(e)),
        }
    }

    /// Forget the record of a deposit.
    pub fn remove(&mut self, client: Client, tx_id: TxId) -> (r: Result<(), StoreError>)
        ensures
            match found(old(self)@, client, tx_id) {
                Ok(_) => wrote(
                    r,
                    old(self)@,
                    final(self)@,
                    old(self)@.remove((client, tx_id)),
                ),
                Err(e) => r is Err && final(self)@ == old(self)@ && (r.unwrap_err().is_failure()
                    || r == Err::<(), StoreError>(e)),
            },
    {
        match self.get(client, tx_id) {
            Ok(_) => self.erase(client, tx_id),
            Err(e) => Err(e),
        }
    }

    /// Replace the record of a deposit by what `f` makes of it, or forget
    /// it where `f` gives `None`, and hand back the record as it was.
    fn update_tx<F>(&mut self, client: Client, tx_id: TxId, f: F) -> (r: Result<
        Tx,
        StoreError,
    >) where F: FnOnce(Tx) -> Option<Tx>
        requires
            forall|tx: Tx| #[trigger] f.requires((tx,)),
        ensures
            match r {
                Ok(was) => found(old(self)@, client, tx_id) == Ok::<Tx, StoreError>(was)
                    && exists|next: Option<Tx>| #[trigger]
                    f.ensures((was,), next) && final(self)@ == updated(
                        old(self)@,
                        client,
                        tx_id,
                        next,
                    ),
                Err(e) => if e.is_failure() {
                    final(self)@ == old(self)@ || (found(old(self)@, client, tx_id) is Ok
                        && exists|next: Option<Tx>| #[trigger]
                        f.ensures((old(self)@[(client, tx_id)],), next) && final(self)@
                            == updated(old(self)@, client, tx_id, next))
                } else {
                    found(old(self)@, client, tx_id) == Err::<Tx, StoreError>(e) && final(self)@
                        == old(self)@
                },
            },
    {
        let tx = match self.get(client, tx_id) {
            Ok(tx) => tx,
            Err(e) => {
                return Err(e);
            },
        };
        let written = match f(tx) {
            Some(next) => self.insert(client, tx_id, next),
            None => self.erase(client, tx_id),
        };
        match written {
            Ok(()) => Ok(tx),
            Err(e) => Err(e),
        }
    }

    /// Put a deposit under dispute and hand back its amount. A deposit
    /// that is already under dispute stays as it is.
    pub fn fetch_dispute(&mut self, client: Client, tx_id: TxId) -> (r: Result<Value, StoreError>)
        ensures
            fetched(r, old(self)@, final(self)@, disputed(old(self)@, client, tx_id)),
    {
        let mark = |tx: Tx| -> (next: Option<Tx>)
            ensures
                next == Some(Tx::Disputed(tx.spec_value())),
            {
                match tx {
                    Tx::Undisputed(value) => Some(Tx::Disputed(value)),
                    other => Some(other),
                }
            };
        let found = self.update_tx(client, tx_id, mark);
        proof {
            let before = old(self)@;
            if before.contains_key((client, tx_id)) && before[(client, tx_id)] is Disputed {
                assert(before.insert((client, tx_id), before[(client, tx_id)]) =~= before);
            }
        }
        match found {
            Ok(Tx::Undisputed(value)) => Ok(value),
            Ok(Tx::Disputed(_)) => Err(StoreError::NotAvailableForDispute),
            Err(e) => Err(e),
        }
    }

    /// Close the dispute of a deposit: forget its record and hand back its
    /// amount. A deposit that is not under dispute stays as it is.
    pub fn fetch_resolve(&mut self, client: Client, tx_id: TxId) -> (r: Result<Value, StoreError>)
        ensures
            fetched(r, old(self)@, final(self)@, closed(old(self)@, client, tx_id)),
    {
        let close = |tx: Tx| -> (next: Option<Tx>)
            ensures
                next == match tx {
                    Tx::Disputed(_) => None::<Tx>,
                    Tx::Undisputed(_) => Some(tx),
                },
            {
                match tx {
                    Tx::Disputed(_) => None,
                    other => Some(other),
                }
            };
        let found = self.update_tx(client, tx_id, close);
        proof {
            let before = old(self)@;
            if before.contains_key((client, tx_id)) && before[(client, tx_id)] is Undisputed {
                assert(before.insert((client, tx_id), before[(client, tx_id)]) =~= before);
            }
        }
        match found {
            Ok(Tx::Disputed(value)) => Ok(value),
            Ok(Tx::Undisputed(_)) => Err(StoreError::NoDisputeActive),
            Err(e) => Err(e),
        }
    }
}

/// The records once a deposit's record has been replaced by `next`, or
/// forgotten where `next` is `None`.
pub open spec fn updated(
    records: Records,
    client: Client,
    tx_id: TxId,
    next: Option<Tx>,
) -> Records {
    match next {
        Some(tx) => records.insert((client, tx_id), tx),
        None => records.remove((client, tx_id)),
    }
}

} // verus!
