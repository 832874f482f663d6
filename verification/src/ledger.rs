//! What a shard holds and what a transaction makes of it, as contracts and
//! laws speak of them.

use crate::account::AccountView;
use crate::common::{Client, TxId};
use crate::engine::{planned, EngineError, Operation};
use crate::store::{closed, disputed, Tx};
use crate::transaction::Transaction;
use vstd::prelude::*;

verus! {

/// Whether every account has balances that a program can hold, and holds
/// nothing negative.
pub open spec fn sound(accounts: Map<Client, AccountView>) -> bool {
    forall|client: Client| #[trigger]
        accounts.contains_key(client) ==> accounts[client].balances.wf()
}

/// Whether every shard is a ledger of amounts that a program can hold, with
/// nothing negative held.
pub open spec fn all_wf(shards: Seq<Ledger>) -> bool {
    forall|i: int| 0 <= i < shards.len() ==> (#[trigger] shards[i]).wf()
}

/// What a shard holds: the accounts of its clients, and the records of
/// their deposits that can still be disputed, resolved or charged back.
pub struct Ledger {
    pub accounts: Map<Client, AccountView>,
    pub records: Map<(Client, TxId), Tx>,
}

impl Ledger {
    /// A shard that has seen no transaction.
    pub open spec fn empty() -> Ledger {
        Ledger { accounts: Map::empty(), records: Map::empty() }
    }

    /// Every amount in the ledger is one that a program can hold, no
    /// account holds less than nothing, and no record is of a deposit of
    /// less than nothing.
    pub open spec fn wf(self) -> bool {
        &&& sound(self.accounts)
        &&& forall|k: (Client, TxId)| #[trigger]
            self.records.contains_key(k) ==> self.records[k].spec_value().wf()
                && self.records[k].spec_value()@ >= 0
    }

    /// The ledger with the client's account replaced.
    pub open spec fn with_account(self, client: Client, account: AccountView) -> Ledger {
        Ledger { accounts: self.accounts.insert(client, account), records: self.records }
    }

    /// The account that an operation makes of a client's account.
    pub open spec fn planned(self, client: Client, op: Operation) -> Result<
        AccountView,
        EngineError,
    > {
        match planned(self.accounts, client, op) {
            Ok(account) => Ok(account),
            Err(e) => Err(EngineError::State(e)),
        }
    }

    /// What a transaction makes of the ledger, or why it is refused. The
    /// record of the deposit is looked at first, then the account.
    pub open spec fn verdict(self, tx: Transaction) -> Result<Ledger, EngineError> {
        match tx {
            Transaction::Deposit { client, tx_id, value } => match self.planned(
                client,
                Operation::Deposit(value),
            ) {
                Ok(account) => Ok(
                    Ledger {
                        accounts: self.accounts.insert(client, account),
                        records: self.records.insert((client, tx_id), Tx::Undisputed(value)),
                    },
                ),
                Err(e) => Err(e),
            },
            Transaction::Withdrawal { client, value, .. } => match self.planned(
                client,
                Operation::Withdraw(value),
            ) {
                Ok(account) => Ok(self.with_account(client, account)),
                Err(e) => Err(e),
            },
            Transaction::Dispute { client, tx_id } => match disputed(self.records, client, tx_id) {
                Ok((value, records)) => match self.planned(client, Operation::FreezeFunds(value)) {
                    Ok(account) => Ok(
                        Ledger { accounts: self.accounts.insert(client, account), records },
                    ),
                    Err(e) => Err(e),
                },
                Err(e) => Err(EngineError::Store(e)),
            },
            Transaction::Resolve { client, tx_id } => match closed(self.records, client, tx_id) {
                Ok((value, records)) => match self.planned(client, Operation::ReleaseFunds(value)) {
                    Ok(account) => Ok(
                        Ledger { accounts: self.accounts.insert(client, account), records },
                    ),
                    Err(e) => Err(e),
                },
                Err(e) => Err(EngineError::Store(e)),
            },
            Transaction::Chargeback { client, tx_id } => match closed(self.records, client, tx_id) {
                Ok((value, records)) => match self.planned(client, Operation::Chargeback(value)) {
                    Ok(account) => Ok(
                        Ledger {
                            accounts: self.accounts.insert(
                                client,
                                AccountView { balances: account.balances, locked: true },
                            ),
                            records,
                        },
                    ),
                    Err(e) => Err(e),
                },
                Err(e) => Err(EngineError::Store(e)),
            },
        }
    }

    /// Whether a transaction gets as far as the store: a deposit that the
    /// account accepts, and every dispute, resolve and chargeback. A
    /// withdrawal never does, nor a deposit that the account refuses.
    pub open spec fn reaches_store(self, tx: Transaction) -> bool {
        match tx {
            Transaction::Deposit { client, value, .. } => self.planned(
                client,
                Operation::Deposit(value),
            ) is Ok,
            Transaction::Withdrawal { .. } => false,
            _ => true,
        }
    }

    /// The ledger after a transaction. One that is refused changes nothing.
    pub open spec fn apply(self, tx: Transaction) -> Ledger {
        match self.verdict(tx) {
            Ok(next) => next,
            Err(_) => self,
        }
    }

    /// The ledger after a stream of transactions, in their order.
    pub open spec fn apply_all(self, txs: Seq<Transaction>) -> Ledger
        decreases txs.len(),
    {
        if txs.len() == 0 {
            self
        } else {
            self.apply_all(txs.drop_last()).apply(txs.last())
        }
    }
}

/// The shard that owns a client, among `n_workers`.
pub open spec fn shard_of(client: Client, n_workers: nat) -> int {
    client as int % n_workers as int
}

/// `n_workers` shards that have seen no transaction.
pub open spec fn fresh(n_workers: nat) -> Seq<Ledger> {
    Seq::new(n_workers, |i: int| Ledger::empty())
}

/// The shards after a transaction went to the shard of its client.
pub open spec fn route(shards: Seq<Ledger>, tx: Transaction) -> Seq<Ledger> {
    let i = shard_of(tx.spec_client(), shards.len());
    shards.update(i, shards[i].apply(tx))
}

/// The shards after a stream of transactions, each routed in its turn.
pub open spec fn route_all(shards: Seq<Ledger>, txs: Seq<Transaction>) -> Seq<Ledger>
    decreases txs.len(),
{
    if txs.len() == 0 {
        shards
    } else {
        route(route_all(shards, txs.drop_last()), txs.last())
    }
}

/// The accounts of all the shards together. Where two shards hold an
/// account of one client, that of the later shard is kept.
pub open spec fn merged(shards: Seq<Ledger>) -> Map<Client, AccountView>
    decreases shards.len(),
{
    if shards.len() == 0 {
        Map::empty()
    } else {
        merged(shards.drop_last()).union_prefer_right(shards.last().accounts)
    }
}

/// The accounts at the end of a stream that `n_workers` shards worked
/// through.
pub open spec fn run(txs: Seq<Transaction>, n_workers: nat) -> Map<Client, AccountView> {
    merged(route_all(fresh(n_workers), txs))
}

/// Whether the `i`-th transaction of a stream gets as far as the store of a
/// shard that worked through the stream up to it.
pub open spec fn reaches_store_at(ledger: Ledger, txs: Seq<Transaction>, i: int) -> bool {
    0 <= i < txs.len() && ledger.apply_all(txs.take(i)).reaches_store(txs[i])
}

/// Whether the `i`-th transaction of a stream gets as far as the store of
/// its shard, the shards having worked through the stream up to it.
pub open spec fn routed_to_store_at(shards: Seq<Ledger>, txs: Seq<Transaction>, i: int) -> bool {
    0 <= i < txs.len() && route_all(shards, txs.take(i))[shard_of(
        txs[i].spec_client(),
        shards.len(),
    )].reaches_store(txs[i])
}

} // verus!
