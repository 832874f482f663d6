//! The rows of the final summary: one per account.

use crate::account::{Account, AccountView};
use crate::common::{Client, Value};
use crate::engine::LocalState;
use vstd::prelude::*;
use vstd::std_specs::convert::FromSpecImpl;

verus! {

/// One row of the summary: a client, its balances, their total, and
/// whether the account is frozen. The total is the exact sum of the
/// balances; there is none where no amount can write that sum.
#[derive(Debug, Clone, Copy, PartialEq)]
pub struct Record {
    pub client: Client,
    pub available: Value,
    pub held: Value,
    pub total: Option<Value>,
    pub locked: bool,
}

/// The row of an account.
pub open spec fn row(client: Client, account: AccountView) -> Record {
    Record {
        client,
        available: account.balances.available,
        held: account.balances.held,
        total: account.balances.total(),
        locked: account.locked,
    }
}

impl From<(Client, Account)> for Record {
    fn from(from: (Client, Account)) -> (r: Self) {
        let (client, account) = from;
        let available = account.available();
        let held = account.held();
        Record {
            client,
            available,
            held,
            total: available.checked_add(held),
            locked: account.locked(),
        }
    }
}

impl FromSpecImpl<(Client, Account)> for Record {
    open spec fn obeys_from_spec() -> bool {
        true
    }

    open spec fn from_spec(from: (Client, Account)) -> Self {
        row(from.0, from.1@)
    }
}

/// Whether the rows are those of the accounts: one for each client that has
/// an account, and none besides.
pub open spec fn reports(rows: Seq<Record>, accounts: Map<Client, AccountView>) -> bool {
    &&& forall|i: int|
        0 <= i < rows.len() ==> accounts.contains_key(#[trigger] rows[i].client) && row(
            rows[i].client,
            accounts[rows[i].client],
        ) == rows[i]
    &&& forall|client: Client| #[trigger]
        accounts.contains_key(client) ==> exists|i: int|
            0 <= i < rows.len() && #[trigger] rows[i].client == client
    &&& forall|i: int, j: int|
        0 <= i < j < rows.len() ==> #[trigger] rows[i].client != #[trigger] rows[j].client
}

/// The rows of the summary, one for each account, in no particular order.
pub fn summary(accounts: LocalState) -> (rows: Vec<Record>)
    ensures
        reports(rows@, accounts@),
{
    let list = accounts.into_vec();
    let mut rows: Vec<Record> = Vec::new();
    let mut i: usize = 0;
    while i < list.len()
        invariant
            i <= list.len(),
            rows@.len() == i,
            forall|k: int|
                0 <= k < list@.len() ==> accounts@.contains_key(#[trigger] list@[k].0)
                    && accounts@[list@[k].0] == list@[k].1@,
            forall|k: int|
                0 <= k < i ==> (#[trigger] rows@[k]).client == list@[k].0 && row(
                    list@[k].0,
                    list@[k].1@,
                ) == rows@[k],
        decreases list.len() - i,
    {
        let (client, account) = list[i];
        rows.push(Record::from((client, account)));
        i = i + 1;
    }
    proof {
        assert forall|client: Client| #[trigger] accounts@.contains_key(client) implies exists|
            k: int,
        |
            0 <= k < rows@.len() && #[trigger] rows@[k].client == client by {
            let k = choose|k: int| 0 <= k < list@.len() && #[trigger] list@[k].0 == client;
            assert(rows@[k].client == client);
        }
    }
    rows
}

} // verus!
