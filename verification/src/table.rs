//! The hash table that holds the accounts of a shard.
//!
//! The table is hashbrown's. What is said here of its methods is taken on
//! trust from its documentation; everything built on it is proved from
//! that.

use crate::account::Account;
use crate::common::Client;
use vstd::prelude::*;

verus! {

/// Accounts by client, in a hash table.
#[verifier::external_body]
#[derive(Debug, PartialEq)]
pub struct Accounts {
    table: hashbrown::HashMap<Client, Account>,
}

/// What a table holds: its accounts by their clients.
pub uninterp spec fn accounts_of(accounts: Accounts) -> Map<Client, Account>;

/// No account at all.
pub open spec fn no_accounts() -> Map<Client, Account> {
    Map::empty()
}

/// Whether the rows are the accounts of the table, each client once.
pub open spec fn lists(rows: Seq<(Client, Account)>, accounts: Map<Client, Account>) -> bool {
    &&& forall|i: int|
        0 <= i < rows.len() ==> accounts.contains_key(#[trigger] rows[i].0) && accounts[rows[i].0]
            == rows[i].1
    &&& forall|client: Client| #[trigger]
        accounts.contains_key(client) ==> exists|i: int|
            0 <= i < rows.len() && #[trigger] rows[i].0 == client
    &&& forall|i: int, j: int|
        0 <= i < j < rows.len() ==> #[trigger] rows[i].0 != #[trigger] rows[j].0
}

/// `hashbrown::HashMap::new`: a table that holds nothing.
#[verifier::external_body]
pub(crate) fn table_new() -> (r: Accounts)
    ensures
        accounts_of(r) == no_accounts(),
{
    Accounts { table: hashbrown::HashMap::new() }
}

/// `hashbrown::HashMap::get`: the account under the client, if there is one.
#[verifier::external_body]
pub(crate) fn table_get(accounts: &Accounts, client: Client) -> (r: Option<Account>)
    ensures
        r == if accounts_of(*accounts).contains_key(client) {
            Some(accounts_of(*accounts)[client])
        } else {
            None
        },
{
    accounts.table.get(&client).copied()
}

/// `hashbrown::HashMap::insert`: the client holds the new account, every
/// other client the one it held.
#[verifier::external_body]
pub(crate) fn table_insert(accounts: &mut Accounts, client: Client, account: Account)
    ensures
        accounts_of(*final(accounts)) == accounts_of(*old(accounts)).insert(client, account),
{
    accounts.table.insert(client, account);
}

/// `hashbrown::HashMap::extend` with another table: every client of the
/// other table holds the account it has there, every other client the one it
/// held.
#[verifier::external_body]
pub(crate) fn table_extend(accounts: &mut Accounts, other: Accounts)
    ensures
        accounts_of(*final(accounts)) == accounts_of(*old(accounts)).union_prefer_right(
            accounts_of(other),
        ),
{
    accounts.table.extend(other.table);
}

/// `hashbrown::HashMap::into_iter`, collected: every client of the table
/// with its account, each once, in no order that can be told beforehand.
#[verifier::external_body]
pub(crate) fn table_into_vec(accounts: Accounts) -> (r: Vec<(Client, Account)>)
    ensures
        lists(r@, accounts_of(accounts)),
{
    accounts.table.into_iter().collect()
}

} // verus!
