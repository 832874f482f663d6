//! Why the number of shards does not matter: a transaction touches what
//! the ledger holds of its own client and nothing else, so the shards
//! together hold what one shard alone would hold.

use crate::account::AccountView;
use crate::common::{Client, TxId};
use crate::ledger::{fresh, merged, route, route_all, run, shard_of, Ledger};
use crate::store::found;
use crate::transaction::Transaction;
use vstd::prelude::*;

verus! {

/// Whether two ledgers hold the same of a client: its account and the
/// records of its deposits.
pub open spec fn same_for(a: Ledger, b: Ledger, client: Client) -> bool {
    &&& a.accounts.contains_key(client) == b.accounts.contains_key(client)
    &&& a.accounts.contains_key(client) ==> a.accounts[client] == b.accounts[client]
    &&& forall|tx_id: TxId|
        a.records.contains_key((client, tx_id)) == #[trigger] b.records.contains_key(
            (client, tx_id),
        )
    &&& forall|tx_id: TxId| #[trigger]
        a.records.contains_key((client, tx_id)) ==> a.records[(client, tx_id)] == b.records[(
            client,
            tx_id,
        )]
}

/// A transaction leaves alone what the ledger holds of every other client.
pub proof fn lemma_other_client_untouched(ledger: Ledger, tx: Transaction, client: Client)
    requires
        tx.spec_client() != client,
    ensures
        same_for(ledger.apply(tx), ledger, client),
{
}

/// What a transaction makes of the ledger for its client depends only on
/// what the ledger holds of that client.
pub proof fn lemma_own_client_alone(a: Ledger, b: Ledger, tx: Transaction)
    requires
        same_for(a, b, tx.spec_client()),
    ensures
        same_for(a.apply(tx), b.apply(tx), tx.spec_client()),
        a.verdict(tx) is Ok == b.verdict(tx) is Ok,
{
    let client = tx.spec_client();
    let tx_id = tx.spec_tx_id();
    assert(a.records.contains_key((client, tx_id)) == b.records.contains_key((client, tx_id)));
    assert(found(a.records, client, tx_id) == found(b.records, client, tx_id));
}

/// Whether shard `j` of `n` holds what the one ledger holds of the client,
/// where the client is its own, and no account of the client where it is
/// not.
pub open spec fn holds_share(shard: Ledger, j: int, n: nat, whole: Ledger, client: Client) -> bool {
    if j == shard_of(client, n) {
        same_for(shard, whole, client)
    } else {
        !shard.accounts.contains_key(client)
    }
}

/// Whether the shards hold, each for its own clients, what the one ledger
/// holds, and no account of any other client.
pub open spec fn tracks(shards: Seq<Ledger>, whole: Ledger) -> bool {
    forall|client: Client, j: int|
        0 <= j < shards.len() ==> #[trigger] holds_share(
            shards[j],
            j,
            shards.len(),
            whole,
            client,
        )
}

/// Routing a transaction to the shard of its client does to the shards
/// what the transaction does to the one ledger.
pub proof fn lemma_route_tracks(shards: Seq<Ledger>, whole: Ledger, tx: Transaction)
    requires
        shards.len() > 0,
        tracks(shards, whole),
    ensures
        tracks(route(shards, tx), whole.apply(tx)),
        route(shards, tx).len() == shards.len(),
{
    let n = shards.len();
    let owner = tx.spec_client();
    let k = shard_of(owner, n);
    let after = route(shards, tx);
    assert(0 <= k < n);
    assert forall|client: Client, j: int| 0 <= j < after.len() implies #[trigger] holds_share(
        after[j],
        j,
        after.len(),
        whole.apply(tx),
        client,
    ) by {
        assert(holds_share(shards[j], j, n, whole, client));
        if client == owner {
            if j == k {
                lemma_own_client_alone(shards[k], whole, tx);
            }
        } else {
            lemma_other_client_untouched(whole, tx, client);
            if j == k {
                lemma_other_client_untouched(shards[k], tx, client);
            }
        }
    }
}

/// The shards that worked through a stream hold what one ledger that
/// worked through it holds.
pub proof fn lemma_route_all_tracks(txs: Seq<Transaction>, n_workers: nat)
    requires
        n_workers > 0,
    ensures
        tracks(route_all(fresh(n_workers), txs), Ledger::empty().apply_all(txs)),
        route_all(fresh(n_workers), txs).len() == n_workers,
    decreases txs.len(),
{
    if txs.len() == 0 {
        let shards = fresh(n_workers);
        assert forall|client: Client, j: int| 0 <= j < shards.len() implies #[trigger] holds_share(
            shards[j],
            j,
            shards.len(),
            Ledger::empty(),
            client,
        ) by {
        }
    } else {
        lemma_route_all_tracks(txs.drop_last(), n_workers);
        lemma_route_tracks(
            route_all(fresh(n_workers), txs.drop_last()),
            Ledger::empty().apply_all(txs.drop_last()),
            txs.last(),
        );
    }
}

/// The accounts of the first `k` shards together are those of the one
/// ledger whose clients belong to one of these shards.
pub proof fn lemma_merged_prefix(shards: Seq<Ledger>, whole: Ledger, k: nat)
    requires
        tracks(shards, whole),
        0 < shards.len(),
        k <= shards.len(),
    ensures
        forall|client: Client| #[trigger]
            merged(shards.take(k as int)).contains_key(client) <==> (whole.accounts.contains_key(
                client,
            ) && shard_of(client, shards.len()) < k),
        forall|client: Client| #[trigger]
            merged(shards.take(k as int)).contains_key(client) ==> merged(
                shards.take(k as int),
            )[client] == whole.accounts[client],
    decreases k,
{
    if k == 0 {
        assert(shards.take(0).len() == 0);
        assert forall|client: Client| #[trigger]
            merged(shards.take(0)).contains_key(client) <==> (whole.accounts.contains_key(client)
                && shard_of(client, shards.len()) < 0) by {
            assert(0 <= shard_of(client, shards.len()));
        }
    } else {
        let j = (k - 1) as int;
        lemma_merged_prefix(shards, whole, (k - 1) as nat);
        let prefix = shards.take(k as int);
        assert(prefix.drop_last() =~= shards.take(j));
        assert(prefix.last() == shards[j]);
        assert(merged(prefix) == merged(shards.take(j)).union_prefer_right(shards[j].accounts));
        assert forall|client: Client| #[trigger]
            merged(prefix).contains_key(client) <==> (whole.accounts.contains_key(client)
                && shard_of(client, shards.len()) < k) by {
            assert(holds_share(shards[j], j, shards.len(), whole, client));
            assert(0 <= shard_of(client, shards.len()) < shards.len());
        }
        assert forall|client: Client| #[trigger]
            merged(prefix).contains_key(client) implies merged(prefix)[client]
            == whole.accounts[client] by {
            assert(holds_share(shards[j], j, shards.len(), whole, client));
        }
    }
}

/// The accounts at the end of a stream are the same whether one shard
/// worked through it or many.
pub proof fn lemma_run_is_sequential(txs: Seq<Transaction>, n_workers: nat)
    requires
        n_workers > 0,
    ensures
        run(txs, n_workers) == Ledger::empty().apply_all(txs).accounts,
{
    let shards = route_all(fresh(n_workers), txs);
    let whole = Ledger::empty().apply_all(txs);
    lemma_route_all_tracks(txs, n_workers);
    lemma_merged_prefix(shards, whole, n_workers);
    assert(shards.take(n_workers as int) =~= shards);
    assert forall|client: Client| #[trigger]
        run(txs, n_workers).contains_key(client) == whole.accounts.contains_key(client) by {
        assert(0 <= shard_of(client, n_workers) < n_workers);
    }
    assert(run(txs, n_workers) =~= whole.accounts);
}

/// Shard-parallelism equivalence: whatever the stream and whatever the two
/// numbers of shards, the engine ends with the same account for every
/// client.
pub proof fn lemma_shard_equivalence(txs: Seq<Transaction>, n: nat, m: nat)
    requires
        n >= 1,
        m >= 1,
    ensures
        run(txs, n) == run(txs, m),
{
    lemma_run_is_sequential(txs, n);
    lemma_run_is_sequential(txs, m);
}

} // verus!
