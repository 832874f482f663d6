//! What holds of the engine whatever the stream: the laws of the accounts,
//! of the dispute lifecycle and of sharding, each proved of the model that
//! the contracts of the engine are stated in.

use crate::account::{AccountError, AccountView, Balances};
use crate::common::{Client, TxId, Value};
use crate::decimal::writable;
use crate::engine::{active_balances, performed, planned, EngineError, Operation, StateError};
use crate::ledger::{all_wf, merged, run, sound, Ledger};
use crate::sharding::lemma_run_is_sequential;
use crate::store::{StoreError, Tx};
use crate::transaction::Transaction;
use vstd::prelude::*;

verus! {

/// Zero is an amount like any other.
pub proof fn lemma_zero()
    ensures
        Value::make(0, 0).wf(),
        Value::make(0, 0)@ == 0,
        Balances::zero().wf(),
{
    Value::lemma_make(0, 0);
    Value::make(0, 0).lemma_sign();
}

/// An operation that an account accepts leaves it with amounts that a
/// program can hold, and with nothing negative held.
pub proof fn lemma_operation_keeps_balances(balances: Balances, op: Operation)
    requires
        balances.wf(),
        operation_wf(op),
        op.on(balances) is Ok,
    ensures
        op.on(balances).unwrap().balances.wf(),
{
    match op {
        Operation::Deposit(amount) => {
            balances.available.lemma_add_units(amount);
        },
        Operation::Withdraw(amount) => {
            balances.available.lemma_sub_units(amount);
        },
        Operation::Chargeback(amount) => {
            balances.held.lemma_sub_units(amount);
        },
        Operation::ReleaseFunds(amount) => {
            balances.available.lemma_add_units(amount);
            balances.held.lemma_sub_units(amount);
        },
        Operation::FreezeFunds(amount) => {
            balances.available.lemma_sub_units(amount);
            balances.held.lemma_add_units(amount);
        },
        Operation::FreezeAccount => {},
    }
}

/// Whether the amount that the operation carries is one that a program can
/// hold and, where it is to be held, is not negative.
pub open spec fn operation_wf(op: Operation) -> bool {
    match op {
        Operation::Deposit(amount) => amount.wf(),
        Operation::Withdraw(amount) => amount.wf(),
        Operation::Chargeback(amount) => amount.wf(),
        Operation::ReleaseFunds(amount) => amount.wf(),
        Operation::FreezeFunds(amount) => amount.wf() && amount@ >= 0,
        Operation::FreezeAccount => true,
    }
}

/// The account that an operation makes of a client's account has amounts
/// that a program can hold, and nothing negative held.
pub proof fn lemma_planned_keeps_balances(
    accounts: Map<Client, AccountView>,
    client: Client,
    op: Operation,
)
    requires
        sound(accounts),
        operation_wf(op),
        planned(accounts, client, op) is Ok,
    ensures
        planned(accounts, client, op).unwrap().balances.wf(),
{
    lemma_zero();
    let balances = active_balances(accounts, client, op.creates()).unwrap();
    lemma_operation_keeps_balances(balances, op);
}

/// Held never negative, one operation at a time: an operation on a
/// client's account, carried out or refused, leaves every account with
/// amounts that a program can hold and with nothing negative held.
pub proof fn lemma_performed_keeps_sound(
    r: Result<(), StateError>,
    before: Map<Client, AccountView>,
    after: Map<Client, AccountView>,
    client: Client,
    op: Operation,
)
    requires
        sound(before),
        operation_wf(op),
        performed(r, before, after, client, op),
    ensures
        sound(after),
{
    if planned(before, client, op) is Ok {
        lemma_planned_keeps_balances(before, client, op);
        assert forall|c: Client| #[trigger]
            after.contains_key(c) implies after[c].balances.wf() by {
            if c != client {
                assert(before.contains_key(c));
            }
        }
    }
}

/// Held never negative, one transaction at a time: a transaction leaves
/// every account with amounts that a program can hold and with nothing
/// negative held, and every record with such an amount.
pub proof fn lemma_apply_keeps_wf(ledger: Ledger, tx: Transaction)
    requires
        ledger.wf(),
        tx.wf(),
    ensures
        ledger.apply(tx).wf(),
{
    let next = ledger.apply(tx);
    if ledger.verdict(tx) is Ok {
        match tx {
            Transaction::Deposit { client, tx_id, value } => {
                lemma_planned_keeps_balances(ledger.accounts, client, Operation::Deposit(value));
            },
            Transaction::Withdrawal { client, value, .. } => {
                lemma_planned_keeps_balances(ledger.accounts, client, Operation::Withdraw(value));
            },
            Transaction::Dispute { client, tx_id } => {
                let op = Operation::FreezeFunds(ledger.records[(client, tx_id)].spec_value());
                lemma_planned_keeps_balances(ledger.accounts, client, op);
            },
            Transaction::Resolve { client, tx_id } => {
                let op = Operation::ReleaseFunds(ledger.records[(client, tx_id)].spec_value());
                lemma_planned_keeps_balances(ledger.accounts, client, op);
            },
            Transaction::Chargeback { client, tx_id } => {
                let op = Operation::Chargeback(ledger.records[(client, tx_id)].spec_value());
                lemma_planned_keeps_balances(ledger.accounts, client, op);
            },
        }
        assert forall|client: Client| #[trigger]
            next.accounts.contains_key(client) implies next.accounts[client].balances.wf() by {
            if client != tx.spec_client() {
                assert(ledger.accounts.contains_key(client));
            }
        }
        assert forall|k: (Client, TxId)| #[trigger]
            next.records.contains_key(k) implies next.records[k].spec_value().wf() by {
            if k != (tx.spec_client(), tx.spec_tx_id()) {
                assert(ledger.records.contains_key(k));
            }
        }
    }
}

/// Whether every transaction of a stream carries an amount that a program
/// can hold.
pub open spec fn stream_wf(txs: Seq<Transaction>) -> bool {
    forall|i: int| 0 <= i < txs.len() ==> (#[trigger] txs[i]).wf()
}

/// Held never negative, over a stream: whatever the transactions, every
/// account ends with nothing negative held.
pub proof fn lemma_apply_all_keeps_wf(ledger: Ledger, txs: Seq<Transaction>)
    requires
        ledger.wf(),
        stream_wf(txs),
    ensures
        ledger.apply_all(txs).wf(),
    decreases txs.len(),
{
    if txs.len() > 0 {
        lemma_apply_all_keeps_wf(ledger, txs.drop_last());
        lemma_apply_keeps_wf(ledger.apply_all(txs.drop_last()), txs.last());
    }
}

/// A stream in two parts is worked through part after part.
pub proof fn lemma_apply_all_concat(ledger: Ledger, first: Seq<Transaction>, then: Seq<Transaction>)
    ensures
        ledger.apply_all(first + then) == ledger.apply_all(first).apply_all(then),
    decreases then.len(),
{
    if then.len() == 0 {
        assert(first + then =~= first);
    } else {
        lemma_apply_all_concat(ledger, first, then.drop_last());
        assert((first + then).drop_last() =~= first + then.drop_last());
        assert((first + then).last() == then.last());
    }
}

/// Freeze is terminal, one transaction at a time: a transaction of a
/// client whose account is frozen is refused, and changes nothing.
pub proof fn lemma_frozen_refuses(ledger: Ledger, tx: Transaction)
    requires
        ledger.accounts.contains_key(tx.spec_client()),
        ledger.accounts[tx.spec_client()].locked,
    ensures
        ledger.verdict(tx) is Err,
        ledger.apply(tx) == ledger,
{
}

/// Freeze is terminal: once a client's account is frozen, no stream of
/// transactions, of that client or of others, alters it.
pub proof fn lemma_freeze_is_terminal(ledger: Ledger, txs: Seq<Transaction>, client: Client)
    requires
        ledger.accounts.contains_key(client),
        ledger.accounts[client].locked,
    ensures
        ledger.apply_all(txs).accounts.contains_key(client),
        ledger.apply_all(txs).accounts[client] == ledger.accounts[client],
    decreases txs.len(),
{
    if txs.len() > 0 {
        lemma_freeze_is_terminal(ledger, txs.drop_last(), client);
        let before = ledger.apply_all(txs.drop_last());
        if txs.last().spec_client() == client {
            lemma_frozen_refuses(before, txs.last());
        }
    }
}

/// Once the engine has frozen a client's account, whatever is appended to
/// the stream leaves the account as it was, whatever the number of shards.
pub proof fn lemma_frozen_row_is_final(
    stream: Seq<Transaction>,
    appended: Seq<Transaction>,
    n_workers: nat,
    client: Client,
)
    requires
        n_workers >= 1,
        run(stream, n_workers).contains_key(client),
        run(stream, n_workers)[client].locked,
    ensures
        run(stream + appended, n_workers).contains_key(client),
        run(stream + appended, n_workers)[client] == run(stream, n_workers)[client],
{
    lemma_run_is_sequential(stream, n_workers);
    lemma_run_is_sequential(stream + appended, n_workers);
    lemma_apply_all_concat(Ledger::empty(), stream, appended);
    lemma_freeze_is_terminal(Ledger::empty().apply_all(stream), appended, client);
}

/// No phantom accounts, one transaction at a time: a client gets an
/// account only by a deposit of its own that is carried out.
pub proof fn lemma_account_opened_by_deposit(ledger: Ledger, tx: Transaction, client: Client)
    requires
        !ledger.accounts.contains_key(client),
        ledger.apply(tx).accounts.contains_key(client),
    ensures
        tx.spec_client() == client,
        tx is Deposit,
        ledger.verdict(tx) is Ok,
{
}

/// No phantom accounts: a client that has an account at the end of a
/// stream was the subject of a transaction of the stream that was carried
/// out.
pub proof fn lemma_no_phantom_accounts(txs: Seq<Transaction>, n_workers: nat, client: Client)
    requires
        n_workers >= 1,
        run(txs, n_workers).contains_key(client),
    ensures
        exists|i: int|
            0 <= i < txs.len() && (#[trigger] txs[i]).spec_client() == client
                && Ledger::empty().apply_all(txs.take(i)).verdict(txs[i]) is Ok,
{
    lemma_run_is_sequential(txs, n_workers);
    lemma_opened_somewhere(txs, client);
}

/// A client with an account in the one ledger was the subject of a
/// transaction that was carried out.
proof fn lemma_opened_somewhere(txs: Seq<Transaction>, client: Client)
    requires
        Ledger::empty().apply_all(txs).accounts.contains_key(client),
    ensures
        exists|i: int|
            0 <= i < txs.len() && (#[trigger] txs[i]).spec_client() == client
                && Ledger::empty().apply_all(txs.take(i)).verdict(txs[i]) is Ok,
    decreases txs.len(),
{
    if txs.len() > 0 {
        let front = txs.drop_last();
        let before = Ledger::empty().apply_all(front);
        if before.accounts.contains_key(client) {
            lemma_opened_somewhere(front, client);
            let i = choose|i: int|
                0 <= i < front.len() && (#[trigger] front[i]).spec_client() == client
                    && Ledger::empty().apply_all(front.take(i)).verdict(front[i]) is Ok;
            assert(txs.take(i) =~= front.take(i));
            assert(txs[i] == front[i]);
        } else {
            lemma_account_opened_by_deposit(before, txs.last(), client);
            let i = txs.len() - 1;
            assert(txs.take(i) =~= front);
            assert(txs[i] == txs.last());
        }
    }
}

/// Withdrawals are not disputable: a withdrawal leaves no record, so a
/// dispute that names it finds none and changes nothing.
pub proof fn lemma_withdrawal_not_disputable(
    ledger: Ledger,
    client: Client,
    tx_id: TxId,
    value: Value,
)
    requires
        !ledger.records.contains_key((client, tx_id)),
    ensures
        ({
            let withdrawn = ledger.apply(Transaction::Withdrawal { client, tx_id, value });
            let dispute = Transaction::Dispute { client, tx_id };
            &&& withdrawn.records == ledger.records
            &&& withdrawn.verdict(dispute) == Err::<Ledger, EngineError>(
                EngineError::Store(StoreError::NotFound),
            )
            &&& withdrawn.apply(dispute) == withdrawn
        }),
{
}

/// At most one dispute per deposit: a dispute that was carried out cannot
/// be carried out again.
pub proof fn lemma_second_dispute_refused(ledger: Ledger, client: Client, tx_id: TxId)
    requires
        ledger.verdict(Transaction::Dispute { client, tx_id }) is Ok,
    ensures
        ({
            let dispute = Transaction::Dispute { client, tx_id };
            &&& ledger.apply(dispute).verdict(dispute) == Err::<Ledger, EngineError>(
                EngineError::Store(StoreError::NotAvailableForDispute),
            )
            &&& ledger.apply(dispute).apply(dispute) == ledger.apply(dispute)
        }),
{
}

/// Whether no transaction of the stream is a deposit of the client under
/// the identifier.
pub open spec fn never_deposited(txs: Seq<Transaction>, client: Client, tx_id: TxId) -> bool {
    forall|i: int|
        0 <= i < txs.len() ==> !((#[trigger] txs[i]) is Deposit && txs[i].spec_client() == client
            && txs[i].spec_tx_id() == tx_id)
}

/// A stream without a deposit under the identifier stays one when its last
/// transaction is left out.
pub proof fn lemma_never_deposited_front(txs: Seq<Transaction>, client: Client, tx_id: TxId)
    requires
        txs.len() > 0,
        never_deposited(txs, client, tx_id),
    ensures
        never_deposited(txs.drop_last(), client, tx_id),
{
    let front = txs.drop_last();
    assert forall|i: int| 0 <= i < front.len() implies !((#[trigger] front[i]) is Deposit
        && front[i].spec_client() == client && front[i].spec_tx_id() == tx_id) by {
        assert(front[i] == txs[i]);
    }
}

/// Whether the ledger has no record of the deposit, or has it under
/// dispute.
pub open spec fn spent(ledger: Ledger, client: Client, tx_id: TxId) -> bool {
    ledger.records.contains_key((client, tx_id)) ==> ledger.records[(client, tx_id)] is Disputed
}

/// At most one dispute per deposit, over a stream: once a deposit is under
/// dispute, a dispute of it is refused however many transactions lie
/// between, as long as none deposits under that identifier again.
pub proof fn lemma_dispute_at_most_once(
    ledger: Ledger,
    txs: Seq<Transaction>,
    client: Client,
    tx_id: TxId,
)
    requires
        spent(ledger, client, tx_id),
        never_deposited(txs, client, tx_id),
    ensures
        spent(ledger.apply_all(txs), client, tx_id),
        ledger.apply_all(txs).verdict(Transaction::Dispute { client, tx_id }) is Err,
    decreases txs.len(),
{
    if txs.len() > 0 {
        let front = txs.drop_last();
        lemma_never_deposited_front(txs, client, tx_id);
        lemma_dispute_at_most_once(ledger, front, client, tx_id);
        assert(txs.last() == txs[txs.len() - 1]);
    }
}

/// Withdrawals are not disputable, over a stream: whatever the stream, a
/// dispute under an identifier that no deposit of the client carried finds
/// no record, and changes nothing. Only deposits leave records.
pub proof fn lemma_only_deposits_are_disputable(
    txs: Seq<Transaction>,
    client: Client,
    tx_id: TxId,
)
    requires
        never_deposited(txs, client, tx_id),
    ensures
        ({
            let ledger = Ledger::empty().apply_all(txs);
            let dispute = Transaction::Dispute { client, tx_id };
            &&& !ledger.records.contains_key((client, tx_id))
            &&& ledger.verdict(dispute) == Err::<Ledger, EngineError>(
                EngineError::Store(StoreError::NotFound),
            )
            &&& ledger.apply(dispute) == ledger
        }),
    decreases txs.len(),
{
    if txs.len() > 0 {
        let front = txs.drop_last();
        lemma_never_deposited_front(txs, client, tx_id);
        lemma_only_deposits_are_disputable(front, client, tx_id);
        assert(txs.last() == txs[txs.len() - 1]);
    }
}

/// Deposit round-trip: a stream of one deposit of an amount that is not
/// negative leaves one account: the client's, with the amount available,
/// nothing held, not frozen.
pub proof fn lemma_deposit_round_trip(client: Client, tx_id: TxId, value: Value, n_workers: nat)
    requires
        value.wf(),
        value@ >= 0,
        n_workers >= 1,
    ensures
        run(seq![Transaction::Deposit { client, tx_id, value }], n_workers) == Map::<
            Client,
            AccountView,
        >::empty().insert(
            client,
            AccountView {
                balances: Balances { available: value, held: Value::make(0, 0) },
                locked: false,
            },
        ),
{
    let tx = Transaction::Deposit { client, tx_id, value };
    let txs = seq![tx];
    lemma_run_is_sequential(txs, n_workers);
    assert(txs.drop_last() =~= Seq::<Transaction>::empty());
    assert(txs.last() == tx);
    assert(Ledger::empty().apply_all(txs.drop_last()) == Ledger::empty());
    assert(Ledger::empty().apply_all(txs) == Ledger::empty().apply(tx));
    lemma_zero_plus(value);
}

/// Nothing plus an amount is the amount, written as it was.
pub proof fn lemma_zero_plus(value: Value)
    requires
        value.wf(),
    ensures
        Value::make(0, 0).spec_add(value) == Some(value),
{
    reveal(Value::spec_add);
    let zero = Value::make(0, 0);
    Value::lemma_make(0, 0);
    value.lemma_aligned_own();
    assert(zero.aligned(value.places()) == 0) by {
        assert(0 * crate::decimal::pow10((value.places() - 0) as nat) == 0);
    }
    Value::lemma_make(value.digits(), value.places());
    Value::make(value.digits(), value.places()).lemma_same(value);
}

/// Funds conservation under resolve: after a deposit that was carried out,
/// its dispute and its resolve give the account back as the deposit left
/// it: the same amount available, the same amount held, not frozen. Where
/// the dispute is carried out, so is the resolve, and the record of the
/// deposit is gone; where it is refused, so is the resolve, and nothing
/// changes.
pub proof fn lemma_resolve_conserves_funds(
    ledger: Ledger,
    client: Client,
    tx_id: TxId,
    value: Value,
)
    requires
        ledger.wf(),
        value.wf(),
        ledger.verdict(Transaction::Deposit { client, tx_id, value }) is Ok,
    ensures
        ({
            let deposited = ledger.apply(Transaction::Deposit { client, tx_id, value });
            let disputed = deposited.apply(Transaction::Dispute { client, tx_id });
            let resolved = disputed.apply(Transaction::Resolve { client, tx_id });
            &&& disputed.verdict(Transaction::Resolve { client, tx_id }) is Ok
                <==> deposited.verdict(Transaction::Dispute { client, tx_id }) is Ok
            &&& resolved.accounts.contains_key(client)
            &&& !resolved.accounts[client].locked
            &&& resolved.accounts[client].balances.available@
                == deposited.accounts[client].balances.available@
            &&& resolved.accounts[client].balances.held@
                == deposited.accounts[client].balances.held@
            &&& resolved.records == if deposited.verdict(Transaction::Dispute { client, tx_id })
                is Ok {
                deposited.records.remove((client, tx_id))
            } else {
                deposited.records
            }
        }),
{
    let deposit = Transaction::Deposit { client, tx_id, value };
    let dispute = Transaction::Dispute { client, tx_id };
    let resolve = Transaction::Resolve { client, tx_id };
    lemma_zero();
    let start = active_balances(ledger.accounts, client, true).unwrap();
    start.available.lemma_add_units(value);
    lemma_apply_keeps_wf(ledger, deposit);
    let deposited = ledger.apply(deposit);
    let after = deposited.accounts[client].balances;
    assert(deposited.records[(client, tx_id)] == Tx::Undisputed(value));
    if deposited.verdict(dispute) is Ok {
        lemma_release_undoes_freeze(after, value);
        let disputed = deposited.apply(dispute);
        assert(disputed.records[(client, tx_id)] == Tx::Disputed(value));
        let frozen = disputed.accounts[client].balances;
        assert(frozen.release_funds(value) is Ok);
        let resolved = disputed.apply(resolve);
        assert(resolved.records =~= deposited.records.remove((client, tx_id)));
    }
}

/// Chargeback freezes and debits: after a deposit and its dispute were
/// carried out, the chargeback is carried out too. It leaves the account
/// frozen, with the amounts it had before the deposit: the funds of the
/// deposit are removed, not given back.
pub proof fn lemma_chargeback_freezes_and_debits(
    ledger: Ledger,
    client: Client,
    tx_id: TxId,
    value: Value,
)
    requires
        ledger.wf(),
        value.wf(),
        ledger.verdict(Transaction::Deposit { client, tx_id, value }) is Ok,
        ledger.apply(Transaction::Deposit { client, tx_id, value }).verdict(
            Transaction::Dispute { client, tx_id },
        ) is Ok,
    ensures
        ({
            let before = active_balances(ledger.accounts, client, true).unwrap();
            let deposited = ledger.apply(Transaction::Deposit { client, tx_id, value });
            let disputed = deposited.apply(Transaction::Dispute { client, tx_id });
            let charged = disputed.apply(Transaction::Chargeback { client, tx_id });
            &&& disputed.verdict(Transaction::Chargeback { client, tx_id }) is Ok
            &&& charged.accounts.contains_key(client)
            &&& charged.accounts[client].locked
            &&& charged.accounts[client].balances.available@ == before.available@
            &&& charged.accounts[client].balances.held@ == before.held@
            &&& charged.records == deposited.records.remove((client, tx_id))
        }),
{
    let deposit = Transaction::Deposit { client, tx_id, value };
    let dispute = Transaction::Dispute { client, tx_id };
    let chargeback = Transaction::Chargeback { client, tx_id };
    lemma_zero();
    let before = active_balances(ledger.accounts, client, true).unwrap();
    before.available.lemma_add_units(value);
    lemma_apply_keeps_wf(ledger, deposit);
    let deposited = ledger.apply(deposit);
    let after = deposited.accounts[client].balances;
    assert(deposited.records[(client, tx_id)] == Tx::Undisputed(value));
    after.available.lemma_sub_units(value);
    after.held.lemma_add_units(value);
    let held = after.freeze_funds(value).unwrap();
    held.held.lemma_sub_exists(value, after.held);
    held.held.lemma_sub_units(value);
    let disputed = deposited.apply(dispute);
    assert(disputed.records[(client, tx_id)] == Tx::Disputed(value));
    let frozen = disputed.accounts[client].balances;
    assert(frozen.chargeback(value) is Ok);
    let charged = disputed.apply(chargeback);
    assert(charged.records =~= deposited.records.remove((client, tx_id)));
}

/// Held never negative: whatever the stream and the number of shards, the
/// engine ends with nothing negative held in any account.
pub proof fn lemma_held_never_negative(txs: Seq<Transaction>, n_workers: nat, client: Client)
    requires
        stream_wf(txs),
        n_workers >= 1,
        run(txs, n_workers).contains_key(client),
    ensures
        run(txs, n_workers)[client].balances.held@ >= 0,
{
    lemma_run_is_sequential(txs, n_workers);
    lemma_apply_all_keeps_wf(Ledger::empty(), txs);
}

/// The accounts of shards that hold nothing negative hold nothing negative
/// once merged.
pub proof fn lemma_merged_sound(shards: Seq<Ledger>)
    requires
        all_wf(shards),
    ensures
        sound(merged(shards)),
    decreases shards.len(),
{
    if shards.len() > 0 {
        let front = shards.drop_last();
        assert(all_wf(front)) by {
            assert forall|i: int| 0 <= i < front.len() implies (#[trigger] front[i]).wf() by {
                assert(front[i] == shards[i]);
            }
        }
        lemma_merged_sound(front);
        assert(shards.last().wf());
    }
}

/// Releasing what was just held gives the funds back: whatever the amount,
/// the release is carried out, and both balances are worth what they were
/// before the funds were held.
pub proof fn lemma_release_undoes_freeze(balances: Balances, amount: Value)
    requires
        balances.wf(),
        amount.wf(),
        balances.freeze_funds(amount) is Ok,
    ensures
        ({
            let held = balances.freeze_funds(amount).unwrap();
            let released = held.release_funds(amount);
            &&& released is Ok
            &&& released.unwrap().available@ == balances.available@
            &&& released.unwrap().held@ == balances.held@
        }),
{
    let held = balances.freeze_funds(amount).unwrap();
    balances.available.lemma_sub_units(amount);
    balances.held.lemma_add_units(amount);
    held.available.lemma_add_exists(amount, balances.available);
    held.held.lemma_sub_exists(amount, balances.held);
    held.available.lemma_add_units(amount);
    held.held.lemma_sub_units(amount);
}

/// An account, once opened, stays: no transaction closes it.
pub proof fn lemma_account_stays(ledger: Ledger, txs: Seq<Transaction>, client: Client)
    requires
        ledger.accounts.contains_key(client),
    ensures
        ledger.apply_all(txs).accounts.contains_key(client),
    decreases txs.len(),
{
    if txs.len() > 0 {
        lemma_account_stays(ledger, txs.drop_last(), client);
    }
}

/// A transaction that is carried out leaves its client with an account.
pub proof fn lemma_carried_out_has_account(ledger: Ledger, tx: Transaction)
    requires
        ledger.verdict(tx) is Ok,
    ensures
        ledger.apply(tx).accounts.contains_key(tx.spec_client()),
{
}

/// A client of whom a transaction of the stream was carried out has an
/// account at the end of the stream.
pub proof fn lemma_carried_out_leaves_account(txs: Seq<Transaction>, i: int, client: Client)
    requires
        0 <= i < txs.len(),
        txs[i].spec_client() == client,
        Ledger::empty().apply_all(txs.take(i)).verdict(txs[i]) is Ok,
    ensures
        Ledger::empty().apply_all(txs).accounts.contains_key(client),
    decreases txs.len(),
{
    let front = txs.drop_last();
    if i == txs.len() - 1 {
        assert(txs.take(i) =~= front);
        lemma_carried_out_has_account(Ledger::empty().apply_all(front), txs.last());
    } else {
        assert(front.take(i) =~= txs.take(i));
        assert(front[i] == txs[i]);
        lemma_carried_out_leaves_account(front, i, client);
        lemma_account_stays(Ledger::empty().apply_all(front), seq![txs.last()], client);
        assert(seq![txs.last()].drop_last() =~= Seq::<Transaction>::empty());
    }
}

/// A client has an account at the end of a stream if and only if the
/// stream holds a transaction of the client that was carried out.
pub proof fn lemma_account_iff_carried_out(txs: Seq<Transaction>, n_workers: nat, client: Client)
    requires
        n_workers >= 1,
    ensures
        run(txs, n_workers).contains_key(client) <==> exists|i: int|
            0 <= i < txs.len() && (#[trigger] txs[i]).spec_client() == client
                && Ledger::empty().apply_all(txs.take(i)).verdict(txs[i]) is Ok,
{
    lemma_run_is_sequential(txs, n_workers);
    if run(txs, n_workers).contains_key(client) {
        lemma_opened_somewhere(txs, client);
    }
    if exists|i: int|
        0 <= i < txs.len() && (#[trigger] txs[i]).spec_client() == client
            && Ledger::empty().apply_all(txs.take(i)).verdict(txs[i]) is Ok {
        let i = choose|i: int|
            0 <= i < txs.len() && (#[trigger] txs[i]).spec_client() == client
                && Ledger::empty().apply_all(txs.take(i)).verdict(txs[i]) is Ok;
        lemma_carried_out_leaves_account(txs, i, client);
    }
}

/// What each operation makes of the balances, for every amount. An
/// operation is refused for want of funds exactly where the balance it
/// draws on does not cover the amount, and a deposit exactly where the
/// amount is negative; otherwise it is carried out wherever an amount can
/// write each new balance, and the new balances are worth exactly what the
/// old ones were, more or less the amount.
pub proof fn lemma_operations_are_exact(balances: Balances, amount: Value)
    requires
        balances.available.wf(),
        balances.held.wf(),
        amount.wf(),
    ensures
        ({
            let a = balances.available@;
            let h = balances.held@;
            let v = amount@;
            &&& balances.deposit(amount) is Ok <==> v >= 0 && writable(a + v)
            &&& balances.deposit(amount) matches Ok(next) ==> next.available@ == a + v
                && next.held == balances.held
            &&& balances.withdraw(amount) is Ok <==> a >= v && writable(a - v)
            &&& balances.withdraw(amount) matches Ok(next) ==> next.available@ == a - v
                && next.held == balances.held
            &&& balances.freeze_funds(amount) is Ok <==> writable(a - v) && writable(h + v)
            &&& balances.freeze_funds(amount) matches Ok(next) ==> next.available@ == a - v
                && next.held@ == h + v
            &&& balances.release_funds(amount) is Ok <==> h >= v && writable(a + v) && writable(
                h - v,
            )
            &&& balances.release_funds(amount) matches Ok(next) ==> next.available@ == a + v
                && next.held@ == h - v
            &&& balances.chargeback(amount) is Ok <==> h >= v && writable(h - v)
            &&& balances.chargeback(amount) matches Ok(next) ==> next.held@ == h - v
                && next.available == balances.available
        }),
{
    balances.available.lemma_exists_iff_writable(amount);
    balances.held.lemma_exists_iff_writable(amount);
    if balances.available.spec_add(amount) is Some {
        balances.available.lemma_add_units(amount);
    }
    if balances.available.spec_sub(amount) is Some {
        balances.available.lemma_sub_units(amount);
    }
    if balances.held.spec_add(amount) is Some {
        balances.held.lemma_add_units(amount);
    }
    if balances.held.spec_sub(amount) is Some {
        balances.held.lemma_sub_units(amount);
    }
}

} // verus!
