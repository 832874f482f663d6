//! The shards and the engine that feeds them.
//!
//! A shard owns the accounts of its clients and the records of their
//! deposits. The engine routes each transaction to the shard of its client,
//! and merges what the shards hold when the stream ends.

use crate::account::{Account, AccountError, AccountInner, AccountView, Active, Balances};
use crate::common::{Client, TxId, Value};
use crate::laws::{
    lemma_apply_keeps_wf, lemma_merged_sound, lemma_performed_keeps_sound, operation_wf,
    stream_wf,
};
use crate::ledger::{
    all_wf, fresh, merged, reaches_store_at, route, route_all, routed_to_store_at, shard_of,
    sound, Ledger,
};
use crate::store::{StoreError, TransactionStore, Tx};
use crate::table::{
    accounts_of, table_extend, table_get, table_insert, table_into_vec, table_new, Accounts,
};
use crate::transaction::Transaction;
use vstd::prelude::*;
use vstd::std_specs::convert::FromSpecImpl;

verus! {

/// Why a shard refused to touch an account.
#[derive(Debug, Clone, Copy, PartialEq, Eq, Structural)]
pub enum StateError {
    /// The client has no account.
    AccountNotFound,
    /// The account is frozen.
    AccountFrozen,
    /// The account refused the operation.
    Account(AccountError),
}

impl From<AccountError> for StateError {
    fn from(from: AccountError) -> (r: Self) {
        StateError::Account(from)
    }
}

impl FromSpecImpl<AccountError> for StateError {
    open spec fn obeys_from_spec() -> bool {
        true
    }

    open spec fn from_spec(from: AccountError) -> Self {
        StateError::Account(from)
    }
}

/// What can be done to an account.
#[derive(Clone, Copy, Debug)]
pub enum Operation {
    /// Add the amount to the available funds.
    Deposit(Value),
    /// Take the amount from the available funds.
    Withdraw(Value),
    /// Remove the amount from the held funds.
    Chargeback(Value),
    /// Move the amount from the held funds back to the available funds.
    ReleaseFunds(Value),
    /// Move the amount from the available funds to the held funds.
    FreezeFunds(Value),
    /// Freeze the account with the balances it has.
    FreezeAccount,
}

impl Operation {
    /// Whether the operation opens an account for a client that has none.
    pub open spec fn creates(self) -> bool {
        self is Deposit
    }

    /// Whether the operation opens an account for a client that has none.
    pub fn opens_account(&self) -> (r: bool)
        ensures
            r == self.creates(),
    {
        match self {
            Operation::Deposit(_) => true,
            _ => false,
        }
    }

    /// The account that the operation makes of active balances.
    pub open spec fn on(self, balances: Balances) -> Result<AccountView, AccountError> {
        match self {
            Operation::Deposit(amount) => active(balances.deposit(amount)),
            Operation::Withdraw(amount) => active(balances.withdraw(amount)),
            Operation::Chargeback(amount) => active(balances.chargeback(amount)),
            Operation::ReleaseFunds(amount) => active(balances.release_funds(amount)),
            Operation::FreezeFunds(amount) => active(balances.freeze_funds(amount)),
            Operation::FreezeAccount => Ok(AccountView { balances, locked: true }),
        }
    }
}

/// The active account with the balances that an operation gave.
pub open spec fn active(balances: Result<Balances, AccountError>) -> Result<
    AccountView,
    AccountError,
> {
    match balances {
        Ok(balances) => Ok(AccountView { balances, locked: false }),
        Err(e) => Err(e),
    }
}

/// The balances that an operation on a client's account starts from.
pub open spec fn active_balances(
    accounts: Map<Client, AccountView>,
    client: Client,
    create_on_miss: bool,
) -> Result<Balances, StateError> {
    if accounts.contains_key(client) {
        if accounts[client].locked {
            Err(StateError::AccountFrozen)
        } else {
            Ok(accounts[client].balances)
        }
    } else if create_on_miss {
        Ok(Balances::zero())
    } else {
        Err(StateError::AccountNotFound)
    }
}

/// The account that an operation makes of a client's account.
pub open spec fn planned(
    accounts: Map<Client, AccountView>,
    client: Client,
    op: Operation,
) -> Result<AccountView, StateError> {
    match active_balances(accounts, client, op.creates()) {
        Ok(balances) => match op.on(balances) {
            Ok(account) => Ok(account),
            Err(e) => Err(StateError::Account(e)),
        },
        Err(e) => Err(e),
    }
}

/// Whether an operation left the accounts as the model says: done, with
/// the client's account replaced, or refused, with nothing changed.
pub open spec fn performed(
    r: Result<(), StateError>,
    before: Map<Client, AccountView>,
    after: Map<Client, AccountView>,
    client: Client,
    op: Operation,
) -> bool {
    match planned(before, client, op) {
        Ok(account) => r is Ok && after == before.insert(client, account),
        Err(e) => r == Err::<(), StateError>(e) && after == before,
    }
}

/// Whether the account that was made of a client's account, or the
/// refusal, is what the model says.
pub open spec fn prepared(
    r: Result<Account, StateError>,
    accounts: Map<Client, AccountView>,
    client: Client,
    op: Operation,
) -> bool {
    match planned(accounts, client, op) {
        Ok(view) => r is Ok && r.unwrap()@ == view,
        Err(e) => r == Err::<Account, StateError>(e),
    }
}

/// Whether what a closure handed back is what the model says of the
/// operation.
pub open spec fn accounted(
    got: Result<Account, StateError>,
    model: Result<AccountView, AccountError>,
) -> bool {
    match (got, model) {
        (Ok(account), Ok(view)) => account@ == view,
        (Err(StateError::Account(e)), Err(f)) => e == f,
        _ => false,
    }
}

/// What an operation makes of an active account.
fn carry(inner: &AccountInner<Active>, op: Operation) -> (made: Result<Account, StateError>)
    ensures
        accounted(made, op.on(inner@)),
{
    let made = match op {
        Operation::Deposit(amount) => inner.deposit(amount),
        Operation::Withdraw(amount) => inner.withdraw(amount),
        Operation::Chargeback(amount) => inner.chargeback(amount),
        Operation::ReleaseFunds(amount) => inner.release_funds(amount),
        Operation::FreezeFunds(amount) => inner.freeze_funds(amount),
        Operation::FreezeAccount => {
            return Ok(Account::Frozen(inner.freeze()));
        },
    };
    match made {
        Ok(next) => Ok(Account::Active(next)),
        Err(e) => Err(StateError::Account(e)),
    }
}

/// The account with the same balances, frozen.
fn frozen(account: Account) -> (r: Account)
    ensures
        r@ == (AccountView { balances: account@.balances, locked: true }),
{
    match account {
        Account::Active(inner) => Account::Frozen(inner.freeze()),
        Account::Frozen(inner) => Account::Frozen(inner),
    }
}

/// The accounts of a shard.
#[derive(Debug, PartialEq)]
pub struct LocalState {
    // With many clients this could be tiered; there are 65536 at most.
    accounts: Accounts,
}

impl View for LocalState {
    type V = Map<Client, AccountView>;

    closed spec fn view(&self) -> Map<Client, AccountView> {
        views(accounts_of(self.accounts))
    }
}

/// Accounts as contracts speak of them.
pub open spec fn views(accounts: Map<Client, Account>) -> Map<Client, AccountView> {
    Map::new(|client: Client| accounts.contains_key(client), |client: Client| accounts[client]@)
}

/// The view of a table with one account replaced.
proof fn lemma_views_insert(accounts: Map<Client, Account>, client: Client, account: Account)
    ensures
        views(accounts.insert(client, account)) == views(accounts).insert(client, account@),
{
    assert(views(accounts.insert(client, account)) =~= views(accounts).insert(client, account@));
}

/// The view of two tables merged.
proof fn lemma_views_union(accounts: Map<Client, Account>, other: Map<Client, Account>)
    ensures
        views(accounts.union_prefer_right(other)) == views(accounts).union_prefer_right(
            views(other),
        ),
{
    assert(views(accounts.union_prefer_right(other)) =~= views(accounts).union_prefer_right(
        views(other),
    ));
}

impl Default for LocalState {
    fn default() -> (r: Self)
        ensures
            r@ == Map::<Client, AccountView>::empty(),
    {
        LocalState::new()
    }
}

impl LocalState {
    /// No account at all.
    pub fn new() -> (r: Self)
        ensures
            r@ == Map::<Client, AccountView>::empty(),
    {
        let r = LocalState { accounts: table_new() };
        assert(r@ =~= Map::<Client, AccountView>::empty());
        r
    }

    /// The account of a client, if it has one.
    pub fn get(&self, client: Client) -> (r: Option<Account>)
        ensures
            match r {
                Some(account) => self@.contains_key(client) && self@[client] == account@,
                None => !self@.contains_key(client),
            },
    {
        table_get(&self.accounts, client)
    }

    /// What `f` makes of the client's account, where it is active, or of an
    /// account without funds where the client has none and `create_on_miss`
    /// is set. The accounts stay as they are.
    fn plan<F>(&self, client: Client, create_on_miss: bool, f: F) -> (r: Result<
        Account,
        StateError,
    >) where F: FnOnce(&AccountInner<Active>) -> Result<Account, StateError>
        requires
            forall|inner: AccountInner<Active>| #[trigger] f.requires((&inner,)),
        ensures
            match active_balances(self@, client, create_on_miss) {
                Ok(balances) => exists|inner: AccountInner<Active>|
                    inner@ == balances && #[trigger] f.ensures((&inner,), r),
                Err(e) => r == Err::<Account, StateError>(e),
            },
    {
        match table_get(&self.accounts, client) {
            Some(Account::Active(inner)) => f(&inner),
            Some(Account::Frozen(_)) => Err(StateError::AccountFrozen),
            None => {
                if create_on_miss {
                    let inner = AccountInner::default();
                    f(&inner)
                } else {
                    Err(StateError::AccountNotFound)
                }
            },
        }
    }

    /// Put an account in the place of the client's.
    fn commit(&mut self, client: Client, account: Account)
        ensures
            final(self)@ == old(self)@.insert(client, account@),
    {
        proof {
            lemma_views_insert(accounts_of(self.accounts), client, account);
        }
        table_insert(&mut self.accounts, client, account);
    }

    /// Replace the client's account by what `f` makes of it. Where `f`
    /// refuses, or the account is frozen or missing, nothing changes.
    pub fn ensure_active_do<F>(&mut self, client: Client, create_on_miss: bool, f: F) -> (r: Result<
        (),
        StateError,
    >) where F: FnOnce(&AccountInner<Active>) -> Result<Account, StateError>
        requires
            forall|inner: AccountInner<Active>| #[trigger] f.requires((&inner,)),
        ensures
            match active_balances(old(self)@, client, create_on_miss) {
                Ok(balances) => exists|
                    inner: AccountInner<Active>,
                    made: Result<Account, StateError>,
                |
                    inner@ == balances && #[trigger] f.ensures((&inner,), made) && match made {
                        Ok(account) => r is Ok && final(self)@ == old(self)@.insert(
                            client,
                            account@,
                        ),
                        Err(e) => r == Err::<(), StateError>(e) && final(self)@ == old(self)@,
                    },
                Err(e) => r == Err::<(), StateError>(e) && final(self)@ == old(self)@,
            },
    {
        match self.plan(client, create_on_miss, f) {
            Ok(account) => {
                self.commit(client, account);
                Ok(())
            },
            Err(e) => Err(e),
        }
    }

    /// What the operation makes of the client's account, or why it is
    /// refused. The accounts stay as they are.
    fn prepare(&self, client: Client, op: Operation) -> (r: Result<Account, StateError>)
        ensures
            prepared(r, self@, client, op),
    {
        let f = |inner: &AccountInner<Active>| -> (made: Result<Account, StateError>)
            ensures
                accounted(made, op.on(inner@)),
            { carry(inner, op) };
        self.plan(client, op.opens_account(), f)
    }

    /// Carry out the operation on the client's account, or refuse it and
    /// change nothing.
    fn perform(&mut self, client: Client, op: Operation) -> (r: Result<(), StateError>)
        ensures
            performed(r, old(self)@, final(self)@, client, op),
            sound(old(self)@) && operation_wf(op) ==> sound(final(self)@),
    {
        let r = match self.prepare(client, op) {
            Ok(account) => {
                self.commit(client, account);
                Ok(())
            },
            Err(e) => Err(e),
        };
        proof {
            if sound(old(self)@) && operation_wf(op) {
                lemma_performed_keeps_sound(r, old(self)@, self@, client, op);
            }
        }
        r
    }

    /// Credit the client's account, opening it where the client has none.
    pub fn deposit(&mut self, client: Client, amount: Value) -> (r: Result<(), StateError>)
        ensures
            performed(r, old(self)@, final(self)@, client, Operation::Deposit(amount)),
            sound(old(self)@) ==> sound(final(self)@),
    {
        proof {
            use_type_invariant(&amount);
        }
        self.perform(client, Operation::Deposit(amount))
    }

    /// Debit the client's account.
    pub fn withdraw(&mut self, client: Client, amount: Value) -> (r: Result<(), StateError>)
        ensures
            performed(r, old(self)@, final(self)@, client, Operation::Withdraw(amount)),
            sound(old(self)@) ==> sound(final(self)@),
    {
        proof {
            use_type_invariant(&amount);
        }
        self.perform(client, Operation::Withdraw(amount))
    }

    /// Take disputed funds out of the client's account.
    pub fn chargeback(&mut self, client: Client, amount: Value) -> (r: Result<(), StateError>)
        ensures
            performed(r, old(self)@, final(self)@, client, Operation::Chargeback(amount)),
            sound(old(self)@) ==> sound(final(self)@),
    {
        proof {
            use_type_invariant(&amount);
        }
        self.perform(client, Operation::Chargeback(amount))
    }

    /// Give disputed funds back to the client.
    pub fn release_funds(&mut self, client: Client, amount: Value) -> (r: Result<(), StateError>)
        ensures
            performed(r, old(self)@, final(self)@, client, Operation::ReleaseFunds(amount)),
            sound(old(self)@) ==> sound(final(self)@),
    {
        proof {
            use_type_invariant(&amount);
        }
        self.perform(client, Operation::ReleaseFunds(amount))
    }

    /// Hold funds of the client that are under dispute. Holding an amount
    /// below zero can leave less than nothing held.
    pub fn freeze_funds(&mut self, client: Client, amount: Value) -> (r: Result<(), StateError>)
        ensures
            performed(r, old(self)@, final(self)@, client, Operation::FreezeFunds(amount)),
            sound(old(self)@) && amount@ >= 0 ==> sound(final(self)@),
    {
        proof {
            use_type_invariant(&amount);
        }
        self.perform(client, Operation::FreezeFunds(amount))
    }

    /// Freeze the client's account.
    pub fn freeze_account(&mut self, client: Client) -> (r: Result<(), StateError>)
        ensures
            performed(r, old(self)@, final(self)@, client, Operation::FreezeAccount),
            sound(old(self)@) ==> sound(final(self)@),
    {
        self.perform(client, Operation::FreezeAccount)
    }

    /// Merge two sets of accounts. A client should have an account in one
    /// of them only; where it has one in both, that of `other` is kept.
    pub fn merge(self, other: Self) -> (r: Self)
        ensures
            r@ == self@.union_prefer_right(other@),
            sound(self@) && sound(other@) ==> sound(r@),
    {
        let mut merged = self;
        proof {
            lemma_views_union(accounts_of(merged.accounts), accounts_of(other.accounts));
        }
        table_extend(&mut merged.accounts, other.accounts);
        merged
    }

    /// Every client with its account, each client once, in no particular
    /// order.
    pub fn into_vec(self) -> (r: Vec<(Client, Account)>)
        ensures
            forall|i: int|
                0 <= i < r@.len() ==> self@.contains_key(#[trigger] r@[i].0) && self@[r@[i].0]
                    == r@[i].1@,
            forall|client: Client| #[trigger]
                self@.contains_key(client) ==> exists|i: int|
                    0 <= i < r@.len() && #[trigger] r@[i].0 == client,
            forall|i: int, j: int|
                0 <= i < j < r@.len() ==> #[trigger] r@[i].0 != #[trigger] r@[j].0,
    {
        table_into_vec(self.accounts)
    }
}

/// Why a shard did not carry out a transaction.
#[derive(Debug)]
pub enum EngineError {
    /// The account refused it.
    State(StateError),
    /// The store refused it, or failed.
    Store(StoreError),
}

impl EngineError {
    /// Whether the database failed, rather than the transaction being
    /// refused.
    pub open spec fn is_failure(self) -> bool {
        match self {
            EngineError::Store(e) => e.is_failure(),
            EngineError::State(_) => false,
        }
    }
}

/// Whether a shard dealt with a transaction as the model says. Carried out:
/// it holds what the model makes of it. Refused: it holds what it held, and
/// the error is the model's. The database failed: the transaction is one
/// that gets as far as the store, the accounts are what they were, and the
/// records are either what they were or already what the transaction makes
/// of them.
pub open spec fn processed(
    r: Result<(), EngineError>,
    before: Ledger,
    after: Ledger,
    tx: Transaction,
) -> bool {
    match r {
        Ok(()) => before.verdict(tx) == Ok::<Ledger, EngineError>(after),
        Err(e) => if e.is_failure() {
            failed(before, after, tx)
        } else {
            before.verdict(tx) == Err::<Ledger, EngineError>(e) && after == before
        },
    }
}

/// What holds of a shard when the database failed on a transaction: the
/// transaction is one that gets as far as the store, the accounts are what
/// they were, and the records are either what they were or already what the
/// transaction makes of them.
pub open spec fn failed(before: Ledger, after: Ledger, tx: Transaction) -> bool {
    &&& before.reaches_store(tx)
    &&& after.accounts == before.accounts
    &&& after.records == before.records || (before.verdict(tx) is Ok && after.records
        == before.apply(tx).records)
}

/// Whether a shard took a transaction as the model says, a refused one
/// being dropped: it holds what the model makes of it, unless the database
/// failed, which it can only on a transaction that gets as far as the
/// store.
pub open spec fn handled(
    r: Result<(), EngineError>,
    before: Ledger,
    after: Ledger,
    tx: Transaction,
) -> bool {
    match r {
        Ok(()) => after == before.apply(tx),
        Err(e) => e.is_failure() && failed(before, after, tx),
    }
}

/// A shard: the accounts of its clients and the records of their deposits.
pub struct Worker {
    store: TransactionStore,
    local_state: LocalState,
}

impl View for Worker {
    type V = Ledger;

    closed spec fn view(&self) -> Ledger {
        Ledger { accounts: self.local_state@, records: self.store@ }
    }
}

impl Worker {
    /// A shard that has seen no transaction.
    pub fn new() -> (r: Result<Self, EngineError>)
        ensures
            match r {
                Ok(worker) => worker@ == Ledger::empty(),
                Err(e) => e.is_failure(),
            },
    {
        match TransactionStore::new() {
            Ok(store) => Ok(Worker { store, local_state: LocalState::new() }),
            Err(e) => Err(EngineError::Store(e)),
        }
    }

    /// Carry out one transaction. The store is written before the
    /// accounts, so that a failure of the database leaves the accounts
    /// untouched; a transaction that is refused changes nothing.
    pub fn process_tx(&mut self, tx: Transaction) -> (r: Result<(), EngineError>)
        ensures
            processed(r, old(self)@, final(self)@, tx),
            tx.wf(),
            old(self)@.wf() ==> final(self)@.wf(),
    {
        let r = self.carry_out(tx);
        proof {
            if old(self)@.wf() {
                lemma_apply_keeps_wf(old(self)@, tx);
            }
        }
        r
    }

    /// What `process_tx` does, one kind of transaction after the other.
    fn carry_out(&mut self, tx: Transaction) -> (r: Result<(), EngineError>)
        ensures
            processed(r, old(self)@, final(self)@, tx),
            tx.wf(),
    {
        match tx {
            Transaction::Deposit { client, value, tx_id } => {
                proof {
                    use_type_invariant(&value);
                }
                let next = match self.local_state.prepare(client, Operation::Deposit(value)) {
                    Ok(next) => next,
                    Err(e) => {
                        return Err(EngineError::State(e));
                    },
                };
                match self.store.insert(client, tx_id, Tx::Undisputed(value)) {
                    Ok(()) => {},
                    Err(e) => {
                        return Err(EngineError::Store(e));
                    },
                }
                self.local_state.commit(client, next);
                Ok(())
            },
            // Withdrawals are not recorded in the store: they cannot be disputed.
            Transaction::Withdrawal { client, value, .. } => {
                proof {
                    use_type_invariant(&value);
                }
                match self.local_state.withdraw(client, value) {
                    Ok(()) => {
                        assert(self@ == old(self)@.with_account(client, self@.accounts[client]));
                        Ok(())
                    },
                    Err(e) => Err(EngineError::State(e)),
                }
            },
            Transaction::Dispute { tx_id, client } => {
                let value = match self.store.get(client, tx_id) {
                    Ok(Tx::Undisputed(value)) => value,
                    Ok(Tx::Disputed(_)) => {
                        return Err(EngineError::Store(StoreError::NotAvailableForDispute));
                    },
                    Err(e) => {
                        return Err(EngineError::Store(e));
                    },
                };
                let next = match self.local_state.prepare(client, Operation::FreezeFunds(value)) {
                    Ok(next) => next,
                    Err(e) => {
                        return Err(EngineError::State(e));
                    },
                };
                match self.store.fetch_dispute(client, tx_id) {
                    Ok(_) => {},
                    Err(e) => {
                        return Err(EngineError::Store(e));
                    },
                }
                self.local_state.commit(client, next);
                Ok(())
            },
            Transaction::Chargeback { tx_id, client } => {
                let value = match self.store.get(client, tx_id) {
                    Ok(Tx::Disputed(value)) => value,
                    Ok(Tx::Undisputed(_)) => {
                        return Err(EngineError::Store(StoreError::NoDisputeActive));
                    },
                    Err(e) => {
                        return Err(EngineError::Store(e));
                    },
                };
                let next = match self.local_state.prepare(client, Operation::Chargeback(value)) {
                    Ok(next) => frozen(next),
                    Err(e) => {
                        return Err(EngineError::State(e));
                    },
                };
                match self.store.fetch_resolve(client, tx_id) {
                    Ok(_) => {},
                    Err(e) => {
                        return Err(EngineError::Store(e));
                    },
                }
                self.local_state.commit(client, next);
                Ok(())
            },
            Transaction::Resolve { tx_id, client } => {
                let value = match self.store.get(client, tx_id) {
                    Ok(Tx::Disputed(value)) => value,
                    Ok(Tx::Undisputed(_)) => {
                        return Err(EngineError::Store(StoreError::NoDisputeActive));
                    },
                    Err(e) => {
                        return Err(EngineError::Store(e));
                    },
                };
                let next = match self.local_state.prepare(client, Operation::ReleaseFunds(value)) {
                    Ok(next) => next,
                    Err(e) => {
                        return Err(EngineError::State(e));
                    },
                };
                match self.store.fetch_resolve(client, tx_id) {
                    Ok(_) => {},
                    Err(e) => {
                        return Err(EngineError::Store(e));
                    },
                }
                self.local_state.commit(client, next);
                Ok(())
            },
        }
    }
}

impl Worker {
    /// Take one transaction: carry it out, or drop it where it is refused.
    /// Only a failure of the database is reported.
    pub fn handle(&mut self, tx: Transaction) -> (r: Result<(), EngineError>)
        ensures
            handled(r, old(self)@, final(self)@, tx),
            tx.wf(),
            old(self)@.wf() ==> final(self)@.wf(),
    {
        match self.process_tx(tx) {
            Ok(()) => Ok(()),
            Err(EngineError::Store(StoreError::Db(e))) => Err(
                EngineError::Store(StoreError::Db(e)),
            ),
            // A transaction that is refused is dropped: it changed nothing.
            Err(_) => Ok(()),
        }
    }

    /// Work through a queue of transactions in their order, and hand back
    /// the accounts. The first failure of the database ends the work; the
    /// database can only fail on a transaction that gets as far as the
    /// store.
    pub fn run(self, queue: Vec<Transaction>) -> (r: Result<LocalState, EngineError>)
        ensures
            match r {
                Ok(state) => state@ == self@.apply_all(queue@).accounts,
                Err(e) => e.is_failure() && exists|i: int| #[trigger]
                    reaches_store_at(self@, queue@, i),
            },
            r is Ok ==> stream_wf(queue@),
            r is Ok && self@.wf() ==> sound(r.unwrap()@),
    {
        let mut worker = self;
        let mut i: usize = 0;
        while i < queue.len()
            invariant
                i <= queue.len(),
                worker@ == self@.apply_all(queue@.take(i as int)),
                forall|k: int| 0 <= k < i ==> (#[trigger] queue@[k]).wf(),
                self@.wf() ==> worker@.wf(),
            decreases queue.len() - i,
        {
            let tx = queue[i];
            match worker.handle(tx) {
                Ok(()) => {},
                Err(e) => {
                    assert(reaches_store_at(self@, queue@, i as int));
                    return Err(e);
                },
            }
            proof {
                assert(queue@.take(i + 1).drop_last() =~= queue@.take(i as int));
            }
            i = i + 1;
        }
        proof {
            assert(queue@.take(i as int) =~= queue@);
        }
        Ok(worker.local_state)
    }

    /// The accounts of the shard.
    pub fn into_state(self) -> (r: LocalState)
        ensures
            r@ == self@.accounts,
    {
        self.local_state
    }
}

/// Whether the engine took a transaction as the model says: the shard of
/// its client took it, and every other shard holds what it held.
pub open spec fn fed(
    r: Result<(), EngineError>,
    before: Seq<Ledger>,
    after: Seq<Ledger>,
    tx: Transaction,
) -> bool {
    let i = shard_of(tx.spec_client(), before.len());
    match r {
        Ok(()) => after == route(before, tx),
        Err(_) => after == before.update(i, after[i]) && handled(r, before[i], after[i], tx),
    }
}

/// The index of the shard that owns a client, among `n_workers`.
pub fn shard(client: Client, n_workers: usize) -> (r: usize)
    requires
        n_workers > 0,
    ensures
        r == shard_of(client, n_workers as nat),
        r < n_workers,
{
    client as usize % n_workers
}

/// The engine: a fixed number of shards, each owning the clients whose
/// identifier leaves its index when divided by that number.
pub struct Engine {
    workers: Vec<Worker>,
}

impl View for Engine {
    type V = Seq<Ledger>;

    closed spec fn view(&self) -> Seq<Ledger> {
        self.workers@.map_values(|worker: Worker| worker@)
    }
}

impl Engine {
    /// An engine of `n_workers` shards that have seen no transaction.
    pub fn new(n_workers: usize) -> (r: Result<Self, EngineError>)
        requires
            n_workers > 0,
        ensures
            match r {
                Ok(engine) => engine@ == fresh(n_workers as nat),
                Err(e) => e.is_failure(),
            },
    {
        let mut workers: Vec<Worker> = Vec::new();
        let mut i: usize = 0;
        while i < n_workers
            invariant
                i <= n_workers,
                workers@.len() == i,
                forall|k: int| 0 <= k < i ==> (#[trigger] workers@[k])@ == Ledger::empty(),
            decreases n_workers - i,
        {
            match Worker::new() {
                Ok(worker) => {
                    workers.push(worker);
                },
                Err(e) => {
                    return Err(e);
                },
            }
            i = i + 1;
        }
        let engine = Engine { workers };
        assert(engine@ =~= fresh(n_workers as nat));
        Ok(engine)
    }

    /// Hand one transaction to the shard of its client, which carries it
    /// out, or drops it where it is refused.
    pub fn feed(&mut self, tx: Transaction) -> (r: Result<(), EngineError>)
        requires
            old(self)@.len() > 0,
        ensures
            fed(r, old(self)@, final(self)@, tx),
            tx.wf(),
            all_wf(old(self)@) ==> all_wf(final(self)@),
    {
        let worker_id = shard(tx.client(), self.workers.len());
        let r = self.workers[worker_id].handle(tx);
        proof {
            assert(final(self)@.len() == old(self)@.len());
            assert(final(self)@ =~= old(self)@.update(
                worker_id as int,
                final(self)@[worker_id as int],
            ));
            if r is Ok {
                assert(final(self)@ =~= route(old(self)@, tx));
            }
        }
        r
    }

    /// The accounts of all the shards together.
    pub fn finish(self) -> (r: Result<LocalState, EngineError>)
        ensures
            r matches Ok(state) && state@ == merged(self@),
            r is Ok && all_wf(self@) ==> sound(r.unwrap()@),
    {
        proof {
            if all_wf(self@) {
                lemma_merged_sound(self@);
            }
        }
        let mut state = LocalState::new();
        for worker in iter: self.workers.into_iter()
            invariant
                iter.seq() == self.workers@,
                state@ == merged(self@.take(iter.index() as int)),
        {
            proof {
                assert(self@.take(iter.index() + 1).drop_last() =~= self@.take(
                    iter.index() as int,
                ));
            }
            state = state.merge(worker.into_state());
        }
        proof {
            assert(self@.take(self@.len() as int) =~= self@);
        }
        Ok(state)
    }

    /// Run the engine on a stream of transactions.
    pub fn run(self, input: Vec<Transaction>) -> (r: Result<LocalState, EngineError>)
        requires
            self@.len() > 0,
        ensures
            match r {
                Ok(state) => state@ == merged(route_all(self@, input@)),
                Err(e) => e.is_failure() && exists|i: int| #[trigger]
                    routed_to_store_at(self@, input@, i),
            },
            r is Ok ==> stream_wf(input@),
            r is Ok && all_wf(self@) ==> sound(r.unwrap()@),
    {
        // Only the order among one client's transactions matters: those of
        // different clients do not touch the same account or record.
        let mut engine = self;
        let mut i: usize = 0;
        while i < input.len()
            invariant
                i <= input.len(),
                engine@.len() == self@.len(),
                self@.len() > 0,
                engine@ == route_all(self@, input@.take(i as int)),
                forall|k: int| 0 <= k < i ==> (#[trigger] input@[k]).wf(),
                all_wf(self@) ==> all_wf(engine@),
            decreases input.len() - i,
        {
            let tx = input[i];
            match engine.feed(tx) {
                Ok(()) => {},
                Err(e) => {
                    assert(routed_to_store_at(self@, input@, i as int));
                    return Err(e);
                },
            }
            proof {
                assert(input@.take(i + 1).drop_last() =~= input@.take(i as int));
            }
            i = i + 1;
        }
        proof {
            assert(input@.take(i as int) =~= input@);
        }
        engine.finish()
    }
}

} // verus!
