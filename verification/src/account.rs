//! A client's account: two balances and a lifecycle of two states.
//!
//! The operations are functional: each hands back a new account or says why
//! it cannot be done, and leaves the account it was called on as it was.

use crate::common::Value;
use crate::decimal::writable;
use crate::engine::Operation;
use crate::laws::lemma_operation_keeps_balances;
use std::marker::PhantomData;
use vstd::prelude::*;
use vstd::std_specs::convert::FromSpecImpl;

verus! {

/// The balances of an account, as contracts speak of them.
pub struct Balances {
    pub available: Value,
    pub held: Value,
}

/// An account as contracts speak of it: its balances and whether it is frozen.
pub struct AccountView {
    pub balances: Balances,
    pub locked: bool,
}

/// Why an operation on an account was refused.
#[derive(Debug, Clone, Copy, PartialEq, Eq, Structural)]
pub enum AccountError {
    /// The balance does not cover the amount.
    NotEnoughFunds,
    /// A deposit of an amount below zero.
    NegativeAmount,
    /// No amount can write the new balance exactly.
    Overflow,
}

impl Balances {
    /// No funds at all.
    pub open spec fn zero() -> Balances {
        Balances { available: Value::make(0, 0), held: Value::make(0, 0) }
    }

    /// Both balances are amounts that a program can hold, and nothing
    /// negative is held.
    pub open spec fn wf(self) -> bool {
        self.available.wf() && self.held.wf() && self.held@ >= 0
    }

    /// Available plus held, where it can be written.
    pub open spec fn total(self) -> Option<Value> {
        self.available.spec_add(self.held)
    }

    /// The balances after a deposit: the amount is added to what is
    /// available.
    pub open spec fn deposit(self, amount: Value) -> Result<Balances, AccountError> {
        if amount@ < 0 {
            Err(AccountError::NegativeAmount)
        } else {
            match self.available.spec_add(amount) {
                Some(available) => Ok(Balances { available, held: self.held }),
                None => Err(AccountError::Overflow),
            }
        }
    }

    /// The balances after a withdrawal: the amount is taken from what is
    /// available, which must cover it.
    pub open spec fn withdraw(self, amount: Value) -> Result<Balances, AccountError> {
        if self.available@ < amount@ {
            Err(AccountError::NotEnoughFunds)
        } else {
            match self.available.spec_sub(amount) {
                Some(available) => Ok(Balances { available, held: self.held }),
                None => Err(AccountError::Overflow),
            }
        }
    }

    /// The balances once the amount is held: it moves from what is
    /// available, which may go below zero, to what is held.
    pub open spec fn freeze_funds(self, amount: Value) -> Result<Balances, AccountError> {
        match (self.available.spec_sub(amount), self.held.spec_add(amount)) {
            (Some(available), Some(held)) => Ok(Balances { available, held }),
            _ => Err(AccountError::Overflow),
        }
    }

    /// The balances once the amount is released: it moves from what is
    /// held, which must cover it, back to what is available.
    pub open spec fn release_funds(self, amount: Value) -> Result<Balances, AccountError> {
        if self.held@ < amount@ {
            Err(AccountError::NotEnoughFunds)
        } else {
            match (self.available.spec_add(amount), self.held.spec_sub(amount)) {
                (Some(available), Some(held)) => Ok(Balances { available, held }),
                _ => Err(AccountError::Overflow),
            }
        }
    }

    /// The balances after a chargeback: the amount is taken from what is
    /// held, which must cover it, and is not given back.
    pub open spec fn chargeback(self, amount: Value) -> Result<Balances, AccountError> {
        if self.held@ < amount@ {
            Err(AccountError::NotEnoughFunds)
        } else {
            match self.held.spec_sub(amount) {
                Some(held) => Ok(Balances { available: self.available, held }),
                None => Err(AccountError::Overflow),
            }
        }
    }
}

/// The marker of an account that accepts transactions.
#[derive(Default, Debug, PartialEq, Clone, Copy)]
pub struct Active;

/// The marker of an account that accepts nothing more.
#[derive(Debug, PartialEq, Clone, Copy)]
pub struct Frozen;

/// The balances of an account in the lifecycle state `ST`.
#[derive(Debug, PartialEq)]
pub struct AccountInner<ST> {
    pub available: Value,
    pub held: Value,
    pub marker: PhantomData<ST>,
}

/// An account, active or frozen.
#[derive(Clone, Copy, Debug, PartialEq)]
pub enum Account {
    /// An account that accepts transactions.
    Active(AccountInner<Active>),
    /// An account that accepts nothing more.
    Frozen(AccountInner<Frozen>),
}

impl<ST> View for AccountInner<ST> {
    type V = Balances;

    open spec fn view(&self) -> Balances {
        Balances { available: self.available, held: self.held }
    }
}

impl View for Account {
    type V = AccountView;

    open spec fn view(&self) -> AccountView {
        match self {
            Account::Active(inner) => AccountView { balances: inner@, locked: false },
            Account::Frozen(inner) => AccountView { balances: inner@, locked: true },
        }
    }
}

/// Whether an operation gave what the model says it gives.
pub open spec fn agrees<ST>(
    got: Result<AccountInner<ST>, AccountError>,
    model: Result<Balances, AccountError>,
) -> bool {
    match (got, model) {
        (Ok(account), Ok(balances)) => account@ == balances,
        (Err(e), Err(f)) => e == f,
        _ => false,
    }
}

impl<ST> Clone for AccountInner<ST> {
    fn clone(&self) -> (r: Self)
        ensures
            r == *self,
    {
        AccountInner { available: self.available, held: self.held, marker: self.marker }
    }
}

impl<ST> Copy for AccountInner<ST> {

}

impl Default for AccountInner<Active> {
    fn default() -> (r: Self)
        ensures
            r@ == Balances::zero(),
    {
        AccountInner { available: Value::zero(), held: Value::zero(), marker: PhantomData }
    }
}

impl Default for Account {
    fn default() -> (r: Self)
        ensures
            r@ == (AccountView { balances: Balances::zero(), locked: false }),
    {
        Account::Active(AccountInner::default())
    }
}

impl AccountInner<Active> {
    /// Take `amount` from the available funds.
    pub fn withdraw(&self, amount: Value) -> (r: Result<Self, AccountError>)
        ensures
            agrees(r, self@.withdraw(amount)),
            r matches Err(AccountError::NotEnoughFunds) <==> self.available@ < amount@,
            r is Ok <==> self.available@ >= amount@ && writable(self.available@ - amount@),
            r is Ok ==> r.unwrap().available@ == self.available@ - amount@ && r.unwrap().held
                == self.held,
            r is Ok && self@.wf() ==> r.unwrap()@.wf(),
    {
        proof {
            use_type_invariant(&amount);
            if self@.wf() && self@.withdraw(amount) is Ok {
                lemma_operation_keeps_balances(self@, Operation::Withdraw(amount));
            }
        }
        if self.available < amount {
            return Err(AccountError::NotEnoughFunds);
        }
        match self.available.checked_sub(amount) {
            Some(available) => Ok(Self { available, ..*self }),
            None => Err(AccountError::Overflow),
        }
    }

    /// Add `amount` to the available funds.
    pub fn deposit(&self, amount: Value) -> (r: Result<Self, AccountError>)
        ensures
            agrees(r, self@.deposit(amount)),
            r matches Err(AccountError::NegativeAmount) <==> amount@ < 0,
            r is Ok <==> amount@ >= 0 && writable(self.available@ + amount@),
            r is Ok ==> r.unwrap().available@ == self.available@ + amount@ && r.unwrap().held
                == self.held,
            r is Ok && self@.wf() ==> r.unwrap()@.wf(),
    {
        proof {
            use_type_invariant(&amount);
            if self@.wf() && self@.deposit(amount) is Ok {
                lemma_operation_keeps_balances(self@, Operation::Deposit(amount));
            }
        }
        if amount.is_negative() {
            return Err(AccountError::NegativeAmount);
        }
        match self.available.checked_add(amount) {
            Some(available) => Ok(Self { available, ..*self }),
            None => Err(AccountError::Overflow),
        }
    }

    /// Hold `amount` of the funds: a deposit of that amount is disputed.
    pub fn freeze_funds(&self, amount: Value) -> (r: Result<Self, AccountError>)
        ensures
            agrees(r, self@.freeze_funds(amount)),
            r is Ok <==> writable(self.available@ - amount@) && writable(self.held@ + amount@),
            r is Ok ==> r.unwrap().available@ == self.available@ - amount@ && r.unwrap().held@
                == self.held@ + amount@,
            r is Ok && self@.wf() && amount@ >= 0 ==> r.unwrap()@.wf(),
    {
        proof {
            use_type_invariant(&amount);
            if self@.wf() && amount@ >= 0 && self@.freeze_funds(amount) is Ok {
                lemma_operation_keeps_balances(self@, Operation::FreezeFunds(amount));
            }
        }
        // The client may already have spent what is now disputed: the
        // available balance may go below zero, a debit with the bank.
        match (self.available.checked_sub(amount), self.held.checked_add(amount)) {
            (Some(available), Some(held)) => Ok(Self { available, held, ..*self }),
            _ => Err(AccountError::Overflow),
        }
    }

    /// Give `amount` of the held funds back: a dispute is resolved.
    pub fn release_funds(&self, amount: Value) -> (r: Result<Self, AccountError>)
        ensures
            agrees(r, self@.release_funds(amount)),
            r matches Err(AccountError::NotEnoughFunds) <==> self.held@ < amount@,
            r is Ok <==> self.held@ >= amount@ && writable(self.available@ + amount@)
                && writable(self.held@ - amount@),
            r is Ok ==> r.unwrap().available@ == self.available@ + amount@ && r.unwrap().held@
                == self.held@ - amount@,
            r is Ok && self@.wf() ==> r.unwrap()@.wf(),
    {
        proof {
            use_type_invariant(&amount);
            if self@.wf() && self@.release_funds(amount) is Ok {
                lemma_operation_keeps_balances(self@, Operation::ReleaseFunds(amount));
            }
        }
        if self.held < amount {
            return Err(AccountError::NotEnoughFunds);
        }
        match (self.available.checked_add(amount), self.held.checked_sub(amount)) {
            (Some(available), Some(held)) => Ok(Self { available, held, ..*self }),
            _ => Err(AccountError::Overflow),
        }
    }

    /// Remove `amount` of the held funds: a disputed deposit is reversed.
    pub fn chargeback(&self, amount: Value) -> (r: Result<Self, AccountError>)
        ensures
            agrees(r, self@.chargeback(amount)),
            r matches Err(AccountError::NotEnoughFunds) <==> self.held@ < amount@,
            r is Ok <==> self.held@ >= amount@ && writable(self.held@ - amount@),
            r is Ok ==> r.unwrap().held@ == self.held@ - amount@ && r.unwrap().available
                == self.available,
            r is Ok && self@.wf() ==> r.unwrap()@.wf(),
    {
        proof {
            use_type_invariant(&amount);
            if self@.wf() && self@.chargeback(amount) is Ok {
                lemma_operation_keeps_balances(self@, Operation::Chargeback(amount));
            }
        }
        if self.held < amount {
            return Err(AccountError::NotEnoughFunds);
        }
        match self.held.checked_sub(amount) {
            Some(held) => Ok(Self { held, ..*self }),
            None => Err(AccountError::Overflow),
        }
    }

    /// The same balances in a frozen account.
    pub fn freeze(&self) -> (r: AccountInner<Frozen>)
        ensures
            r@ == self@,
    {
        AccountInner { marker: PhantomData::<Frozen>, held: self.held, available: self.available }
    }
}

impl From<AccountInner<Frozen>> for Account {
    fn from(from: AccountInner<Frozen>) -> (r: Self) {
        Self::Frozen(from)
    }
}

impl FromSpecImpl<AccountInner<Frozen>> for Account {
    open spec fn obeys_from_spec() -> bool {
        true
    }

    open spec fn from_spec(from: AccountInner<Frozen>) -> Self {
        Account::Frozen(from)
    }
}

impl From<AccountInner<Active>> for Account {
    fn from(from: AccountInner<Active>) -> (r: Self) {
        Self::Active(from)
    }
}

impl FromSpecImpl<AccountInner<Active>> for Account {
    open spec fn obeys_from_spec() -> bool {
        true
    }

    open spec fn from_spec(from: AccountInner<Active>) -> Self {
        Account::Active(from)
    }
}

impl Account {
    /// The funds the client may withdraw.
    pub fn available(&self) -> (r: Value)
        ensures
            r == self@.balances.available,
    {
        match self {
            Account::Active(i) => i.available,
            Account::Frozen(i) => i.available,
        }
    }

    /// The funds immobilised by open disputes.
    pub fn held(&self) -> (r: Value)
        ensures
            r == self@.balances.held,
    {
        match self {
            Account::Active(i) => i.held,
            Account::Frozen(i) => i.held,
        }
    }

    /// Whether the account is frozen.
    pub fn locked(&self) -> (r: bool)
        ensures
            r == self@.locked,
    {
        match self {
            Account::Active(_) => false,
            Account::Frozen(_) => true,
        }
    }
}

} // verus!
