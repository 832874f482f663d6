//! The five kinds of transaction, and the check that turns a decoded row
//! into one.

use crate::common::{Client, TxId, Value};
use vstd::prelude::*;
use vstd::std_specs::convert::TryFromSpecImpl;

verus! {

/// One event of the stream.
#[derive(Clone, Copy, Debug, PartialEq)]
pub enum Transaction {
    /// Credit the client with an amount that is not negative.
    Deposit { client: Client, tx_id: TxId, value: Value },
    /// Debit the client by an amount that is not negative.
    Withdrawal { client: Client, tx_id: TxId, value: Value },
    /// Put a deposit of the client under dispute.
    Dispute { tx_id: TxId, client: Client },
    /// Close the dispute of a deposit in the client's favour.
    Resolve { tx_id: TxId, client: Client },
    /// Close the dispute of a deposit by reversing the deposit.
    Chargeback { tx_id: TxId, client: Client },
}

impl Transaction {
    /// The client the transaction is about.
    pub open spec fn spec_client(self) -> Client {
        match self {
            Transaction::Deposit { client, .. } => client,
            Transaction::Withdrawal { client, .. } => client,
            Transaction::Dispute { client, .. } => client,
            Transaction::Resolve { client, .. } => client,
            Transaction::Chargeback { client, .. } => client,
        }
    }

    /// The amount, for the two kinds that carry one.
    pub open spec fn spec_value(self) -> Option<Value> {
        match self {
            Transaction::Deposit { value, .. } => Some(value),
            Transaction::Withdrawal { value, .. } => Some(value),
            _ => None,
        }
    }

    /// The transaction's own identifier, or that of the deposit it refers to.
    pub open spec fn spec_tx_id(self) -> TxId {
        match self {
            Transaction::Deposit { tx_id, .. } => tx_id,
            Transaction::Withdrawal { tx_id, .. } => tx_id,
            Transaction::Dispute { tx_id, .. } => tx_id,
            Transaction::Resolve { tx_id, .. } => tx_id,
            Transaction::Chargeback { tx_id, .. } => tx_id,
        }
    }

    /// Every amount in it is one that a program can hold.
    pub open spec fn wf(self) -> bool {
        match self.spec_value() {
            Some(value) => value.wf(),
            None => true,
        }
    }

    /// The client the transaction is about.
    pub fn client(&self) -> (r: Client)
        ensures
            r == self.spec_client(),
    {
        match self {
            Self::Deposit { client, .. }
            | Self::Withdrawal { client, .. }
            | Self::Dispute { client, .. }
            | Self::Resolve { client, .. }
            | Self::Chargeback { client, .. } => *client,
        }
    }

    /// The amount, for a deposit or a withdrawal.
    pub fn value(&self) -> (r: Option<Value>)
        ensures
            r == self.spec_value(),
    {
        match self {
            Self::Deposit { value, .. } | Self::Withdrawal { value, .. } => Some(*value),
            _ => None,
        }
    }

    /// The transaction's own identifier, or that of the deposit it refers
    /// to.
    pub fn tx_id(&self) -> (r: TxId)
        ensures
            r == self.spec_tx_id(),
    {
        match self {
            Self::Deposit { tx_id, .. }
            | Self::Withdrawal { tx_id, .. }
            | Self::Dispute { tx_id, .. }
            | Self::Resolve { tx_id, .. }
            | Self::Chargeback { tx_id, .. } => *tx_id,
        }
    }
}

/// The kind written in a row's first column.
#[derive(Debug, Clone, Copy, PartialEq, Eq, Structural)]
pub enum TType {
    Deposit,
    Withdrawal,
    Dispute,
    Resolve,
    Chargeback,
}

/// A row as it is decoded, before its kind and its amount are held against
/// each other.
#[derive(Debug, Clone, Copy)]
pub struct TransactionCompatCsv {
    pub kind: TType,
    pub client: Client,
    pub tx: TxId,
    pub amount: Option<Value>,
}

/// Why a decoded row is no transaction.
#[derive(Debug, Clone, Copy, PartialEq, Eq, Structural)]
pub enum InvalidData {
    /// A deposit or a withdrawal without an amount.
    MissingAmount,
    /// A dispute, a resolve or a chargeback with an amount.
    UnexpectedAmount,
    /// A deposit or a withdrawal of less than zero.
    NegativeAmount,
}

/// The transaction that a decoded row stands for, or why it stands for none.
pub open spec fn checked_row(tx: TransactionCompatCsv) -> Result<Transaction, InvalidData> {
    match (tx.kind, tx.amount) {
        (TType::Deposit, Some(value)) => if value@ >= 0 {
            Ok(Transaction::Deposit { client: tx.client, tx_id: tx.tx, value })
        } else {
            Err(InvalidData::NegativeAmount)
        },
        (TType::Withdrawal, Some(value)) => if value@ >= 0 {
            Ok(Transaction::Withdrawal { client: tx.client, tx_id: tx.tx, value })
        } else {
            Err(InvalidData::NegativeAmount)
        },
        (TType::Deposit, None) => Err(InvalidData::MissingAmount),
        (TType::Withdrawal, None) => Err(InvalidData::MissingAmount),
        (TType::Dispute, None) => Ok(Transaction::Dispute { client: tx.client, tx_id: tx.tx }),
        (TType::Resolve, None) => Ok(Transaction::Resolve { client: tx.client, tx_id: tx.tx }),
        (TType::Chargeback, None) => Ok(
            Transaction::Chargeback { client: tx.client, tx_id: tx.tx },
        ),
        (_, Some(_)) => Err(InvalidData::UnexpectedAmount),
    }
}

impl TryFrom<TransactionCompatCsv> for Transaction {
    type Error = InvalidData;

    fn try_from(tx: TransactionCompatCsv) -> (r: Result<Self, Self::Error>) {
        match (tx.kind, tx.amount) {
            (TType::Deposit, Some(value)) => {
                if value >= Value::zero() {
                    Ok(Transaction::Deposit { client: tx.client, tx_id: tx.tx, value })
                } else {
                    Err(InvalidData::NegativeAmount)
                }
            },
            (TType::Withdrawal, Some(value)) => {
                if value >= Value::zero() {
                    Ok(Transaction::Withdrawal { client: tx.client, tx_id: tx.tx, value })
                } else {
                    Err(InvalidData::NegativeAmount)
                }
            },
            (TType::Deposit, None) | (TType::Withdrawal, None) => Err(InvalidData::MissingAmount),
            (TType::Dispute, None) => Ok(Transaction::Dispute { client: tx.client, tx_id: tx.tx }),
            (TType::Resolve, None) => Ok(Transaction::Resolve { client: tx.client, tx_id: tx.tx }),
            (TType::Chargeback, None) => Ok(
                Transaction::Chargeback { client: tx.client, tx_id: tx.tx },
            ),
            (_, Some(_)) => Err(InvalidData::UnexpectedAmount),
        }
    }
}

impl TryFromSpecImpl<TransactionCompatCsv> for Transaction {
    open spec fn obeys_try_from_spec() -> bool {
        true
    }

    open spec fn try_from_spec(tx: TransactionCompatCsv) -> Result<Self, Self::Error> {
        checked_row(tx)
    }
}

} // verus!
