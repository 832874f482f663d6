//! A stream payments engine: deposits, withdrawals and the dispute lifecycle
//! applied to client accounts, sharded by client.
//!
//! * [`decimal`], [`compare`], [`operators`], [`text`]: exact decimal
//!   amounts, their order, their sums, and their written form.
//! * [`account`]: the balances of a client and what can be done to them.
//! * [`transaction`]: the five kinds of transaction.
//! * [`store`]: the records of the deposits that can still be disputed,
//!   kept in an embedded database ([`db`]).
//! * [`engine`]: the shards, each with its accounts ([`table`]) and its
//!   store, and the engine that routes transactions to them.
//! * [`report`]: the rows of the final summary.
//! * [`ledger`]: what a shard holds and what a transaction makes of it, as
//!   the contracts of the engine speak of them.
//! * [`laws`], [`sharding`]: what is proved of the engine whatever the
//!   stream.

pub mod account;
pub mod common;
pub mod compare;
pub mod db;
pub mod decimal;
pub mod engine;
pub mod laws;
pub mod ledger;
pub mod operators;
pub mod report;
pub mod sharding;
pub mod store;
pub mod table;
pub mod text;
pub mod transaction;
