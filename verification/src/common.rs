//! The identifiers and the amount type that every module shares.

pub use crate::decimal::Value;
use vstd::prelude::*;

verus! {

/// A client's identifier.
pub type Client = u16;

/// A transaction's identifier.
pub type TxId = u32;

} // verus!
