//! A hybrid fungible / non-fungible ledger: whole units of a divisible
//! balance are backed by uniquely identified tokens, kept in step on every
//! transfer. No address ever owns more tokens than its whole units, and
//! reclaimed identifiers are reused before new ones are minted.

pub mod contract;
pub mod error;
pub mod ledger;
pub mod msg;
pub mod query;
pub mod registry;
pub mod units;
