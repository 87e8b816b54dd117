//! A small proof-of-work ledger: hash-chained blocks mined against an
//! adaptive difficulty target, a longest-valid-chain replacement rule, and
//! signed, balance-conserving transfer records.

pub mod block;
pub mod blockchain;
pub mod encoding;
pub mod hashing;
mod utils;
pub mod transaction;
pub mod wallet;
