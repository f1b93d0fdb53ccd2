//! A minimal single-chain ledger: pending transfers are sealed into blocks that
//! are bound together by content hashes, each block admitted only after a
//! proof-of-work search over its header.
//!
//! - [`record`]: transactions, block headers and blocks, with their views.
//! - [`json`]: the canonical text of a record.
//! - [`digest`] and [`hex`]: content hashes as hexadecimal text.
//! - [`merkle`]: the Merkle root of a list of transactions.
//! - [`pow`]: the admission rule and the search for a nonce.
//! - [`chain`]: the ledger, its invariant and its operations.
//! - [`decimal`]: natural numbers as decimal text.
//! - [`random`]: random numbers in a range.

pub mod chain;
mod clock;
pub mod decimal;
pub mod digest;
pub mod hex;
pub mod json;
pub mod merkle;
pub mod pow;
pub mod random;
pub mod record;
