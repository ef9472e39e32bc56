//! A proof-of-work ledger: digests, Merkle roots, blocks, transactions, the
//! unspent-output set, block acceptance, difficulty retargeting and chain
//! selection.
//!
//! - `u256`, `sha256`: 256-bit numbers and SHA-256 digests read as numbers.
//! - `types`, `util`: the data model, its canonical byte encoding and the
//!   Merkle root over a block's transactions.
//! - `utxo`: the unspent outputs, keyed by digest.
//! - `validation`: the checks on a block's transactions.
//! - `chain`: block acceptance, replay of the unspent set, chain adoption.
//! - `difficulty`: retargeting from the timestamps of a window of blocks.
//! - `sync`: peer selection and the synchronisation sequence.
//!
//! New value enters only through a block's first transaction when it spends
//! nothing (an issuance transaction), up to the chain's block reward; every
//! other transaction must not be worth more than what it spends. The unspent
//! set is always what replaying the blocks from an empty set gives.
pub mod u256;
pub mod sha256;
pub mod crypto;
pub mod types;
pub mod util;
pub mod utxo;
pub mod error;
pub mod validation;
pub mod chain;
pub mod difficulty;
pub mod sync;
pub mod wallet;
