use vstd::prelude::*;

verus! {

/// Why a block, a download or a stored chain was refused.
#[derive(Clone, Copy, Debug, PartialEq, Eq, Structural)]
pub enum BtcError {
    /// Wrong predecessor, too little work, or a timestamp that does not advance.
    InvalidBlock,
    /// The header's Merkle root does not match the transactions.
    InvalidMerkleRoot,
    /// An unknown or twice-spent input, outputs worth more than inputs, or no transactions.
    InvalidTransaction,
    /// A signature that does not verify against the spent output's key.
    InvalidSignature,
    /// No peer could be reached, or a download was short.
    SyncFailure,
    /// A stored chain could not be read.
    PersistenceFailure,
}

} // verus!
