use std::path::PathBuf;
use vstd::prelude::*;

verus! {

/// Declares `std::path::PathBuf` so that the configuration types below can
/// hold one; nothing here looks inside it.
#[verifier::external_type_specification]
#[verifier::external_body]
pub struct ExPathBuf(PathBuf);

/// Where a wallet keeps one key pair.
pub struct Key {
    pub public: PathBuf,
    pub private: PathBuf,
}

/// A named contact and the file holding their public key.
pub struct Recipient {
    pub name: String,
    pub key: PathBuf,
}

/// How a wallet's fee setting is read: a fixed amount, or a share of the amount sent.
#[derive(Clone, Copy, Debug, PartialEq, Eq, Structural)]
pub enum FeeType {
    Fixed,
    Percent,
}

} // verus!
