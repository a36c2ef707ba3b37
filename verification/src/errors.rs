use vstd::prelude::*;

verus! {

/// Which supplied account slot a validation failure is about.
#[derive(Clone, Copy, Debug, PartialEq, Eq, Structural)]
pub enum Slot {
    MintX,
    MintY,
    MakerAtaX,
    TakerAtaX,
    MakerAtaY,
    TakerAtaY,
    Vault,
}

/// A validation failure: which relationship between the supplied accounts and
/// the escrow record was violated. Raised before any balance changes.
#[derive(Clone, Copy, Debug, PartialEq, Eq, Structural)]
pub enum Violation {
    /// A slot carries the wrong asset kind.
    AssetMismatch(Slot),
    /// A slot belongs to the wrong owner.
    OwnerMismatch(Slot),
    /// The vault is not controlled by the derived custody authority.
    AuthorityMismatch,
    /// The record's stored bump disagrees with the recomputed one.
    BumpMismatch,
}

/// Everything the settlement path can fail with.
#[derive(Clone, Copy, Debug, PartialEq, Eq, Structural)]
pub enum SettleError {
    /// An account relationship check failed; nothing was mutated.
    Validation(Violation),
    /// A transfer leg would overdraw its source account.
    InsufficientFunds,
    /// The escrow record or the custody vault no longer exists.
    NotFound,
    /// The custody authority could not be re-derived at all, or a supplied
    /// bump disagrees with the freshly recomputed one: a corrupted or forged
    /// record.
    DerivationMismatch,
}

} // verus!
