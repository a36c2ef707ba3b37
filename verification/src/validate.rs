use vstd::prelude::*;

use crate::addr::Address;
use crate::authority::derive_of;
use crate::authority::Derived;
use crate::errors::SettleError;
use crate::errors::Slot;
use crate::errors::Violation;
use crate::state::AccountRef;
use crate::state::EscrowRecord;

verus! {

/// The full account set supplied for one settlement call: the initiating
/// taker (the only signing party), the escrow key (maker and seed), the two
/// asset identities, the four participant holding-account slots, and the
/// custody vault.
pub struct Take {
    /// The namespace under which the custody authority is derived.
    pub program: Address,
    /// The initiating, signing party.
    pub taker: Address,
    /// The party who locked the funds; supplies no signature here.
    pub maker: Address,
    /// The maker-chosen escrow seed.
    pub seed: u64,
    pub mint_x: Address,
    pub mint_y: Address,
    pub maker_ata_x: AccountRef,
    pub taker_ata_x: AccountRef,
    pub maker_ata_y: AccountRef,
    pub taker_ata_y: AccountRef,
    pub vault: AccountRef,
}

/// The first violated relationship between the supplied accounts and the
/// escrow record, or `None` when every check passes: asset identities first,
/// then owners, then the custody authority, then the bump.
pub open spec fn account_violation(rec: EscrowRecord, t: Take) -> Option<SettleError> {
    if t.mint_x@ != rec.mint_x@ {
        Some(SettleError::Validation(Violation::AssetMismatch(Slot::MintX)))
    } else if t.mint_y@ != rec.mint_y@ {
        Some(SettleError::Validation(Violation::AssetMismatch(Slot::MintY)))
    } else if t.maker_ata_x.mint@ != rec.mint_x@ {
        Some(SettleError::Validation(Violation::AssetMismatch(Slot::MakerAtaX)))
    } else if t.taker_ata_x.mint@ != rec.mint_x@ {
        Some(SettleError::Validation(Violation::AssetMismatch(Slot::TakerAtaX)))
    } else if t.maker_ata_y.mint@ != rec.mint_y@ {
        Some(SettleError::Validation(Violation::AssetMismatch(Slot::MakerAtaY)))
    } else if t.taker_ata_y.mint@ != rec.mint_y@ {
        Some(SettleError::Validation(Violation::AssetMismatch(Slot::TakerAtaY)))
    } else if t.vault.mint@ != rec.mint_x@ {
        Some(SettleError::Validation(Violation::AssetMismatch(Slot::Vault)))
    } else if t.maker_ata_x.owner@ != rec.maker@ {
        Some(SettleError::Validation(Violation::OwnerMismatch(Slot::MakerAtaX)))
    } else if t.taker_ata_x.owner@ != t.taker@ {
        Some(SettleError::Validation(Violation::OwnerMismatch(Slot::TakerAtaX)))
    } else if t.maker_ata_y.owner@ != rec.maker@ {
        Some(SettleError::Validation(Violation::OwnerMismatch(Slot::MakerAtaY)))
    } else if t.taker_ata_y.owner@ != t.taker@ {
        Some(SettleError::Validation(Violation::OwnerMismatch(Slot::TakerAtaY)))
    } else {
        match derive_of(t.program@, rec.maker@, rec.seed) {
            None => Some(SettleError::DerivationMismatch),
            Some(p) => {
                if t.vault.owner@ != p.0 {
                    Some(SettleError::Validation(Violation::AuthorityMismatch))
                } else if rec.bump != p.1 {
                    Some(SettleError::Validation(Violation::BumpMismatch))
                } else {
                    None
                }
            },
        }
    }
}

/// Cross-checks every supplied account against the relationships the escrow
/// record implies, before any transfer executes. Returns the recomputed
/// custody authority on success, and the first violation otherwise.
pub fn check_accounts(rec: &EscrowRecord, t: &Take) -> (r: Result<Derived, SettleError>)
    requires
        t.program.wf(),
    ensures
        r is Ok <==> account_violation(*rec, *t) is None,
        (r matches Err(e) ==> account_violation(*rec, *t) == Some(e)),
        (r matches Ok(d) ==> {
            &&& derive_of(t.program@, rec.maker@, rec.seed) == Some((d.address@, d.bump))
            &&& d.address.wf()
            &&& d.bump == rec.bump
            &&& t.vault.owner@ == d.address@
            &&& t.vault.mint@ == rec.mint_x@
        }),
{
    if !t.mint_x.eq_addr(&rec.mint_x) {
        return Err(SettleError::Validation(Violation::AssetMismatch(Slot::MintX)));
    }
    if !t.mint_y.eq_addr(&rec.mint_y) {
        return Err(SettleError::Validation(Violation::AssetMismatch(Slot::MintY)));
    }
    if !t.maker_ata_x.mint.eq_addr(&rec.mint_x) {
        return Err(SettleError::Validation(Violation::AssetMismatch(Slot::MakerAtaX)));
    }
    if !t.taker_ata_x.mint.eq_addr(&rec.mint_x) {
        return Err(SettleError::Validation(Violation::AssetMismatch(Slot::TakerAtaX)));
    }
    if !t.maker_ata_y.mint.eq_addr(&rec.mint_y) {
        return Err(SettleError::Validation(Violation::AssetMismatch(Slot::MakerAtaY)));
    }
    if !t.taker_ata_y.mint.eq_addr(&rec.mint_y) {
        return Err(SettleError::Validation(Violation::AssetMismatch(Slot::TakerAtaY)));
    }
    if !t.vault.mint.eq_addr(&rec.mint_x) {
        return Err(SettleError::Validation(Violation::AssetMismatch(Slot::Vault)));
    }
    if !t.maker_ata_x.owner.eq_addr(&rec.maker) {
        return Err(SettleError::Validation(Violation::OwnerMismatch(Slot::MakerAtaX)));
    }
    if !t.taker_ata_x.owner.eq_addr(&t.taker) {
        return Err(SettleError::Validation(Violation::OwnerMismatch(Slot::TakerAtaX)));
    }
    if !t.maker_ata_y.owner.eq_addr(&rec.maker) {
        return Err(SettleError::Validation(Violation::OwnerMismatch(Slot::MakerAtaY)));
    }
    if !t.taker_ata_y.owner.eq_addr(&t.taker) {
        return Err(SettleError::Validation(Violation::OwnerMismatch(Slot::TakerAtaY)));
    }
    match crate::authority::derive(&t.program, &rec.maker, rec.seed) {
        None => Err(SettleError::DerivationMismatch),
        Some(d) => {
            if !t.vault.owner.eq_addr(&d.address) {
                Err(SettleError::Validation(Violation::AuthorityMismatch))
            } else if rec.bump != d.bump {
                Err(SettleError::Validation(Violation::BumpMismatch))
            } else {
                Ok(d)
            }
        },
    }
}

} // verus!
