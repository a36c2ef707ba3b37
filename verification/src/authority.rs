use vstd::prelude::*;

use crate::addr::Address;
use crate::errors::SettleError;

verus! {

/// What `solana_pubkey::Pubkey::try_find_program_address` returns for the
/// given seed slices and program identity: a pure function of those inputs
/// alone. `Some((address, bump))` names the derived authority, an address
/// guaranteed to have no corresponding private key, together with the largest
/// disambiguation value that produces such an address.
pub uninterp spec fn pda_of(seeds: Seq<Seq<u8>>, program: Seq<u8>) -> Option<(Seq<u8>, u8)>;

/// Relies on `solana_pubkey::Pubkey::try_find_program_address`: the result is
/// a pure function of the seed slices and the program identity, the call never
/// panics, and a returned address is exactly 32 bytes.
#[verifier::external_body]
fn try_find_pda(seeds: &Vec<Vec<u8>>, program: &Vec<u8>) -> (r: Option<(Vec<u8>, u8)>)
    requires
        program@.len() == 32,
    ensures
        (match r {
            Some(p) => Some((p.0@, p.1)),
            None => None,
        }) == pda_of(seeds.deep_view(), program@),
        (r matches Some(p) ==> p.0@.len() == 32),
{
    let arr: [u8; 32] = program.as_slice().try_into().unwrap();
    let pid = solana_pubkey::Pubkey::new_from_array(arr);
    let slices: Vec<&[u8]> = seeds.iter().map(|s| s.as_slice()).collect();
    solana_pubkey::Pubkey::try_find_program_address(&slices, &pid)
        .map(|(a, b)| (a.to_bytes().to_vec(), b))
}

/// The namespace tag under which custody authorities are derived: the bytes
/// of "escrow".
pub open spec fn escrow_tag() -> Seq<u8> {
    seq![101u8, 115u8, 99u8, 114u8, 111u8, 119u8]
}

fn escrow_tag_bytes() -> (r: Vec<u8>)
    ensures
        r@ == escrow_tag(),
{
    let mut v: Vec<u8> = Vec::new();
    v.push(101u8);
    v.push(115u8);
    v.push(99u8);
    v.push(114u8);
    v.push(111u8);
    v.push(119u8);
    proof {
        assert(v@ =~= escrow_tag());
    }
    v
}

/// The maker-chosen seed, serialized little-endian on 8 bytes.
pub open spec fn le_bytes64(n: u64) -> Seq<u8> {
    seq![
        (n & 0xff) as u8,
        ((n >> 8) & 0xff) as u8,
        ((n >> 16) & 0xff) as u8,
        ((n >> 24) & 0xff) as u8,
        ((n >> 32) & 0xff) as u8,
        ((n >> 40) & 0xff) as u8,
        ((n >> 48) & 0xff) as u8,
        ((n >> 56) & 0xff) as u8,
    ]
}

fn le_bytes64_of(n: u64) -> (r: Vec<u8>)
    ensures
        r@ == le_bytes64(n),
{
    let mut v: Vec<u8> = Vec::new();
    v.push((n & 0xff) as u8);
    v.push(((n >> 8) & 0xff) as u8);
    v.push(((n >> 16) & 0xff) as u8);
    v.push(((n >> 24) & 0xff) as u8);
    v.push(((n >> 32) & 0xff) as u8);
    v.push(((n >> 40) & 0xff) as u8);
    v.push(((n >> 48) & 0xff) as u8);
    v.push(((n >> 56) & 0xff) as u8);
    proof {
        assert(v@ =~= le_bytes64(n));
    }
    v
}

/// The derivation input for an escrow authority: the namespace tag, the
/// maker's identity, and the maker-chosen seed.
pub open spec fn derivation_seeds(maker: Seq<u8>, seed: u64) -> Seq<Seq<u8>> {
    seq![escrow_tag(), maker, le_bytes64(seed)]
}

/// The derived custody authority for `(program, maker, seed)`, with its bump.
/// Deterministic: a pure function of its three inputs.
pub open spec fn derive_of(program: Seq<u8>, maker: Seq<u8>, seed: u64) -> Option<(Seq<u8>, u8)> {
    pda_of(derivation_seeds(maker, seed), program)
}

/// A derived custody authority together with its disambiguation bump.
pub struct Derived {
    pub address: Address,
    pub bump: u8,
}

/// Computes the deterministic custody authority for `(program, maker, seed)`.
/// No private key exists for the returned address; operations as it require a
/// recomputation-based proof (see `prove`).
pub fn derive(program: &Address, maker: &Address, seed: u64) -> (r: Option<Derived>)
    requires
        program.wf(),
    ensures
        (match r {
            Some(d) => Some((d.address@, d.bump)),
            None => None,
        }) == derive_of(program@, maker@, seed),
        (r matches Some(d) ==> d.address.wf()),
{
    let mut seeds: Vec<Vec<u8>> = Vec::new();
    seeds.push(escrow_tag_bytes());
    seeds.push(maker.to_bytes());
    seeds.push(le_bytes64_of(seed));
    proof {
        assert(seeds.deep_view() =~~= derivation_seeds(maker@, seed));
    }
    match try_find_pda(&seeds, &program.bytes) {
        Some((a, b)) => Some(Derived { address: Address { bytes: a }, bump: b }),
        None => None,
    }
}

/// A capability to act as the derived custody authority, handed out only by
/// `prove` after a successful re-derivation. It is consumed by the transfer
/// it authorizes.
pub struct SigningCapability {
    authority: Address,
    bump: u8,
}

impl SigningCapability {
    /// The authority this capability may sign for.
    pub closed spec fn authority_view(&self) -> Seq<u8> {
        self.authority@
    }

    /// The bump that was re-verified when this capability was produced.
    pub closed spec fn bump_of(&self) -> u8 {
        self.bump
    }

    /// The authority this capability may sign for.
    pub fn authority(&self) -> (r: &Address)
        ensures
            r@ == self.authority_view(),
    {
        &self.authority
    }
}

/// Re-derives the custody authority from `(program, maker, seed)` and compares
/// the supplied bump against the freshly recomputed one. Succeeds if and only
/// if they match; a mismatch (or a failed derivation) signals a corrupted or
/// forged record, and no capability is handed out.
pub fn prove(program: &Address, maker: &Address, seed: u64, bump: u8) -> (r: Result<
    SigningCapability,
    SettleError,
>)
    requires
        program.wf(),
    ensures
        r is Ok <==> (derive_of(program@, maker@, seed) matches Some(p) && p.1 == bump),
        (r matches Ok(c) ==> derive_of(program@, maker@, seed) == Some((c.authority_view(), bump))
            && c.bump_of() == bump && c.authority_view().len() == 32),
        (r is Err ==> r == Err::<SigningCapability, SettleError>(SettleError::DerivationMismatch)),
{
    match derive(program, maker, seed) {
        None => Err(SettleError::DerivationMismatch),
        Some(d) => {
            if d.bump == bump {
                Ok(SigningCapability { authority: d.address, bump })
            } else {
                Err(SettleError::DerivationMismatch)
            }
        },
    }
}

/// The derivation is deterministic: any two results of `derive` on identical
/// inputs describe the identical `(address, bump)` pair.
pub proof fn lemma_derive_deterministic(
    program: &Address,
    maker: &Address,
    seed: u64,
    r1: Option<Derived>,
    r2: Option<Derived>,
)
    requires
        call_ensures(derive, (program, maker, seed), r1),
        call_ensures(derive, (program, maker, seed), r2),
    ensures
        (match r1 {
            Some(d) => Some((d.address@, d.bump)),
            None => None,
        }) == (match r2 {
            Some(d) => Some((d.address@, d.bump)),
            None => None::<(Seq<u8>, u8)>,
        }),
{
}

} // verus!
