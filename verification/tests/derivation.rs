use escrow_settlement::addr::Address;
use escrow_settlement::authority::prove;
use escrow_settlement::errors::SettleError;

fn addr(b: u8) -> Address {
    Address { bytes: vec![b; 32] }
}

#[test]
fn derive_is_deterministic() {
    let program = addr(9);
    let maker = addr(1);
    let d1 = escrow_settlement::authority::derive(&program, &maker, 7).expect("derivation should succeed");
    let d2 = escrow_settlement::authority::derive(&program, &maker, 7).expect("derivation should succeed");
    assert_eq!(d1.address.bytes, d2.address.bytes);
    assert_eq!(d1.bump, d2.bump);
}

#[test]
fn derived_address_is_a_fresh_identity() {
    let program = addr(9);
    let maker = addr(1);
    let d = escrow_settlement::authority::derive(&program, &maker, 7).expect("derivation should succeed");
    assert_eq!(d.address.bytes.len(), 32);
    assert_ne!(d.address.bytes, maker.bytes);
    assert_ne!(d.address.bytes, program.bytes);
}

#[test]
fn distinct_seeds_give_distinct_authorities() {
    let program = addr(9);
    let maker = addr(1);
    let d1 = escrow_settlement::authority::derive(&program, &maker, 7).expect("derivation should succeed");
    let d2 = escrow_settlement::authority::derive(&program, &maker, 8).expect("derivation should succeed");
    assert_ne!(d1.address.bytes, d2.address.bytes);
}

#[test]
fn prove_succeeds_iff_bump_matches() {
    let program = addr(9);
    let maker = addr(1);
    let d = escrow_settlement::authority::derive(&program, &maker, 7).expect("derivation should succeed");
    let ok = prove(&program, &maker, 7, d.bump);
    assert!(ok.is_ok());
    assert_eq!(ok.unwrap().authority().bytes, d.address.bytes);
    let bad = prove(&program, &maker, 7, d.bump.wrapping_add(1));
    assert!(matches!(bad, Err(SettleError::DerivationMismatch)));
}
