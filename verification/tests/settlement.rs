use escrow_settlement::addr::Address;
use escrow_settlement::errors::SettleError;
use escrow_settlement::errors::Slot;
use escrow_settlement::errors::Violation;
use escrow_settlement::state::AccountRef;
use escrow_settlement::state::Authorization;
use escrow_settlement::state::EscrowRecord;
use escrow_settlement::state::HoldingAccount;
use escrow_settlement::state::Ledger;
use escrow_settlement::state::Wallet;
use escrow_settlement::state::HOLDING_ACCOUNT_RENT;
use escrow_settlement::validate::Take;

const RECORD_RENT: u64 = 1_500_000;

fn addr(b: u8) -> Address {
    Address { bytes: vec![b; 32] }
}

fn aref(owner: &Address, mint: &Address) -> AccountRef {
    AccountRef { owner: owner.dup(), mint: mint.dup() }
}

fn acct(owner: &Address, mint: &Address, balance: u64) -> HoldingAccount {
    HoldingAccount { owner: owner.dup(), mint: mint.dup(), balance }
}

/// A maker locked `vault_balance` of X under seed 7, asking `receive_amount`
/// of Y; the taker holds `taker_y` of Y and no X.
fn setup(vault_balance: u64, taker_y: u64, receive_amount: u64) -> (Ledger, Take) {
    let program = addr(9);
    let maker = addr(1);
    let taker = addr(2);
    let mint_x = addr(3);
    let mint_y = addr(4);
    let d = escrow_settlement::authority::derive(&program, &maker, 7).expect("derivation should succeed");
    let ledger = Ledger {
        tokens: vec![
            acct(&d.address, &mint_x, vault_balance),
            acct(&taker, &mint_y, taker_y),
        ],
        escrows: vec![EscrowRecord {
            maker: maker.dup(),
            seed: 7,
            mint_x: mint_x.dup(),
            mint_y: mint_y.dup(),
            receive_amount,
            bump: d.bump,
            rent: RECORD_RENT,
        }],
        wallets: vec![Wallet { owner: taker.dup(), lamports: 3 * HOLDING_ACCOUNT_RENT }],
    };
    let t = Take {
        program: program.dup(),
        taker: taker.dup(),
        maker: maker.dup(),
        seed: 7,
        mint_x: mint_x.dup(),
        mint_y: mint_y.dup(),
        maker_ata_x: aref(&maker, &mint_x),
        taker_ata_x: aref(&taker, &mint_x),
        maker_ata_y: aref(&maker, &mint_y),
        taker_ata_y: aref(&taker, &mint_y),
        vault: aref(&d.address, &mint_x),
    };
    (ledger, t)
}

fn balances(l: &Ledger, t: &Take) -> (Option<u64>, Option<u64>, Option<u64>, Option<u64>) {
    (
        l.token_balance(&t.vault.owner, &t.mint_x),
        l.token_balance(&t.taker, &t.mint_x),
        l.token_balance(&t.taker, &t.mint_y),
        l.token_balance(&t.maker, &t.mint_y),
    )
}

#[test]
fn full_swap_scenario() {
    let (mut l, t) = setup(100, 50, 50);
    assert!(t.take(&mut l).is_ok());
    let (vault, taker_x, taker_y, maker_y) = balances(&l, &t);
    assert_eq!(vault, Some(0));
    assert_eq!(taker_x, Some(100));
    assert_eq!(taker_y, Some(0));
    assert_eq!(maker_y, Some(50));
    assert!(l.load(&t.maker, 7).is_none());
}

#[test]
fn conservation_leaves_bystanders_alone() {
    let (mut l, t) = setup(100, 80, 50);
    let other = addr(5);
    l.tokens.push(acct(&other, &t.mint_y, 7));
    l.tokens.push(acct(&t.maker, &t.mint_x, 11));
    assert!(t.take(&mut l).is_ok());
    assert_eq!(l.token_balance(&other, &t.mint_y), Some(7));
    assert_eq!(l.token_balance(&t.maker, &t.mint_x), Some(11));
    let (vault, taker_x, taker_y, maker_y) = balances(&l, &t);
    assert_eq!(vault, Some(0));
    assert_eq!(taker_x, Some(100));
    assert_eq!(taker_y, Some(30));
    assert_eq!(maker_y, Some(50));
}

#[test]
fn insufficient_taker_funds() {
    let (mut l, t) = setup(100, 30, 50);
    let r = t.take(&mut l);
    assert!(matches!(r, Err(SettleError::InsufficientFunds)));
    let (vault, taker_x, taker_y, maker_y) = balances(&l, &t);
    assert_eq!(vault, Some(100));
    assert_eq!(taker_x, None);
    assert_eq!(taker_y, Some(30));
    assert_eq!(maker_y, None);
    assert!(l.load(&t.maker, 7).is_some());
}

#[test]
fn second_take_finds_nothing() {
    let (mut l, t) = setup(100, 50, 50);
    assert!(t.take(&mut l).is_ok());
    let r = t.take(&mut l);
    assert!(matches!(r, Err(SettleError::NotFound)));
    let (vault, taker_x, taker_y, maker_y) = balances(&l, &t);
    assert_eq!(vault, Some(0));
    assert_eq!(taker_x, Some(100));
    assert_eq!(taker_y, Some(0));
    assert_eq!(maker_y, Some(50));
}

#[test]
fn unknown_escrow_key_not_found() {
    let (mut l, mut t) = setup(100, 50, 50);
    t.seed = 8;
    assert!(matches!(t.take(&mut l), Err(SettleError::NotFound)));
}

fn expect_rejected(l: &mut Ledger, t: &Take, expected: Violation) {
    let before = balances(l, t);
    let r = t.take(l);
    assert_eq!(r, Err(SettleError::Validation(expected)));
    assert_eq!(balances(l, t), before);
    assert!(l.load(&t.maker, 7).is_some());
}

#[test]
fn wrong_asset_on_each_slot_rejected() {
    let (mut l, t0) = setup(100, 50, 50);
    let stranger_mint = addr(8);

    let mut t = setup(100, 50, 50).1;
    t.mint_x = stranger_mint.dup();
    expect_rejected(&mut l, &t, Violation::AssetMismatch(Slot::MintX));

    t = setup(100, 50, 50).1;
    t.mint_y = stranger_mint.dup();
    expect_rejected(&mut l, &t, Violation::AssetMismatch(Slot::MintY));

    t = setup(100, 50, 50).1;
    t.maker_ata_x.mint = t0.mint_y.dup();
    expect_rejected(&mut l, &t, Violation::AssetMismatch(Slot::MakerAtaX));

    t = setup(100, 50, 50).1;
    t.taker_ata_x.mint = t0.mint_y.dup();
    expect_rejected(&mut l, &t, Violation::AssetMismatch(Slot::TakerAtaX));

    t = setup(100, 50, 50).1;
    t.maker_ata_y.mint = t0.mint_x.dup();
    expect_rejected(&mut l, &t, Violation::AssetMismatch(Slot::MakerAtaY));

    t = setup(100, 50, 50).1;
    t.taker_ata_y.mint = t0.mint_x.dup();
    expect_rejected(&mut l, &t, Violation::AssetMismatch(Slot::TakerAtaY));

    t = setup(100, 50, 50).1;
    t.vault.mint = t0.mint_y.dup();
    expect_rejected(&mut l, &t, Violation::AssetMismatch(Slot::Vault));
}

#[test]
fn wrong_owner_on_each_slot_rejected() {
    let (mut l, t0) = setup(100, 50, 50);

    let mut t = setup(100, 50, 50).1;
    t.maker_ata_x.owner = t0.taker.dup();
    expect_rejected(&mut l, &t, Violation::OwnerMismatch(Slot::MakerAtaX));

    t = setup(100, 50, 50).1;
    t.taker_ata_x.owner = t0.maker.dup();
    expect_rejected(&mut l, &t, Violation::OwnerMismatch(Slot::TakerAtaX));

    t = setup(100, 50, 50).1;
    t.maker_ata_y.owner = t0.taker.dup();
    expect_rejected(&mut l, &t, Violation::OwnerMismatch(Slot::MakerAtaY));

    t = setup(100, 50, 50).1;
    t.taker_ata_y.owner = t0.maker.dup();
    expect_rejected(&mut l, &t, Violation::OwnerMismatch(Slot::TakerAtaY));
}

#[test]
fn vault_authority_mismatch_rejected() {
    let (mut l, mut t) = setup(100, 50, 50);
    t.vault.owner = t.maker.dup();
    expect_rejected(&mut l, &t, Violation::AuthorityMismatch);
}

#[test]
fn corrupted_bump_rejected() {
    let (mut l, t) = setup(100, 50, 50);
    let bump = l.escrows[0].bump;
    l.escrows[0].bump = bump.wrapping_add(1);
    let before = balances(&l, &t);
    let r = t.take(&mut l);
    assert_eq!(r, Err(SettleError::Validation(Violation::BumpMismatch)));
    assert_eq!(balances(&l, &t), before);
}

#[test]
fn missing_vault_not_found() {
    let (mut l, t) = setup(100, 50, 50);
    l.tokens.remove(0);
    let r = t.take(&mut l);
    assert!(matches!(r, Err(SettleError::NotFound)));
    assert_eq!(l.token_balance(&t.taker, &t.mint_y), Some(50));
    assert!(l.load(&t.maker, 7).is_some());
}

#[test]
fn transfer_requires_valid_signer() {
    let (mut l, t) = setup(100, 50, 50);
    let from = aref(&t.taker, &t.mint_y);
    let to = aref(&t.maker, &t.mint_y);
    l.ensure_account(&t.maker, &t.mint_y);
    let r = l.transfer(&from, &to, &t.mint_y, 10, Authorization::Direct(t.maker.dup()));
    assert_eq!(r, Err(SettleError::Validation(Violation::AuthorityMismatch)));
    assert_eq!(l.token_balance(&t.taker, &t.mint_y), Some(50));

    let r = l.transfer(&from, &to, &t.mint_y, 10, Authorization::Direct(t.taker.dup()));
    assert!(r.is_ok());
    assert_eq!(l.token_balance(&t.taker, &t.mint_y), Some(40));
    assert_eq!(l.token_balance(&t.maker, &t.mint_y), Some(10));
}

#[test]
fn transfer_fails_not_clamps() {
    let (mut l, t) = setup(100, 50, 50);
    let from = aref(&t.taker, &t.mint_y);
    let to = aref(&t.maker, &t.mint_y);
    let r = l.transfer(&from, &to, &t.mint_y, 10, Authorization::Direct(t.taker.dup()));
    assert!(matches!(r, Err(SettleError::NotFound)));
    l.ensure_account(&t.maker, &t.mint_y);
    let r = l.transfer(&from, &to, &t.mint_y, 51, Authorization::Direct(t.taker.dup()));
    assert!(matches!(r, Err(SettleError::InsufficientFunds)));
    assert_eq!(l.token_balance(&t.taker, &t.mint_y), Some(50));
    assert_eq!(l.token_balance(&t.maker, &t.mint_y), Some(0));
}

#[test]
fn ensure_account_is_idempotent() {
    let (mut l, t) = setup(100, 50, 50);
    l.ensure_account(&t.taker, &t.mint_y);
    assert_eq!(l.token_balance(&t.taker, &t.mint_y), Some(50));
    l.ensure_account(&t.maker, &t.mint_y);
    l.ensure_account(&t.maker, &t.mint_y);
    assert_eq!(l.token_balance(&t.maker, &t.mint_y), Some(0));
}

#[test]
fn creation_cost_falls_on_the_taker() {
    let (mut l, t) = setup(100, 50, 50);
    assert!(t.take(&mut l).is_ok());
    // both receiving accounts were missing: two storage deposits were paid
    assert_eq!(l.wallet_balance(&t.taker), Some(HOLDING_ACCOUNT_RENT));
}

#[test]
fn record_reserve_returns_to_the_maker() {
    let (mut l, t) = setup(100, 50, 50);
    assert_eq!(l.wallet_balance(&t.maker), None);
    assert!(t.take(&mut l).is_ok());
    // the maker's wallet was created on the spot to receive the reserve
    assert_eq!(l.wallet_balance(&t.maker), Some(RECORD_RENT));

    // with an existing wallet the reserve is added to it
    let (mut l, t) = setup(100, 50, 50);
    l.wallets.push(Wallet { owner: t.maker.dup(), lamports: 5 });
    assert!(t.take(&mut l).is_ok());
    assert_eq!(l.wallet_balance(&t.maker), Some(RECORD_RENT + 5));
}

#[test]
fn no_charge_when_receiving_accounts_exist() {
    let (mut l, t) = setup(100, 50, 50);
    l.tokens.push(acct(&t.maker, &t.mint_y, 1));
    l.tokens.push(acct(&t.taker, &t.mint_x, 2));
    // nothing needs creating, so even a taker without a wallet settles
    l.wallets.clear();
    assert!(t.take(&mut l).is_ok());
    assert_eq!(l.wallet_balance(&t.taker), None);
    assert_eq!(l.token_balance(&t.taker, &t.mint_x), Some(102));
    assert_eq!(l.token_balance(&t.maker, &t.mint_y), Some(51));
}

#[test]
fn taker_unable_to_fund_creation_is_rejected() {
    let (mut l, t) = setup(100, 50, 50);
    l.wallets[0].lamports = HOLDING_ACCOUNT_RENT; // two creations are due
    let before = balances(&l, &t);
    let r = t.take(&mut l);
    assert!(matches!(r, Err(SettleError::InsufficientFunds)));
    assert_eq!(balances(&l, &t), before);
    assert_eq!(l.wallet_balance(&t.taker), Some(HOLDING_ACCOUNT_RENT));
    assert!(l.load(&t.maker, 7).is_some());
}

#[test]
fn close_escrow_consumes_the_record() {
    let (mut l, t) = setup(100, 50, 50);
    assert!(l.close_escrow(&t.maker, 7).is_ok());
    assert!(l.load(&t.maker, 7).is_none());
    assert!(matches!(l.close_escrow(&t.maker, 7), Err(SettleError::NotFound)));
}
