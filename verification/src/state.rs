use vstd::prelude::*;

use crate::addr::Address;
use crate::authority::SigningCapability;
use crate::errors::SettleError;
use crate::errors::Violation;

verus! {

/// A per-(owner, asset) balance bucket.
pub struct HoldingAccount {
    pub owner: Address,
    pub mint: Address,
    pub balance: u64,
}

/// One open trade offer, recorded at deposit time, consumed exactly once by
/// settlement (or by the out-of-scope refund path).
pub struct EscrowRecord {
    pub maker: Address,
    pub seed: u64,
    pub mint_x: Address,
    pub mint_y: Address,
    pub receive_amount: u64,
    pub bump: u8,
    /// The storage deposit the maker paid to create this record; returned to
    /// the maker when the record is closed.
    pub rent: u64,
}

/// A participant's native balance: what storage deposits are paid from, and
/// what a closed record's reserve returns to.
pub struct Wallet {
    pub owner: Address,
    pub lamports: u64,
}

/// The storage deposit one holding account costs its payer at creation.
pub const HOLDING_ACCOUNT_RENT: u64 = 2039280;

/// The deterministic identity of a holding account: its owner and its asset.
pub struct AccountRef {
    pub owner: Address,
    pub mint: Address,
}

/// The in-memory substrate: every holding account and every open escrow
/// record. Mutated only through the verified operations below, which keep its
/// invariant and make each settlement all-or-nothing.
pub struct Ledger {
    pub tokens: Vec<HoldingAccount>,
    pub escrows: Vec<EscrowRecord>,
    pub wallets: Vec<Wallet>,
}

/// The key a holding account is addressed by.
pub open spec fn acct_key(a: HoldingAccount) -> (Seq<u8>, Seq<u8>) {
    (a.owner@, a.mint@)
}

/// The key an escrow record is addressed by.
pub open spec fn rec_key(r: EscrowRecord) -> (Seq<u8>, u64) {
    (r.maker@, r.seed)
}

/// No two holding accounts share an (owner, asset) key.
pub open spec fn tokens_uniq(s: Seq<HoldingAccount>) -> bool {
    forall|i: int, j: int| 0 <= i < j < s.len() ==> acct_key(s[i]) != acct_key(s[j])
}

/// No two escrow records share a (maker, seed) key.
pub open spec fn escrows_uniq(s: Seq<EscrowRecord>) -> bool {
    forall|i: int, j: int| 0 <= i < j < s.len() ==> rec_key(s[i]) != rec_key(s[j])
}

/// The balances as a map from (owner, asset) to amount.
pub open spec fn token_map(s: Seq<HoldingAccount>) -> Map<(Seq<u8>, Seq<u8>), u64>
    decreases s.len(),
{
    if s.len() == 0 {
        Map::empty()
    } else {
        token_map(s.drop_last()).insert(acct_key(s.last()), s.last().balance)
    }
}

/// The open records as a map from (maker, seed) to record.
pub open spec fn escrow_map(s: Seq<EscrowRecord>) -> Map<(Seq<u8>, u64), EscrowRecord>
    decreases s.len(),
{
    if s.len() == 0 {
        Map::empty()
    } else {
        escrow_map(s.drop_last()).insert(rec_key(s.last()), s.last())
    }
}

/// The total amount of one asset held across all accounts.
pub open spec fn mint_total(s: Seq<HoldingAccount>, m: Seq<u8>) -> int
    decreases s.len(),
{
    if s.len() == 0 {
        0
    } else {
        mint_total(s.drop_last(), m) + if s.last().mint@ == m {
            s.last().balance as int
        } else {
            0
        }
    }
}

/// Every asset's total supply fits in a 64-bit amount; transfers within one
/// asset can therefore never overflow a destination balance.
pub open spec fn mint_totals_ok(s: Seq<HoldingAccount>) -> bool {
    forall|m: Seq<u8>| mint_total(s, m) <= u64::MAX
}

/// No two wallets share an owner.
pub open spec fn wallets_uniq(s: Seq<Wallet>) -> bool {
    forall|i: int, j: int| 0 <= i < j < s.len() ==> s[i].owner@ != s[j].owner@
}

/// The native balances as a map from owner to amount.
pub open spec fn wallet_map(s: Seq<Wallet>) -> Map<Seq<u8>, u64>
    decreases s.len(),
{
    if s.len() == 0 {
        Map::empty()
    } else {
        wallet_map(s.drop_last()).insert(s.last().owner@, s.last().lamports)
    }
}

/// The total native amount held across all wallets.
pub open spec fn lamports_total(s: Seq<Wallet>) -> int
    decreases s.len(),
{
    if s.len() == 0 {
        0
    } else {
        lamports_total(s.drop_last()) + s.last().lamports as int
    }
}

/// The total storage reserve held inside open escrow records.
pub open spec fn rent_total(s: Seq<EscrowRecord>) -> int
    decreases s.len(),
{
    if s.len() == 0 {
        0
    } else {
        rent_total(s.drop_last()) + s.last().rent as int
    }
}

impl Ledger {
    /// The ledger's invariant: unique account, record, and wallet keys;
    /// bounded per-asset totals; and a bounded native supply, counting both
    /// what wallets hold and what open records have in reserve.
    pub open spec fn wf(&self) -> bool {
        &&& tokens_uniq(self.tokens@)
        &&& escrows_uniq(self.escrows@)
        &&& mint_totals_ok(self.tokens@)
        &&& wallets_uniq(self.wallets@)
        &&& lamports_total(self.wallets@) + rent_total(self.escrows@) <= u64::MAX
    }

    /// The native balances of this ledger, as a map.
    pub open spec fn wallets_map(&self) -> Map<Seq<u8>, u64> {
        wallet_map(self.wallets@)
    }

    /// The balances of this ledger, as a map.
    pub open spec fn tokens_map(&self) -> Map<(Seq<u8>, Seq<u8>), u64> {
        token_map(self.tokens@)
    }

    /// The open records of this ledger, as a map.
    pub open spec fn escrows_map(&self) -> Map<(Seq<u8>, u64), EscrowRecord> {
        escrow_map(self.escrows@)
    }
}

pub proof fn lemma_token_map_contains(s: Seq<HoldingAccount>, k: (Seq<u8>, Seq<u8>))
    ensures
        token_map(s).contains_key(k) <==> (exists|i: int|
            0 <= i < s.len() && acct_key(s[i]) == k),
    decreases s.len(),
{
    if s.len() == 0 {
    } else {
        let pre = s.drop_last();
        lemma_token_map_contains(pre, k);
        assert(forall|i: int| 0 <= i < pre.len() ==> pre[i] == s[i]);
        if k == acct_key(s.last()) {
            assert(acct_key(s[s.len() - 1]) == k);
        } else {
            if token_map(s).contains_key(k) {
                let i = choose|i: int| 0 <= i < pre.len() && acct_key(pre[i]) == k;
                assert(acct_key(s[i]) == k);
            }
            if exists|i: int| 0 <= i < s.len() && acct_key(s[i]) == k {
                let i = choose|i: int| 0 <= i < s.len() && acct_key(s[i]) == k;
                assert(i < s.len() - 1);
                assert(acct_key(pre[i]) == k);
            }
        }
    }
}

pub proof fn lemma_token_map_index(s: Seq<HoldingAccount>, i: int)
    requires
        tokens_uniq(s),
        0 <= i < s.len(),
    ensures
        token_map(s).contains_key(acct_key(s[i])),
        token_map(s)[acct_key(s[i])] == s[i].balance,
    decreases s.len(),
{
    if i == s.len() - 1 {
    } else {
        let pre = s.drop_last();
        assert(forall|a: int| 0 <= a < pre.len() ==> pre[a] == s[a]);
        assert(tokens_uniq(pre));
        lemma_token_map_index(pre, i);
        assert(acct_key(s[i]) != acct_key(s[s.len() - 1]));
    }
}

pub proof fn lemma_token_map_update(s: Seq<HoldingAccount>, i: int, a: HoldingAccount)
    requires
        tokens_uniq(s),
        0 <= i < s.len(),
        acct_key(a) == acct_key(s[i]),
    ensures
        tokens_uniq(s.update(i, a)),
        token_map(s.update(i, a)) == token_map(s).insert(acct_key(a), a.balance),
    decreases s.len(),
{
    let t = s.update(i, a);
    assert(forall|j: int| 0 <= j < s.len() ==> acct_key(t[j]) == acct_key(s[j]));
    assert(tokens_uniq(t));
    if i == s.len() - 1 {
        assert(t.drop_last() =~= s.drop_last());
        assert(token_map(t) =~= token_map(s).insert(acct_key(a), a.balance));
    } else {
        let pre = s.drop_last();
        assert(forall|j: int| 0 <= j < pre.len() ==> pre[j] == s[j]);
        assert(tokens_uniq(pre));
        lemma_token_map_update(pre, i, a);
        assert(t.drop_last() =~= pre.update(i, a));
        assert(t.last() == s.last());
        assert(acct_key(a) != acct_key(s.last()));
        assert(token_map(t) =~= token_map(s).insert(acct_key(a), a.balance));
    }
}

pub proof fn lemma_token_map_push(s: Seq<HoldingAccount>, a: HoldingAccount)
    requires
        tokens_uniq(s),
        forall|i: int| 0 <= i < s.len() ==> acct_key(s[i]) != acct_key(a),
    ensures
        tokens_uniq(s.push(a)),
        token_map(s.push(a)) == token_map(s).insert(acct_key(a), a.balance),
{
    let t = s.push(a);
    assert(t.drop_last() =~= s);
    assert(t.last() == a);
    assert(forall|i: int, j: int|
        0 <= i < j < t.len() ==> acct_key(t[i]) != acct_key(t[j])) by {
        assert(forall|i: int| 0 <= i < s.len() ==> t[i] == s[i]);
    }
}

pub proof fn lemma_escrow_map_contains(s: Seq<EscrowRecord>, k: (Seq<u8>, u64))
    ensures
        escrow_map(s).contains_key(k) <==> (exists|i: int| 0 <= i < s.len() && rec_key(s[i]) == k),
    decreases s.len(),
{
    if s.len() == 0 {
    } else {
        let pre = s.drop_last();
        lemma_escrow_map_contains(pre, k);
        assert(forall|i: int| 0 <= i < pre.len() ==> pre[i] == s[i]);
        if k == rec_key(s.last()) {
            assert(rec_key(s[s.len() - 1]) == k);
        } else {
            if escrow_map(s).contains_key(k) {
                let i = choose|i: int| 0 <= i < pre.len() && rec_key(pre[i]) == k;
                assert(rec_key(s[i]) == k);
            }
            if exists|i: int| 0 <= i < s.len() && rec_key(s[i]) == k {
                let i = choose|i: int| 0 <= i < s.len() && rec_key(s[i]) == k;
                assert(i < s.len() - 1);
                assert(rec_key(pre[i]) == k);
            }
        }
    }
}

pub proof fn lemma_escrow_map_index(s: Seq<EscrowRecord>, i: int)
    requires
        escrows_uniq(s),
        0 <= i < s.len(),
    ensures
        escrow_map(s).contains_key(rec_key(s[i])),
        escrow_map(s)[rec_key(s[i])] == s[i],
    decreases s.len(),
{
    if i == s.len() - 1 {
    } else {
        let pre = s.drop_last();
        assert(forall|a: int| 0 <= a < pre.len() ==> pre[a] == s[a]);
        assert(escrows_uniq(pre));
        lemma_escrow_map_index(pre, i);
        assert(rec_key(s[i]) != rec_key(s[s.len() - 1]));
    }
}

pub proof fn lemma_escrow_map_remove(s: Seq<EscrowRecord>, i: int)
    requires
        escrows_uniq(s),
        0 <= i < s.len(),
    ensures
        escrows_uniq(s.remove(i)),
        escrow_map(s.remove(i)) == escrow_map(s).remove(rec_key(s[i])),
    decreases s.len(),
{
    let t = s.remove(i);
    assert(escrows_uniq(t)) by {
        assert(forall|j: int| 0 <= j < i ==> t[j] == s[j]);
        assert(forall|j: int| i <= j < t.len() ==> t[j] == s[j + 1]);
    }
    if i == s.len() - 1 {
        assert(t =~= s.drop_last());
        lemma_escrow_map_contains(s.drop_last(), rec_key(s[i]));
        assert(forall|j: int| 0 <= j < s.len() - 1 ==> s.drop_last()[j] == s[j]);
        assert(!escrow_map(s.drop_last()).contains_key(rec_key(s[i])));
        assert(escrow_map(t) =~= escrow_map(s).remove(rec_key(s[i])));
    } else {
        let pre = s.drop_last();
        assert(forall|j: int| 0 <= j < pre.len() ==> pre[j] == s[j]);
        assert(escrows_uniq(pre));
        lemma_escrow_map_remove(pre, i);
        assert(t.drop_last() =~= pre.remove(i));
        assert(t.last() == s.last());
        assert(rec_key(s[i]) != rec_key(s.last()));
        assert(escrow_map(t) =~= escrow_map(s).remove(rec_key(s[i])));
    }
}

pub proof fn lemma_mint_total_nonneg(s: Seq<HoldingAccount>, m: Seq<u8>)
    ensures
        mint_total(s, m) >= 0,
    decreases s.len(),
{
    if s.len() > 0 {
        lemma_mint_total_nonneg(s.drop_last(), m);
    }
}

pub proof fn lemma_mint_total_elem(s: Seq<HoldingAccount>, m: Seq<u8>, i: int)
    requires
        0 <= i < s.len(),
        s[i].mint@ == m,
    ensures
        s[i].balance <= mint_total(s, m),
    decreases s.len(),
{
    let pre = s.drop_last();
    if i == s.len() - 1 {
        lemma_mint_total_nonneg(pre, m);
    } else {
        assert(pre[i] == s[i]);
        lemma_mint_total_elem(pre, m, i);
    }
}

pub proof fn lemma_mint_total_pair(s: Seq<HoldingAccount>, m: Seq<u8>, i: int, j: int)
    requires
        0 <= i < s.len(),
        0 <= j < s.len(),
        i != j,
        s[i].mint@ == m,
        s[j].mint@ == m,
    ensures
        s[i].balance + s[j].balance <= mint_total(s, m),
    decreases s.len(),
{
    let pre = s.drop_last();
    assert(forall|a: int| 0 <= a < pre.len() ==> pre[a] == s[a]);
    if i == s.len() - 1 {
        lemma_mint_total_elem(pre, m, j);
    } else if j == s.len() - 1 {
        lemma_mint_total_elem(pre, m, i);
    } else {
        lemma_mint_total_pair(pre, m, i, j);
    }
}

pub proof fn lemma_mint_total_update(s: Seq<HoldingAccount>, i: int, a: HoldingAccount, m: Seq<u8>)
    requires
        0 <= i < s.len(),
    ensures
        mint_total(s.update(i, a), m) == mint_total(s, m) - (if s[i].mint@ == m {
            s[i].balance as int
        } else {
            0
        }) + (if a.mint@ == m {
            a.balance as int
        } else {
            0
        }),
    decreases s.len(),
{
    let t = s.update(i, a);
    if i == s.len() - 1 {
        assert(t.drop_last() =~= s.drop_last());
        assert(t.last() == a);
    } else {
        let pre = s.drop_last();
        assert(pre[i] == s[i]);
        lemma_mint_total_update(pre, i, a, m);
        assert(t.drop_last() =~= pre.update(i, a));
        assert(t.last() == s.last());
    }
}

pub proof fn lemma_mint_total_push(s: Seq<HoldingAccount>, a: HoldingAccount, m: Seq<u8>)
    ensures
        mint_total(s.push(a), m) == mint_total(s, m) + (if a.mint@ == m {
            a.balance as int
        } else {
            0
        }),
{
    assert(s.push(a).drop_last() =~= s);
    assert(s.push(a).last() == a);
}

pub proof fn lemma_wallet_map_contains(s: Seq<Wallet>, k: Seq<u8>)
    ensures
        wallet_map(s).contains_key(k) <==> (exists|i: int| 0 <= i < s.len() && s[i].owner@ == k),
    decreases s.len(),
{
    if s.len() == 0 {
    } else {
        let pre = s.drop_last();
        lemma_wallet_map_contains(pre, k);
        assert(forall|i: int| 0 <= i < pre.len() ==> pre[i] == s[i]);
        if k == s.last().owner@ {
            assert(s[s.len() - 1].owner@ == k);
        } else {
            if wallet_map(s).contains_key(k) {
                let i = choose|i: int| 0 <= i < pre.len() && pre[i].owner@ == k;
                assert(s[i].owner@ == k);
            }
            if exists|i: int| 0 <= i < s.len() && s[i].owner@ == k {
                let i = choose|i: int| 0 <= i < s.len() && s[i].owner@ == k;
                assert(i < s.len() - 1);
                assert(pre[i].owner@ == k);
            }
        }
    }
}

pub proof fn lemma_wallet_map_index(s: Seq<Wallet>, i: int)
    requires
        wallets_uniq(s),
        0 <= i < s.len(),
    ensures
        wallet_map(s).contains_key(s[i].owner@),
        wallet_map(s)[s[i].owner@] == s[i].lamports,
    decreases s.len(),
{
    if i == s.len() - 1 {
    } else {
        let pre = s.drop_last();
        assert(forall|a: int| 0 <= a < pre.len() ==> pre[a] == s[a]);
        assert(wallets_uniq(pre));
        lemma_wallet_map_index(pre, i);
        assert(s[i].owner@ != s[s.len() - 1].owner@);
    }
}

pub proof fn lemma_wallet_map_update(s: Seq<Wallet>, i: int, w: Wallet)
    requires
        wallets_uniq(s),
        0 <= i < s.len(),
        w.owner@ == s[i].owner@,
    ensures
        wallets_uniq(s.update(i, w)),
        wallet_map(s.update(i, w)) == wallet_map(s).insert(w.owner@, w.lamports),
    decreases s.len(),
{
    let t = s.update(i, w);
    assert(forall|j: int| 0 <= j < s.len() ==> t[j].owner@ == s[j].owner@);
    assert(wallets_uniq(t));
    if i == s.len() - 1 {
        assert(t.drop_last() =~= s.drop_last());
        assert(wallet_map(t) =~= wallet_map(s).insert(w.owner@, w.lamports));
    } else {
        let pre = s.drop_last();
        assert(forall|j: int| 0 <= j < pre.len() ==> pre[j] == s[j]);
        assert(wallets_uniq(pre));
        lemma_wallet_map_update(pre, i, w);
        assert(t.drop_last() =~= pre.update(i, w));
        assert(t.last() == s.last());
        assert(w.owner@ != s.last().owner@);
        assert(wallet_map(t) =~= wallet_map(s).insert(w.owner@, w.lamports));
    }
}

pub proof fn lemma_wallet_map_push(s: Seq<Wallet>, w: Wallet)
    requires
        wallets_uniq(s),
        forall|i: int| 0 <= i < s.len() ==> s[i].owner@ != w.owner@,
    ensures
        wallets_uniq(s.push(w)),
        wallet_map(s.push(w)) == wallet_map(s).insert(w.owner@, w.lamports),
{
    let t = s.push(w);
    assert(t.drop_last() =~= s);
    assert(t.last() == w);
    assert(forall|i: int, j: int| 0 <= i < j < t.len() ==> t[i].owner@ != t[j].owner@) by {
        assert(forall|i: int| 0 <= i < s.len() ==> t[i] == s[i]);
    }
}

pub proof fn lemma_lamports_total_nonneg(s: Seq<Wallet>)
    ensures
        lamports_total(s) >= 0,
    decreases s.len(),
{
    if s.len() > 0 {
        lemma_lamports_total_nonneg(s.drop_last());
    }
}

pub proof fn lemma_lamports_total_elem(s: Seq<Wallet>, i: int)
    requires
        0 <= i < s.len(),
    ensures
        s[i].lamports <= lamports_total(s),
    decreases s.len(),
{
    let pre = s.drop_last();
    if i == s.len() - 1 {
        lemma_lamports_total_nonneg(pre);
    } else {
        assert(pre[i] == s[i]);
        lemma_lamports_total_elem(pre, i);
    }
}

pub proof fn lemma_lamports_total_update(s: Seq<Wallet>, i: int, w: Wallet)
    requires
        0 <= i < s.len(),
    ensures
        lamports_total(s.update(i, w)) == lamports_total(s) - s[i].lamports + w.lamports,
    decreases s.len(),
{
    let t = s.update(i, w);
    if i == s.len() - 1 {
        assert(t.drop_last() =~= s.drop_last());
        assert(t.last() == w);
    } else {
        let pre = s.drop_last();
        assert(pre[i] == s[i]);
        lemma_lamports_total_update(pre, i, w);
        assert(t.drop_last() =~= pre.update(i, w));
        assert(t.last() == s.last());
    }
}

pub proof fn lemma_lamports_total_push(s: Seq<Wallet>, w: Wallet)
    ensures
        lamports_total(s.push(w)) == lamports_total(s) + w.lamports,
{
    assert(s.push(w).drop_last() =~= s);
    assert(s.push(w).last() == w);
}

pub proof fn lemma_rent_total_nonneg(s: Seq<EscrowRecord>)
    ensures
        rent_total(s) >= 0,
    decreases s.len(),
{
    if s.len() > 0 {
        lemma_rent_total_nonneg(s.drop_last());
    }
}

pub proof fn lemma_rent_total_elem(s: Seq<EscrowRecord>, i: int)
    requires
        0 <= i < s.len(),
    ensures
        s[i].rent <= rent_total(s),
    decreases s.len(),
{
    let pre = s.drop_last();
    if i == s.len() - 1 {
        lemma_rent_total_nonneg(pre);
    } else {
        assert(pre[i] == s[i]);
        lemma_rent_total_elem(pre, i);
    }
}

pub proof fn lemma_rent_total_remove(s: Seq<EscrowRecord>, i: int)
    requires
        0 <= i < s.len(),
    ensures
        rent_total(s.remove(i)) == rent_total(s) - s[i].rent,
    decreases s.len(),
{
    let t = s.remove(i);
    if i == s.len() - 1 {
        assert(t =~= s.drop_last());
    } else {
        let pre = s.drop_last();
        assert(pre[i] == s[i]);
        lemma_rent_total_remove(pre, i);
        assert(t.drop_last() =~= pre.remove(i));
        assert(t.last() == s.last());
    }
}

/// Who authorizes a transfer's source account: the owner's own signature, or
/// a recomputation-based proof of the derived custody authority.
pub enum Authorization {
    Direct(Address),
    Derived(SigningCapability),
}

/// Whether `auth` is a valid signer for an account owned by `owner`.
pub open spec fn auth_ok(auth: Authorization, owner: Seq<u8>) -> bool {
    match auth {
        Authorization::Direct(s) => s@ == owner,
        Authorization::Derived(c) => c.authority_view() == owner,
    }
}

/// The balances after creating the account `k` with a zero balance, if it did
/// not yet exist; otherwise unchanged.
pub open spec fn with_account(
    m: Map<(Seq<u8>, Seq<u8>), u64>,
    k: (Seq<u8>, Seq<u8>),
) -> Map<(Seq<u8>, Seq<u8>), u64> {
    if m.contains_key(k) {
        m
    } else {
        m.insert(k, 0u64)
    }
}

/// The balances after moving `amount` from `kf` to `kt`.
pub open spec fn moved(
    m: Map<(Seq<u8>, Seq<u8>), u64>,
    kf: (Seq<u8>, Seq<u8>),
    kt: (Seq<u8>, Seq<u8>),
    amount: u64,
) -> Map<(Seq<u8>, Seq<u8>), u64>
    recommends
        m.contains_key(kf),
        m.contains_key(kt),
        m[kf] >= amount,
{
    let m1 = m.insert(kf, (m[kf] - amount) as u64);
    m1.insert(kt, (m1[kt] + amount) as u64)
}

/// Exactly when and why a transfer fails: a missing account, an invalid
/// authorizing party, or an overdrawn source. It never silently clamps.
pub open spec fn transfer_check(
    m: Map<(Seq<u8>, Seq<u8>), u64>,
    kf: (Seq<u8>, Seq<u8>),
    kt: (Seq<u8>, Seq<u8>),
    amount: u64,
    auth: Authorization,
) -> Result<(), SettleError> {
    if !m.contains_key(kf) || !m.contains_key(kt) {
        Err(SettleError::NotFound)
    } else if !auth_ok(auth, kf.0) {
        Err(SettleError::Validation(Violation::AuthorityMismatch))
    } else if m[kf] < amount {
        Err(SettleError::InsufficientFunds)
    } else {
        Ok(())
    }
}

impl Ledger {
    /// Finds the index of the holding account addressed by (owner, mint).
    fn find_token(&self, owner: &Address, mint: &Address) -> (r: Option<usize>)
        ensures
            (r matches Some(i) ==> i < self.tokens@.len() && acct_key(self.tokens@[i as int])
                == (owner@, mint@)),
            (r is None ==> forall|i: int|
                0 <= i < self.tokens@.len() ==> acct_key(self.tokens@[i]) != (owner@, mint@)),
    {
        let mut i: usize = 0;
        while i < self.tokens.len()
            invariant
                i <= self.tokens@.len(),
                forall|j: int| 0 <= j < i ==> acct_key(self.tokens@[j]) != (owner@, mint@),
            decreases self.tokens@.len() - i,
        {
            if self.tokens[i].owner.eq_addr(owner) && self.tokens[i].mint.eq_addr(mint) {
                return Some(i);
            }
            i += 1;
        }
        None
    }

    /// Finds the index of the escrow record addressed by (maker, seed).
    fn find_escrow(&self, maker: &Address, seed: u64) -> (r: Option<usize>)
        ensures
            (r matches Some(i) ==> i < self.escrows@.len() && rec_key(self.escrows@[i as int])
                == (maker@, seed)),
            (r is None ==> forall|i: int|
                0 <= i < self.escrows@.len() ==> rec_key(self.escrows@[i]) != (maker@, seed)),
    {
        let mut i: usize = 0;
        while i < self.escrows.len()
            invariant
                i <= self.escrows@.len(),
                forall|j: int| 0 <= j < i ==> rec_key(self.escrows@[j]) != (maker@, seed),
            decreases self.escrows@.len() - i,
        {
            if self.escrows[i].maker.eq_addr(maker) && self.escrows[i].seed == seed {
                return Some(i);
            }
            i += 1;
        }
        None
    }

    /// The balance of the holding account addressed by (owner, mint), or
    /// `None` if no such account exists.
    pub fn token_balance(&self, owner: &Address, mint: &Address) -> (r: Option<u64>)
        requires
            tokens_uniq(self.tokens@),
        ensures
            r is Some <==> self.tokens_map().contains_key((owner@, mint@)),
            (r matches Some(b) ==> b == self.tokens_map()[(owner@, mint@)]),
    {
        match self.find_token(owner, mint) {
            Some(i) => {
                proof {
                    lemma_token_map_index(self.tokens@, i as int);
                }
                Some(self.tokens[i].balance)
            },
            None => {
                proof {
                    lemma_token_map_contains(self.tokens@, (owner@, mint@));
                }
                None
            },
        }
    }

    /// Loads the escrow record addressed by (maker, seed), or `None` if it
    /// does not exist (never created, or already consumed).
    pub fn load(&self, maker: &Address, seed: u64) -> (r: Option<&EscrowRecord>)
        requires
            escrows_uniq(self.escrows@),
        ensures
            r is Some <==> self.escrows_map().contains_key((maker@, seed)),
            (r matches Some(rec) ==> *rec == self.escrows_map()[(maker@, seed)] && rec_key(*rec)
                == (maker@, seed)),
    {
        match self.find_escrow(maker, seed) {
            Some(i) => {
                proof {
                    lemma_escrow_map_index(self.escrows@, i as int);
                }
                Some(&self.escrows[i])
            },
            None => {
                proof {
                    lemma_escrow_map_contains(self.escrows@, (maker@, seed));
                }
                None
            },
        }
    }

    /// Finds the index of the wallet owned by `owner`.
    fn find_wallet(&self, owner: &Address) -> (r: Option<usize>)
        ensures
            (r matches Some(i) ==> i < self.wallets@.len() && self.wallets@[i as int].owner@
                == owner@),
            (r is None ==> forall|i: int|
                0 <= i < self.wallets@.len() ==> self.wallets@[i].owner@ != owner@),
    {
        let mut i: usize = 0;
        while i < self.wallets.len()
            invariant
                i <= self.wallets@.len(),
                forall|j: int| 0 <= j < i ==> self.wallets@[j].owner@ != owner@,
            decreases self.wallets@.len() - i,
        {
            if self.wallets[i].owner.eq_addr(owner) {
                return Some(i);
            }
            i += 1;
        }
        None
    }

    /// The native balance of `owner`, or `None` if it holds no wallet.
    pub fn wallet_balance(&self, owner: &Address) -> (r: Option<u64>)
        requires
            wallets_uniq(self.wallets@),
        ensures
            r is Some <==> self.wallets_map().contains_key(owner@),
            (r matches Some(b) ==> b == self.wallets_map()[owner@]),
    {
        match self.find_wallet(owner) {
            Some(i) => {
                proof {
                    lemma_wallet_map_index(self.wallets@, i as int);
                }
                Some(self.wallets[i].lamports)
            },
            None => {
                proof {
                    lemma_wallet_map_contains(self.wallets@, owner@);
                }
                None
            },
        }
    }

    /// Takes `amount` out of `owner`'s wallet; fails (and changes nothing)
    /// when the wallet is missing or holds less.
    pub(crate) fn wallet_debit(&mut self, owner: &Address, amount: u64) -> (r: Result<
        (),
        SettleError,
    >)
        requires
            old(self).wf(),
        ensures
            final(self).wf(),
            final(self).tokens@ == old(self).tokens@,
            final(self).escrows@ == old(self).escrows@,
            r is Ok <==> (old(self).wallets_map().contains_key(owner@) && old(
                self,
            ).wallets_map()[owner@] >= amount),
            (r is Ok ==> final(self).wallets_map() == old(self).wallets_map().insert(
                owner@,
                (old(self).wallets_map()[owner@] - amount) as u64,
            )),
            (r is Ok ==> lamports_total(final(self).wallets@) == lamports_total(old(self).wallets@)
                - amount),
            (r is Err ==> *final(self) == *old(self) && r == Err::<(), SettleError>(
                SettleError::InsufficientFunds,
            )),
    {
        proof {
            lemma_wallet_map_contains(self.wallets@, owner@);
        }
        let i = match self.find_wallet(owner) {
            Some(i) => i,
            None => {
                return Err(SettleError::InsufficientFunds);
            },
        };
        proof {
            lemma_wallet_map_index(self.wallets@, i as int);
        }
        let b = self.wallets[i].lamports;
        if b < amount {
            return Err(SettleError::InsufficientFunds);
        }
        let ghost s0 = self.wallets@;
        self.wallets[i].lamports = b - amount;
        proof {
            lemma_wallet_map_update(s0, i as int, self.wallets@[i as int]);
            lemma_lamports_total_update(s0, i as int, self.wallets@[i as int]);
        }
        Ok(())
    }

    /// Puts `amount` into `owner`'s wallet, creating the wallet if it does
    /// not yet exist. The caller accounts for where the amount comes from:
    /// the native supply, wallets and reserves together, must stay bounded.
    pub(crate) fn wallet_credit(&mut self, owner: &Address, amount: u64)
        requires
            old(self).wf(),
            lamports_total(old(self).wallets@) + rent_total(old(self).escrows@) + amount
                <= u64::MAX,
        ensures
            final(self).wf(),
            final(self).tokens@ == old(self).tokens@,
            final(self).escrows@ == old(self).escrows@,
            final(self).wallets_map() == (if old(self).wallets_map().contains_key(owner@) {
                old(self).wallets_map().insert(
                    owner@,
                    (old(self).wallets_map()[owner@] + amount) as u64,
                )
            } else {
                old(self).wallets_map().insert(owner@, amount)
            }),
    {
        proof {
            lemma_wallet_map_contains(self.wallets@, owner@);
            lemma_rent_total_nonneg(self.escrows@);
        }
        match self.find_wallet(owner) {
            Some(i) => {
                proof {
                    lemma_wallet_map_index(self.wallets@, i as int);
                    lemma_lamports_total_elem(self.wallets@, i as int);
                }
                let b = self.wallets[i].lamports;
                let ghost s0 = self.wallets@;
                self.wallets[i].lamports = b + amount;
                proof {
                    lemma_wallet_map_update(s0, i as int, self.wallets@[i as int]);
                    lemma_lamports_total_update(s0, i as int, self.wallets@[i as int]);
                }
            },
            None => {
                let w = Wallet { owner: owner.dup(), lamports: amount };
                proof {
                    lemma_wallet_map_push(self.wallets@, w);
                    lemma_lamports_total_push(self.wallets@, w);
                }
                self.wallets.push(w);
            },
        }
    }

    /// Closes (consumes) the escrow record addressed by (maker, seed),
    /// returning its reserved resources to the maker. Fails with `NotFound`
    /// when the record does not exist (never created, or already consumed).
    pub fn close_escrow(&mut self, maker: &Address, seed: u64) -> (r: Result<(), SettleError>)
        requires
            old(self).wf(),
        ensures
            final(self).wf(),
            final(self).tokens@ == old(self).tokens@,
            final(self).wallets@ == old(self).wallets@,
            r is Ok <==> old(self).escrows_map().contains_key((maker@, seed)),
            (r is Ok ==> final(self).escrows_map() == old(self).escrows_map().remove(
                (maker@, seed),
            )),
            (r is Ok ==> rent_total(final(self).escrows@) == rent_total(old(self).escrows@) - old(
                self,
            ).escrows_map()[(maker@, seed)].rent),
            (r is Err ==> *final(self) == *old(self) && r == Err::<(), SettleError>(
                SettleError::NotFound,
            )),
    {
        match self.find_escrow(maker, seed) {
            Some(i) => {
                proof {
                    lemma_escrow_map_index(self.escrows@, i as int);
                    lemma_escrow_map_remove(self.escrows@, i as int);
                    lemma_rent_total_remove(self.escrows@, i as int);
                }
                let _rec = self.escrows.remove(i);
                Ok(())
            },
            None => {
                proof {
                    lemma_escrow_map_contains(self.escrows@, (maker@, seed));
                }
                Err(SettleError::NotFound)
            },
        }
    }

    /// Creates the holding account addressed by (owner, mint) with a zero
    /// balance if it does not yet exist; a no-op (not an error) otherwise.
    pub fn ensure_account(&mut self, owner: &Address, mint: &Address)
        requires
            old(self).wf(),
        ensures
            final(self).wf(),
            final(self).escrows@ == old(self).escrows@,
            final(self).wallets@ == old(self).wallets@,
            final(self).tokens_map() == with_account(old(self).tokens_map(), (owner@, mint@)),
            final(self).tokens_map().contains_key((owner@, mint@)),
    {
        match self.find_token(owner, mint) {
            Some(i) => {
                proof {
                    lemma_token_map_index(self.tokens@, i as int);
                }
            },
            None => {
                proof {
                    lemma_token_map_contains(self.tokens@, (owner@, mint@));
                }
                let acct = HoldingAccount { owner: owner.dup(), mint: mint.dup(), balance: 0 };
                proof {
                    lemma_token_map_push(self.tokens@, acct);
                    assert forall|m: Seq<u8>| mint_total(self.tokens@.push(acct), m)
                        <= u64::MAX by {
                        lemma_mint_total_push(self.tokens@, acct, m);
                    }
                }
                self.tokens.push(acct);
            },
        }
    }

    /// Moves `amount` of `asset` from the account `from` to the account `to`,
    /// authorized by `auth`, which must be a valid signer for `from`'s owner.
    /// Fails (never clamps) on a missing account, an invalid signer, or an
    /// overdrawn source; on failure the ledger is unchanged.
    pub fn transfer(
        &mut self,
        from: &AccountRef,
        to: &AccountRef,
        asset: &Address,
        amount: u64,
        auth: Authorization,
    ) -> (r: Result<(), SettleError>)
        requires
            old(self).wf(),
            from.mint@ == asset@,
            to.mint@ == asset@,
        ensures
            final(self).wf(),
            final(self).escrows@ == old(self).escrows@,
            final(self).wallets@ == old(self).wallets@,
            r == transfer_check(
                old(self).tokens_map(),
                (from.owner@, from.mint@),
                (to.owner@, to.mint@),
                amount,
                auth,
            ),
            (r is Ok ==> final(self).tokens_map() == moved(
                old(self).tokens_map(),
                (from.owner@, from.mint@),
                (to.owner@, to.mint@),
                amount,
            )),
            (r is Err ==> *final(self) == *old(self)),
    {
        let ghost kf = (from.owner@, from.mint@);
        let ghost kt = (to.owner@, to.mint@);
        proof {
            lemma_token_map_contains(self.tokens@, kf);
            lemma_token_map_contains(self.tokens@, kt);
        }
        let fi = match self.find_token(&from.owner, &from.mint) {
            Some(i) => i,
            None => {
                return Err(SettleError::NotFound);
            },
        };
        let ti = match self.find_token(&to.owner, &to.mint) {
            Some(i) => i,
            None => {
                return Err(SettleError::NotFound);
            },
        };
        let ok = match &auth {
            Authorization::Direct(s) => s.eq_addr(&from.owner),
            Authorization::Derived(c) => c.authority().eq_addr(&from.owner),
        };
        if !ok {
            return Err(SettleError::Validation(Violation::AuthorityMismatch));
        }
        proof {
            lemma_token_map_index(self.tokens@, fi as int);
            lemma_token_map_index(self.tokens@, ti as int);
        }
        let fb = self.tokens[fi].balance;
        if fb < amount {
            return Err(SettleError::InsufficientFunds);
        }
        let ghost s0 = self.tokens@;
        proof {
            if fi != ti {
                lemma_mint_total_pair(s0, asset@, fi as int, ti as int);
            }
        }
        self.tokens[fi].balance = fb - amount;
        let ghost s1 = self.tokens@;
        proof {
            lemma_token_map_update(s0, fi as int, s1[fi as int]);
        }
        let tb = self.tokens[ti].balance;
        assert(tb + amount <= u64::MAX);
        self.tokens[ti].balance = tb + amount;
        let ghost s2 = self.tokens@;
        proof {
            lemma_token_map_update(s1, ti as int, s2[ti as int]);
            if kf == kt {
                if fi != ti {
                    assert(acct_key(s0[fi as int]) != acct_key(s0[ti as int]));
                }
                assert(fi == ti);
            } else {
                assert(fi != ti);
            }
            assert(token_map(s2) == moved(token_map(s0), kf, kt, amount));
            assert forall|m: Seq<u8>| mint_total(s2, m) <= u64::MAX by {
                lemma_mint_total_update(s0, fi as int, s1[fi as int], m);
                lemma_mint_total_update(s1, ti as int, s2[ti as int], m);
            }
        }
        Ok(())
    }
}

} // verus!
