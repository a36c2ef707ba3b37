use vstd::prelude::*;

use crate::authority::prove;
use crate::errors::SettleError;
use crate::state::escrow_map;
use crate::state::moved;
use crate::state::token_map;
use crate::state::wallet_map;
use crate::state::with_account;
use crate::state::HOLDING_ACCOUNT_RENT;
use crate::state::Authorization;
use crate::state::EscrowRecord;
use crate::state::Ledger;
use crate::validate::account_violation;
use crate::validate::check_accounts;
use crate::validate::Take;

verus! {

/// The taker's asset-Y account: the source of leg 1.
pub open spec fn key_taker_y(rec: EscrowRecord, taker: Seq<u8>) -> (Seq<u8>, Seq<u8>) {
    (taker, rec.mint_y@)
}

/// The maker's asset-Y account: the destination of leg 1.
pub open spec fn key_maker_y(rec: EscrowRecord) -> (Seq<u8>, Seq<u8>) {
    (rec.maker@, rec.mint_y@)
}

/// The taker's asset-X account: the destination of leg 2.
pub open spec fn key_taker_x(rec: EscrowRecord, taker: Seq<u8>) -> (Seq<u8>, Seq<u8>) {
    (taker, rec.mint_x@)
}

/// The custody vault: the asset-X account of the derived authority.
pub open spec fn key_vault(rec: EscrowRecord, auth: Seq<u8>) -> (Seq<u8>, Seq<u8>) {
    (auth, rec.mint_x@)
}

/// The balances after a successful settlement: the two receiving accounts
/// exist (created empty on demand if needed), leg 1 moves the agreed receive
/// amount from the taker's Y-account to the maker's, and leg 2 moves the
/// vault's entire live balance - read after leg 1, never a caller-supplied
/// amount - to the taker's X-account.
pub open spec fn settled_map(
    m0: Map<(Seq<u8>, Seq<u8>), u64>,
    rec: EscrowRecord,
    taker: Seq<u8>,
    auth: Seq<u8>,
) -> Map<(Seq<u8>, Seq<u8>), u64> {
    let ma = with_account(with_account(m0, key_maker_y(rec)), key_taker_x(rec, taker));
    let m1 = moved(ma, key_taker_y(rec, taker), key_maker_y(rec), rec.receive_amount);
    let vb = m1[key_vault(rec, auth)];
    moved(m1, key_vault(rec, auth), key_taker_x(rec, taker), vb)
}

/// What creating the receiving accounts on demand costs: one storage deposit
/// for the maker's Y-account and one for the taker's X-account, each only if
/// it does not yet exist (counting that the first creation may already have
/// brought the second account into existence when the two coincide).
pub open spec fn creation_cost(
    m0: Map<(Seq<u8>, Seq<u8>), u64>,
    rec: EscrowRecord,
    taker: Seq<u8>,
) -> int {
    (if m0.contains_key(key_maker_y(rec)) {
        0
    } else {
        HOLDING_ACCOUNT_RENT as int
    }) + (if m0.contains_key(key_taker_x(rec, taker)) || key_taker_x(rec, taker) == key_maker_y(
        rec,
    ) {
        0
    } else {
        HOLDING_ACCOUNT_RENT as int
    })
}

/// The native balances after teardown: the taker - the initiating, signing
/// party - paid for any accounts that had to be created, and the maker got
/// the closed record's reserve back, into a wallet created on the spot if
/// need be.
pub open spec fn wallet_settled(
    w0: Map<Seq<u8>, u64>,
    taker: Seq<u8>,
    maker: Seq<u8>,
    cost: int,
    rent: u64,
) -> Map<Seq<u8>, u64> {
    let w1 = if cost > 0 {
        w0.insert(taker, (w0[taker] - cost) as u64)
    } else {
        w0
    };
    if w1.contains_key(maker) {
        w1.insert(maker, (w1[maker] + rent) as u64)
    } else {
        w1.insert(maker, rent)
    }
}

/// The exact decision of one settlement attempt against the ledger's state at
/// call time: the record must exist, every supplied account must match the
/// relationships it records, the vault must still exist, the taker must hold
/// at least the agreed receive amount and enough native funds for any account
/// creation; the outcome is either the exact error or the exact balances -
/// holding accounts and wallets - afterwards.
pub open spec fn take_outcome(l: Ledger, t: Take) -> Result<
    (Map<(Seq<u8>, Seq<u8>), u64>, Map<Seq<u8>, u64>),
    SettleError,
> {
    let em = escrow_map(l.escrows@);
    let ek = (t.maker@, t.seed);
    if !em.contains_key(ek) {
        Err(SettleError::NotFound)
    } else {
        let rec = em[ek];
        match account_violation(rec, t) {
            Some(e) => Err(e),
            None => match crate::authority::derive_of(t.program@, rec.maker@, rec.seed) {
                Some(p) => {
                    let m0 = token_map(l.tokens@);
                    let wm = wallet_map(l.wallets@);
                    let cost = creation_cost(m0, rec, t.taker@);
                    if !m0.contains_key(key_vault(rec, p.0)) {
                        Err(SettleError::NotFound)
                    } else if !m0.contains_key(key_taker_y(rec, t.taker@)) || m0[key_taker_y(
                        rec,
                        t.taker@,
                    )] < rec.receive_amount {
                        Err(SettleError::InsufficientFunds)
                    } else if cost > 0 && (!wm.contains_key(t.taker@) || wm[t.taker@] < cost) {
                        Err(SettleError::InsufficientFunds)
                    } else {
                        Ok(
                            (
                                settled_map(m0, rec, t.taker@, p.0),
                                wallet_settled(wm, t.taker@, rec.maker@, cost, rec.rent),
                            ),
                        )
                    }
                },
                None => Err(SettleError::DerivationMismatch),
            },
        }
    }
}

impl Take {
    /// Settles the escrow addressed by `(maker, seed)`: validates every
    /// supplied account, proves the custody authority by recomputation, pays
    /// the maker the agreed amount of Y from the taker, drains the vault's
    /// entire balance of X to the taker, and closes the record, charging any
    /// account creation to the taker and returning the record's reserve to
    /// the maker. The two legs and the teardown happen together or not at
    /// all: on any error the ledger is exactly as it was.
    pub fn take(&self, l: &mut Ledger) -> (r: Result<(), SettleError>)
        requires
            old(l).wf(),
            self.program.wf(),
        ensures
            final(l).wf(),
            (match take_outcome(*old(l), *self) {
                Err(e) => r == Err::<(), SettleError>(e) && *final(l) == *old(l),
                Ok(m) => {
                    &&& r is Ok
                    &&& token_map(final(l).tokens@) == m.0
                    &&& wallet_map(final(l).wallets@) == m.1
                    &&& escrow_map(final(l).escrows@) == escrow_map(old(l).escrows@).remove(
                        (self.maker@, self.seed),
                    )
                },
            }),
    {
        let ghost l0 = *l;
        let ghost ek = (self.maker@, self.seed);
        let (recv, bump, rent, d) = match l.load(&self.maker, self.seed) {
            None => {
                return Err(SettleError::NotFound);
            },
            Some(rec) => {
                let d = match check_accounts(rec, self) {
                    Ok(d) => d,
                    Err(e) => {
                        return Err(e);
                    },
                };
                (rec.receive_amount, rec.bump, rec.rent, d)
            },
        };
        let ghost rec_v = escrow_map(l0.escrows@)[ek];
        // the signing proof is built from the seed and bump captured before
        // the record is destroyed
        let cap = match prove(&self.program, &self.maker, self.seed, bump) {
            Ok(c) => c,
            Err(e) => {
                proof {
                    assert(false);
                }
                return Err(e);
            },
        };
        let ghost m0 = token_map(l0.tokens@);
        // the vault must still back the record
        match l.token_balance(&d.address, &self.mint_x) {
            Some(_) => {},
            None => {
                return Err(SettleError::NotFound);
            },
        }
        // leg 1 precheck: the taker must hold the agreed amount of Y
        let tyb = match l.token_balance(&self.taker, &self.mint_y) {
            Some(b) => b,
            None => {
                return Err(SettleError::InsufficientFunds);
            },
        };
        if tyb < recv {
            return Err(SettleError::InsufficientFunds);
        }
        // what creating the missing receiving accounts will cost
        let my_present = l.token_balance(&self.maker, &self.mint_y).is_some();
        let tx_present = l.token_balance(&self.taker, &self.mint_x).is_some();
        let tx_aliases_my = self.taker.eq_addr(&self.maker) && self.mint_x.eq_addr(&self.mint_y);
        let mut n_create: u64 = 0;
        if !my_present {
            n_create = n_create + 1;
        }
        if !(tx_present || tx_aliases_my) {
            n_create = n_create + 1;
        }
        let cost: u64 = n_create * HOLDING_ACCOUNT_RENT;
        proof {
            assert(cost as int == creation_cost(m0, rec_v, self.taker@));
        }
        // the taker, the initiating signer, funds the creations - never the
        // maker, who signs nothing here
        if cost > 0 {
            let funded = match l.wallet_balance(&self.taker) {
                None => false,
                Some(b) => b >= cost,
            };
            if !funded {
                return Err(SettleError::InsufficientFunds);
            }
        }
        let ghost w0 = wallet_map(l0.wallets@);
        // create the receiving accounts on demand; the initiating taker, not
        // the maker, bears their creation
        l.ensure_account(&self.maker, &self.mint_y);
        l.ensure_account(&self.taker, &self.mint_x);
        // leg 1: the taker pays the maker directly, by own signature
        let r1 = l.transfer(
            &self.taker_ata_y,
            &self.maker_ata_y,
            &self.mint_y,
            recv,
            Authorization::Direct(self.taker.dup()),
        );
        match r1 {
            Ok(_) => {},
            Err(e) => {
                proof {
                    assert(false);
                }
                return Err(e);
            },
        }
        // leg 2: the vault's live balance, read now, not a cached amount
        let vb = match l.token_balance(&d.address, &self.mint_x) {
            Some(b) => b,
            None => {
                proof {
                    assert(false);
                }
                return Err(SettleError::NotFound);
            },
        };
        let r2 = l.transfer(
            &self.vault,
            &self.taker_ata_x,
            &self.mint_x,
            vb,
            Authorization::Derived(cap),
        );
        match r2 {
            Ok(_) => {},
            Err(e) => {
                proof {
                    assert(false);
                }
                return Err(e);
            },
        }
        // teardown: the record is consumed, its reserve returns to the maker
        let rc = l.close_escrow(&self.maker, self.seed);
        match rc {
            Ok(_) => {},
            Err(_) => {
                proof {
                    assert(false);
                }
                return Err(SettleError::NotFound);
            },
        }
        if cost > 0 {
            let rd = l.wallet_debit(&self.taker, cost);
            match rd {
                Ok(_) => {},
                Err(_) => {
                    proof {
                        assert(false);
                    }
                    return Err(SettleError::InsufficientFunds);
                },
            }
        }
        l.wallet_credit(&self.maker, rent);
        proof {
            assert(token_map(l.tokens@) == settled_map(m0, rec_v, self.taker@, d.address@));
            assert(wallet_map(l.wallets@) == wallet_settled(
                w0,
                self.taker@,
                self.maker@,
                cost as int,
                rent,
            ));
        }
        Ok(())
    }
}

/// Once a record has been consumed, a repeated settlement attempt against the
/// same escrow key decides NotFound - and, by `take`'s contract, leaves every
/// balance and record unchanged.
pub proof fn lemma_single_settlement(l0: Ledger, l1: Ledger, t: Take)
    requires
        escrow_map(l1.escrows@) == escrow_map(l0.escrows@).remove((t.maker@, t.seed)),
    ensures
        take_outcome(l1, t) == Err::<(Map<(Seq<u8>, Seq<u8>), u64>, Map<Seq<u8>, u64>), SettleError>(
            SettleError::NotFound,
        ),
{
}

/// Teardown asymmetry: the maker - and only the maker - receives the closed
/// record's reserve, the taker - and only the taker - bears the cost of the
/// accounts created on demand, and every other wallet is untouched.
pub proof fn lemma_teardown_asymmetry(
    w0: Map<Seq<u8>, u64>,
    taker: Seq<u8>,
    maker: Seq<u8>,
    cost: int,
    rent: u64,
)
    requires
        taker != maker,
        cost >= 0,
        cost > 0 ==> w0.contains_key(taker) && w0[taker] >= cost,
        (if w0.contains_key(maker) {
            w0[maker] as int
        } else {
            0
        }) + rent <= u64::MAX,
    ensures
        ({
            let w2 = wallet_settled(w0, taker, maker, cost, rent);
            &&& (cost > 0 ==> w2[taker] == w0[taker] - cost)
            &&& (cost == 0 && w0.contains_key(taker) ==> w2[taker] == w0[taker])
            &&& w2[maker] == (if w0.contains_key(maker) {
                w0[maker] as int
            } else {
                0
            }) + rent
            &&& forall|k: Seq<u8>|
                w0.contains_key(k) && k != taker && k != maker ==> w2[k] == w0[k]
        }),
{
}

/// Conservation: when the four touched accounts are pairwise distinct, a
/// successful settlement changes exactly them - the taker's Y-balance falls
/// by the agreed receive amount, the maker's Y-balance rises by it, the vault
/// falls to zero, the taker's X-balance rises by the vault's prior balance -
/// and every other balance is untouched.
pub proof fn lemma_settlement_conservation(
    m0: Map<(Seq<u8>, Seq<u8>), u64>,
    rec: EscrowRecord,
    taker: Seq<u8>,
    auth: Seq<u8>,
)
    requires
        m0.contains_key(key_taker_y(rec, taker)),
        m0.contains_key(key_vault(rec, auth)),
        m0[key_taker_y(rec, taker)] >= rec.receive_amount,
        key_taker_y(rec, taker) != key_maker_y(rec),
        key_taker_y(rec, taker) != key_taker_x(rec, taker),
        key_taker_y(rec, taker) != key_vault(rec, auth),
        key_maker_y(rec) != key_taker_x(rec, taker),
        key_maker_y(rec) != key_vault(rec, auth),
        key_taker_x(rec, taker) != key_vault(rec, auth),
        (if m0.contains_key(key_maker_y(rec)) {
            m0[key_maker_y(rec)] as int
        } else {
            0
        }) + rec.receive_amount <= u64::MAX,
        (if m0.contains_key(key_taker_x(rec, taker)) {
            m0[key_taker_x(rec, taker)] as int
        } else {
            0
        }) + m0[key_vault(rec, auth)] <= u64::MAX,
    ensures
        ({
            let m2 = settled_map(m0, rec, taker, auth);
            &&& m2[key_taker_y(rec, taker)] == m0[key_taker_y(rec, taker)]
                - rec.receive_amount
            &&& m2[key_maker_y(rec)] == (if m0.contains_key(key_maker_y(rec)) {
                m0[key_maker_y(rec)] as int
            } else {
                0
            }) + rec.receive_amount
            &&& m2[key_vault(rec, auth)] == 0
            &&& m2[key_taker_x(rec, taker)] == (if m0.contains_key(key_taker_x(rec, taker)) {
                m0[key_taker_x(rec, taker)] as int
            } else {
                0
            }) + m0[key_vault(rec, auth)]
            &&& m2.dom() =~= m0.dom().insert(key_maker_y(rec)).insert(key_taker_x(rec, taker))
            &&& forall|k: (Seq<u8>, Seq<u8>)|
                m0.contains_key(k) && k != key_taker_y(rec, taker) && k != key_maker_y(rec) && k
                    != key_taker_x(rec, taker) && k != key_vault(rec, auth) ==> m2[k] == m0[k]
        }),
{
}

} // verus!
