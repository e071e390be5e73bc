//! The wallet's own-coin store.
//!
//! Each row holds one spendable coin together with its incremental witness
//! and a reservation flag used by concurrent transaction builds.  Puts are
//! keyed by the coin commitment: storing a coin that is already present
//! replaces the row instead of duplicating it.

use vstd::prelude::*;
use crate::keys::SecretKey;
use crate::merkle::{IncrementalWitness, MerkleNode};
use crate::note::{Coin, Note, OwnCoin};

verus! {

/// Ghost form of an incremental witness.
pub ghost struct WitnessModel {
    pub depth: nat,
    pub position: nat,
    pub leaves: Seq<MerkleNode>,
}

/// Ghost form of one stored own coin.
pub ghost struct OwnCoinModel {
    pub coin: Coin,
    pub note: Note,
    pub secret: SecretKey,
    pub witness: WitnessModel,
    pub reserved: bool,
}

/// Ghost form of the whole store.
pub ghost struct WalletModel {
    pub entries: Seq<OwnCoinModel>,
}

pub open spec fn witness_model(w: IncrementalWitness) -> WitnessModel {
    WitnessModel { depth: w.depth as nat, position: w.position as nat, leaves: w.leaves@ }
}

/// One stored row.
#[derive(Debug)]
pub struct WalletEntry {
    pub own_coin: OwnCoin,
    pub reserved: bool,
}

pub open spec fn entry_model(e: WalletEntry) -> OwnCoinModel {
    OwnCoinModel {
        coin: e.own_coin.coin,
        note: e.own_coin.note,
        secret: e.own_coin.secret,
        witness: witness_model(e.own_coin.witness),
        reserved: e.reserved,
    }
}

/// The wallet's own-coin store.
#[derive(Debug)]
pub struct Wallet {
    pub entries: Vec<WalletEntry>,
}

impl View for Wallet {
    type V = WalletModel;

    open spec fn view(&self) -> WalletModel {
        WalletModel { entries: Seq::new(self.entries@.len(), |i: int| entry_model(self.entries@[i])) }
    }
}

/// Index of the first row holding `coin`, or -1.
pub open spec fn find_coin(entries: Seq<OwnCoinModel>, coin: Coin) -> int
    decreases entries.len(),
{
    if entries.len() == 0 {
        -1
    } else if entries[0].coin == coin {
        0
    } else {
        let r = find_coin(entries.drop_first(), coin);
        if r == -1 {
            -1
        } else {
            r + 1
        }
    }
}

pub proof fn lemma_find_coin_first(entries: Seq<OwnCoinModel>, coin: Coin, i: int)
    requires
        0 <= i < entries.len(),
        forall|j: int| 0 <= j < i ==> (#[trigger] entries[j]).coin != coin,
        entries[i].coin == coin,
    ensures
        find_coin(entries, coin) == i,
    decreases i,
{
    if i > 0 {
        assert(forall|j: int|
            0 <= j < entries.drop_first().len() ==> entries.drop_first()[j] == entries[j + 1]);
        lemma_find_coin_first(entries.drop_first(), coin, i - 1);
    }
}

pub proof fn lemma_find_coin_none(entries: Seq<OwnCoinModel>, coin: Coin)
    requires
        forall|j: int| 0 <= j < entries.len() ==> (#[trigger] entries[j]).coin != coin,
    ensures
        find_coin(entries, coin) == -1,
    decreases entries.len(),
{
    if entries.len() > 0 {
        assert(forall|j: int|
            0 <= j < entries.drop_first().len() ==> entries.drop_first()[j] == entries[j + 1]);
        lemma_find_coin_none(entries.drop_first(), coin);
    }
}

/// Key-idempotent insertion: an existing row for the same coin is replaced
/// (its reservation flag kept); otherwise the coin is appended unreserved.
pub open spec fn put_own_coin(w: WalletModel, oc: OwnCoinModel) -> WalletModel {
    let i = find_coin(w.entries, oc.coin);
    if i >= 0 {
        WalletModel {
            entries: w.entries.update(
                i,
                OwnCoinModel { reserved: w.entries[i].reserved, ..oc },
            ),
        }
    } else {
        WalletModel { entries: w.entries.push(oc) }
    }
}

/// Whether some row holds `coin`.
pub open spec fn has_coin(w: WalletModel, c: Coin) -> bool {
    exists|t: int| 0 <= t < w.entries.len() && (#[trigger] w.entries[t]).coin == c
}

/// `find_coin` succeeds exactly on held coins.
pub proof fn lemma_find_has(entries: Seq<OwnCoinModel>, c: Coin)
    ensures
        (find_coin(entries, c) >= 0) <==> (exists|t: int|
            0 <= t < entries.len() && (#[trigger] entries[t]).coin == c),
    decreases entries.len(),
{
    if entries.len() > 0 && entries[0].coin != c {
        lemma_find_has(entries.drop_first(), c);
        assert(forall|j: int|
            0 <= j < entries.drop_first().len() ==> entries.drop_first()[j] == entries[j + 1]);
        if exists|t: int| 0 <= t < entries.len() && (#[trigger] entries[t]).coin == c {
            let t = choose|t: int| 0 <= t < entries.len() && (#[trigger] entries[t]).coin == c;
            assert(entries.drop_first()[t - 1] == entries[t]);
        }
    }
}

/// A put makes exactly the stored coin held, on top of what was held; the
/// store grows only when the coin was absent.
pub proof fn lemma_put_own_coin_ids(w: WalletModel, oc: OwnCoinModel)
    ensures
        forall|c: Coin| has_coin(put_own_coin(w, oc), c) <==> (has_coin(w, c) || c == oc.coin),
        has_coin(w, oc.coin) ==> put_own_coin(w, oc).entries.len() == w.entries.len(),
        !has_coin(w, oc.coin) ==> put_own_coin(w, oc).entries.len() == w.entries.len() + 1,
{
    lemma_find_has(w.entries, oc.coin);
    lemma_find_coin_in_range(w.entries, oc.coin);
    let f = find_coin(w.entries, oc.coin);
    let p = put_own_coin(w, oc);
    assert forall|c: Coin| has_coin(p, c) <==> (has_coin(w, c) || c == oc.coin) by {
        if f >= 0 {
            assert(w.entries[f].coin == oc.coin) by {
                lemma_find_coin_hits(w.entries, oc.coin);
            };
            if has_coin(p, c) {
                let t = choose|t: int| 0 <= t < p.entries.len() && (#[trigger] p.entries[t]).coin == c;
                if t == f {
                    assert(c == oc.coin);
                } else {
                    assert(w.entries[t].coin == c);
                }
            }
            if has_coin(w, c) {
                let t = choose|t: int| 0 <= t < w.entries.len() && (#[trigger] w.entries[t]).coin == c;
                if t == f {
                    assert(p.entries[f].coin == oc.coin && c == oc.coin);
                } else {
                    assert(p.entries[t].coin == c);
                }
            }
            if c == oc.coin {
                assert(p.entries[f].coin == c);
            }
        } else {
            if has_coin(p, c) {
                let t = choose|t: int| 0 <= t < p.entries.len() && (#[trigger] p.entries[t]).coin == c;
                if t == w.entries.len() {
                    assert(c == oc.coin);
                } else {
                    assert(w.entries[t].coin == c);
                }
            }
            if has_coin(w, c) {
                let t = choose|t: int| 0 <= t < w.entries.len() && (#[trigger] w.entries[t]).coin == c;
                assert(p.entries[t].coin == c);
            }
            if c == oc.coin {
                assert(p.entries[w.entries.len() as int].coin == c);
            }
        }
    };
}

/// A successful find lands on the coin.
pub proof fn lemma_find_coin_hits(entries: Seq<OwnCoinModel>, c: Coin)
    requires
        find_coin(entries, c) >= 0,
    ensures
        entries[find_coin(entries, c)].coin == c,
    decreases entries.len(),
{
    if entries.len() > 0 && entries[0].coin != c {
        lemma_find_coin_hits(entries.drop_first(), c);
        lemma_find_coin_in_range(entries.drop_first(), c);
        assert(forall|j: int|
            0 <= j < entries.drop_first().len() ==> entries.drop_first()[j] == entries[j + 1]);
        assert(entries.drop_first()[find_coin(entries.drop_first(), c)] == entries[find_coin(
            entries,
            c,
        )]);
    }
}

/// After a put, every row's witness is either the stored coin's witness or
/// one that was already present.
pub proof fn lemma_put_own_coin_witnesses(w: WalletModel, oc: OwnCoinModel)
    ensures
        forall|t: int|
            0 <= t < put_own_coin(w, oc).entries.len() ==> {
                let e = #[trigger] put_own_coin(w, oc).entries[t];
                e.witness == oc.witness || (0 <= t < w.entries.len() && e.witness == w.entries[t].witness)
            },
{
    let f = find_coin(w.entries, oc.coin);
    if f >= 0 {
        assert forall|t: int| 0 <= t < put_own_coin(w, oc).entries.len() implies {
            let e = #[trigger] put_own_coin(w, oc).entries[t];
            e.witness == oc.witness || (0 <= t < w.entries.len() && e.witness == w.entries[t].witness)
        } by {
            lemma_find_coin_in_range(w.entries, oc.coin);
            if t != f {
                assert(put_own_coin(w, oc).entries[t] == w.entries[t]);
            }
        };
    }
}

/// A found index is in range.
pub proof fn lemma_find_coin_in_range(entries: Seq<OwnCoinModel>, coin: Coin)
    ensures
        -1 <= find_coin(entries, coin) < entries.len(),
    decreases entries.len(),
{
    if entries.len() > 0 && entries[0].coin != coin {
        lemma_find_coin_in_range(entries.drop_first(), coin);
    }
}

/// Every witness in the store extended by one appended leaf.
pub open spec fn extend_witnesses(w: WalletModel, node: MerkleNode) -> WalletModel {
    WalletModel {
        entries: Seq::new(
            w.entries.len(),
            |i: int| OwnCoinModel {
                witness: WitnessModel {
                    leaves: w.entries[i].witness.leaves.push(node),
                    ..w.entries[i].witness
                },
                ..w.entries[i]
            },
        ),
    }
}

impl Wallet {
    /// An empty store.
    pub fn new() -> (w: Wallet)
        ensures
            w@.entries.len() == 0,
    {
        Wallet { entries: Vec::new() }
    }

    /// Stores an own coin, replacing any row already keyed by the same
    /// commitment.
    #[verifier::loop_isolation(false)]
    pub fn put_own_coins(&mut self, own_coin: OwnCoin)
        ensures
            final(self)@ == put_own_coin(old(self)@, entry_model(
                WalletEntry { own_coin, reserved: false },
            )),
    {
        let ghost oc = entry_model(WalletEntry { own_coin, reserved: false });
        let mut i: usize = 0;
        while i < self.entries.len()
            invariant
                i <= self.entries@.len(),
                *self == *old(self),
                forall|j: int| 0 <= j < i ==> (#[trigger] self@.entries[j]).coin != own_coin.coin,
            decreases self.entries@.len() - i,
        {
            if self.entries[i].own_coin.coin == own_coin.coin {
                proof {
                    lemma_find_coin_first(self@.entries, own_coin.coin, i as int);
                }
                let reserved = self.entries[i].reserved;
                self.entries[i] = WalletEntry { own_coin, reserved };
                proof {
                    let p = put_own_coin(old(self)@, oc);
                    assert(self@.entries[i as int] == p.entries[i as int]);
                    assert(forall|j: int|
                        0 <= j < self@.entries.len() && j != i ==> self@.entries[j] == #[trigger] p.entries[j]);
                    assert(self@.entries =~= p.entries);
                }
                return ;
            }
            i = i + 1;
        }
        proof {
            lemma_find_coin_none(self@.entries, own_coin.coin);
        }
        self.entries.push(WalletEntry { own_coin, reserved: false });
        proof {
            assert(self@.entries =~= put_own_coin(old(self)@, oc).entries);
        }
    }

    /// Marks the row holding `coin` as provisionally reserved, so a
    /// concurrent build cannot select it again.
    #[verifier::loop_isolation(false)]
    pub fn confirm_spend_coin(&mut self, coin: &Coin)
        ensures
            ({
                let i = find_coin(old(self)@.entries, *coin);
                if i >= 0 {
                    final(self)@.entries == old(self)@.entries.update(
                        i,
                        OwnCoinModel { reserved: true, ..old(self)@.entries[i] },
                    )
                } else {
                    final(self)@.entries == old(self)@.entries
                }
            }),
    {
        let mut i: usize = 0;
        while i < self.entries.len()
            invariant
                i <= self.entries@.len(),
                *self == *old(self),
                forall|j: int| 0 <= j < i ==> (#[trigger] self@.entries[j]).coin != *coin,
            decreases self.entries@.len() - i,
        {
            if self.entries[i].own_coin.coin == *coin {
                proof {
                    lemma_find_coin_first(self@.entries, *coin, i as int);
                }
                self.entries[i].reserved = true;
                proof {
                    assert(self@.entries =~= old(self)@.entries.update(
                        i as int,
                        OwnCoinModel { reserved: true, ..old(self)@.entries[i as int] },
                    ));
                }
                return ;
            }
            i = i + 1;
        }
        proof {
            lemma_find_coin_none(self@.entries, *coin);
            assert(self@.entries =~= old(self)@.entries);
        }
    }

    /// Extends every stored witness by one appended leaf.
    #[verifier::loop_isolation(false)]
    pub fn update_witnesses(&mut self, node: MerkleNode)
        requires
            forall|i: int|
                0 <= i < old(self)@.entries.len() ==> {
                    let w = (#[trigger] old(self)@.entries[i]).witness;
                    &&& w.depth <= 32
                    &&& w.position < w.leaves.len()
                    &&& w.leaves.len() < vstd::arithmetic::power2::pow2(w.depth)
                },
        ensures
            final(self)@ == extend_witnesses(old(self)@, node),
    {
        let mut i: usize = 0;
        while i < self.entries.len()
            invariant
                i <= self.entries@.len(),
                self.entries@.len() == old(self)@.entries.len(),
                forall|j: int|
                    i <= j < self.entries@.len() ==> self@.entries[j] == #[trigger] old(
                        self,
                    )@.entries[j],
                forall|j: int|
                    0 <= j < i ==> self@.entries[j] == #[trigger] extend_witnesses(
                        old(self)@,
                        node,
                    ).entries[j],
            decreases self.entries@.len() - i,
        {
            proof {
                assert(self@.entries[i as int] == old(self)@.entries[i as int]);
                assert({
                    let w = old(self)@.entries[i as int].witness;
                    &&& w.depth <= 32
                    &&& w.position < w.leaves.len()
                    &&& w.leaves.len() < vstd::arithmetic::power2::pow2(w.depth)
                });
                assert(self@.entries[i as int] == entry_model(self.entries@[i as int]));
                assert(self.entries@[i as int].own_coin.witness.wf());
            }
            let r = self.entries[i].own_coin.witness.append(node);
            proof {
                assert(r is Ok);
                assert(self@.entries[i as int] == extend_witnesses(old(self)@, node).entries[
                    i as int
                ]);
            }
            i = i + 1;
        }
        proof {
            assert(self@.entries =~= extend_witnesses(old(self)@, node).entries);
        }
    }
}

} // verus!
