//! Ledger state: commitment tree, historical roots, nullifier set, and the
//! validation of incoming transactions against them.

use vstd::prelude::*;
use crate::bytes::eq_bytes;
use crate::keys::{PublicKey, SecretKey, public_of, derive_public};
use crate::merkle::{CommitmentTree, IncrementalWitness, MerkleNode, root_spec};
use crate::note::{Coin, EncryptedNote, Note, Nullifier, OwnCoin};
use crate::tx::{Transaction, TransactionInput};
use crate::wallet::{
    OwnCoinModel, Wallet, WalletModel, WitnessModel, extend_witnesses, has_coin, put_own_coin,
};

verus! {

/// Why a transaction was rejected by validation.
#[derive(Clone, Copy, PartialEq, Eq, Structural, Debug)]
pub enum VerifyFailed {
    /// A transparent input is not signed by a recognised cashier key.
    InvalidAddress,
    /// A referenced Merkle root was never produced by the tree.
    InvalidMerkleRoot,
    /// A revealed nullifier is already recorded: the coin is spent.
    DoubleSpend,
    /// The zero-knowledge proofs or signatures did not check out.
    ProofVerificationFailure,
}

/// The description each validation failure carries.
pub open spec fn verify_failed_text(e: VerifyFailed) -> Seq<char> {
    match e {
        VerifyFailed::InvalidAddress => "invalid cashier public key"@,
        VerifyFailed::InvalidMerkleRoot => "invalid merkle root"@,
        VerifyFailed::DoubleSpend => "duplicate nullifier"@,
        VerifyFailed::ProofVerificationFailure => "proof verification failed"@,
    }
}

impl VerifyFailed {
    /// A short description of the failure.
    pub fn message(&self) -> (r: &'static str)
        ensures
            r@ == verify_failed_text(*self),
    {
        match self {
            VerifyFailed::InvalidAddress => "invalid cashier public key",
            VerifyFailed::InvalidMerkleRoot => "invalid merkle root",
            VerifyFailed::DoubleSpend => "duplicate nullifier",
            VerifyFailed::ProofVerificationFailure => "proof verification failed",
        }
    }
}

/// The persisted set of every root the commitment tree has ever produced.
/// Put is idempotent; nothing is ever removed.
#[derive(Debug)]
pub struct MerkleRootStore {
    pub entries: Vec<MerkleNode>,
}

/// Idempotent insertion into a root store.
pub open spec fn put_root(entries: Seq<MerkleNode>, root: MerkleNode) -> Seq<MerkleNode> {
    if entries.contains(root) {
        entries
    } else {
        entries.push(root)
    }
}

impl MerkleRootStore {
    pub fn new() -> (s: MerkleRootStore)
        ensures
            s.entries@ == Seq::<MerkleNode>::empty(),
    {
        MerkleRootStore { entries: Vec::new() }
    }

    /// Membership check.
    pub fn key_exist(&self, root: &MerkleNode) -> (r: bool)
        ensures
            r == self.entries@.contains(*root),
    {
        let mut i: usize = 0;
        while i < self.entries.len()
            invariant
                i <= self.entries@.len(),
                forall|j: int| 0 <= j < i ==> self.entries@[j] != *root,
            decreases self.entries@.len() - i,
        {
            if self.entries[i] == *root {
                return true;
            }
            i = i + 1;
        }
        false
    }

    /// Records a root; a repeated put is a no-op.
    pub fn put(&mut self, root: MerkleNode)
        ensures
            final(self).entries@ == put_root(old(self).entries@, root),
    {
        if !self.key_exist(&root) {
            self.entries.push(root);
        }
    }
}

/// The persisted set of spent-coin nullifiers.  Monotonically growing; the
/// membership check is the double-spend guard.
#[derive(Debug)]
pub struct NullifierStore {
    pub entries: Vec<Nullifier>,
}

/// Idempotent insertion into a nullifier store.
pub open spec fn put_nullifier(entries: Seq<Nullifier>, nf: Nullifier) -> Seq<Nullifier> {
    if entries.contains(nf) {
        entries
    } else {
        entries.push(nf)
    }
}

/// All of `list` inserted in order.
pub open spec fn put_nullifiers(entries: Seq<Nullifier>, list: Seq<Nullifier>) -> Seq<Nullifier>
    decreases list.len(),
{
    if list.len() == 0 {
        entries
    } else {
        put_nullifiers(put_nullifier(entries, list[0]), list.drop_first())
    }
}

impl NullifierStore {
    pub fn new() -> (s: NullifierStore)
        ensures
            s.entries@ == Seq::<Nullifier>::empty(),
    {
        NullifierStore { entries: Vec::new() }
    }

    /// Membership check.
    pub fn key_exist(&self, nf: &Nullifier) -> (r: bool)
        ensures
            r == self.entries@.contains(*nf),
    {
        let mut i: usize = 0;
        while i < self.entries.len()
            invariant
                i <= self.entries@.len(),
                forall|j: int| 0 <= j < i ==> self.entries@[j] != *nf,
            decreases self.entries@.len() - i,
        {
            if self.entries[i] == *nf {
                return true;
            }
            i = i + 1;
        }
        false
    }

    /// Records a nullifier as spent; a repeated put is a no-op.
    pub fn put(&mut self, nf: Nullifier)
        ensures
            final(self).entries@ == put_nullifier(old(self).entries@, nf),
    {
        if !self.key_exist(&nf) {
            self.entries.push(nf);
        }
    }
}

/// The atomic unit of change extracted from one validated transaction.
#[derive(Debug)]
pub struct StateUpdate {
    pub nullifiers: Vec<Nullifier>,
    pub coins: Vec<Coin>,
    pub enc_notes: Vec<EncryptedNote>,
}

/// The whole ledger state this client keeps.
#[derive(Debug)]
pub struct State {
    /// The commitment tree over every coin ever created.
    pub tree: CommitmentTree,
    /// Every root the tree has ever produced.
    pub merkle_roots: MerkleRootStore,
    /// Every nullifier ever revealed.
    pub nullifiers: NullifierStore,
    /// Recognised cashier public keys.
    pub public_keys: Vec<PublicKey>,
}

/// Whether a clear input's signing key is a recognised cashier key.
pub open spec fn cashier_key_valid(state: State, key: Seq<u8>) -> bool {
    exists|j: int| 0 <= j < state.public_keys@.len() && state.public_keys@[j].repr@ == key
}

/// Whether every transparent input of `tx` is signed by a cashier.
pub open spec fn all_clears_valid(state: State, tx: Transaction) -> bool {
    forall|i: int|
        0 <= i < tx.clear_inputs@.len() ==> cashier_key_valid(
            state,
            #[trigger] tx.clear_inputs@[i].signature_public.repr@,
        )
}

/// Scans the shielded inputs in order: the first invalid Merkle root or
/// already-spent nullifier decides the verdict.
pub open spec fn scan_inputs(state: State, inputs: Seq<TransactionInput>) -> Option<VerifyFailed>
    decreases inputs.len(),
{
    if inputs.len() == 0 {
        None
    } else if !state.merkle_roots.entries@.contains(inputs[0].revealed.merkle_root) {
        Some(VerifyFailed::InvalidMerkleRoot)
    } else if state.nullifiers.entries@.contains(inputs[0].revealed.nullifier) {
        Some(VerifyFailed::DoubleSpend)
    } else {
        scan_inputs(state, inputs.drop_first())
    }
}

/// The verdict of validation: `None` accepts the transaction.
pub open spec fn verdict(state: State, tx: Transaction, proofs_ok: bool) -> Option<VerifyFailed> {
    if !all_clears_valid(state, tx) {
        Some(VerifyFailed::InvalidAddress)
    } else if !proofs_ok {
        Some(VerifyFailed::ProofVerificationFailure)
    } else {
        scan_inputs(state, tx.inputs@)
    }
}

/// What the update extracted from an accepted transaction holds.
pub open spec fn update_matches(u: StateUpdate, tx: Transaction) -> bool {
    &&& u.nullifiers@.len() == tx.inputs@.len()
    &&& forall|j: int|
        0 <= j < tx.inputs@.len() ==> u.nullifiers@[j] == #[trigger] tx.inputs@[j].revealed.nullifier
    &&& u.coins@.len() == tx.outputs@.len()
    &&& forall|j: int| 0 <= j < tx.outputs@.len() ==> u.coins@[j] == #[trigger] tx.outputs@[j].coin
    &&& u.enc_notes@.len() == tx.outputs@.len()
    &&& forall|j: int|
        0 <= j < tx.outputs@.len() ==> #[trigger] u.enc_notes@[j].recipient.repr@
            == tx.outputs@[j].enc_note.recipient.repr@ && u.enc_notes@[j].note
            == tx.outputs@[j].enc_note.note
}

impl State {
    pub open spec fn wf(&self) -> bool {
        self.tree.wf()
    }

    /// Whether a public key belongs to a recognised cashier.
    pub fn is_valid_cashier_public_key(&self, public: &PublicKey) -> (r: bool)
        ensures
            r == cashier_key_valid(*self, public.repr@),
    {
        let mut i: usize = 0;
        while i < self.public_keys.len()
            invariant
                i <= self.public_keys@.len(),
                forall|j: int| 0 <= j < i ==> self.public_keys@[j].repr@ != public.repr@,
            decreases self.public_keys@.len() - i,
        {
            if eq_bytes(&self.public_keys[i].repr, &public.repr) {
                return true;
            }
            i = i + 1;
        }
        false
    }

    /// Whether `merkle_root` was ever produced by the tree.
    pub fn is_valid_merkle(&self, merkle_root: &MerkleNode) -> (r: bool)
        ensures
            r == self.merkle_roots.entries@.contains(*merkle_root),
    {
        self.merkle_roots.key_exist(merkle_root)
    }

    /// Whether `nullifier` is already recorded as spent.
    pub fn nullifier_exists(&self, nullifier: &Nullifier) -> (r: bool)
        ensures
            r == self.nullifiers.entries@.contains(*nullifier),
    {
        self.nullifiers.key_exist(nullifier)
    }

    /// Trial decryption of one incoming note under one candidate key: the
    /// plaintext exactly when the key matches, and silently nothing
    /// otherwise.
    fn try_decrypt_note(ciphertext: &EncryptedNote, secret: SecretKey) -> (r: Option<Note>)
        ensures
            r == crate::note::decrypt_spec(*ciphertext, secret),
    {
        ciphertext.decrypt(&secret)
    }
}

/// Validates a decoded transaction against a read-only snapshot of the
/// state.  `proofs_ok` is the verdict of the external proof/signature
/// verifier for this transaction, a pass/fail oracle to this crate.
///
/// No mutation happens here: on success the returned update carries exactly
/// the transaction's revealed nullifiers, new coins and encrypted notes.
pub fn state_transition(state: &State, tx: &Transaction, proofs_ok: bool) -> (r: Result<
    StateUpdate,
    VerifyFailed,
>)
    ensures
        verdict(*state, *tx, proofs_ok) matches Some(e) ==> r == Result::<
            StateUpdate,
            VerifyFailed,
        >::Err(e),
        verdict(*state, *tx, proofs_ok) is None ==> (r matches Ok(u) && update_matches(u, *tx)),
{
    let mut i: usize = 0;
    while i < tx.clear_inputs.len()
        invariant
            i <= tx.clear_inputs@.len(),
            forall|j: int|
                0 <= j < i ==> cashier_key_valid(
                    *state,
                    #[trigger] tx.clear_inputs@[j].signature_public.repr@,
                ),
        decreases tx.clear_inputs@.len() - i,
    {
        if !state.is_valid_cashier_public_key(&tx.clear_inputs[i].signature_public) {
            proof {
                assert(!all_clears_valid(*state, *tx));
            }
            return Err(VerifyFailed::InvalidAddress);
        }
        i = i + 1;
    }
    proof {
        assert(all_clears_valid(*state, *tx));
    }
    if !proofs_ok {
        return Err(VerifyFailed::ProofVerificationFailure);
    }
    let mut k: usize = 0;
    proof {
        assert(tx.inputs@.skip(0) =~= tx.inputs@);
    }
    while k < tx.inputs.len()
        invariant
            k <= tx.inputs@.len(),
            all_clears_valid(*state, *tx),
            proofs_ok,
            scan_inputs(*state, tx.inputs@) == scan_inputs(*state, tx.inputs@.skip(k as int)),
        decreases tx.inputs@.len() - k,
    {
        proof {
            assert(tx.inputs@.skip(k as int)[0] == tx.inputs@[k as int]);
            assert(tx.inputs@.skip(k as int).drop_first() =~= tx.inputs@.skip(k as int + 1));
        }
        let ghost remaining = tx.inputs@.skip(k as int);
        if !state.is_valid_merkle(&tx.inputs[k].revealed.merkle_root) {
            proof {
                assert(scan_inputs(*state, remaining) == Some(VerifyFailed::InvalidMerkleRoot));
            }
            return Err(VerifyFailed::InvalidMerkleRoot);
        }
        if state.nullifier_exists(&tx.inputs[k].revealed.nullifier) {
            proof {
                assert(scan_inputs(*state, remaining) == Some(VerifyFailed::DoubleSpend));
            }
            return Err(VerifyFailed::DoubleSpend);
        }
        proof {
            assert(scan_inputs(*state, remaining) == scan_inputs(
                *state,
                tx.inputs@.skip(k as int + 1),
            ));
        }
        k = k + 1;
    }
    proof {
        assert(tx.inputs@.skip(tx.inputs@.len() as int) =~= Seq::<TransactionInput>::empty());
    }
    let mut nullifiers: Vec<Nullifier> = Vec::new();
    let mut n: usize = 0;
    while n < tx.inputs.len()
        invariant
            verdict(*state, *tx, proofs_ok) is None,
            n <= tx.inputs@.len(),
            nullifiers@.len() == n,
            forall|j: int|
                0 <= j < n ==> nullifiers@[j] == #[trigger] tx.inputs@[j].revealed.nullifier,
        decreases tx.inputs@.len() - n,
    {
        nullifiers.push(tx.inputs[n].revealed.nullifier);
        n = n + 1;
    }
    let mut coins: Vec<Coin> = Vec::new();
    let mut enc_notes: Vec<EncryptedNote> = Vec::new();
    let mut m: usize = 0;
    while m < tx.outputs.len()
        invariant
            verdict(*state, *tx, proofs_ok) is None,
            m <= tx.outputs@.len(),
            coins@.len() == m,
            enc_notes@.len() == m,
            forall|j: int| 0 <= j < m ==> coins@[j] == #[trigger] tx.outputs@[j].coin,
            forall|j: int|
                0 <= j < m ==> #[trigger] enc_notes@[j].recipient.repr@
                    == tx.outputs@[j].enc_note.recipient.repr@ && enc_notes@[j].note
                    == tx.outputs@[j].enc_note.note,
        decreases tx.outputs@.len() - m,
    {
        coins.push(tx.outputs[m].coin);
        let dup = EncryptedNote {
            recipient: tx.outputs[m].enc_note.recipient.duplicate(),
            note: tx.outputs[m].enc_note.note,
        };
        enc_notes.push(dup);
        m = m + 1;
    }
    Ok(StateUpdate { nullifiers, coins, enc_notes })
}

/// Ghost form of an encrypted note.
pub ghost struct EncModel {
    pub recipient: Seq<u8>,
    pub note: Note,
}

pub open spec fn enc_model(e: EncryptedNote) -> EncModel {
    EncModel { recipient: e.recipient.repr@, note: e.note }
}

/// Ghost form of a state update.
pub ghost struct UpdateModel {
    pub nullifiers: Seq<Nullifier>,
    pub coins: Seq<Coin>,
    pub enc_notes: Seq<EncModel>,
}

pub open spec fn update_model(u: StateUpdate) -> UpdateModel {
    UpdateModel {
        nullifiers: u.nullifiers@,
        coins: u.coins@,
        enc_notes: Seq::new(u.enc_notes@.len(), |i: int| enc_model(u.enc_notes@[i])),
    }
}

/// Ghost form of the whole state.
pub ghost struct StateModel {
    pub depth: nat,
    pub leaves: Seq<MerkleNode>,
    pub roots: Seq<MerkleNode>,
    pub nullifiers: Seq<Nullifier>,
    pub cashier: Seq<Seq<u8>>,
}

impl View for State {
    type V = StateModel;

    open spec fn view(&self) -> StateModel {
        StateModel {
            depth: self.tree.depth as nat,
            leaves: self.tree.leaves@,
            roots: self.merkle_roots.entries@,
            nullifiers: self.nullifiers.entries@,
            cashier: Seq::new(self.public_keys@.len(), |i: int| self.public_keys@[i].repr@),
        }
    }
}

/// A notification that a note addressed to one of the wallet's keys arrived.
#[derive(Debug)]
pub struct Notification {
    pub public: PublicKey,
    pub value: u64,
}

/// Ghost form of a notification.
pub ghost struct NotificationModel {
    pub recipient: Seq<u8>,
    pub value: u64,
}

pub open spec fn notifs_model(s: Seq<Notification>) -> Seq<NotificationModel> {
    Seq::new(
        s.len(),
        |i: int| NotificationModel { recipient: s[i].public.repr@, value: s[i].value },
    )
}

/// Every wallet witness agrees with the state's tree: same depth, the same
/// leaf row, and an in-range position.
pub open spec fn wallet_synced(w: WalletModel, st: StateModel) -> bool {
    forall|i: int|
        0 <= i < w.entries.len() ==> {
            let wit = (#[trigger] w.entries[i]).witness;
            &&& wit.depth == st.depth
            &&& wit.leaves == st.leaves
            &&& wit.position < st.leaves.len()
        }
}

/// The trial-decryption loop over the candidate keys for one fresh coin:
/// every matching key records an own coin (witness anchored at `leaves`, the
/// row just after this coin's insertion) and emits a notification.
pub open spec fn apply_keys(
    w: WalletModel,
    notifs: Seq<NotificationModel>,
    depth: nat,
    leaves: Seq<MerkleNode>,
    coin: Coin,
    enc: EncModel,
    keys: Seq<SecretKey>,
) -> (WalletModel, Seq<NotificationModel>)
    decreases keys.len(),
{
    if keys.len() == 0 {
        (w, notifs)
    } else {
        let k = keys[0];
        if enc.recipient == public_of(k.value) {
            let oc = OwnCoinModel {
                coin,
                note: enc.note,
                secret: k,
                witness: WitnessModel { depth, position: (leaves.len() - 1) as nat, leaves },
                reserved: false,
            };
            apply_keys(
                put_own_coin(w, oc),
                notifs.push(NotificationModel { recipient: public_of(k.value), value: enc.note.value }),
                depth,
                leaves,
                coin,
                enc,
                keys.drop_first(),
            )
        } else {
            apply_keys(w, notifs, depth, leaves, coin, enc, keys.drop_first())
        }
    }
}

/// The coin loop of `apply`: append the coin's leaf, record the new root,
/// extend every tracked witness, then trial-decrypt its note.
pub open spec fn apply_coins(
    st: StateModel,
    w: WalletModel,
    notifs: Seq<NotificationModel>,
    coins: Seq<Coin>,
    notes: Seq<EncModel>,
    keys: Seq<SecretKey>,
) -> (StateModel, WalletModel, Seq<NotificationModel>)
    decreases coins.len(),
{
    if coins.len() == 0 || notes.len() == 0 {
        (st, w, notifs)
    } else {
        let node = MerkleNode { repr: coins[0].repr };
        let leaves2 = st.leaves.push(node);
        let st2 = StateModel {
            leaves: leaves2,
            roots: put_root(st.roots, root_spec(leaves2, st.depth)),
            ..st
        };
        let w2 = extend_witnesses(w, node);
        let step = apply_keys(w2, notifs, st.depth, leaves2, coins[0], notes[0], keys);
        apply_coins(st2, step.0, step.1, coins.drop_first(), notes.drop_first(), keys)
    }
}

/// What one `apply` call does, in full: record the nullifiers, then fold the
/// new coins in one by one.
pub open spec fn apply_spec(
    st: StateModel,
    w: WalletModel,
    u: UpdateModel,
    keys: Seq<SecretKey>,
) -> (StateModel, WalletModel, Seq<NotificationModel>) {
    let st1 = StateModel { nullifiers: put_nullifiers(st.nullifiers, u.nullifiers), ..st };
    apply_coins(st1, w, Seq::empty(), u.coins, u.enc_notes, keys)
}

impl State {
    /// Atomically folds a validated update into the tree, root history,
    /// nullifier set and wallet: every new nullifier is recorded, every new
    /// coin is appended with its root remembered, every tracked witness is
    /// extended in order, and each note is trial-decrypted against every
    /// candidate key, recording an own coin and emitting a notification on
    /// success.
    #[verifier::loop_isolation(false)]
    pub fn apply(
        &mut self,
        update: StateUpdate,
        secret_keys: &Vec<SecretKey>,
        wallet: &mut Wallet,
    ) -> (notifications: Vec<Notification>)
        requires
            old(self).wf(),
            wallet_synced(old(wallet)@, old(self)@),
            old(self)@.leaves.len() + vstd::math::min(
                update.coins@.len() as int,
                update.enc_notes@.len() as int,
            ) <= vstd::arithmetic::power2::pow2(old(self)@.depth),
        ensures
            ({
                let r = apply_spec(old(self)@, old(wallet)@, update_model(update), secret_keys@);
                &&& final(self)@ == r.0
                &&& final(wallet)@ == r.1
                &&& notifs_model(notifications@) == r.2
            }),
            final(self).wf(),
            wallet_synced(final(wallet)@, final(self)@),
    {
        let ghost st_start = self@;
        let ghost keys = secret_keys@;
        let ghost um = update_model(update);

        // Record the revealed nullifiers.
        let mut n: usize = 0;
        proof {
            assert(um.nullifiers.skip(0) =~= um.nullifiers);
        }
        while n < update.nullifiers.len()
            invariant
                n <= update.nullifiers@.len(),
                self.tree == old(self).tree,
                self.merkle_roots == old(self).merkle_roots,
                self.public_keys == old(self).public_keys,
                put_nullifiers(old(self)@.nullifiers, um.nullifiers) == put_nullifiers(
                    self@.nullifiers,
                    um.nullifiers.skip(n as int),
                ),
            decreases update.nullifiers@.len() - n,
        {
            proof {
                assert(um.nullifiers.skip(n as int)[0] == um.nullifiers[n as int]);
                assert(um.nullifiers.skip(n as int).drop_first() =~= um.nullifiers.skip(
                    n as int + 1,
                ));
            }
            self.nullifiers.put(update.nullifiers[n]);
            n = n + 1;
        }
        proof {
            assert(um.nullifiers.skip(um.nullifiers.len() as int) =~= Seq::<Nullifier>::empty());
        }
        let ghost st1 = StateModel {
            nullifiers: put_nullifiers(old(self)@.nullifiers, um.nullifiers),
            ..old(self)@
        };
        proof {
            assert(self@ == st1);
        }

        // Fold the new coins in, in update order.
        let count: usize = if update.coins.len() <= update.enc_notes.len() {
            update.coins.len()
        } else {
            update.enc_notes.len()
        };
        let ghost target = apply_coins(st1, old(wallet)@, Seq::empty(), um.coins, um.enc_notes, keys);
        let mut notifications: Vec<Notification> = Vec::new();
        proof {
            assert(notifs_model(notifications@) =~= Seq::<NotificationModel>::empty());
            assert(um.coins.skip(0) =~= um.coins);
            assert(um.enc_notes.skip(0) =~= um.enc_notes);
        }
        let mut i: usize = 0;
        while i < count
            invariant
                i <= count,
                self.tree.depth == old(self).tree.depth,
                self.public_keys == old(self).public_keys,
                self@.nullifiers == st1.nullifiers,
                self.wf(),
                wallet_synced(wallet@, self@),
                self@.leaves.len() == st1.leaves.len() + i,
                apply_coins(
                    self@,
                    wallet@,
                    notifs_model(notifications@),
                    um.coins.skip(i as int),
                    um.enc_notes.skip(i as int),
                    keys,
                ) == target,
            decreases count - i,
        {
            proof {
                assert(um.coins.skip(i as int)[0] == um.coins[i as int]);
                assert(um.coins.skip(i as int).drop_first() =~= um.coins.skip(i as int + 1));
                assert(um.enc_notes.skip(i as int)[0] == um.enc_notes[i as int]);
                assert(um.enc_notes.skip(i as int).drop_first() =~= um.enc_notes.skip(i as int + 1));
            }
            let ghost st_i = self@;
            let ghost w_i = wallet@;
            let ghost notifs_i = notifs_model(notifications@);

            let node = MerkleNode::from_coin(&update.coins[i]);
            let r = self.tree.append(node);
            proof {
                assert(r is Ok);
                assert(self@.leaves == st_i.leaves.push(node));
            }
            let new_root = self.tree.root();
            self.merkle_roots.put(new_root);
            wallet.update_witnesses(node);
            let ghost st_step = StateModel {
                leaves: st_i.leaves.push(node),
                roots: put_root(st_i.roots, root_spec(st_i.leaves.push(node), st_i.depth)),
                ..st_i
            };
            proof {
                assert(self@ == st_step);
                assert(wallet@ == extend_witnesses(w_i, node));
            }

            // Trial-decrypt against every candidate key.
            let ghost key_target = apply_keys(
                wallet@,
                notifs_i,
                st_i.depth,
                st_step.leaves,
                um.coins[i as int],
                um.enc_notes[i as int],
                keys,
            );
            let mut j: usize = 0;
            proof {
                assert(keys.skip(0) =~= keys);
            }
            while j < secret_keys.len()
                invariant
                    j <= keys.len(),
                    self@ == st_step,
                    apply_keys(
                        wallet@,
                        notifs_model(notifications@),
                        st_i.depth,
                        st_step.leaves,
                        um.coins[i as int],
                        um.enc_notes[i as int],
                        keys.skip(j as int),
                    ) == key_target,
                    wallet_synced(wallet@, self@),
                decreases keys.len() - j,
            {
                proof {
                    assert(keys.skip(j as int)[0] == keys[j as int]);
                    assert(keys.skip(j as int).drop_first() =~= keys.skip(j as int + 1));
                }
                let secret = secret_keys[j];
                if let Some(decrypted) = Self::try_decrypt_note(&update.enc_notes[i], secret) {
                    let witness = IncrementalWitness::from_tree(&self.tree);
                    let own_coin = OwnCoin {
                        coin: update.coins[i],
                        note: decrypted,
                        secret,
                        witness,
                    };
                    let ghost w_before = wallet@;
                    let ghost notifs_before = notifs_model(notifications@);
                    wallet.put_own_coins(own_coin);
                    let pub_key = derive_public(&secret);
                    notifications.push(Notification { public: pub_key, value: decrypted.value });
                    proof {
                        let oc = OwnCoinModel {
                            coin: um.coins[i as int],
                            note: um.enc_notes[i as int].note,
                            secret: keys[j as int],
                            witness: WitnessModel {
                                depth: st_i.depth,
                                position: (st_step.leaves.len() - 1) as nat,
                                leaves: st_step.leaves,
                            },
                            reserved: false,
                        };
                        assert(wallet@ == put_own_coin(w_before, oc));
                        crate::wallet::lemma_put_own_coin_witnesses(w_before, oc);
                        assert(wallet_synced(wallet@, self@));
                        assert(notifs_model(notifications@) =~= notifs_before.push(
                            NotificationModel {
                                recipient: public_of(keys[j as int].value),
                                value: um.enc_notes[i as int].note.value,
                            },
                        ));
                    }
                } else {
                }
                j = j + 1;
            }
            proof {
                assert(keys.skip(keys.len() as int) =~= Seq::<SecretKey>::empty());
            }
            i = i + 1;
        }
        proof {
            if um.coins.len() <= um.enc_notes.len() {
                assert(um.coins.skip(count as int) =~= Seq::<Coin>::empty());
            } else {
                assert(um.enc_notes.skip(count as int) =~= Seq::<EncModel>::empty());
            }
        }
        notifications
    }
}

/// Whether every transparent input of a decoded transaction is
/// cashier-signed, stated over the transaction's ghost form.
pub open spec fn clears_valid_m(state: State, cms: Seq<crate::tx::ClearInputModel>) -> bool {
    forall|i: int|
        0 <= i < cms.len() ==> cashier_key_valid(state, (#[trigger] cms[i]).signature_public)
}

/// The input scan, stated over the transaction's ghost form.
pub open spec fn scan_inputs_m(state: State, ims: Seq<crate::tx::InputModel>) -> Option<
    VerifyFailed,
>
    decreases ims.len(),
{
    if ims.len() == 0 {
        None
    } else if !state.merkle_roots.entries@.contains(ims[0].revealed.merkle_root) {
        Some(VerifyFailed::InvalidMerkleRoot)
    } else if state.nullifiers.entries@.contains(ims[0].revealed.nullifier) {
        Some(VerifyFailed::DoubleSpend)
    } else {
        scan_inputs_m(state, ims.drop_first())
    }
}

/// The validation verdict, stated over the transaction's ghost form.
pub open spec fn verdict_m(state: State, tm: crate::tx::TxModel, proofs_ok: bool) -> Option<
    VerifyFailed,
> {
    if !clears_valid_m(state, tm.clear_inputs) {
        Some(VerifyFailed::InvalidAddress)
    } else if !proofs_ok {
        Some(VerifyFailed::ProofVerificationFailure)
    } else {
        scan_inputs_m(state, tm.inputs)
    }
}

/// The update a transaction's ghost form gives rise to.
pub open spec fn update_of_tx(tm: crate::tx::TxModel) -> UpdateModel {
    UpdateModel {
        nullifiers: Seq::new(tm.inputs.len(), |i: int| tm.inputs[i].revealed.nullifier),
        coins: Seq::new(tm.outputs.len(), |i: int| tm.outputs[i].coin),
        enc_notes: Seq::new(
            tm.outputs.len(),
            |i: int| EncModel { recipient: tm.outputs[i].recipient, note: tm.outputs[i].note },
        ),
    }
}

proof fn lemma_scan_agree(state: State, inputs: Seq<TransactionInput>, ims: Seq<crate::tx::InputModel>)
    requires
        inputs.len() == ims.len(),
        forall|j: int| 0 <= j < ims.len() ==> crate::tx::input_model(#[trigger] inputs[j]) == ims[j],
    ensures
        scan_inputs(state, inputs) == scan_inputs_m(state, ims),
    decreases inputs.len(),
{
    if inputs.len() > 0 {
        assert(crate::tx::input_model(inputs[0]) == ims[0]);
        assert(forall|j: int|
            0 <= j < inputs.drop_first().len() ==> inputs.drop_first()[j] == inputs[j + 1]);
        assert(forall|j: int|
            0 <= j < ims.drop_first().len() ==> ims.drop_first()[j] == ims[j + 1]);
        lemma_scan_agree(state, inputs.drop_first(), ims.drop_first());
    }
}

/// The exec-level verdict agrees with the verdict over the transaction's
/// ghost form.
pub proof fn lemma_verdict_agree(state: State, tx: Transaction, proofs_ok: bool)
    ensures
        verdict(state, tx, proofs_ok) == verdict_m(state, crate::tx::tx_model(tx), proofs_ok),
{
    let tm = crate::tx::tx_model(tx);
    assert(all_clears_valid(state, tx) <==> clears_valid_m(state, tm.clear_inputs)) by {
        if all_clears_valid(state, tx) {
            assert forall|i: int|
                0 <= i < tm.clear_inputs.len() implies cashier_key_valid(
                state,
                (#[trigger] tm.clear_inputs[i]).signature_public,
            ) by {
                assert(tm.clear_inputs[i] == crate::tx::clear_input_model(tx.clear_inputs@[i]));
            };
        }
        if clears_valid_m(state, tm.clear_inputs) {
            assert forall|i: int|
                0 <= i < tx.clear_inputs@.len() implies cashier_key_valid(
                state,
                #[trigger] tx.clear_inputs@[i].signature_public.repr@,
            ) by {
                assert(tm.clear_inputs[i] == crate::tx::clear_input_model(tx.clear_inputs@[i]));
                assert(cashier_key_valid(state, tm.clear_inputs[i].signature_public));
            };
        }
    };
    assert(forall|j: int|
        0 <= j < tm.inputs.len() ==> crate::tx::input_model(#[trigger] tx.inputs@[j])
            == tm.inputs[j]);
    lemma_scan_agree(state, tx.inputs@, tm.inputs);
}

/// Whether any of the candidate keys opens `enc`.
pub open spec fn matches_any(enc: EncModel, keys: Seq<SecretKey>) -> bool {
    exists|k: int| 0 <= k < keys.len() && public_of((#[trigger] keys[k]).value) == enc.recipient
}

/// Length of the zipped (coins, notes) traversal.
pub open spec fn zip_len(coins: Seq<Coin>, notes: Seq<EncModel>) -> int {
    if coins.len() <= notes.len() {
        coins.len() as int
    } else {
        notes.len() as int
    }
}

/// Whether folding in the update would record coin `c` for some key.
pub open spec fn matched_in(
    coins: Seq<Coin>,
    notes: Seq<EncModel>,
    keys: Seq<SecretKey>,
    c: Coin,
) -> bool {
    exists|i: int|
        0 <= i < zip_len(coins, notes) && (#[trigger] coins[i]) == c && matches_any(notes[i], keys)
}

proof fn lemma_extend_ids(w: WalletModel, node: MerkleNode)
    ensures
        extend_witnesses(w, node).entries.len() == w.entries.len(),
        forall|c: Coin| has_coin(extend_witnesses(w, node), c) <==> has_coin(w, c),
{
    let e = extend_witnesses(w, node);
    assert forall|c: Coin| has_coin(e, c) <==> has_coin(w, c) by {
        if has_coin(e, c) {
            let t = choose|t: int| 0 <= t < e.entries.len() && (#[trigger] e.entries[t]).coin == c;
            assert(w.entries[t].coin == c);
        }
        if has_coin(w, c) {
            let t = choose|t: int| 0 <= t < w.entries.len() && (#[trigger] w.entries[t]).coin == c;
            assert(e.entries[t].coin == c);
        }
    };
}

proof fn lemma_matches_any_unfold(enc: EncModel, keys: Seq<SecretKey>)
    requires
        keys.len() > 0,
    ensures
        matches_any(enc, keys) <==> (public_of(keys[0].value) == enc.recipient || matches_any(
            enc,
            keys.drop_first(),
        )),
{
    assert(forall|j: int|
        0 <= j < keys.drop_first().len() ==> keys.drop_first()[j] == keys[j + 1]);
    if matches_any(enc, keys) {
        let k = choose|k: int|
            0 <= k < keys.len() && public_of((#[trigger] keys[k]).value) == enc.recipient;
        if k > 0 {
            assert(keys.drop_first()[k - 1] == keys[k]);
        }
    }
    if matches_any(enc, keys.drop_first()) {
        let k = choose|k: int|
            0 <= k < keys.drop_first().len() && public_of(
                (#[trigger] keys.drop_first()[k]).value,
            ) == enc.recipient;
        assert(keys[k + 1] == keys.drop_first()[k]);
    }
}

proof fn lemma_apply_keys_ids(
    w: WalletModel,
    notifs: Seq<NotificationModel>,
    depth: nat,
    leaves: Seq<MerkleNode>,
    coin: Coin,
    enc: EncModel,
    keys: Seq<SecretKey>,
)
    ensures
        ({
            let r = apply_keys(w, notifs, depth, leaves, coin, enc, keys).0;
            &&& forall|c: Coin|
                has_coin(r, c) <==> (has_coin(w, c) || (matches_any(enc, keys) && c == coin))
            &&& r.entries.len() == w.entries.len() + (
            if matches_any(enc, keys) && !has_coin(w, coin) {
                1int
            } else {
                0int
            })
        }),
    decreases keys.len(),
{
    if keys.len() == 0 {
        assert(!matches_any(enc, keys));
    } else {
        lemma_matches_any_unfold(enc, keys);
        let k = keys[0];
        if enc.recipient == public_of(k.value) {
            let oc = OwnCoinModel {
                coin,
                note: enc.note,
                secret: k,
                witness: WitnessModel { depth, position: (leaves.len() - 1) as nat, leaves },
                reserved: false,
            };
            crate::wallet::lemma_put_own_coin_ids(w, oc);
            lemma_apply_keys_ids(
                put_own_coin(w, oc),
                notifs.push(
                    NotificationModel { recipient: public_of(k.value), value: enc.note.value },
                ),
                depth,
                leaves,
                coin,
                enc,
                keys.drop_first(),
            );
        } else {
            lemma_apply_keys_ids(w, notifs, depth, leaves, coin, enc, keys.drop_first());
        }
    }
}

proof fn lemma_matched_in_unfold(
    coins: Seq<Coin>,
    notes: Seq<EncModel>,
    keys: Seq<SecretKey>,
    c: Coin,
)
    requires
        coins.len() > 0,
        notes.len() > 0,
    ensures
        matched_in(coins, notes, keys, c) <==> ((coins[0] == c && matches_any(notes[0], keys))
            || matched_in(coins.drop_first(), notes.drop_first(), keys, c)),
{
    assert(forall|j: int|
        0 <= j < coins.drop_first().len() ==> coins.drop_first()[j] == coins[j + 1]);
    assert(forall|j: int|
        0 <= j < notes.drop_first().len() ==> notes.drop_first()[j] == notes[j + 1]);
    assert(zip_len(coins.drop_first(), notes.drop_first()) == zip_len(coins, notes) - 1);
    if matched_in(coins, notes, keys, c) {
        let i = choose|i: int|
            0 <= i < zip_len(coins, notes) && (#[trigger] coins[i]) == c && matches_any(
                notes[i],
                keys,
            );
        if i > 0 {
            assert(coins.drop_first()[i - 1] == c && matches_any(notes.drop_first()[i - 1], keys));
        }
    }
    if matched_in(coins.drop_first(), notes.drop_first(), keys, c) {
        let i = choose|i: int|
            0 <= i < zip_len(coins.drop_first(), notes.drop_first()) && (#[trigger] coins.drop_first()[i])
                == c && matches_any(notes.drop_first()[i], keys);
        assert(coins[i + 1] == c && matches_any(notes[i + 1], keys));
    }
}

proof fn lemma_apply_coins_ids(
    st: StateModel,
    w: WalletModel,
    notifs: Seq<NotificationModel>,
    coins: Seq<Coin>,
    notes: Seq<EncModel>,
    keys: Seq<SecretKey>,
)
    ensures
        ({
            let r = apply_coins(st, w, notifs, coins, notes, keys);
            &&& forall|c: Coin|
                has_coin(r.1, c) <==> (has_coin(w, c) || matched_in(coins, notes, keys, c))
            &&& r.0.nullifiers == st.nullifiers
            &&& r.0.depth == st.depth
            &&& forall|x: MerkleNode| st.roots.contains(x) ==> r.0.roots.contains(x)
        }),
    decreases coins.len(),
{
    if coins.len() == 0 || notes.len() == 0 {
        assert(zip_len(coins, notes) == 0);
        assert(forall|c: Coin| !matched_in(coins, notes, keys, c));
    } else {
        let node = MerkleNode { repr: coins[0].repr };
        let leaves2 = st.leaves.push(node);
        let new_root = root_spec(leaves2, st.depth);
        let st2 = StateModel { leaves: leaves2, roots: put_root(st.roots, new_root), ..st };
        let w2 = extend_witnesses(w, node);
        let step = apply_keys(w2, notifs, st.depth, leaves2, coins[0], notes[0], keys);
        let r_full = apply_coins(st, w, notifs, coins, notes, keys);
        let r_rest = apply_coins(st2, step.0, step.1, coins.drop_first(), notes.drop_first(), keys);
        assert(r_full == r_rest);
        lemma_extend_ids(w, node);
        lemma_apply_keys_ids(w2, notifs, st.depth, leaves2, coins[0], notes[0], keys);
        lemma_apply_coins_ids(st2, step.0, step.1, coins.drop_first(), notes.drop_first(), keys);
        assert forall|c: Coin|
            has_coin(r_full.1, c) <==> (has_coin(w, c) || matched_in(coins, notes, keys, c)) by {
            assert(has_coin(r_rest.1, c) <==> (has_coin(step.0, c) || matched_in(
                coins.drop_first(),
                notes.drop_first(),
                keys,
                c,
            )));
            assert(has_coin(step.0, c) <==> (has_coin(w2, c) || (matches_any(notes[0], keys) && c
                == coins[0])));
            assert(has_coin(w2, c) <==> has_coin(w, c));
            lemma_matched_in_unfold(coins, notes, keys, c);
        };
        assert forall|x: MerkleNode| st.roots.contains(x) implies r_full.0.roots.contains(x) by {
            if !st.roots.contains(new_root) {
                let t = choose|t: int| 0 <= t < st.roots.len() && st.roots[t] == x;
                assert(st2.roots[t] == x);
            }
            assert(st2.roots.contains(x));
            assert(r_rest.0.roots.contains(x));
        };
    }
}

proof fn lemma_apply_coins_len_noop(
    st: StateModel,
    w: WalletModel,
    notifs: Seq<NotificationModel>,
    coins: Seq<Coin>,
    notes: Seq<EncModel>,
    keys: Seq<SecretKey>,
)
    requires
        forall|i: int|
            0 <= i < zip_len(coins, notes) ==> (matches_any(#[trigger] notes[i], keys) ==> has_coin(
                w,
                coins[i],
            )),
    ensures
        apply_coins(st, w, notifs, coins, notes, keys).1.entries.len() == w.entries.len(),
    decreases coins.len(),
{
    if coins.len() == 0 || notes.len() == 0 {
    } else {
        let node = MerkleNode { repr: coins[0].repr };
        let leaves2 = st.leaves.push(node);
        let st2 = StateModel {
            leaves: leaves2,
            roots: put_root(st.roots, root_spec(leaves2, st.depth)),
            ..st
        };
        let w2 = extend_witnesses(w, node);
        let step = apply_keys(w2, notifs, st.depth, leaves2, coins[0], notes[0], keys);
        lemma_extend_ids(w, node);
        lemma_apply_keys_ids(w2, notifs, st.depth, leaves2, coins[0], notes[0], keys);
        assert(forall|j: int|
            0 <= j < coins.drop_first().len() ==> coins.drop_first()[j] == coins[j + 1]);
        assert(forall|j: int|
            0 <= j < notes.drop_first().len() ==> notes.drop_first()[j] == notes[j + 1]);
        assert forall|i: int|
            0 <= i < zip_len(coins.drop_first(), notes.drop_first()) implies (matches_any(
            #[trigger] notes.drop_first()[i],
            keys,
        ) ==> has_coin(step.0, coins.drop_first()[i])) by {
            assert(notes.drop_first()[i] == notes[i + 1]);
            assert(coins.drop_first()[i] == coins[i + 1]);
        };
        lemma_apply_coins_len_noop(st2, step.0, step.1, coins.drop_first(), notes.drop_first(), keys);
    }
}

proof fn lemma_put_nullifiers_contains(s: Seq<Nullifier>, l: Seq<Nullifier>)
    ensures
        forall|x: Nullifier|
            put_nullifiers(s, l).contains(x) <==> (s.contains(x) || l.contains(x)),
    decreases l.len(),
{
    if l.len() == 0 {
        assert(forall|x: Nullifier| !l.contains(x));
    } else {
        lemma_put_nullifiers_contains(put_nullifier(s, l[0]), l.drop_first());
        assert(forall|j: int| 0 <= j < l.drop_first().len() ==> l.drop_first()[j] == l[j + 1]);
        assert forall|x: Nullifier|
            put_nullifiers(s, l).contains(x) <==> (s.contains(x) || l.contains(x)) by {
            assert(put_nullifier(s, l[0]).contains(x) <==> (s.contains(x) || x == l[0])) by {
                if !s.contains(l[0]) {
                    if s.contains(x) {
                        let t = choose|t: int| 0 <= t < s.len() && s[t] == x;
                        assert(s.push(l[0])[t] == x);
                    }
                    assert(s.push(l[0])[s.len() as int] == l[0]);
                    if s.push(l[0]).contains(x) {
                        let t = choose|t: int|
                            0 <= t < s.push(l[0]).len() && s.push(l[0])[t] == x;
                        if t < s.len() {
                            assert(s[t] == x);
                        }
                    }
                }
            };
            if l.contains(x) {
                let t = choose|t: int| 0 <= t < l.len() && l[t] == x;
                if t > 0 {
                    assert(l.drop_first()[t - 1] == x);
                }
            }
            if l.drop_first().contains(x) {
                let t = choose|t: int| 0 <= t < l.drop_first().len() && l.drop_first()[t] == x;
                assert(l[t + 1] == x);
            }
        };
    }
}

proof fn lemma_put_nullifiers_noop(s: Seq<Nullifier>, l: Seq<Nullifier>)
    requires
        forall|j: int| 0 <= j < l.len() ==> s.contains(#[trigger] l[j]),
    ensures
        put_nullifiers(s, l) == s,
    decreases l.len(),
{
    if l.len() > 0 {
        assert(forall|j: int| 0 <= j < l.drop_first().len() ==> l.drop_first()[j] == l[j + 1]);
        lemma_put_nullifiers_noop(s, l.drop_first());
    }
}

proof fn lemma_double_apply_coin(
    st: StateModel,
    w: WalletModel,
    u: UpdateModel,
    keys: Seq<SecretKey>,
    c: Coin,
)
    ensures
        ({
            let r1 = apply_spec(st, w, u, keys);
            let r2 = apply_spec(r1.0, r1.1, u, keys);
            has_coin(r2.1, c) <==> has_coin(r1.1, c)
        }),
{
    let st1 = StateModel { nullifiers: put_nullifiers(st.nullifiers, u.nullifiers), ..st };
    let r1 = apply_spec(st, w, u, keys);
    let r2 = apply_spec(r1.0, r1.1, u, keys);
    assert(r1 == apply_coins(st1, w, Seq::empty(), u.coins, u.enc_notes, keys));
    lemma_apply_coins_ids(st1, w, Seq::empty(), u.coins, u.enc_notes, keys);
    let st2 = StateModel { nullifiers: put_nullifiers(r1.0.nullifiers, u.nullifiers), ..r1.0 };
    assert(r2 == apply_coins(st2, r1.1, Seq::empty(), u.coins, u.enc_notes, keys));
    lemma_apply_coins_ids(st2, r1.1, Seq::empty(), u.coins, u.enc_notes, keys);
    let x1 = apply_coins(st1, w, Seq::empty(), u.coins, u.enc_notes, keys).1;
    let x2 = apply_coins(st2, r1.1, Seq::empty(), u.coins, u.enc_notes, keys).1;
    assert(has_coin(x1, c) <==> (has_coin(w, c) || matched_in(u.coins, u.enc_notes, keys, c)));
    assert(has_coin(x2, c) <==> (has_coin(r1.1, c) || matched_in(u.coins, u.enc_notes, keys, c)));
}

/// Double-apply safety: folding the same update in a second time adds no
/// nullifier, records no new own coin and duplicates no wallet row.
pub proof fn lemma_double_apply_safe(
    st: StateModel,
    w: WalletModel,
    u: UpdateModel,
    keys: Seq<SecretKey>,
)
    ensures
        ({
            let r1 = apply_spec(st, w, u, keys);
            let r2 = apply_spec(r1.0, r1.1, u, keys);
            &&& r2.0.nullifiers == r1.0.nullifiers
            &&& forall|c: Coin| has_coin(r2.1, c) <==> has_coin(r1.1, c)
            &&& r2.1.entries.len() == r1.1.entries.len()
        }),
{
    let st1 = StateModel { nullifiers: put_nullifiers(st.nullifiers, u.nullifiers), ..st };
    let r1 = apply_spec(st, w, u, keys);
    let r2 = apply_spec(r1.0, r1.1, u, keys);
    assert(r1 == apply_coins(st1, w, Seq::empty(), u.coins, u.enc_notes, keys));
    lemma_apply_coins_ids(st1, w, Seq::empty(), u.coins, u.enc_notes, keys);
    assert(r1.0.nullifiers == put_nullifiers(st.nullifiers, u.nullifiers));

    // Nullifiers: everything in the update is already recorded after the
    // first apply, so the second put adds nothing.
    lemma_put_nullifiers_contains(st.nullifiers, u.nullifiers);
    assert forall|j: int|
        0 <= j < u.nullifiers.len() implies r1.0.nullifiers.contains(#[trigger] u.nullifiers[j]) by {
        assert(u.nullifiers.contains(u.nullifiers[j]));
    };
    lemma_put_nullifiers_noop(r1.0.nullifiers, u.nullifiers);
    let st2 = StateModel { nullifiers: put_nullifiers(r1.0.nullifiers, u.nullifiers), ..r1.0 };
    assert(r2 == apply_coins(st2, r1.1, Seq::empty(), u.coins, u.enc_notes, keys));
    lemma_apply_coins_ids(st2, r1.1, Seq::empty(), u.coins, u.enc_notes, keys);
    assert(r2.0.nullifiers == st2.nullifiers);

    // Own coins: everything the second pass would record is already held.
    assert forall|c: Coin| has_coin(r2.1, c) <==> has_coin(r1.1, c) by {
        lemma_double_apply_coin(st, w, u, keys, c);
    };
    assert forall|i: int|
        0 <= i < zip_len(u.coins, u.enc_notes) implies (matches_any(
        #[trigger] u.enc_notes[i],
        keys,
    ) ==> has_coin(r1.1, u.coins[i])) by {
        if matches_any(u.enc_notes[i], keys) {
            assert(matched_in(u.coins, u.enc_notes, keys, u.coins[i]));
        }
    };
    lemma_apply_coins_len_noop(st2, r1.1, Seq::empty(), u.coins, u.enc_notes, keys);
}

/// Every root the tree had produced before an apply is still accepted after
/// it: the historical root set never shrinks.
pub proof fn lemma_apply_roots_monotonic(
    st: StateModel,
    w: WalletModel,
    u: UpdateModel,
    keys: Seq<SecretKey>,
)
    ensures
        forall|x: MerkleNode|
            st.roots.contains(x) ==> apply_spec(st, w, u, keys).0.roots.contains(x),
{
    let st1 = StateModel { nullifiers: put_nullifiers(st.nullifiers, u.nullifiers), ..st };
    lemma_apply_coins_ids(st1, w, Seq::empty(), u.coins, u.enc_notes, keys);
}

/// Root-validity, accepting half: a transaction whose referenced roots were
/// all produced by the tree, whose nullifiers are all fresh, whose clear
/// inputs are cashier-signed, and whose proofs verify, validates.
pub proof fn lemma_valid_tx_accepted(state: State, tx: Transaction)
    requires
        all_clears_valid(state, tx),
        forall|j: int|
            0 <= j < tx.inputs@.len() ==> state.merkle_roots.entries@.contains(
                #[trigger] tx.inputs@[j].revealed.merkle_root,
            ),
        forall|j: int|
            0 <= j < tx.inputs@.len() ==> !state.nullifiers.entries@.contains(
                #[trigger] tx.inputs@[j].revealed.nullifier,
            ),
    ensures
        verdict(state, tx, true) is None,
{
    lemma_scan_clean(state, tx.inputs@);
}

proof fn lemma_scan_clean(state: State, inputs: Seq<TransactionInput>)
    requires
        forall|j: int|
            0 <= j < inputs.len() ==> state.merkle_roots.entries@.contains(
                #[trigger] inputs[j].revealed.merkle_root,
            ),
        forall|j: int|
            0 <= j < inputs.len() ==> !state.nullifiers.entries@.contains(
                #[trigger] inputs[j].revealed.nullifier,
            ),
    ensures
        scan_inputs(state, inputs) is None,
    decreases inputs.len(),
{
    if inputs.len() > 0 {
        assert(forall|j: int|
            0 <= j < inputs.drop_first().len() ==> inputs.drop_first()[j] == inputs[j + 1]);
        lemma_scan_clean(state, inputs.drop_first());
    }
}

/// Root-validity, rejecting half: if every revealed nullifier is fresh but
/// some referenced root was never produced by the tree, validation fails
/// with `InvalidMerkleRoot`.
pub proof fn lemma_unknown_root_rejected(state: State, tx: Transaction)
    requires
        all_clears_valid(state, tx),
        forall|j: int|
            0 <= j < tx.inputs@.len() ==> !state.nullifiers.entries@.contains(
                #[trigger] tx.inputs@[j].revealed.nullifier,
            ),
        exists|j: int|
            0 <= j < tx.inputs@.len() && !state.merkle_roots.entries@.contains(
                #[trigger] tx.inputs@[j].revealed.merkle_root,
            ),
    ensures
        verdict(state, tx, true) == Some(VerifyFailed::InvalidMerkleRoot),
{
    lemma_scan_bad_root(state, tx.inputs@);
}

proof fn lemma_scan_bad_root(state: State, inputs: Seq<TransactionInput>)
    requires
        forall|j: int|
            0 <= j < inputs.len() ==> !state.nullifiers.entries@.contains(
                #[trigger] inputs[j].revealed.nullifier,
            ),
        exists|j: int|
            0 <= j < inputs.len() && !state.merkle_roots.entries@.contains(
                #[trigger] inputs[j].revealed.merkle_root,
            ),
    ensures
        scan_inputs(state, inputs) == Some(VerifyFailed::InvalidMerkleRoot),
    decreases inputs.len(),
{
    if !state.merkle_roots.entries@.contains(inputs[0].revealed.merkle_root) {
    } else {
        let j = choose|j: int|
            0 <= j < inputs.len() && !state.merkle_roots.entries@.contains(
                #[trigger] inputs[j].revealed.merkle_root,
            );
        assert(forall|i: int|
            0 <= i < inputs.drop_first().len() ==> inputs.drop_first()[i] == inputs[i + 1]);
        assert(inputs.drop_first()[j - 1] == inputs[j]);
        lemma_scan_bad_root(state, inputs.drop_first());
    }
}

/// Double-spend rejection: if every referenced root is valid and the clear
/// inputs and proofs pass, but some revealed nullifier is already recorded,
/// validation fails with `DoubleSpend`.
pub proof fn lemma_spent_nullifier_rejected(state: State, tx: Transaction)
    requires
        all_clears_valid(state, tx),
        forall|j: int|
            0 <= j < tx.inputs@.len() ==> state.merkle_roots.entries@.contains(
                #[trigger] tx.inputs@[j].revealed.merkle_root,
            ),
        exists|j: int|
            0 <= j < tx.inputs@.len() && state.nullifiers.entries@.contains(
                #[trigger] tx.inputs@[j].revealed.nullifier,
            ),
    ensures
        verdict(state, tx, true) == Some(VerifyFailed::DoubleSpend),
{
    lemma_scan_spent(state, tx.inputs@);
}

proof fn lemma_scan_spent(state: State, inputs: Seq<TransactionInput>)
    requires
        forall|j: int|
            0 <= j < inputs.len() ==> state.merkle_roots.entries@.contains(
                #[trigger] inputs[j].revealed.merkle_root,
            ),
        exists|j: int|
            0 <= j < inputs.len() && state.nullifiers.entries@.contains(
                #[trigger] inputs[j].revealed.nullifier,
            ),
    ensures
        scan_inputs(state, inputs) == Some(VerifyFailed::DoubleSpend),
    decreases inputs.len(),
{
    if state.nullifiers.entries@.contains(inputs[0].revealed.nullifier) {
    } else {
        let j = choose|j: int|
            0 <= j < inputs.len() && state.nullifiers.entries@.contains(
                #[trigger] inputs[j].revealed.nullifier,
            );
        assert(forall|i: int|
            0 <= i < inputs.drop_first().len() ==> inputs.drop_first()[i] == inputs[i + 1]);
        assert(inputs.drop_first()[j - 1] == inputs[j]);
        lemma_scan_spent(state, inputs.drop_first());
    }
}

} // verus!
