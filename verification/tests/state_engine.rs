use drk::keys::{derive_public, keypair_from_secret, PublicKey, SecretKey};
use drk::merkle::{CommitmentTree, IncrementalWitness, MerkleNode};
use drk::note::{Note, Nullifier};
use drk::state::{
    state_transition, MerkleRootStore, NullifierStore, State, StateUpdate, VerifyFailed,
};
use drk::tx::{SpendRevealedValues, Transaction, TransactionInput};
use drk::wallet::Wallet;
use drk::note::compute_coin;

fn empty_state(depth: usize) -> State {
    State {
        tree: CommitmentTree::new(depth),
        merkle_roots: MerkleRootStore::new(),
        nullifiers: NullifierStore::new(),
        public_keys: Vec::new(),
    }
}

fn mint_update(recipient: &PublicKey, note: Note) -> StateUpdate {
    let coin = compute_coin(recipient, &note);
    StateUpdate {
        nullifiers: Vec::new(),
        coins: vec![coin],
        enc_notes: vec![note.encrypt(recipient)],
    }
}

fn sample_note(value: u64, serial: u64) -> Note {
    Note { serial, value, token_id: 7, coin_blind: 11, valcom_blind: 13 }
}

fn spend_input(_state: &State, wallet: &Wallet, entry: usize) -> TransactionInput {
    let own = &wallet.entries[entry].own_coin;
    let path = own.witness.path();
    let leaf = MerkleNode::from_coin(&own.coin);
    let root = path.root(leaf);
    TransactionInput {
        spend_proof: vec![1, 2, 3],
        revealed: SpendRevealedValues {
            value_commit: own.note.value,
            token_commit: own.note.token_id,
            nullifier: Nullifier::new(own.secret, own.note.serial),
            merkle_root: root,
            signature_public: derive_public(&own.secret),
        },
        signature: vec![],
    }
}

#[test]
fn witness_path_length_tracks_depth() {
    let mut tree = CommitmentTree::new(8);
    tree.append(MerkleNode { repr: 10 }).unwrap();
    let mut witness = IncrementalWitness::from_tree(&tree);
    assert_eq!(witness.path_length(), 8);
    for leaf in 11..20u64 {
        tree.append(MerkleNode { repr: leaf }).unwrap();
        witness.append(MerkleNode { repr: leaf }).unwrap();
        assert_eq!(witness.path_length(), 8);
    }
}

#[test]
fn tree_full_is_reported() {
    let mut tree = CommitmentTree::new(2);
    for leaf in 0..4u64 {
        assert!(tree.append(MerkleNode { repr: leaf }).is_ok());
    }
    assert_eq!(tree.append(MerkleNode { repr: 99 }), Err(drk::error::Error::TreeFull));
}

#[test]
fn append_changes_root() {
    let mut tree = CommitmentTree::new(4);
    let r0 = tree.root();
    tree.append(MerkleNode { repr: 42 }).unwrap();
    let r1 = tree.root();
    assert_ne!(r0, r1);
    tree.append(MerkleNode { repr: 43 }).unwrap();
    assert_ne!(r1, tree.root());
}

#[test]
fn witness_path_authenticates_against_root() {
    let mut tree = CommitmentTree::new(5);
    tree.append(MerkleNode { repr: 1 }).unwrap();
    tree.append(MerkleNode { repr: 2 }).unwrap();
    let mut witness = IncrementalWitness::from_tree(&tree);
    tree.append(MerkleNode { repr: 3 }).unwrap();
    witness.append(MerkleNode { repr: 3 }).unwrap();
    let path = witness.path();
    assert_eq!(path.root(MerkleNode { repr: 2 }), tree.root());
}

#[test]
fn trial_decryption_is_partial() {
    let owner = SecretKey { value: 77 };
    let stranger = SecretKey { value: 78 };
    let note = sample_note(100, 5);
    let enc = note.encrypt(&derive_public(&owner));
    assert_eq!(enc.decrypt(&owner), Some(note));
    assert_eq!(enc.decrypt(&stranger), None);
}

#[test]
fn apply_records_coin_and_notifies() {
    let mut state = empty_state(8);
    let mut wallet = Wallet::new();
    let secret = SecretKey { value: 5 };
    let keys = vec![secret];
    let note = sample_note(100, 1);
    let update = mint_update(&derive_public(&secret), note);
    let notifications = state.apply(update, &keys, &mut wallet);
    assert_eq!(wallet.entries.len(), 1);
    assert_eq!(wallet.entries[0].own_coin.note.value, 100);
    assert_eq!(notifications.len(), 1);
    assert_eq!(notifications[0].value, 100);
    assert_eq!(notifications[0].public.repr, derive_public(&secret).repr);
    assert!(state.is_valid_merkle(&state.tree.root()));
}

#[test]
fn double_apply_does_not_duplicate_coins() {
    let mut state = empty_state(8);
    let mut wallet = Wallet::new();
    let secret = SecretKey { value: 5 };
    let keys = vec![secret];
    let note = sample_note(100, 1);
    let update1 = mint_update(&derive_public(&secret), note);
    let update2 = mint_update(&derive_public(&secret), note);
    state.apply(update1, &keys, &mut wallet);
    let nullifiers_before = state.nullifiers.entries.len();
    state.apply(update2, &keys, &mut wallet);
    assert_eq!(wallet.entries.len(), 1);
    assert_eq!(state.nullifiers.entries.len(), nullifiers_before);
    assert_eq!(wallet.entries[0].own_coin.witness.path_length(), 8);
}

#[test]
fn historical_roots_validate() {
    let mut state = empty_state(8);
    let mut wallet = Wallet::new();
    let owner = SecretKey { value: 9 };
    let keys = vec![owner];
    state.apply(mint_update(&derive_public(&owner), sample_note(50, 1)), &keys, &mut wallet);
    let old_root = state.tree.root();
    state.apply(mint_update(&derive_public(&owner), sample_note(60, 2)), &keys, &mut wallet);
    // A transaction referencing the older root still validates.
    let mut tx_input = spend_input(&state, &wallet, 0);
    tx_input.revealed.merkle_root = old_root;
    let tx = Transaction { clear_inputs: vec![], inputs: vec![tx_input], outputs: vec![] };
    let update = state_transition(&state, &tx, true).expect("old root accepted");
    assert_eq!(update.nullifiers.len(), 1);
}

#[test]
fn unknown_root_is_rejected() {
    let mut state = empty_state(8);
    let mut wallet = Wallet::new();
    let owner = SecretKey { value: 9 };
    let keys = vec![owner];
    state.apply(mint_update(&derive_public(&owner), sample_note(50, 1)), &keys, &mut wallet);
    let mut tx_input = spend_input(&state, &wallet, 0);
    tx_input.revealed.merkle_root = MerkleNode { repr: 0xdead };
    let tx = Transaction { clear_inputs: vec![], inputs: vec![tx_input], outputs: vec![] };
    assert!(matches!(state_transition(&state, &tx, true), Err(VerifyFailed::InvalidMerkleRoot)));
}

#[test]
fn spent_nullifier_is_rejected() {
    let mut state = empty_state(8);
    let mut wallet = Wallet::new();
    let owner = SecretKey { value: 9 };
    let keys = vec![owner];
    state.apply(mint_update(&derive_public(&owner), sample_note(50, 1)), &keys, &mut wallet);
    let tx_input = spend_input(&state, &wallet, 0);
    let nullifier = tx_input.revealed.nullifier;
    let tx = Transaction { clear_inputs: vec![], inputs: vec![tx_input], outputs: vec![] };
    // Record the nullifier as spent, then revalidate the same transaction.
    let spend = StateUpdate { nullifiers: vec![nullifier], coins: vec![], enc_notes: vec![] };
    state.apply(spend, &keys, &mut wallet);
    assert!(matches!(state_transition(&state, &tx, true), Err(VerifyFailed::DoubleSpend)));
}

#[test]
fn failing_proofs_are_rejected() {
    let state = empty_state(8);
    let tx = Transaction { clear_inputs: vec![], inputs: vec![], outputs: vec![] };
    assert!(matches!(
        state_transition(&state, &tx, false),
        Err(VerifyFailed::ProofVerificationFailure)
    ));
    assert!(state_transition(&state, &tx, true).is_ok());
}

#[test]
fn unknown_cashier_key_is_rejected() {
    let state = empty_state(8);
    let kp = keypair_from_secret(SecretKey { value: 3 });
    let clear = drk::tx::TransactionClearInput {
        value: 10,
        token_id: 7,
        signature_public: kp.public,
        signature: vec![],
    };
    let tx = Transaction { clear_inputs: vec![clear], inputs: vec![], outputs: vec![] };
    assert!(matches!(state_transition(&state, &tx, true), Err(VerifyFailed::InvalidAddress)));
}

#[test]
fn error_messages_name_the_failure() {
    assert_eq!(VerifyFailed::DoubleSpend.message(), "duplicate nullifier");
    assert_eq!(VerifyFailed::InvalidMerkleRoot.message(), "invalid merkle root");
    assert_eq!(drk::error::Error::TreeFull.message(), "commitment tree is full");
    assert_eq!(drk::error::Error::DecodeFailure.message(), "decode failed");
    assert_eq!(drk::error::Error::BadOperationType.message(), "bad operation type");
}

#[test]
fn public_key_derivation_transforms_the_secret() {
    let a = derive_public(&SecretKey { value: 5 });
    let b = derive_public(&SecretKey { value: 6 });
    assert_eq!(a.repr.len(), 32);
    assert_eq!(b.repr.len(), 32);
    assert_ne!(a.repr, b.repr);
    // The encoding is a curve point, not the little-endian scalar itself.
    let mut raw = vec![0u8; 32];
    raw[0] = 5;
    assert_ne!(a.repr, raw);
}
