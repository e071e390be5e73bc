use drk::client::{
    build_inputs, build_transfer, check_send_amount, check_transfer_token, ClientFailed,
    OutputRand,
};
use drk::keys::{derive_public, keypair_from_secret, SecretKey};
use drk::merkle::{CommitmentTree, MerkleNode};
use drk::note::{compute_coin, Note, Nullifier};
use drk::state::{state_transition, MerkleRootStore, NullifierStore, State, StateUpdate};
use drk::wallet::Wallet;

fn empty_state(depth: usize) -> State {
    State {
        tree: CommitmentTree::new(depth),
        merkle_roots: MerkleRootStore::new(),
        nullifiers: NullifierStore::new(),
        public_keys: Vec::new(),
    }
}

fn mint(state: &mut State, wallet: &mut Wallet, keys: &Vec<SecretKey>, owner: SecretKey, value: u64, serial: u64) {
    let note = Note { serial, value, token_id: 7, coin_blind: serial + 100, valcom_blind: serial + 200 };
    let recipient = derive_public(&owner);
    let coin = compute_coin(&recipient, &note);
    let update = StateUpdate {
        nullifiers: Vec::new(),
        coins: vec![coin],
        enc_notes: vec![note.encrypt(&recipient)],
    };
    state.apply(update, keys, wallet);
}

#[test]
fn coin_selection_accumulates_until_met() {
    let owner = SecretKey { value: 21 };
    let keys = vec![owner];
    let mut state = empty_state(8);
    let mut wallet = Wallet::new();
    mint(&mut state, &mut wallet, &keys, owner, 40, 1);
    mint(&mut state, &mut wallet, &keys, owner, 30, 2);
    mint(&mut state, &mut wallet, &keys, owner, 50, 3);

    let main_public = derive_public(&owner);
    let mut outputs = Vec::new();
    let inputs = build_inputs(&mut wallet, 60, 7, &main_public, &mut outputs).expect("enough value");
    assert_eq!(inputs.len(), 2);
    assert_eq!(inputs[0].note.value, 40);
    assert_eq!(inputs[1].note.value, 30);
    // Change output of 10 back to the wallet's own address.
    assert_eq!(outputs.len(), 1);
    assert_eq!(outputs[0].value, 10);
    assert_eq!(outputs[0].public.repr, main_public.repr);
    // The two selected coins are reserved, the third is not.
    assert!(wallet.entries[0].reserved);
    assert!(wallet.entries[1].reserved);
    assert!(!wallet.entries[2].reserved);
}

#[test]
fn insufficient_value_is_reported() {
    let owner = SecretKey { value: 21 };
    let keys = vec![owner];
    let mut state = empty_state(8);
    let mut wallet = Wallet::new();
    mint(&mut state, &mut wallet, &keys, owner, 40, 1);
    let main_public = derive_public(&owner);
    let mut outputs = Vec::new();
    assert!(matches!(
        build_inputs(&mut wallet, 60, 7, &main_public, &mut outputs),
        Err(ClientFailed::NotEnoughValue(40))
    ));
    assert!(outputs.is_empty());
}

#[test]
fn exact_selection_emits_no_change() {
    let owner = SecretKey { value: 21 };
    let keys = vec![owner];
    let mut state = empty_state(8);
    let mut wallet = Wallet::new();
    mint(&mut state, &mut wallet, &keys, owner, 60, 1);
    let main_public = derive_public(&owner);
    let mut outputs = Vec::new();
    let inputs = build_inputs(&mut wallet, 60, 7, &main_public, &mut outputs).expect("exact");
    assert_eq!(inputs.len(), 1);
    assert!(outputs.is_empty());
}

#[test]
fn zero_amount_is_invalid() {
    assert_eq!(check_send_amount(0), Err(ClientFailed::InvalidAmount(0)));
    assert!(check_send_amount(5).is_ok());
}

#[test]
fn unknown_token_fails_transfer() {
    assert_eq!(check_transfer_token(false, 25), Err(ClientFailed::NotEnoughValue(25)));
    assert!(check_transfer_token(true, 25).is_ok());
}

#[test]
fn transfer_end_to_end() {
    // Wallet A holds one coin of value 100.
    let secret_a = SecretKey { value: 1001 };
    let secret_b = SecretKey { value: 2002 };
    let keypair_a = keypair_from_secret(secret_a);
    let keys_a = vec![secret_a];
    let keys_b = vec![secret_b];
    let pub_b = derive_public(&secret_b);

    let mut state_a = empty_state(8);
    let mut wallet_a = Wallet::new();
    let mut state_b = empty_state(8);
    let mut wallet_b = Wallet::new();

    // The mint reaches both parties' views of the chain.
    let note = Note { serial: 1, value: 100, token_id: 7, coin_blind: 3, valcom_blind: 4 };
    let coin = compute_coin(&keypair_a.public, &note);
    let update_a = StateUpdate {
        nullifiers: vec![],
        coins: vec![coin],
        enc_notes: vec![note.encrypt(&keypair_a.public)],
    };
    let update_b = StateUpdate {
        nullifiers: vec![],
        coins: vec![coin],
        enc_notes: vec![note.encrypt(&keypair_a.public)],
    };
    state_a.apply(update_a, &keys_a, &mut wallet_a);
    state_b.apply(update_b, &keys_b, &mut wallet_b);
    assert_eq!(wallet_a.entries.len(), 1);
    assert!(wallet_b.entries.is_empty());

    // A builds a transfer of the full value: one input, no change output.
    let builder = build_transfer(&keypair_a, &mut wallet_a, &pub_b, 100, 7, false)
        .expect("transfer builds");
    assert_eq!(builder.inputs.len(), 1);
    assert_eq!(builder.clear_inputs.len(), 0);
    assert_eq!(builder.outputs.len(), 1);
    assert_eq!(builder.outputs[0].value, 100);
    assert_eq!(builder.outputs[0].public.repr, pub_b.repr);

    let tx = builder.build(
        &vec![],
        &vec![vec![9, 9]],
        &vec![vec![8, 8]],
        &vec![vec![7, 7]],
        &vec![OutputRand { serial: 55, coin_blind: 56, valcom_blind: 57 }],
    );

    // B validates and applies the resulting update.
    let update = state_transition(&state_b, &tx, true).expect("transaction validates");
    let spent_nullifier = Nullifier::new(secret_a, note.serial);
    assert_eq!(update.nullifiers.len(), 1);
    assert_eq!(update.nullifiers[0], spent_nullifier);

    let notifications = state_b.apply(update, &keys_b, &mut wallet_b);
    assert_eq!(wallet_b.entries.len(), 1);
    assert_eq!(wallet_b.entries[0].own_coin.note.value, 100);
    assert_eq!(notifications.len(), 1);
    assert_eq!(notifications[0].value, 100);
    assert!(state_b.nullifier_exists(&spent_nullifier));
}

#[test]
fn clear_input_transfer_uses_main_key() {
    let secret = SecretKey { value: 4004 };
    let keypair = keypair_from_secret(secret);
    let pub_b = derive_public(&SecretKey { value: 5005 });
    let mut wallet = Wallet::new();
    let builder = build_transfer(&keypair, &mut wallet, &pub_b, 25, 7, true).expect("clear builds");
    assert_eq!(builder.clear_inputs.len(), 1);
    assert_eq!(builder.clear_inputs[0].value, 25);
    assert_eq!(builder.inputs.len(), 0);
    assert_eq!(builder.outputs.len(), 1);
    let tx = builder.build(
        &vec![vec![1]],
        &vec![],
        &vec![],
        &vec![vec![2]],
        &vec![OutputRand { serial: 5, coin_blind: 6, valcom_blind: 7 }],
    );
    assert_eq!(tx.clear_inputs.len(), 1);
    assert_eq!(tx.clear_inputs[0].signature_public.repr, keypair.public.repr);
    // The minted output encodes the note for the recipient.
    assert_eq!(tx.outputs.len(), 1);
    assert_eq!(tx.outputs[0].enc_note.recipient.repr, pub_b.repr);
    assert_eq!(tx.outputs[0].coin, compute_coin(&pub_b, &tx.outputs[0].enc_note.note));
    let expected = MerkleNode::from_coin(&tx.outputs[0].coin);
    assert_eq!(expected.repr, tx.outputs[0].coin.repr);
}

#[test]
fn client_failed_wraps_verify_failures() {
    let wrapped = ClientFailed::from(drk::state::VerifyFailed::DoubleSpend);
    match wrapped {
        ClientFailed::ClientError(text) => assert_eq!(text, "duplicate nullifier"),
        other => panic!("unexpected variant: {:?}", other),
    }
}

#[test]
fn subscription_step_processes_slab() {
    // The full path of one received payload: encode, decode, validate, apply.
    let secret_a = SecretKey { value: 1001 };
    let secret_b = SecretKey { value: 2002 };
    let keypair_a = keypair_from_secret(secret_a);
    let keys_a = vec![secret_a];
    let keys_b = vec![secret_b];
    let pub_b = derive_public(&secret_b);

    let mut state_a = empty_state(8);
    let mut wallet_a = Wallet::new();
    let mut state_b = empty_state(8);
    let mut wallet_b = Wallet::new();

    let note = Note { serial: 1, value: 100, token_id: 7, coin_blind: 3, valcom_blind: 4 };
    let coin = compute_coin(&keypair_a.public, &note);
    for (state, wallet, keys) in [
        (&mut state_a, &mut wallet_a, &keys_a),
        (&mut state_b, &mut wallet_b, &keys_b),
    ] {
        let update = StateUpdate {
            nullifiers: vec![],
            coins: vec![coin],
            enc_notes: vec![note.encrypt(&keypair_a.public)],
        };
        state.apply(update, keys, wallet);
    }

    let builder = build_transfer(&keypair_a, &mut wallet_a, &pub_b, 100, 7, false).unwrap();
    let tx = builder.build(
        &vec![],
        &vec![vec![9]],
        &vec![vec![8]],
        &vec![vec![7]],
        &vec![OutputRand { serial: 55, coin_blind: 56, valcom_blind: 57 }],
    );
    let mut slab = Vec::new();
    tx.encode(&mut slab);

    let notifications =
        drk::client::process_slab(&mut state_b, &mut wallet_b, &slab, &keys_b, true)
            .expect("slab processes");
    assert_eq!(wallet_b.entries.len(), 1);
    assert_eq!(wallet_b.entries[0].own_coin.note.value, 100);
    assert_eq!(notifications.len(), 1);
    assert!(state_b.nullifier_exists(&Nullifier::new(secret_a, note.serial)));
}

#[test]
fn bad_slab_is_skipped_without_state_change() {
    let mut state = empty_state(8);
    let mut wallet = Wallet::new();
    let keys = vec![SecretKey { value: 1 }];
    let garbage = vec![0xffu8, 0x00];
    let r = drk::client::process_slab(&mut state, &mut wallet, &garbage, &keys, true);
    assert!(matches!(r, Err(drk::client::ProcessFailed::Decode(_))));
    assert!(state.tree.leaves.is_empty());
    assert!(wallet.entries.is_empty());
}
