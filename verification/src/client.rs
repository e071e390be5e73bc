//! Client-side transaction building and the per-payload processing step.
//!
//! The gateway, the wallet database and the prover are collaborators: the
//! network loop, key storage and proof generation live outside this crate.
//! What is decided and computed on their behalf — coin selection, change
//! computation, transaction assembly, and the decode/validate/apply step for
//! each incoming payload — is verified here.

use vstd::prelude::*;
use vstd::string::StringExecFns;
use crate::error::Error;
use crate::keys::{Keypair, PublicKey, SecretKey, public_of};
use crate::merkle::{MerkleNode, MerklePath, path_spec, fold_path_spec};
use crate::note::{Note, Nullifier, coin_commit, nullifier_of, compute_coin};
use crate::state::{
    Notification, State, VerifyFailed, apply_spec, enc_model, lemma_verdict_agree, notifs_model,
    state_transition, update_model, update_of_tx, verdict_m, verify_failed_text, wallet_synced,
};
use crate::tx::{
    SpendRevealedValues, Transaction, TransactionClearInput, TransactionInput, TransactionOutput,
    parse_tx,
};
use crate::wallet::{OwnCoinModel, Wallet};

verus! {

/// Failures surfaced to the caller of `send` and `transfer`.
#[derive(PartialEq, Eq, Debug)]
pub enum ClientFailed {
    NotEnoughValue(u64),
    InvalidAddress(String),
    InvalidAmount(u64),
    UnableToGetDepositAddress,
    UnableToGetWithdrawAddress,
    DoesNotHaveCashierPublicKey,
    DoesNotHaveKeypair,
    EmptyPassword,
    WalletInitialized,
    KeyExists,
    ClientError(String),
}

pub type ClientResult<T> = Result<T, ClientFailed>;

/// The fixed part of each failure's description; callers append the
/// offending amount or address themselves.
pub open spec fn client_failed_text(e: ClientFailed) -> Seq<char> {
    match e {
        ClientFailed::NotEnoughValue(_) => "There is no enough value"@,
        ClientFailed::InvalidAddress(_) => "Invalid Address"@,
        ClientFailed::InvalidAmount(_) => "Invalid Amount"@,
        ClientFailed::UnableToGetDepositAddress => "Unable to get deposit address"@,
        ClientFailed::UnableToGetWithdrawAddress => "Unable to get withdraw address"@,
        ClientFailed::DoesNotHaveCashierPublicKey => "Does not have cashier public key"@,
        ClientFailed::DoesNotHaveKeypair => "Does not have keypair"@,
        ClientFailed::EmptyPassword => "Password is empty. Cannot create database"@,
        ClientFailed::WalletInitialized => "Wallet already initalized"@,
        ClientFailed::KeyExists => "Keypair already exists"@,
        ClientFailed::ClientError(_) => "ClientError"@,
    }
}

impl ClientFailed {
    /// Wraps a validation failure, keeping its description.
    pub fn from(err: VerifyFailed) -> (r: ClientFailed)
        ensures
            r matches ClientFailed::ClientError(s) && s@ == verify_failed_text(err),
    {
        ClientFailed::ClientError(String::from_str(err.message()))
    }

    /// The fixed part of this failure's description.
    pub fn message(&self) -> (r: &'static str)
        ensures
            r@ == client_failed_text(*self),
    {
        match self {
            ClientFailed::NotEnoughValue(_) => "There is no enough value",
            ClientFailed::InvalidAddress(_) => "Invalid Address",
            ClientFailed::InvalidAmount(_) => "Invalid Amount",
            ClientFailed::UnableToGetDepositAddress => "Unable to get deposit address",
            ClientFailed::UnableToGetWithdrawAddress => "Unable to get withdraw address",
            ClientFailed::DoesNotHaveCashierPublicKey => "Does not have cashier public key",
            ClientFailed::DoesNotHaveKeypair => "Does not have keypair",
            ClientFailed::EmptyPassword => "Password is empty. Cannot create database",
            ClientFailed::WalletInitialized => "Wallet already initalized",
            ClientFailed::KeyExists => "Keypair already exists",
            ClientFailed::ClientError(_) => "ClientError",
        }
    }
}

/// Why one subscription payload was skipped.
#[derive(Clone, Copy, PartialEq, Eq, Structural, Debug)]
pub enum ProcessFailed {
    /// The payload did not decode to a transaction.
    Decode(Error),
    /// The transaction failed validation.
    Verify(VerifyFailed),
    /// The update could not be folded into the state.
    Apply(Error),
}

/// One step of the subscription loop: decode the slab payload, validate the
/// transaction against the state, and fold the resulting update in.  A
/// payload that fails any step leaves state and wallet untouched and says
/// why, so the loop can log it and move on; an update the tree has no room
/// for is refused the same way.
pub fn process_slab(
    state: &mut State,
    wallet: &mut Wallet,
    payload: &Vec<u8>,
    secret_keys: &Vec<SecretKey>,
    proofs_ok: bool,
) -> (r: Result<Vec<Notification>, ProcessFailed>)
    requires
        old(state).wf(),
        wallet_synced(old(wallet)@, old(state)@),
    ensures
        final(state).wf(),
        wallet_synced(final(wallet)@, final(state)@),
        parse_tx(payload@, 0) is None ==> ((r matches Err(e) && e is Decode) && final(state)@
            == old(state)@ && final(wallet)@ == old(wallet)@),
        parse_tx(payload@, 0) matches Some(p) ==> {
            let v = verdict_m(*old(state), p.0, proofs_ok);
            let um = update_of_tx(p.0);
            &&& (v matches Some(e) ==> r == Result::<Vec<Notification>, ProcessFailed>::Err(
                ProcessFailed::Verify(e),
            ) && final(state)@ == old(state)@ && final(wallet)@ == old(wallet)@)
            &&& ((v is None && old(state)@.leaves.len() + um.coins.len() > vstd::arithmetic::power2::pow2(
                old(state)@.depth,
            )) ==> (r == Result::<Vec<Notification>, ProcessFailed>::Err(
                ProcessFailed::Apply(Error::TreeFull),
            ) && final(state)@ == old(state)@ && final(wallet)@ == old(wallet)@))
            &&& ((v is None && old(state)@.leaves.len() + um.coins.len()
                <= vstd::arithmetic::power2::pow2(old(state)@.depth)) ==> (r matches Ok(ns) && {
                let ap = apply_spec(old(state)@, old(wallet)@, um, secret_keys@);
                &&& final(state)@ == ap.0
                &&& final(wallet)@ == ap.1
                &&& notifs_model(ns@) == ap.2
            }))
        },
{
    let mut pos: usize = 0;
    let tx = match Transaction::decode(payload, &mut pos) {
        Ok(tx) => tx,
        Err(e) => {
            return Err(ProcessFailed::Decode(e));
        },
    };
    let ghost tm = crate::tx::tx_model(tx);
    proof {
        lemma_verdict_agree(*state, tx, proofs_ok);
    }
    let update = match state_transition(state, &tx, proofs_ok) {
        Ok(u) => u,
        Err(e) => {
            return Err(ProcessFailed::Verify(e));
        },
    };
    let ghost um = update_of_tx(tm);
    proof {
        assert(update_model(update).nullifiers =~= um.nullifiers);
        assert(update_model(update).coins =~= um.coins);
        assert(update_model(update).enc_notes =~= um.enc_notes) by {
            assert(forall|i: int|
                0 <= i < update.enc_notes@.len() ==> #[trigger] update_model(update).enc_notes[i]
                    == enc_model(update.enc_notes@[i]));
        };
        assert(update_model(update) == um);
    }
    let count: usize = if update.coins.len() <= update.enc_notes.len() {
        update.coins.len()
    } else {
        update.enc_notes.len()
    };
    proof {
        vstd::arithmetic::power2::lemma2_to64();
        vstd::arithmetic::power2::lemma_pow2_adds(
            state.tree.depth as nat,
            (32 - state.tree.depth) as nat,
        );
        vstd::arithmetic::power2::lemma_pow2_pos((32 - state.tree.depth) as nat);
        assert(vstd::arithmetic::power2::pow2(state.tree.depth as nat)
            <= vstd::arithmetic::power2::pow2(32)) by {
            vstd::arithmetic::mul::lemma_mul_increases(
                vstd::arithmetic::power2::pow2((32 - state.tree.depth) as nat) as int,
                vstd::arithmetic::power2::pow2(state.tree.depth as nat) as int,
            );
        };
    }
    let cap: u64 = 1u64 << (state.tree.depth as u64);
    proof {
        assert(cap == vstd::arithmetic::power2::pow2(state.tree.depth as nat)) by {
            vstd::bits::lemma_u64_shl_is_mul(1u64, state.tree.depth as u64);
        };
    }
    if count as u64 > cap || state.tree.leaves.len() as u64 > cap - count as u64 {
        return Err(ProcessFailed::Apply(Error::TreeFull));
    }
    let notifications = state.apply(update, secret_keys, wallet);
    Ok(notifications)
}

/// A transparent input known to the builder.
#[derive(Debug)]
pub struct TransactionBuilderClearInputInfo {
    pub value: u64,
    pub token_id: u64,
    pub signature_secret: SecretKey,
}

/// A shielded input known to the builder: the coin's note, its secret key
/// and its authentication path at the time of selection.
#[derive(Debug)]
pub struct TransactionBuilderInputInfo {
    pub merkle_path: MerklePath,
    pub secret: SecretKey,
    pub note: Note,
}

/// An output the builder must create.
#[derive(Debug)]
pub struct TransactionBuilderOutputInfo {
    pub value: u64,
    pub token_id: u64,
    pub public: PublicKey,
}

/// The assembled input/output set, ready for the external prover.
#[derive(Debug)]
pub struct TransactionBuilder {
    pub clear_inputs: Vec<TransactionBuilderClearInputInfo>,
    pub inputs: Vec<TransactionBuilderInputInfo>,
    pub outputs: Vec<TransactionBuilderOutputInfo>,
}

/// Sum of the values of all stored coins.
pub open spec fn total_value(entries: Seq<OwnCoinModel>) -> int
    decreases entries.len(),
{
    if entries.len() == 0 {
        0
    } else {
        entries[0].note.value + total_value(entries.drop_first())
    }
}

pub proof fn lemma_total_value_nonneg(entries: Seq<OwnCoinModel>)
    ensures
        total_value(entries) >= 0,
    decreases entries.len(),
{
    if entries.len() > 0 {
        lemma_total_value_nonneg(entries.drop_first());
    }
}

/// No two rows hold the same coin.
pub open spec fn unique_coins(entries: Seq<OwnCoinModel>) -> bool {
    forall|i: int, j: int|
        0 <= i < j < entries.len() ==> (#[trigger] entries[i]).coin != (#[trigger] entries[j]).coin
}

/// The coin-selection walk: rows are taken in storage order, skipping
/// reserved ones, until the accumulated value meets the target; each taken
/// row is marked reserved.  Returns the store afterwards, the rows taken,
/// and the accumulated value.
pub open spec fn select_spec(entries: Seq<OwnCoinModel>, amount: int, acc: int) -> (
    Seq<OwnCoinModel>,
    Seq<OwnCoinModel>,
    int,
)
    decreases entries.len(),
{
    if entries.len() == 0 || acc >= amount {
        (entries, Seq::empty(), acc)
    } else if entries[0].reserved {
        let r = select_spec(entries.drop_first(), amount, acc);
        (seq![entries[0]] + r.0, r.1, r.2)
    } else {
        let r = select_spec(entries.drop_first(), amount, acc + entries[0].note.value);
        (
            seq![OwnCoinModel { reserved: true, ..entries[0] }] + r.0,
            seq![entries[0]] + r.1,
            r.2,
        )
    }
}

/// What the built inputs hold for the selected rows.
pub open spec fn inputs_match(
    ins: Seq<TransactionBuilderInputInfo>,
    sel: Seq<OwnCoinModel>,
) -> bool {
    &&& ins.len() == sel.len()
    &&& forall|j: int|
        0 <= j < sel.len() ==> {
            let inp = #[trigger] ins[j];
            &&& inp.secret == sel[j].secret
            &&& inp.note == sel[j].note
            &&& inp.merkle_path.position == sel[j].witness.position
            &&& inp.merkle_path.auth_path@ == path_spec(
                sel[j].witness.leaves,
                sel[j].witness.position,
                0,
                sel[j].witness.depth,
            )
        }
}

/// Coin selection: walks the wallet's spendable coins in storage order,
/// reserving and taking each one until the target amount is met or
/// exceeded.  If the whole store is not enough, fails with
/// `NotEnoughValue` carrying the accumulated value; if the selection
/// overshoots, a change output back to the wallet's own address is appended.
#[verifier::loop_isolation(false)]
pub fn build_inputs(
    wallet: &mut Wallet,
    amount: u64,
    token_id: u64,
    main_public: &PublicKey,
    outputs: &mut Vec<TransactionBuilderOutputInfo>,
) -> (r: Result<Vec<TransactionBuilderInputInfo>, ClientFailed>)
    requires
        total_value(old(wallet)@.entries) <= u64::MAX,
        unique_coins(old(wallet)@.entries),
        forall|i: int|
            0 <= i < old(wallet)@.entries.len() ==> {
                let w = (#[trigger] old(wallet)@.entries[i]).witness;
                &&& w.depth <= 32
                &&& w.position < w.leaves.len()
                &&& w.leaves.len() <= vstd::arithmetic::power2::pow2(w.depth)
            },
    ensures
        ({
            let s = select_spec(old(wallet)@.entries, amount as int, 0);
            &&& final(wallet)@.entries == s.0
            &&& (s.2 < amount ==> {
                &&& r == Result::<Vec<TransactionBuilderInputInfo>, ClientFailed>::Err(
                    ClientFailed::NotEnoughValue(s.2 as u64),
                )
                &&& final(outputs)@ == old(outputs)@
            })
            &&& (s.2 >= amount ==> {
                &&& r matches Ok(ins) && inputs_match(ins@, s.1)
                &&& (s.2 > amount ==> final(outputs)@.len() == old(outputs)@.len() + 1
                    && final(outputs)@.subrange(0, old(outputs)@.len() as int) == old(outputs)@ && {
                    let ch = final(outputs)@[old(outputs)@.len() as int];
                    &&& ch.value == s.2 - amount
                    &&& ch.token_id == token_id
                    &&& ch.public.repr@ == main_public.repr@
                })
                &&& (s.2 == amount ==> final(outputs)@ == old(outputs)@)
            })
        }),
{
    let ghost s = select_spec(old(wallet)@.entries, amount as int, 0);
    let mut inputs: Vec<TransactionBuilderInputInfo> = Vec::new();
    let mut inputs_value: u64 = 0;
    let ghost mut sel: Seq<OwnCoinModel> = Seq::empty();
    let mut i: usize = 0;
    proof {
        assert(old(wallet)@.entries.skip(0) =~= old(wallet)@.entries);
        assert(wallet@.entries.take(0) =~= Seq::<OwnCoinModel>::empty());
        assert(Seq::<OwnCoinModel>::empty() + select_spec(old(wallet)@.entries, amount as int, 0).0
            =~= select_spec(old(wallet)@.entries, amount as int, 0).0);
    }
    while i < wallet.entries.len()
        invariant
            i <= wallet@.entries.len(),
            wallet@.entries.len() == old(wallet)@.entries.len(),
            inputs_value as int + total_value(old(wallet)@.entries.skip(i as int)) <= u64::MAX,
            forall|j: int|
                i <= j < wallet@.entries.len() ==> wallet@.entries[j] == #[trigger] old(
                    wallet,
                )@.entries[j],
            forall|j: int|
                0 <= j < wallet@.entries.len() ==> (#[trigger] wallet@.entries[j]).coin == old(
                    wallet,
                )@.entries[j].coin,
            forall|j: int|
                0 <= j < wallet@.entries.len() ==> (#[trigger] wallet@.entries[j]).witness == old(
                    wallet,
                )@.entries[j].witness,
            inputs_match(inputs@, sel),
            ({
                let x = select_spec(
                    old(wallet)@.entries.skip(i as int),
                    amount as int,
                    inputs_value as int,
                );
                &&& s.0 == wallet@.entries.take(i as int) + x.0
                &&& s.1 == sel + x.1
                &&& s.2 == x.2
            }),
        decreases wallet@.entries.len() - i,
    {
        if inputs_value >= amount {
            break ;
        }
        proof {
            assert(old(wallet)@.entries.skip(i as int)[0] == old(wallet)@.entries[i as int]);
            assert(old(wallet)@.entries.skip(i as int).drop_first() =~= old(wallet)@.entries.skip(
                i as int + 1,
            ));
            lemma_total_value_nonneg(old(wallet)@.entries.skip(i as int + 1));
            assert(total_value(old(wallet)@.entries.skip(i as int)) == old(wallet)@.entries[
                i as int
            ].note.value + total_value(old(wallet)@.entries.skip(i as int + 1)));
        }
        let reserved = wallet.entries[i].reserved;
        if !reserved {
            let own_coin = &wallet.entries[i].own_coin;
            let merkle_path = own_coin.witness.path();
            let secret = own_coin.secret;
            let coin_note = own_coin.note;
            let coin = own_coin.coin;
            proof {
                assert(forall|j: int|
                    0 <= j < wallet@.entries.len() && j != i ==> (#[trigger] wallet@.entries[j]).coin
                        != wallet@.entries[i as int].coin);
                crate::wallet::lemma_find_coin_first(wallet@.entries, coin, i as int);
            }
            let ghost w_before = wallet@;
            wallet.confirm_spend_coin(&coin);
            inputs_value = inputs_value + coin_note.value;
            inputs.push(TransactionBuilderInputInfo { merkle_path, secret, note: coin_note });
            proof {
                sel = sel.push(w_before.entries[i as int]);
                assert(inputs_match(inputs@, sel));
                assert(s.0 =~= wallet@.entries.take(i as int + 1) + select_spec(
                    old(wallet)@.entries.skip(i as int + 1),
                    amount as int,
                    inputs_value as int,
                ).0);
                assert(s.1 =~= sel + select_spec(
                    old(wallet)@.entries.skip(i as int + 1),
                    amount as int,
                    inputs_value as int,
                ).1);
            }
        } else {
            proof {
                assert(s.0 =~= wallet@.entries.take(i as int + 1) + select_spec(
                    old(wallet)@.entries.skip(i as int + 1),
                    amount as int,
                    inputs_value as int,
                ).0);
            }
        }
        i = i + 1;
    }
    proof {
        if i >= wallet@.entries.len() {
            assert(old(wallet)@.entries.skip(i as int) =~= Seq::<OwnCoinModel>::empty());
        }
        assert(wallet@.entries.take(i as int) + select_spec(
            old(wallet)@.entries.skip(i as int),
            amount as int,
            inputs_value as int,
        ).0 =~= wallet@.entries);
        assert(sel + select_spec(
            old(wallet)@.entries.skip(i as int),
            amount as int,
            inputs_value as int,
        ).1 =~= sel);
    }
    if inputs_value < amount {
        return Err(ClientFailed::NotEnoughValue(inputs_value));
    }
    if inputs_value > amount {
        let return_value = inputs_value - amount;
        outputs.push(
            TransactionBuilderOutputInfo {
                value: return_value,
                token_id,
                public: main_public.duplicate(),
            },
        );
    }
    Ok(inputs)
}

/// The amount guard of `send`: a zero transfer is rejected before anything
/// is built.
pub fn check_send_amount(amount: u64) -> (r: ClientResult<()>)
    ensures
        amount == 0 ==> r == ClientResult::<()>::Err(ClientFailed::InvalidAmount(amount)),
        amount != 0 ==> r is Ok,
{
    if amount == 0 {
        return Err(ClientFailed::InvalidAmount(amount));
    }
    Ok(())
}

/// The token guard of `transfer`: a transfer of an unknown token fails with
/// `NotEnoughValue` carrying the requested amount.
pub fn check_transfer_token(token_id_exists: bool, amount: u64) -> (r: ClientResult<()>)
    ensures
        !token_id_exists ==> r == ClientResult::<()>::Err(ClientFailed::NotEnoughValue(amount)),
        token_id_exists ==> r is Ok,
{
    if !token_id_exists {
        return Err(ClientFailed::NotEnoughValue(amount));
    }
    Ok(())
}

/// Assembles the builder for a transfer: either one transparent input signed
/// by the wallet's main key, or shielded inputs selected from the wallet
/// (with a change output when the selection overshoots), followed by the
/// output paying the recipient.
#[verifier::loop_isolation(false)]
pub fn build_transfer(
    main_keypair: &Keypair,
    wallet: &mut Wallet,
    pub_key: &PublicKey,
    value: u64,
    token_id: u64,
    clear_input: bool,
) -> (r: Result<TransactionBuilder, ClientFailed>)
    requires
        total_value(old(wallet)@.entries) <= u64::MAX,
        unique_coins(old(wallet)@.entries),
        forall|i: int|
            0 <= i < old(wallet)@.entries.len() ==> {
                let w = (#[trigger] old(wallet)@.entries[i]).witness;
                &&& w.depth <= 32
                &&& w.position < w.leaves.len()
                &&& w.leaves.len() <= vstd::arithmetic::power2::pow2(w.depth)
            },
    ensures
        clear_input ==> {
            &&& final(wallet)@ == old(wallet)@
            &&& (r matches Ok(b) && {
                &&& b.clear_inputs@.len() == 1
                &&& b.clear_inputs@[0].value == value
                &&& b.clear_inputs@[0].token_id == token_id
                &&& b.clear_inputs@[0].signature_secret == main_keypair.secret
                &&& b.inputs@.len() == 0
                &&& b.outputs@.len() == 1
                &&& b.outputs@[0].value == value
                &&& b.outputs@[0].token_id == token_id
                &&& b.outputs@[0].public.repr@ == pub_key.repr@
            })
        },
        !clear_input ==> ({
            let s = select_spec(old(wallet)@.entries, value as int, 0);
            &&& final(wallet)@.entries == s.0
            &&& (s.2 < value ==> r == Result::<TransactionBuilder, ClientFailed>::Err(
                ClientFailed::NotEnoughValue(s.2 as u64),
            ))
            &&& (s.2 >= value ==> (r matches Ok(b) && {
                &&& b.clear_inputs@.len() == 0
                &&& inputs_match(b.inputs@, s.1)
                &&& (s.2 > value ==> b.outputs@.len() == 2 && {
                    let ch = b.outputs@[0];
                    &&& ch.value == s.2 - value
                    &&& ch.token_id == token_id
                    &&& ch.public.repr@ == main_keypair.public.repr@
                })
                &&& (s.2 == value ==> b.outputs@.len() == 1)
                &&& {
                    let last = b.outputs@[b.outputs@.len() - 1];
                    &&& last.value == value
                    &&& last.token_id == token_id
                    &&& last.public.repr@ == pub_key.repr@
                }
            }))
        }),
{
    let mut clear_inputs: Vec<TransactionBuilderClearInputInfo> = Vec::new();
    let mut inputs: Vec<TransactionBuilderInputInfo> = Vec::new();
    let mut outputs: Vec<TransactionBuilderOutputInfo> = Vec::new();

    if clear_input {
        clear_inputs.push(
            TransactionBuilderClearInputInfo {
                value,
                token_id,
                signature_secret: main_keypair.secret,
            },
        );
    } else {
        match build_inputs(wallet, value, token_id, &main_keypair.public, &mut outputs) {
            Ok(built) => {
                inputs = built;
            },
            Err(e) => {
                return Err(e);
            },
        }
    }

    outputs.push(
        TransactionBuilderOutputInfo { value, token_id, public: pub_key.duplicate() },
    );

    Ok(TransactionBuilder { clear_inputs, inputs, outputs })
}

/// Per-output randomness drawn by the caller for the new notes.
#[derive(Clone, Copy, PartialEq, Eq, Structural, Debug)]
pub struct OutputRand {
    pub serial: u64,
    pub coin_blind: u64,
    pub valcom_blind: u64,
}

/// What the note of output `j` will hold.
pub open spec fn output_note(info: TransactionBuilderOutputInfo, rand: OutputRand) -> Note {
    Note {
        serial: rand.serial,
        value: info.value,
        token_id: info.token_id,
        coin_blind: rand.coin_blind,
        valcom_blind: rand.valcom_blind,
    }
}

/// How a built transparent input relates to its builder entry.
pub open spec fn built_clear_input(
    src: TransactionBuilderClearInputInfo,
    ci: TransactionClearInput,
    sig: Seq<u8>,
) -> bool {
    &&& ci.value == src.value
    &&& ci.token_id == src.token_id
    &&& ci.signature_public.repr@ == public_of(src.signature_secret.value)
    &&& ci.signature@ == sig
}

/// How a built shielded input relates to its builder entry: the revealed
/// nullifier is derived from the coin's secret and serial, and the revealed
/// root is its commitment hashed up the recorded authentication path.
pub open spec fn built_input(
    src: TransactionBuilderInputInfo,
    inp: TransactionInput,
    proof_blob: Seq<u8>,
    sig: Seq<u8>,
) -> bool {
    &&& inp.spend_proof@ == proof_blob
    &&& inp.signature@ == sig
    &&& inp.revealed.nullifier.repr == nullifier_of(src.secret.value, src.note.serial)
    &&& inp.revealed.merkle_root == fold_path_spec(
        MerkleNode { repr: coin_commit(public_of(src.secret.value), src.note) },
        src.merkle_path.auth_path@,
        src.merkle_path.position as nat,
        0,
    )
    &&& inp.revealed.signature_public.repr@ == public_of(src.secret.value)
}

/// How a built output relates to its builder entry and drawn randomness.
pub open spec fn built_output(
    info: TransactionBuilderOutputInfo,
    rand: OutputRand,
    out: TransactionOutput,
    proof_blob: Seq<u8>,
) -> bool {
    &&& out.mint_proof@ == proof_blob
    &&& out.coin.repr == coin_commit(info.public.repr@, output_note(info, rand))
    &&& out.enc_note.recipient.repr@ == info.public.repr@
    &&& out.enc_note.note == output_note(info, rand)
}

impl TransactionBuilder {
    /// Turns the assembled set into a transaction.  Proof and signature
    /// blobs come from the external prover and signer; the serials and
    /// blinding factors for the new notes come from the caller's randomness
    /// source.  For each shielded input the revealed values are computed
    /// here: the nullifier from its secret key and serial, and the Merkle
    /// root by hashing its coin commitment up the recorded path.
    #[verifier::loop_isolation(false)]
    #[verifier::rlimit(60)]
    pub fn build(
        &self,
        clear_sigs: &Vec<Vec<u8>>,
        input_sigs: &Vec<Vec<u8>>,
        spend_proofs: &Vec<Vec<u8>>,
        mint_proofs: &Vec<Vec<u8>>,
        rands: &Vec<OutputRand>,
    ) -> (tx: Transaction)
        requires
            clear_sigs@.len() == self.clear_inputs@.len(),
            input_sigs@.len() == self.inputs@.len(),
            spend_proofs@.len() == self.inputs@.len(),
            mint_proofs@.len() == self.outputs@.len(),
            rands@.len() == self.outputs@.len(),
            forall|j: int|
                0 <= j < self.inputs@.len() ==> (#[trigger] self.inputs@[j]).merkle_path.auth_path@.len()
                    <= 32,
        ensures
            tx.clear_inputs@.len() == self.clear_inputs@.len(),
            forall|j: int|
                0 <= j < self.clear_inputs@.len() ==> built_clear_input(
                    #[trigger] self.clear_inputs@[j],
                    tx.clear_inputs@[j],
                    clear_sigs@[j]@,
                ),
            tx.inputs@.len() == self.inputs@.len(),
            forall|j: int|
                0 <= j < self.inputs@.len() ==> built_input(
                    #[trigger] self.inputs@[j],
                    tx.inputs@[j],
                    spend_proofs@[j]@,
                    input_sigs@[j]@,
                ),
            tx.outputs@.len() == self.outputs@.len(),
            forall|j: int|
                0 <= j < self.outputs@.len() ==> built_output(
                    #[trigger] self.outputs@[j],
                    rands@[j],
                    tx.outputs@[j],
                    mint_proofs@[j]@,
                ),
    {
        let mut clear_out: Vec<TransactionClearInput> = Vec::new();
        let mut j: usize = 0;
        while j < self.clear_inputs.len()
            invariant
                j <= self.clear_inputs@.len(),
                clear_out@.len() == j,
                forall|t: int|
                    0 <= t < j ==> built_clear_input(
                        #[trigger] self.clear_inputs@[t],
                        clear_out@[t],
                        clear_sigs@[t]@,
                    ),
            decreases self.clear_inputs@.len() - j,
        {
            let src = &self.clear_inputs[j];
            clear_out.push(
                TransactionClearInput {
                    value: src.value,
                    token_id: src.token_id,
                    signature_public: crate::keys::derive_public(&src.signature_secret),
                    signature: crate::bytes::copy_bytes(&clear_sigs[j]),
                },
            );
            j = j + 1;
        }

        let mut inputs_out: Vec<TransactionInput> = Vec::new();
        let mut k: usize = 0;
        while k < self.inputs.len()
            invariant
                k <= self.inputs@.len(),
                inputs_out@.len() == k,
                forall|t: int|
                    0 <= t < k ==> built_input(
                        #[trigger] self.inputs@[t],
                        inputs_out@[t],
                        spend_proofs@[t]@,
                        input_sigs@[t]@,
                    ),
            decreases self.inputs@.len() - k,
        {
            let src = &self.inputs[k];
            let signature_public = crate::keys::derive_public(&src.secret);
            let coin = compute_coin(&signature_public, &src.note);
            let leaf = MerkleNode::from_coin(&coin);
            let merkle_root = src.merkle_path.root(leaf);
            let nullifier = Nullifier::new(src.secret, src.note.serial);
            inputs_out.push(
                TransactionInput {
                    spend_proof: crate::bytes::copy_bytes(&spend_proofs[k]),
                    revealed: SpendRevealedValues {
                        value_commit: src.note.value,
                        token_commit: src.note.token_id,
                        nullifier,
                        merkle_root,
                        signature_public,
                    },
                    signature: crate::bytes::copy_bytes(&input_sigs[k]),
                },
            );
            k = k + 1;
        }

        let mut outputs_out: Vec<TransactionOutput> = Vec::new();
        let mut m: usize = 0;
        while m < self.outputs.len()
            invariant
                m <= self.outputs@.len(),
                outputs_out@.len() == m,
                forall|t: int|
                    0 <= t < m ==> built_output(
                        #[trigger] self.outputs@[t],
                        rands@[t],
                        outputs_out@[t],
                        mint_proofs@[t]@,
                    ),
            decreases self.outputs@.len() - m,
        {
            let info = &self.outputs[m];
            let rand = rands[m];
            let note = Note {
                serial: rand.serial,
                value: info.value,
                token_id: info.token_id,
                coin_blind: rand.coin_blind,
                valcom_blind: rand.valcom_blind,
            };
            let coin = compute_coin(&info.public, &note);
            let enc_note = note.encrypt(&info.public);
            outputs_out.push(
                TransactionOutput {
                    mint_proof: crate::bytes::copy_bytes(&mint_proofs[m]),
                    coin,
                    enc_note,
                },
            );
            m = m + 1;
        }

        Transaction { clear_inputs: clear_out, inputs: inputs_out, outputs: outputs_out }
    }
}

} // verus!
