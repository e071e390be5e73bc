//! Coins, notes and encrypted notes.
//!
//! A `Note` is the private payload of a payment; a `Coin` is its public
//! commitment and the leaf that enters the commitment tree.  An
//! `EncryptedNote` is addressed to one public key and can be opened only with
//! the matching secret key.  The commitment and nullifier derivations stand
//! in for the external hash primitives, which are black boxes to this crate;
//! nothing here depends on more than their determinism.

use vstd::prelude::*;
use crate::keys::{PublicKey, SecretKey, public_of, derive_public};
use crate::merkle::{MerkleNode, IncrementalWitness};
use crate::bytes::eq_bytes;

verus! {

/// Mixing constant of the stand-in commitment/nullifier hash.
pub const MIX_MULT: u64 = 0x100000001B3;

/// Seed of the coin-commitment derivation.
pub const COIN_SEED: u64 = 0xCBF29CE484222325;

/// Seed of the nullifier derivation.
pub const NULLIFIER_SEED: u64 = 0x84222325CBF29CE4;

/// The public commitment to a note: a leaf of the commitment tree.
#[derive(Clone, Copy, PartialEq, Eq, Structural, Debug)]
pub struct Coin {
    pub repr: u64,
}

/// The private payload of a payment.
#[derive(Clone, Copy, PartialEq, Eq, Structural, Debug)]
pub struct Note {
    pub serial: u64,
    pub value: u64,
    pub token_id: u64,
    pub coin_blind: u64,
    pub valcom_blind: u64,
}

/// The one-time marker revealed when a coin is spent.
#[derive(Clone, Copy, PartialEq, Eq, Structural, Debug)]
pub struct Nullifier {
    pub repr: u64,
}

/// A note encrypted to one recipient.  Modelled at the interface level: the
/// ciphertext is held together with the recipient's key encoding, and opens
/// only under the matching secret key.
#[derive(Debug)]
pub struct EncryptedNote {
    pub recipient: PublicKey,
    pub note: Note,
}

/// A coin this wallet can spend: the commitment, its opened note, the secret
/// key that received it, and the incremental witness tracking its membership
/// proof.
#[derive(Debug)]
pub struct OwnCoin {
    pub coin: Coin,
    pub note: Note,
    pub secret: SecretKey,
    pub witness: IncrementalWitness,
}

/// One step of the stand-in mixing hash.
pub open spec fn mix64(acc: u64, x: u64) -> u64 {
    vstd::wrapping::u64_specs::wrapping_add(
        vstd::wrapping::u64_specs::wrapping_mul(acc, MIX_MULT),
        x,
    )
}

/// Mixes one value into an accumulator.
pub fn mix64_exec(acc: u64, x: u64) -> (r: u64)
    ensures
        r == mix64(acc, x),
{
    acc.wrapping_mul(MIX_MULT).wrapping_add(x)
}

/// Folds a byte sequence into the accumulator, front first.
pub open spec fn fold_bytes(acc: u64, s: Seq<u8>) -> u64
    decreases s.len(),
{
    if s.len() == 0 {
        acc
    } else {
        fold_bytes(mix64(acc, s[0] as u64), s.drop_first())
    }
}

/// The coin commitment of a note addressed to a public key.
pub open spec fn coin_commit(public: Seq<u8>, note: Note) -> u64 {
    mix64(
        mix64(
            mix64(mix64(fold_bytes(COIN_SEED, public), note.value), note.token_id),
            note.serial,
        ),
        note.coin_blind,
    )
}

/// The nullifier derived from a secret key and a note serial.
pub open spec fn nullifier_of(secret: u64, serial: u64) -> u64 {
    mix64(mix64(NULLIFIER_SEED, secret), serial)
}

/// Computes the public commitment of `note` addressed to `public`.
pub fn compute_coin(public: &PublicKey, note: &Note) -> (c: Coin)
    ensures
        c.repr == coin_commit(public.repr@, *note),
{
    let mut acc: u64 = COIN_SEED;
    let mut i: usize = 0;
    proof {
        assert(public.repr@.skip(0) =~= public.repr@);
    }
    while i < public.repr.len()
        invariant
            i <= public.repr@.len(),
            fold_bytes(COIN_SEED, public.repr@) == fold_bytes(acc, public.repr@.skip(i as int)),
        decreases public.repr@.len() - i,
    {
        proof {
            assert(public.repr@.skip(i as int)[0] == public.repr@[i as int]);
            assert(public.repr@.skip(i as int).drop_first() =~= public.repr@.skip(i as int + 1));
        }
        acc = mix64_exec(acc, public.repr[i] as u64);
        i = i + 1;
    }
    proof {
        assert(public.repr@.skip(i as int) =~= Seq::<u8>::empty());
    }
    let c = mix64_exec(
        mix64_exec(mix64_exec(mix64_exec(acc, note.value), note.token_id), note.serial),
        note.coin_blind,
    );
    Coin { repr: c }
}

impl MerkleNode {
    /// The tree leaf standing for a coin commitment.
    pub fn from_coin(coin: &Coin) -> (n: MerkleNode)
        ensures
            n.repr == coin.repr,
    {
        MerkleNode { repr: coin.repr }
    }
}

impl Nullifier {
    /// Derives the nullifier of a coin from its secret key and serial.
    pub fn new(secret: SecretKey, serial: u64) -> (n: Nullifier)
        ensures
            n.repr == nullifier_of(secret.value, serial),
    {
        Nullifier { repr: mix64_exec(mix64_exec(NULLIFIER_SEED, secret.value), serial) }
    }
}

/// What trial decryption of `enc` under `secret` yields: the note exactly
/// when the keys match, and nothing otherwise.
pub open spec fn decrypt_spec(enc: EncryptedNote, secret: SecretKey) -> Option<Note> {
    if enc.recipient.repr@ == public_of(secret.value) {
        Some(enc.note)
    } else {
        None
    }
}

impl Note {
    /// Encrypts this note to a recipient.
    pub fn encrypt(&self, public: &PublicKey) -> (e: EncryptedNote)
        ensures
            e.note == *self,
            e.recipient.repr@ == public.repr@,
    {
        EncryptedNote { recipient: public.duplicate(), note: *self }
    }
}

impl EncryptedNote {
    /// Attempts authenticated decryption under one candidate secret key.
    ///
    /// A non-matching key always yields `None` — never a wrong plaintext;
    /// the matching key always yields the encrypted note.
    pub fn decrypt(&self, secret: &SecretKey) -> (r: Option<Note>)
        ensures
            r == decrypt_spec(*self, *secret),
            r matches Some(n) ==> n == self.note,
    {
        let candidate = derive_public(secret);
        if eq_bytes(&candidate.repr, &self.recipient.repr) {
            Some(self.note)
        } else {
            None
        }
    }
}

} // verus!
