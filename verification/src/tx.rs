//! Transaction data: the decoded form of a network payload.
//!
//! Proofs and signatures are opaque byte blobs produced and checked by the
//! external prover; the revealed values beside them are what the state
//! validator reads.

use vstd::prelude::*;
use crate::error::Error;
use crate::keys::PublicKey;
use crate::merkle::MerkleNode;
use crate::note::{Coin, EncryptedNote, Note, Nullifier};
use crate::serial::{
    decode_bytes, decode_u64, decode_varint, encode_bytes, encode_u64, encode_varint, parse_bytes,
    parse_u64, parse_varint, ser_bytes, ser_u64, ser_varint,
};

verus! {

/// The values a spend proof reveals publicly.
#[derive(Debug)]
pub struct SpendRevealedValues {
    pub value_commit: u64,
    pub token_commit: u64,
    pub nullifier: Nullifier,
    pub merkle_root: MerkleNode,
    pub signature_public: PublicKey,
}

/// A transparent input: value entering the shielded pool.
#[derive(Debug)]
pub struct TransactionClearInput {
    pub value: u64,
    pub token_id: u64,
    pub signature_public: PublicKey,
    pub signature: Vec<u8>,
}

/// A shielded input: spends one coin of the pool.
#[derive(Debug)]
pub struct TransactionInput {
    pub spend_proof: Vec<u8>,
    pub revealed: SpendRevealedValues,
    pub signature: Vec<u8>,
}

/// A shielded output: mints one new coin and carries its encrypted note.
#[derive(Debug)]
pub struct TransactionOutput {
    pub mint_proof: Vec<u8>,
    pub coin: Coin,
    pub enc_note: EncryptedNote,
}

/// A full transaction.
#[derive(Debug)]
pub struct Transaction {
    pub clear_inputs: Vec<TransactionClearInput>,
    pub inputs: Vec<TransactionInput>,
    pub outputs: Vec<TransactionOutput>,
}

/// Ghost form of a transparent input.
pub ghost struct ClearInputModel {
    pub value: u64,
    pub token_id: u64,
    pub signature_public: Seq<u8>,
    pub signature: Seq<u8>,
}

/// Ghost form of the revealed values.
pub ghost struct RevealedModel {
    pub value_commit: u64,
    pub token_commit: u64,
    pub nullifier: Nullifier,
    pub merkle_root: MerkleNode,
    pub signature_public: Seq<u8>,
}

/// Ghost form of a shielded input.
pub ghost struct InputModel {
    pub spend_proof: Seq<u8>,
    pub revealed: RevealedModel,
    pub signature: Seq<u8>,
}

/// Ghost form of an output.
pub ghost struct OutputModel {
    pub mint_proof: Seq<u8>,
    pub coin: Coin,
    pub recipient: Seq<u8>,
    pub note: Note,
}

/// Ghost form of a transaction.
pub ghost struct TxModel {
    pub clear_inputs: Seq<ClearInputModel>,
    pub inputs: Seq<InputModel>,
    pub outputs: Seq<OutputModel>,
}

pub open spec fn clear_input_model(c: TransactionClearInput) -> ClearInputModel {
    ClearInputModel {
        value: c.value,
        token_id: c.token_id,
        signature_public: c.signature_public.repr@,
        signature: c.signature@,
    }
}

pub open spec fn revealed_model(r: SpendRevealedValues) -> RevealedModel {
    RevealedModel {
        value_commit: r.value_commit,
        token_commit: r.token_commit,
        nullifier: r.nullifier,
        merkle_root: r.merkle_root,
        signature_public: r.signature_public.repr@,
    }
}

pub open spec fn input_model(i: TransactionInput) -> InputModel {
    InputModel {
        spend_proof: i.spend_proof@,
        revealed: revealed_model(i.revealed),
        signature: i.signature@,
    }
}

pub open spec fn output_model(o: TransactionOutput) -> OutputModel {
    OutputModel {
        mint_proof: o.mint_proof@,
        coin: o.coin,
        recipient: o.enc_note.recipient.repr@,
        note: o.enc_note.note,
    }
}

pub open spec fn tx_model(t: Transaction) -> TxModel {
    TxModel {
        clear_inputs: Seq::new(t.clear_inputs@.len(), |i: int| clear_input_model(t.clear_inputs@[i])),
        inputs: Seq::new(t.inputs@.len(), |i: int| input_model(t.inputs@[i])),
        outputs: Seq::new(t.outputs@.len(), |i: int| output_model(t.outputs@[i])),
    }
}

/// The encoding of a public-key or field-element value: its raw 32 bytes.
pub open spec fn ser_raw32(k: Seq<u8>) -> Seq<u8> {
    k
}

pub open spec fn parse_raw32(data: Seq<u8>, pos: int) -> Option<(Seq<u8>, int)> {
    if 0 <= pos && pos + 32 <= data.len() {
        Some((data.subrange(pos, pos + 32), pos + 32))
    } else {
        None
    }
}

/// Appends a raw 32-byte key encoding.
#[verifier::loop_isolation(false)]
fn encode_raw32(out: &mut Vec<u8>, k: &Vec<u8>)
    requires
        k@.len() == 32,
    ensures
        final(out)@ == old(out)@ + ser_raw32(k@),
{
    let mut i: usize = 0;
    while i < k.len()
        invariant
            i <= 32,
            out@ == old(out)@ + k@.subrange(0, i as int),
        decreases k@.len() - i,
    {
        out.push(k[i]);
        i = i + 1;
        proof {
            assert(out@ =~= old(out)@ + k@.subrange(0, i as int));
        }
    }
    proof {
        assert(final(out)@ =~= old(out)@ + ser_raw32(k@));
    }
}

/// Reads a raw 32-byte key encoding.
#[verifier::loop_isolation(false)]
fn decode_raw32(data: &Vec<u8>, pos: &mut usize) -> (r: Result<Vec<u8>, Error>)
    ensures
        parse_raw32(data@, *old(pos) as int) matches Some(p) ==> (r matches Ok(v) && v@ == p.0
            && *final(pos) == p.1),
        parse_raw32(data@, *old(pos) as int) is None ==> (r == Result::<Vec<u8>, Error>::Err(
            Error::DecodeFailure,
        ) && *final(pos) == *old(pos)),
{
    if data.len() < 32 || *pos > data.len() - 32 {
        return Err(Error::DecodeFailure);
    }
    let mut v: Vec<u8> = Vec::new();
    let mut i: usize = 0;
    while i < 32
        invariant
            i <= 32,
            *pos + 32 <= data@.len(),
            v@ == data@.subrange(*pos as int, *pos as int + i as int),
        decreases 32 - i,
    {
        v.push(data[*pos + i]);
        i = i + 1;
        proof {
            assert(v@ =~= data@.subrange(*pos as int, *pos as int + i as int));
        }
    }
    *pos = *pos + 32;
    Ok(v)
}

/// The encoding of a note: its five fields, little-endian.
pub open spec fn ser_note(n: Note) -> Seq<u8> {
    ser_u64(n.serial) + ser_u64(n.value) + ser_u64(n.token_id) + ser_u64(n.coin_blind) + ser_u64(
        n.valcom_blind,
    )
}

pub open spec fn parse_note(data: Seq<u8>, pos: int) -> Option<(Note, int)> {
    match parse_u64(data, pos) {
        Some(serial) => match parse_u64(data, serial.1) {
            Some(value) => match parse_u64(data, value.1) {
                Some(token_id) => match parse_u64(data, token_id.1) {
                    Some(coin_blind) => match parse_u64(data, coin_blind.1) {
                        Some(valcom_blind) => Some(
                            (
                                Note {
                                    serial: serial.0,
                                    value: value.0,
                                    token_id: token_id.0,
                                    coin_blind: coin_blind.0,
                                    valcom_blind: valcom_blind.0,
                                },
                                valcom_blind.1,
                            ),
                        ),
                        None => None,
                    },
                    None => None,
                },
                None => None,
            },
            None => None,
        },
        None => None,
    }
}

/// Appends a note's encoding.
pub fn encode_note(out: &mut Vec<u8>, n: &Note)
    ensures
        final(out)@ == old(out)@ + ser_note(*n),
{
    encode_u64(out, n.serial);
    encode_u64(out, n.value);
    encode_u64(out, n.token_id);
    encode_u64(out, n.coin_blind);
    encode_u64(out, n.valcom_blind);
    proof {
        assert(final(out)@ =~= old(out)@ + ser_note(*n));
    }
}

/// Reads a note.
pub fn decode_note(data: &Vec<u8>, pos: &mut usize) -> (r: Result<Note, Error>)
    ensures
        parse_note(data@, *old(pos) as int) matches Some(p) ==> r == Result::<Note, Error>::Ok(p.0)
            && *final(pos) == p.1,
        parse_note(data@, *old(pos) as int) is None ==> (r == Result::<Note, Error>::Err(
            Error::DecodeFailure,
        ) && *final(pos) == *old(pos)),
{
    let start = *pos;
    let serial = match decode_u64(data, pos) {
        Ok(v) => v,
        Err(e) => {
            return Err(e);
        },
    };
    let value = match decode_u64(data, pos) {
        Ok(v) => v,
        Err(e) => {
            *pos = start;
            return Err(e);
        },
    };
    let token_id = match decode_u64(data, pos) {
        Ok(v) => v,
        Err(e) => {
            *pos = start;
            return Err(e);
        },
    };
    let coin_blind = match decode_u64(data, pos) {
        Ok(v) => v,
        Err(e) => {
            *pos = start;
            return Err(e);
        },
    };
    let valcom_blind = match decode_u64(data, pos) {
        Ok(v) => v,
        Err(e) => {
            *pos = start;
            return Err(e);
        },
    };
    Ok(Note { serial, value, token_id, coin_blind, valcom_blind })
}

/// The encoding of the revealed values.
pub open spec fn ser_revealed(m: RevealedModel) -> Seq<u8> {
    ser_u64(m.value_commit) + ser_u64(m.token_commit) + ser_u64(m.nullifier.repr) + ser_u64(
        m.merkle_root.repr,
    ) + ser_raw32(m.signature_public)
}

pub open spec fn parse_revealed(data: Seq<u8>, pos: int) -> Option<(RevealedModel, int)> {
    match parse_u64(data, pos) {
        Some(vc) => match parse_u64(data, vc.1) {
            Some(tc) => match parse_u64(data, tc.1) {
                Some(nf) => match parse_u64(data, nf.1) {
                    Some(root) => match parse_raw32(data, root.1) {
                        Some(pk) => Some(
                            (
                                RevealedModel {
                                    value_commit: vc.0,
                                    token_commit: tc.0,
                                    nullifier: Nullifier { repr: nf.0 },
                                    merkle_root: MerkleNode { repr: root.0 },
                                    signature_public: pk.0,
                                },
                                pk.1,
                            ),
                        ),
                        None => None,
                    },
                    None => None,
                },
                None => None,
            },
            None => None,
        },
        None => None,
    }
}

impl SpendRevealedValues {
    /// Appends this revealed set's encoding.
    pub fn encode(&self, out: &mut Vec<u8>)
        requires
            self.signature_public.repr@.len() == 32,
        ensures
            final(out)@ == old(out)@ + ser_revealed(revealed_model(*self)),
    {
        encode_u64(out, self.value_commit);
        encode_u64(out, self.token_commit);
        encode_u64(out, self.nullifier.repr);
        encode_u64(out, self.merkle_root.repr);
        encode_raw32(out, &self.signature_public.repr);
        proof {
            assert(final(out)@ =~= old(out)@ + ser_revealed(revealed_model(*self)));
        }
    }

    /// Reads one revealed set.
    pub fn decode(data: &Vec<u8>, pos: &mut usize) -> (r: Result<SpendRevealedValues, Error>)
        ensures
            parse_revealed(data@, *old(pos) as int) matches Some(p) ==> (r matches Ok(v)
                && revealed_model(v) == p.0 && *final(pos) == p.1),
            parse_revealed(data@, *old(pos) as int) is None ==> (r == Result::<
                SpendRevealedValues,
                Error,
            >::Err(Error::DecodeFailure) && *final(pos) == *old(pos)),
    {
        let start = *pos;
        let value_commit = match decode_u64(data, pos) {
            Ok(v) => v,
            Err(e) => {
                return Err(e);
            },
        };
        let token_commit = match decode_u64(data, pos) {
            Ok(v) => v,
            Err(e) => {
                *pos = start;
                return Err(e);
            },
        };
        let nf = match decode_u64(data, pos) {
            Ok(v) => v,
            Err(e) => {
                *pos = start;
                return Err(e);
            },
        };
        let root = match decode_u64(data, pos) {
            Ok(v) => v,
            Err(e) => {
                *pos = start;
                return Err(e);
            },
        };
        let pk = match decode_raw32(data, pos) {
            Ok(v) => v,
            Err(e) => {
                *pos = start;
                return Err(e);
            },
        };
        Ok(
            SpendRevealedValues {
                value_commit,
                token_commit,
                nullifier: Nullifier { repr: nf },
                merkle_root: MerkleNode { repr: root },
                signature_public: PublicKey { repr: pk },
            },
        )
    }
}

/// A transaction still missing its signatures.
#[derive(Debug)]
pub struct PartialTransaction {
    pub clear_inputs: Vec<PartialTransactionClearInput>,
    pub inputs: Vec<PartialTransactionInput>,
    pub outputs: Vec<TransactionOutput>,
}

/// A transparent input before signing.
#[derive(Debug)]
pub struct PartialTransactionClearInput {
    pub value: u64,
    pub token_id: u64,
    pub valcom_blind: u64,
    pub token_commit_blind: u64,
    pub signature_public: PublicKey,
}

/// A shielded input before signing.
#[derive(Debug)]
pub struct PartialTransactionInput {
    pub spend_proof: Vec<u8>,
    pub revealed: SpendRevealedValues,
}

/// The encoding of a transparent input.
pub open spec fn ser_clear_input(m: ClearInputModel) -> Seq<u8> {
    ser_u64(m.value) + ser_u64(m.token_id) + ser_raw32(m.signature_public) + ser_bytes(m.signature)
}

pub open spec fn parse_clear_input(data: Seq<u8>, pos: int) -> Option<(ClearInputModel, int)> {
    match parse_u64(data, pos) {
        Some(value) => match parse_u64(data, value.1) {
            Some(token) => match parse_raw32(data, token.1) {
                Some(pk) => match parse_bytes(data, pk.1) {
                    Some(sig) => Some(
                        (
                            ClearInputModel {
                                value: value.0,
                                token_id: token.0,
                                signature_public: pk.0,
                                signature: sig.0,
                            },
                            sig.1,
                        ),
                    ),
                    None => None,
                },
                None => None,
            },
            None => None,
        },
        None => None,
    }
}

impl TransactionClearInput {
    /// Appends this input's encoding.
    pub fn encode(&self, out: &mut Vec<u8>)
        requires
            self.signature_public.repr@.len() == 32,
        ensures
            final(out)@ == old(out)@ + ser_clear_input(clear_input_model(*self)),
    {
        encode_u64(out, self.value);
        encode_u64(out, self.token_id);
        encode_raw32(out, &self.signature_public.repr);
        encode_bytes(out, &self.signature);
        proof {
            assert(final(out)@ =~= old(out)@ + ser_clear_input(clear_input_model(*self)));
        }
    }

    /// Reads one transparent input.
    pub fn decode(data: &Vec<u8>, pos: &mut usize) -> (r: Result<TransactionClearInput, Error>)
        ensures
            parse_clear_input(data@, *old(pos) as int) matches Some(p) ==> (r matches Ok(v)
                && clear_input_model(v) == p.0 && *final(pos) == p.1),
            parse_clear_input(data@, *old(pos) as int) is None ==> (r == Result::<
                TransactionClearInput,
                Error,
            >::Err(Error::DecodeFailure) && *final(pos) == *old(pos)),
    {
        let start = *pos;
        let value = match decode_u64(data, pos) {
            Ok(v) => v,
            Err(e) => {
                return Err(e);
            },
        };
        let token_id = match decode_u64(data, pos) {
            Ok(v) => v,
            Err(e) => {
                *pos = start;
                return Err(e);
            },
        };
        let pk = match decode_raw32(data, pos) {
            Ok(v) => v,
            Err(e) => {
                *pos = start;
                return Err(e);
            },
        };
        let signature = match decode_bytes(data, pos) {
            Ok(v) => v,
            Err(e) => {
                *pos = start;
                return Err(e);
            },
        };
        Ok(
            TransactionClearInput {
                value,
                token_id,
                signature_public: PublicKey { repr: pk },
                signature,
            },
        )
    }
}

/// The encoding of a shielded input.
pub open spec fn ser_input(m: InputModel) -> Seq<u8> {
    ser_bytes(m.spend_proof) + ser_revealed(m.revealed) + ser_bytes(m.signature)
}

pub open spec fn parse_input(data: Seq<u8>, pos: int) -> Option<(InputModel, int)> {
    match parse_bytes(data, pos) {
        Some(proof_blob) => match parse_revealed(data, proof_blob.1) {
            Some(rev) => match parse_bytes(data, rev.1) {
                Some(sig) => Some(
                    (
                        InputModel { spend_proof: proof_blob.0, revealed: rev.0, signature: sig.0 },
                        sig.1,
                    ),
                ),
                None => None,
            },
            None => None,
        },
        None => None,
    }
}

impl TransactionInput {
    /// Appends this input's encoding.
    pub fn encode(&self, out: &mut Vec<u8>)
        requires
            self.revealed.signature_public.repr@.len() == 32,
        ensures
            final(out)@ == old(out)@ + ser_input(input_model(*self)),
    {
        encode_bytes(out, &self.spend_proof);
        self.revealed.encode(out);
        encode_bytes(out, &self.signature);
        proof {
            assert(final(out)@ =~= old(out)@ + ser_input(input_model(*self)));
        }
    }

    /// Reads one shielded input.
    pub fn decode(data: &Vec<u8>, pos: &mut usize) -> (r: Result<TransactionInput, Error>)
        ensures
            parse_input(data@, *old(pos) as int) matches Some(p) ==> (r matches Ok(v)
                && input_model(v) == p.0 && *final(pos) == p.1),
            parse_input(data@, *old(pos) as int) is None ==> (r == Result::<
                TransactionInput,
                Error,
            >::Err(Error::DecodeFailure) && *final(pos) == *old(pos)),
    {
        let start = *pos;
        let spend_proof = match decode_bytes(data, pos) {
            Ok(v) => v,
            Err(e) => {
                return Err(e);
            },
        };
        let revealed = match SpendRevealedValues::decode(data, pos) {
            Ok(v) => v,
            Err(e) => {
                *pos = start;
                return Err(e);
            },
        };
        let signature = match decode_bytes(data, pos) {
            Ok(v) => v,
            Err(e) => {
                *pos = start;
                return Err(e);
            },
        };
        Ok(TransactionInput { spend_proof, revealed, signature })
    }
}

/// The encoding of an output.
pub open spec fn ser_output(m: OutputModel) -> Seq<u8> {
    ser_bytes(m.mint_proof) + ser_u64(m.coin.repr) + ser_raw32(m.recipient) + ser_note(m.note)
}

pub open spec fn parse_output(data: Seq<u8>, pos: int) -> Option<(OutputModel, int)> {
    match parse_bytes(data, pos) {
        Some(proof_blob) => match parse_u64(data, proof_blob.1) {
            Some(coin) => match parse_raw32(data, coin.1) {
                Some(pk) => match parse_note(data, pk.1) {
                    Some(note) => Some(
                        (
                            OutputModel {
                                mint_proof: proof_blob.0,
                                coin: Coin { repr: coin.0 },
                                recipient: pk.0,
                                note: note.0,
                            },
                            note.1,
                        ),
                    ),
                    None => None,
                },
                None => None,
            },
            None => None,
        },
        None => None,
    }
}

impl TransactionOutput {
    /// Appends this output's encoding.
    pub fn encode(&self, out: &mut Vec<u8>)
        requires
            self.enc_note.recipient.repr@.len() == 32,
        ensures
            final(out)@ == old(out)@ + ser_output(output_model(*self)),
    {
        encode_bytes(out, &self.mint_proof);
        encode_u64(out, self.coin.repr);
        encode_raw32(out, &self.enc_note.recipient.repr);
        encode_note(out, &self.enc_note.note);
        proof {
            assert(final(out)@ =~= old(out)@ + ser_output(output_model(*self)));
        }
    }

    /// Reads one output.
    pub fn decode(data: &Vec<u8>, pos: &mut usize) -> (r: Result<TransactionOutput, Error>)
        ensures
            parse_output(data@, *old(pos) as int) matches Some(p) ==> (r matches Ok(v)
                && output_model(v) == p.0 && *final(pos) == p.1),
            parse_output(data@, *old(pos) as int) is None ==> (r == Result::<
                TransactionOutput,
                Error,
            >::Err(Error::DecodeFailure) && *final(pos) == *old(pos)),
    {
        let start = *pos;
        let mint_proof = match decode_bytes(data, pos) {
            Ok(v) => v,
            Err(e) => {
                return Err(e);
            },
        };
        let coin = match decode_u64(data, pos) {
            Ok(v) => v,
            Err(e) => {
                *pos = start;
                return Err(e);
            },
        };
        let pk = match decode_raw32(data, pos) {
            Ok(v) => v,
            Err(e) => {
                *pos = start;
                return Err(e);
            },
        };
        let note = match decode_note(data, pos) {
            Ok(v) => v,
            Err(e) => {
                *pos = start;
                return Err(e);
            },
        };
        Ok(
            TransactionOutput {
                mint_proof,
                coin: Coin { repr: coin },
                enc_note: EncryptedNote { recipient: PublicKey { repr: pk }, note },
            },
        )
    }
}

pub open spec fn ser_clear_input_seq(s: Seq<ClearInputModel>) -> Seq<u8>
    decreases s.len(),
{
    if s.len() == 0 {
        Seq::empty()
    } else {
        ser_clear_input(s[0]) + ser_clear_input_seq(s.drop_first())
    }
}

pub open spec fn parse_clear_input_seq(data: Seq<u8>, pos: int, count: nat) -> Option<
    (Seq<ClearInputModel>, int),
>
    decreases count,
{
    if count == 0 {
        Some((Seq::empty(), pos))
    } else {
        match parse_clear_input(data, pos) {
            Some(e) => match parse_clear_input_seq(data, e.1, (count - 1) as nat) {
                Some(rest) => Some((seq![e.0] + rest.0, rest.1)),
                None => None,
            },
            None => None,
        }
    }
}

pub open spec fn ser_input_seq(s: Seq<InputModel>) -> Seq<u8>
    decreases s.len(),
{
    if s.len() == 0 {
        Seq::empty()
    } else {
        ser_input(s[0]) + ser_input_seq(s.drop_first())
    }
}

pub open spec fn parse_input_seq(data: Seq<u8>, pos: int, count: nat) -> Option<
    (Seq<InputModel>, int),
>
    decreases count,
{
    if count == 0 {
        Some((Seq::empty(), pos))
    } else {
        match parse_input(data, pos) {
            Some(e) => match parse_input_seq(data, e.1, (count - 1) as nat) {
                Some(rest) => Some((seq![e.0] + rest.0, rest.1)),
                None => None,
            },
            None => None,
        }
    }
}

pub open spec fn ser_output_seq(s: Seq<OutputModel>) -> Seq<u8>
    decreases s.len(),
{
    if s.len() == 0 {
        Seq::empty()
    } else {
        ser_output(s[0]) + ser_output_seq(s.drop_first())
    }
}

pub open spec fn parse_output_seq(data: Seq<u8>, pos: int, count: nat) -> Option<
    (Seq<OutputModel>, int),
>
    decreases count,
{
    if count == 0 {
        Some((Seq::empty(), pos))
    } else {
        match parse_output(data, pos) {
            Some(e) => match parse_output_seq(data, e.1, (count - 1) as nat) {
                Some(rest) => Some((seq![e.0] + rest.0, rest.1)),
                None => None,
            },
            None => None,
        }
    }
}

/// The encoding of a full transaction: its three count-prefixed lists.
pub open spec fn ser_tx(m: TxModel) -> Seq<u8> {
    ser_varint(m.clear_inputs.len() as u64) + ser_clear_input_seq(m.clear_inputs) + ser_varint(
        m.inputs.len() as u64,
    ) + ser_input_seq(m.inputs) + ser_varint(m.outputs.len() as u64) + ser_output_seq(m.outputs)
}

pub open spec fn parse_tx(data: Seq<u8>, pos: int) -> Option<(TxModel, int)> {
    match parse_varint(data, pos) {
        Some(nc) => match parse_clear_input_seq(data, nc.1, nc.0 as nat) {
            Some(clears) => match parse_varint(data, clears.1) {
                Some(ni) => match parse_input_seq(data, ni.1, ni.0 as nat) {
                    Some(ins) => match parse_varint(data, ins.1) {
                        Some(no) => match parse_output_seq(data, no.1, no.0 as nat) {
                            Some(outs) => Some(
                                (
                                    TxModel {
                                        clear_inputs: clears.0,
                                        inputs: ins.0,
                                        outputs: outs.0,
                                    },
                                    outs.1,
                                ),
                            ),
                            None => None,
                        },
                        None => None,
                    },
                    None => None,
                },
                None => None,
            },
            None => None,
        },
        None => None,
    }
}

/// Whether every key a transaction carries has the canonical 32-byte form.
pub open spec fn tx_keys_sized(t: Transaction) -> bool {
    &&& forall|j: int|
        0 <= j < t.clear_inputs@.len() ==> (#[trigger] t.clear_inputs@[j]).signature_public.repr@.len()
            == 32
    &&& forall|j: int|
        0 <= j < t.inputs@.len() ==> (#[trigger] t.inputs@[j]).revealed.signature_public.repr@.len()
            == 32
    &&& forall|j: int|
        0 <= j < t.outputs@.len() ==> (#[trigger] t.outputs@[j]).enc_note.recipient.repr@.len()
            == 32
}

impl Transaction {
    /// Appends this transaction's encoding: the slab payload.
    #[verifier::loop_isolation(false)]
    #[verifier::rlimit(100)]
    pub fn encode(&self, out: &mut Vec<u8>)
        requires
            tx_keys_sized(*self),
        ensures
            final(out)@ == old(out)@ + ser_tx(tx_model(*self)),
    {
        let ghost m = tx_model(*self);
        encode_varint(out, self.clear_inputs.len() as u64);
        let ghost mid1 = out@;
        let mut i: usize = 0;
        proof {
            assert(m.clear_inputs.skip(0) =~= m.clear_inputs);
        }
        while i < self.clear_inputs.len()
            invariant
                i <= self.clear_inputs@.len(),
                mid1 + ser_clear_input_seq(m.clear_inputs) == out@ + ser_clear_input_seq(
                    m.clear_inputs.skip(i as int),
                ),
            decreases self.clear_inputs@.len() - i,
        {
            proof {
                assert(m.clear_inputs.skip(i as int)[0] == m.clear_inputs[i as int]);
                assert(m.clear_inputs.skip(i as int).drop_first() =~= m.clear_inputs.skip(
                    i as int + 1,
                ));
            }
            self.clear_inputs[i].encode(out);
            i = i + 1;
        }
        proof {
            assert(ser_clear_input_seq(m.clear_inputs.skip(i as int)) =~= Seq::<u8>::empty());
        }
        encode_varint(out, self.inputs.len() as u64);
        let ghost mid2 = out@;
        let mut k: usize = 0;
        proof {
            assert(m.inputs.skip(0) =~= m.inputs);
        }
        while k < self.inputs.len()
            invariant
                k <= self.inputs@.len(),
                mid2 + ser_input_seq(m.inputs) == out@ + ser_input_seq(m.inputs.skip(k as int)),
            decreases self.inputs@.len() - k,
        {
            proof {
                assert(m.inputs.skip(k as int)[0] == m.inputs[k as int]);
                assert(m.inputs.skip(k as int).drop_first() =~= m.inputs.skip(k as int + 1));
            }
            self.inputs[k].encode(out);
            k = k + 1;
        }
        proof {
            assert(ser_input_seq(m.inputs.skip(k as int)) =~= Seq::<u8>::empty());
        }
        encode_varint(out, self.outputs.len() as u64);
        let ghost mid3 = out@;
        let mut j: usize = 0;
        proof {
            assert(m.outputs.skip(0) =~= m.outputs);
        }
        while j < self.outputs.len()
            invariant
                j <= self.outputs@.len(),
                mid3 + ser_output_seq(m.outputs) == out@ + ser_output_seq(m.outputs.skip(j as int)),
            decreases self.outputs@.len() - j,
        {
            proof {
                assert(m.outputs.skip(j as int)[0] == m.outputs[j as int]);
                assert(m.outputs.skip(j as int).drop_first() =~= m.outputs.skip(j as int + 1));
            }
            self.outputs[j].encode(out);
            j = j + 1;
        }
        proof {
            assert(ser_output_seq(m.outputs.skip(j as int)) =~= Seq::<u8>::empty());
            assert(final(out)@ =~= old(out)@ + ser_tx(m));
        }
    }

    /// Reads one transaction from a slab payload.
    #[verifier::loop_isolation(false)]
    #[verifier::rlimit(100)]
    pub fn decode(data: &Vec<u8>, pos: &mut usize) -> (r: Result<Transaction, Error>)
        ensures
            parse_tx(data@, *old(pos) as int) matches Some(p) ==> (r matches Ok(v) && tx_model(v)
                == p.0 && *final(pos) == p.1),
            parse_tx(data@, *old(pos) as int) is None ==> r is Err,
    {
        let nc = match decode_varint(data, pos) {
            Ok(v) => v,
            Err(e) => {
                return Err(e);
            },
        };
        let mut clear_inputs: Vec<TransactionClearInput> = Vec::new();
        let ghost mut cms: Seq<ClearInputModel> = Seq::empty();
        let mut i: u64 = 0;
        let ghost full_c = parse_clear_input_seq(data@, *pos as int, nc as nat);
        while i < nc
            invariant
                i <= nc,
                clear_inputs@.len() == cms.len(),
                forall|t: int|
                    0 <= t < cms.len() ==> clear_input_model(#[trigger] clear_inputs@[t]) == cms[t],
                full_c == (match parse_clear_input_seq(data@, *pos as int, (nc - i) as nat) {
                    Some(rest) => Some::<(Seq<ClearInputModel>, int)>((cms + rest.0, rest.1)),
                    None => None::<(Seq<ClearInputModel>, int)>,
                }),
            decreases nc - i,
        {
            let e = match TransactionClearInput::decode(data, pos) {
                Ok(v) => v,
                Err(err) => {
                    proof {
                        assert(full_c is None);
                    }
                    return Err(err);
                },
            };
            proof {
                cms = cms.push(clear_input_model(e));
            }
            clear_inputs.push(e);
            i = i + 1;
            proof {
                let after = parse_clear_input_seq(data@, *pos as int, (nc - i) as nat);
                if after is Some {
                    let rest0 = after->Some_0.0;
                    assert(cms + rest0 =~= cms.drop_last() + (seq![cms.last()] + rest0));
                }
            }
        }
        proof {
            assert(parse_clear_input_seq(data@, *pos as int, 0) == Some::<
                (Seq<ClearInputModel>, int),
            >((Seq::empty(), *pos as int)));
            assert(cms + Seq::<ClearInputModel>::empty() =~= cms);
        }
        let ni = match decode_varint(data, pos) {
            Ok(v) => v,
            Err(e) => {
                return Err(e);
            },
        };
        let mut inputs: Vec<TransactionInput> = Vec::new();
        let ghost mut ims: Seq<InputModel> = Seq::empty();
        let mut k: u64 = 0;
        let ghost full_i = parse_input_seq(data@, *pos as int, ni as nat);
        while k < ni
            invariant
                k <= ni,
                inputs@.len() == ims.len(),
                forall|t: int|
                    0 <= t < ims.len() ==> input_model(#[trigger] inputs@[t]) == ims[t],
                full_i == (match parse_input_seq(data@, *pos as int, (ni - k) as nat) {
                    Some(rest) => Some::<(Seq<InputModel>, int)>((ims + rest.0, rest.1)),
                    None => None::<(Seq<InputModel>, int)>,
                }),
            decreases ni - k,
        {
            let e = match TransactionInput::decode(data, pos) {
                Ok(v) => v,
                Err(err) => {
                    proof {
                        assert(full_i is None);
                    }
                    return Err(err);
                },
            };
            proof {
                ims = ims.push(input_model(e));
            }
            inputs.push(e);
            k = k + 1;
            proof {
                let after = parse_input_seq(data@, *pos as int, (ni - k) as nat);
                if after is Some {
                    let rest0 = after->Some_0.0;
                    assert(ims + rest0 =~= ims.drop_last() + (seq![ims.last()] + rest0));
                }
            }
        }
        proof {
            assert(parse_input_seq(data@, *pos as int, 0) == Some::<(Seq<InputModel>, int)>((
                Seq::empty(),
                *pos as int,
            )));
            assert(ims + Seq::<InputModel>::empty() =~= ims);
        }
        let no = match decode_varint(data, pos) {
            Ok(v) => v,
            Err(e) => {
                return Err(e);
            },
        };
        let mut outputs: Vec<TransactionOutput> = Vec::new();
        let ghost mut oms: Seq<OutputModel> = Seq::empty();
        let mut j: u64 = 0;
        let ghost full_o = parse_output_seq(data@, *pos as int, no as nat);
        while j < no
            invariant
                j <= no,
                outputs@.len() == oms.len(),
                forall|t: int|
                    0 <= t < oms.len() ==> output_model(#[trigger] outputs@[t]) == oms[t],
                full_o == (match parse_output_seq(data@, *pos as int, (no - j) as nat) {
                    Some(rest) => Some::<(Seq<OutputModel>, int)>((oms + rest.0, rest.1)),
                    None => None::<(Seq<OutputModel>, int)>,
                }),
            decreases no - j,
        {
            let e = match TransactionOutput::decode(data, pos) {
                Ok(v) => v,
                Err(err) => {
                    proof {
                        assert(full_o is None);
                    }
                    return Err(err);
                },
            };
            proof {
                oms = oms.push(output_model(e));
            }
            outputs.push(e);
            j = j + 1;
            proof {
                let after = parse_output_seq(data@, *pos as int, (no - j) as nat);
                if after is Some {
                    let rest0 = after->Some_0.0;
                    assert(oms + rest0 =~= oms.drop_last() + (seq![oms.last()] + rest0));
                }
            }
        }
        proof {
            assert(parse_output_seq(data@, *pos as int, 0) == Some::<(Seq<OutputModel>, int)>((
                Seq::empty(),
                *pos as int,
            )));
            assert(oms + Seq::<OutputModel>::empty() =~= oms);
        }
        let tx = Transaction { clear_inputs, inputs, outputs };
        proof {
            let parsed = parse_tx(data@, *old(pos) as int);
            if parsed is Some {
                assert(tx_model(tx).clear_inputs =~= parsed->Some_0.0.clear_inputs);
                assert(tx_model(tx).inputs =~= parsed->Some_0.0.inputs);
                assert(tx_model(tx).outputs =~= parsed->Some_0.0.outputs);
            }
        }
        Ok(tx)
    }
}

/// Ghost form of a transparent input before signing.
pub ghost struct PartialClearModel {
    pub value: u64,
    pub token_id: u64,
    pub valcom_blind: u64,
    pub token_commit_blind: u64,
    pub signature_public: Seq<u8>,
}

/// Ghost form of a shielded input before signing.
pub ghost struct PartialInputModel {
    pub spend_proof: Seq<u8>,
    pub revealed: RevealedModel,
}

/// Ghost form of a partial transaction.
pub ghost struct PartialTxModel {
    pub clear_inputs: Seq<PartialClearModel>,
    pub inputs: Seq<PartialInputModel>,
    pub outputs: Seq<OutputModel>,
}

pub open spec fn partial_clear_model(c: PartialTransactionClearInput) -> PartialClearModel {
    PartialClearModel {
        value: c.value,
        token_id: c.token_id,
        valcom_blind: c.valcom_blind,
        token_commit_blind: c.token_commit_blind,
        signature_public: c.signature_public.repr@,
    }
}

pub open spec fn partial_input_model(i: PartialTransactionInput) -> PartialInputModel {
    PartialInputModel { spend_proof: i.spend_proof@, revealed: revealed_model(i.revealed) }
}

pub open spec fn partial_tx_model(t: PartialTransaction) -> PartialTxModel {
    PartialTxModel {
        clear_inputs: Seq::new(
            t.clear_inputs@.len(),
            |i: int| partial_clear_model(t.clear_inputs@[i]),
        ),
        inputs: Seq::new(t.inputs@.len(), |i: int| partial_input_model(t.inputs@[i])),
        outputs: Seq::new(t.outputs@.len(), |i: int| output_model(t.outputs@[i])),
    }
}

/// The encoding of a transparent input before signing.
pub open spec fn ser_partial_clear(m: PartialClearModel) -> Seq<u8> {
    ser_u64(m.value) + ser_u64(m.token_id) + ser_u64(m.valcom_blind) + ser_u64(
        m.token_commit_blind,
    ) + ser_raw32(m.signature_public)
}

pub open spec fn parse_partial_clear(data: Seq<u8>, pos: int) -> Option<(PartialClearModel, int)> {
    match parse_u64(data, pos) {
        Some(value) => match parse_u64(data, value.1) {
            Some(token) => match parse_u64(data, token.1) {
                Some(valcom) => match parse_u64(data, valcom.1) {
                    Some(tcb) => match parse_raw32(data, tcb.1) {
                        Some(pk) => Some(
                            (
                                PartialClearModel {
                                    value: value.0,
                                    token_id: token.0,
                                    valcom_blind: valcom.0,
                                    token_commit_blind: tcb.0,
                                    signature_public: pk.0,
                                },
                                pk.1,
                            ),
                        ),
                        None => None,
                    },
                    None => None,
                },
                None => None,
            },
            None => None,
        },
        None => None,
    }
}

impl PartialTransactionClearInput {
    /// Appends this input's encoding.
    pub fn encode(&self, out: &mut Vec<u8>)
        requires
            self.signature_public.repr@.len() == 32,
        ensures
            final(out)@ == old(out)@ + ser_partial_clear(partial_clear_model(*self)),
    {
        encode_u64(out, self.value);
        encode_u64(out, self.token_id);
        encode_u64(out, self.valcom_blind);
        encode_u64(out, self.token_commit_blind);
        encode_raw32(out, &self.signature_public.repr);
        proof {
            assert(final(out)@ =~= old(out)@ + ser_partial_clear(partial_clear_model(*self)));
        }
    }

    /// Reads one transparent input before signing.
    pub fn decode(data: &Vec<u8>, pos: &mut usize) -> (r: Result<
        PartialTransactionClearInput,
        Error,
    >)
        ensures
            parse_partial_clear(data@, *old(pos) as int) matches Some(p) ==> (r matches Ok(v)
                && partial_clear_model(v) == p.0 && *final(pos) == p.1),
            parse_partial_clear(data@, *old(pos) as int) is None ==> (r == Result::<
                PartialTransactionClearInput,
                Error,
            >::Err(Error::DecodeFailure) && *final(pos) == *old(pos)),
    {
        let start = *pos;
        let value = match decode_u64(data, pos) {
            Ok(v) => v,
            Err(e) => {
                return Err(e);
            },
        };
        let token_id = match decode_u64(data, pos) {
            Ok(v) => v,
            Err(e) => {
                *pos = start;
                return Err(e);
            },
        };
        let valcom_blind = match decode_u64(data, pos) {
            Ok(v) => v,
            Err(e) => {
                *pos = start;
                return Err(e);
            },
        };
        let token_commit_blind = match decode_u64(data, pos) {
            Ok(v) => v,
            Err(e) => {
                *pos = start;
                return Err(e);
            },
        };
        let pk = match decode_raw32(data, pos) {
            Ok(v) => v,
            Err(e) => {
                *pos = start;
                return Err(e);
            },
        };
        Ok(
            PartialTransactionClearInput {
                value,
                token_id,
                valcom_blind,
                token_commit_blind,
                signature_public: PublicKey { repr: pk },
            },
        )
    }
}

/// The encoding of a shielded input before signing.
pub open spec fn ser_partial_input(m: PartialInputModel) -> Seq<u8> {
    ser_bytes(m.spend_proof) + ser_revealed(m.revealed)
}

pub open spec fn parse_partial_input(data: Seq<u8>, pos: int) -> Option<(PartialInputModel, int)> {
    match parse_bytes(data, pos) {
        Some(proof_blob) => match parse_revealed(data, proof_blob.1) {
            Some(rev) => Some(
                (PartialInputModel { spend_proof: proof_blob.0, revealed: rev.0 }, rev.1),
            ),
            None => None,
        },
        None => None,
    }
}

impl PartialTransactionInput {
    /// Appends this input's encoding.
    pub fn encode(&self, out: &mut Vec<u8>)
        requires
            self.revealed.signature_public.repr@.len() == 32,
        ensures
            final(out)@ == old(out)@ + ser_partial_input(partial_input_model(*self)),
    {
        encode_bytes(out, &self.spend_proof);
        self.revealed.encode(out);
        proof {
            assert(final(out)@ =~= old(out)@ + ser_partial_input(partial_input_model(*self)));
        }
    }

    /// Reads one shielded input before signing.
    pub fn decode(data: &Vec<u8>, pos: &mut usize) -> (r: Result<PartialTransactionInput, Error>)
        ensures
            parse_partial_input(data@, *old(pos) as int) matches Some(p) ==> (r matches Ok(v)
                && partial_input_model(v) == p.0 && *final(pos) == p.1),
            parse_partial_input(data@, *old(pos) as int) is None ==> (r == Result::<
                PartialTransactionInput,
                Error,
            >::Err(Error::DecodeFailure) && *final(pos) == *old(pos)),
    {
        let start = *pos;
        let spend_proof = match decode_bytes(data, pos) {
            Ok(v) => v,
            Err(e) => {
                return Err(e);
            },
        };
        let revealed = match SpendRevealedValues::decode(data, pos) {
            Ok(v) => v,
            Err(e) => {
                *pos = start;
                return Err(e);
            },
        };
        Ok(PartialTransactionInput { spend_proof, revealed })
    }
}

pub open spec fn ser_partial_clear_seq(s: Seq<PartialClearModel>) -> Seq<u8>
    decreases s.len(),
{
    if s.len() == 0 {
        Seq::empty()
    } else {
        ser_partial_clear(s[0]) + ser_partial_clear_seq(s.drop_first())
    }
}

pub open spec fn parse_partial_clear_seq(data: Seq<u8>, pos: int, count: nat) -> Option<
    (Seq<PartialClearModel>, int),
>
    decreases count,
{
    if count == 0 {
        Some((Seq::empty(), pos))
    } else {
        match parse_partial_clear(data, pos) {
            Some(e) => match parse_partial_clear_seq(data, e.1, (count - 1) as nat) {
                Some(rest) => Some((seq![e.0] + rest.0, rest.1)),
                None => None,
            },
            None => None,
        }
    }
}

pub open spec fn ser_partial_input_seq(s: Seq<PartialInputModel>) -> Seq<u8>
    decreases s.len(),
{
    if s.len() == 0 {
        Seq::empty()
    } else {
        ser_partial_input(s[0]) + ser_partial_input_seq(s.drop_first())
    }
}

pub open spec fn parse_partial_input_seq(data: Seq<u8>, pos: int, count: nat) -> Option<
    (Seq<PartialInputModel>, int),
>
    decreases count,
{
    if count == 0 {
        Some((Seq::empty(), pos))
    } else {
        match parse_partial_input(data, pos) {
            Some(e) => match parse_partial_input_seq(data, e.1, (count - 1) as nat) {
                Some(rest) => Some((seq![e.0] + rest.0, rest.1)),
                None => None,
            },
            None => None,
        }
    }
}

/// The encoding of a partial transaction: its three count-prefixed lists.
pub open spec fn ser_partial_tx(m: PartialTxModel) -> Seq<u8> {
    ser_varint(m.clear_inputs.len() as u64) + ser_partial_clear_seq(m.clear_inputs) + ser_varint(
        m.inputs.len() as u64,
    ) + ser_partial_input_seq(m.inputs) + ser_varint(m.outputs.len() as u64) + ser_output_seq(
        m.outputs,
    )
}

pub open spec fn parse_partial_tx(data: Seq<u8>, pos: int) -> Option<(PartialTxModel, int)> {
    match parse_varint(data, pos) {
        Some(nc) => match parse_partial_clear_seq(data, nc.1, nc.0 as nat) {
            Some(clears) => match parse_varint(data, clears.1) {
                Some(ni) => match parse_partial_input_seq(data, ni.1, ni.0 as nat) {
                    Some(ins) => match parse_varint(data, ins.1) {
                        Some(no) => match parse_output_seq(data, no.1, no.0 as nat) {
                            Some(outs) => Some(
                                (
                                    PartialTxModel {
                                        clear_inputs: clears.0,
                                        inputs: ins.0,
                                        outputs: outs.0,
                                    },
                                    outs.1,
                                ),
                            ),
                            None => None,
                        },
                        None => None,
                    },
                    None => None,
                },
                None => None,
            },
            None => None,
        },
        None => None,
    }
}

/// Whether every key a partial transaction carries has the canonical
/// 32-byte form.
pub open spec fn partial_tx_keys_sized(t: PartialTransaction) -> bool {
    &&& forall|j: int|
        0 <= j < t.clear_inputs@.len() ==> (#[trigger] t.clear_inputs@[j]).signature_public.repr@.len()
            == 32
    &&& forall|j: int|
        0 <= j < t.inputs@.len() ==> (#[trigger] t.inputs@[j]).revealed.signature_public.repr@.len()
            == 32
    &&& forall|j: int|
        0 <= j < t.outputs@.len() ==> (#[trigger] t.outputs@[j]).enc_note.recipient.repr@.len()
            == 32
}

impl PartialTransaction {
    /// Appends this partial transaction's encoding.
    #[verifier::loop_isolation(false)]
    #[verifier::rlimit(100)]
    pub fn encode(&self, out: &mut Vec<u8>)
        requires
            partial_tx_keys_sized(*self),
        ensures
            final(out)@ == old(out)@ + ser_partial_tx(partial_tx_model(*self)),
    {
        let ghost m = partial_tx_model(*self);
        encode_varint(out, self.clear_inputs.len() as u64);
        let ghost mid1 = out@;
        let mut i: usize = 0;
        proof {
            assert(m.clear_inputs.skip(0) =~= m.clear_inputs);
        }
        while i < self.clear_inputs.len()
            invariant
                i <= self.clear_inputs@.len(),
                mid1 + ser_partial_clear_seq(m.clear_inputs) == out@ + ser_partial_clear_seq(
                    m.clear_inputs.skip(i as int),
                ),
            decreases self.clear_inputs@.len() - i,
        {
            proof {
                assert(m.clear_inputs.skip(i as int)[0] == m.clear_inputs[i as int]);
                assert(m.clear_inputs.skip(i as int).drop_first() =~= m.clear_inputs.skip(
                    i as int + 1,
                ));
            }
            self.clear_inputs[i].encode(out);
            i = i + 1;
        }
        proof {
            assert(ser_partial_clear_seq(m.clear_inputs.skip(i as int)) =~= Seq::<u8>::empty());
        }
        encode_varint(out, self.inputs.len() as u64);
        let ghost mid2 = out@;
        let mut k: usize = 0;
        proof {
            assert(m.inputs.skip(0) =~= m.inputs);
        }
        while k < self.inputs.len()
            invariant
                k <= self.inputs@.len(),
                mid2 + ser_partial_input_seq(m.inputs) == out@ + ser_partial_input_seq(
                    m.inputs.skip(k as int),
                ),
            decreases self.inputs@.len() - k,
        {
            proof {
                assert(m.inputs.skip(k as int)[0] == m.inputs[k as int]);
                assert(m.inputs.skip(k as int).drop_first() =~= m.inputs.skip(k as int + 1));
            }
            self.inputs[k].encode(out);
            k = k + 1;
        }
        proof {
            assert(ser_partial_input_seq(m.inputs.skip(k as int)) =~= Seq::<u8>::empty());
        }
        encode_varint(out, self.outputs.len() as u64);
        let ghost mid3 = out@;
        let mut j: usize = 0;
        proof {
            assert(m.outputs.skip(0) =~= m.outputs);
        }
        while j < self.outputs.len()
            invariant
                j <= self.outputs@.len(),
                mid3 + ser_output_seq(m.outputs) == out@ + ser_output_seq(m.outputs.skip(j as int)),
            decreases self.outputs@.len() - j,
        {
            proof {
                assert(m.outputs.skip(j as int)[0] == m.outputs[j as int]);
                assert(m.outputs.skip(j as int).drop_first() =~= m.outputs.skip(j as int + 1));
            }
            self.outputs[j].encode(out);
            j = j + 1;
        }
        proof {
            assert(ser_output_seq(m.outputs.skip(j as int)) =~= Seq::<u8>::empty());
            assert(final(out)@ =~= old(out)@ + ser_partial_tx(m));
        }
    }

    /// Reads one partial transaction.
    #[verifier::loop_isolation(false)]
    #[verifier::rlimit(100)]
    pub fn decode(data: &Vec<u8>, pos: &mut usize) -> (r: Result<PartialTransaction, Error>)
        ensures
            parse_partial_tx(data@, *old(pos) as int) matches Some(p) ==> (r matches Ok(v)
                && partial_tx_model(v) == p.0 && *final(pos) == p.1),
            parse_partial_tx(data@, *old(pos) as int) is None ==> r is Err,
    {
        let nc = match decode_varint(data, pos) {
            Ok(v) => v,
            Err(e) => {
                return Err(e);
            },
        };
        let mut clear_inputs: Vec<PartialTransactionClearInput> = Vec::new();
        let ghost mut cms: Seq<PartialClearModel> = Seq::empty();
        let mut i: u64 = 0;
        let ghost full_c = parse_partial_clear_seq(data@, *pos as int, nc as nat);
        while i < nc
            invariant
                i <= nc,
                clear_inputs@.len() == cms.len(),
                forall|t: int|
                    0 <= t < cms.len() ==> partial_clear_model(#[trigger] clear_inputs@[t])
                        == cms[t],
                full_c == (match parse_partial_clear_seq(data@, *pos as int, (nc - i) as nat) {
                    Some(rest) => Some::<(Seq<PartialClearModel>, int)>((cms + rest.0, rest.1)),
                    None => None::<(Seq<PartialClearModel>, int)>,
                }),
            decreases nc - i,
        {
            let e = match PartialTransactionClearInput::decode(data, pos) {
                Ok(v) => v,
                Err(err) => {
                    proof {
                        assert(full_c is None);
                    }
                    return Err(err);
                },
            };
            proof {
                cms = cms.push(partial_clear_model(e));
            }
            clear_inputs.push(e);
            i = i + 1;
            proof {
                let after = parse_partial_clear_seq(data@, *pos as int, (nc - i) as nat);
                if after is Some {
                    let rest0 = after->Some_0.0;
                    assert(cms + rest0 =~= cms.drop_last() + (seq![cms.last()] + rest0));
                }
            }
        }
        proof {
            assert(parse_partial_clear_seq(data@, *pos as int, 0) == Some::<
                (Seq<PartialClearModel>, int),
            >((Seq::empty(), *pos as int)));
            assert(cms + Seq::<PartialClearModel>::empty() =~= cms);
        }
        let ni = match decode_varint(data, pos) {
            Ok(v) => v,
            Err(e) => {
                return Err(e);
            },
        };
        let mut inputs: Vec<PartialTransactionInput> = Vec::new();
        let ghost mut ims: Seq<PartialInputModel> = Seq::empty();
        let mut k: u64 = 0;
        let ghost full_i = parse_partial_input_seq(data@, *pos as int, ni as nat);
        while k < ni
            invariant
                k <= ni,
                inputs@.len() == ims.len(),
                forall|t: int|
                    0 <= t < ims.len() ==> partial_input_model(#[trigger] inputs@[t]) == ims[t],
                full_i == (match parse_partial_input_seq(data@, *pos as int, (ni - k) as nat) {
                    Some(rest) => Some::<(Seq<PartialInputModel>, int)>((ims + rest.0, rest.1)),
                    None => None::<(Seq<PartialInputModel>, int)>,
                }),
            decreases ni - k,
        {
            let e = match PartialTransactionInput::decode(data, pos) {
                Ok(v) => v,
                Err(err) => {
                    proof {
                        assert(full_i is None);
                    }
                    return Err(err);
                },
            };
            proof {
                ims = ims.push(partial_input_model(e));
            }
            inputs.push(e);
            k = k + 1;
            proof {
                let after = parse_partial_input_seq(data@, *pos as int, (ni - k) as nat);
                if after is Some {
                    let rest0 = after->Some_0.0;
                    assert(ims + rest0 =~= ims.drop_last() + (seq![ims.last()] + rest0));
                }
            }
        }
        proof {
            assert(parse_partial_input_seq(data@, *pos as int, 0) == Some::<
                (Seq<PartialInputModel>, int),
            >((Seq::empty(), *pos as int)));
            assert(ims + Seq::<PartialInputModel>::empty() =~= ims);
        }
        let no = match decode_varint(data, pos) {
            Ok(v) => v,
            Err(e) => {
                return Err(e);
            },
        };
        let mut outputs: Vec<TransactionOutput> = Vec::new();
        let ghost mut oms: Seq<OutputModel> = Seq::empty();
        let mut j: u64 = 0;
        let ghost full_o = parse_output_seq(data@, *pos as int, no as nat);
        while j < no
            invariant
                j <= no,
                outputs@.len() == oms.len(),
                forall|t: int|
                    0 <= t < oms.len() ==> output_model(#[trigger] outputs@[t]) == oms[t],
                full_o == (match parse_output_seq(data@, *pos as int, (no - j) as nat) {
                    Some(rest) => Some::<(Seq<OutputModel>, int)>((oms + rest.0, rest.1)),
                    None => None::<(Seq<OutputModel>, int)>,
                }),
            decreases no - j,
        {
            let e = match TransactionOutput::decode(data, pos) {
                Ok(v) => v,
                Err(err) => {
                    proof {
                        assert(full_o is None);
                    }
                    return Err(err);
                },
            };
            proof {
                oms = oms.push(output_model(e));
            }
            outputs.push(e);
            j = j + 1;
            proof {
                let after = parse_output_seq(data@, *pos as int, (no - j) as nat);
                if after is Some {
                    let rest0 = after->Some_0.0;
                    assert(oms + rest0 =~= oms.drop_last() + (seq![oms.last()] + rest0));
                }
            }
        }
        proof {
            assert(parse_output_seq(data@, *pos as int, 0) == Some::<(Seq<OutputModel>, int)>((
                Seq::empty(),
                *pos as int,
            )));
            assert(oms + Seq::<OutputModel>::empty() =~= oms);
        }
        let ptx = PartialTransaction { clear_inputs, inputs, outputs };
        proof {
            let parsed = parse_partial_tx(data@, *old(pos) as int);
            if parsed is Some {
                assert(partial_tx_model(ptx).clear_inputs =~= parsed->Some_0.0.clear_inputs);
                assert(partial_tx_model(ptx).inputs =~= parsed->Some_0.0.inputs);
                assert(partial_tx_model(ptx).outputs =~= parsed->Some_0.0.outputs);
            }
        }
        Ok(ptx)
    }
}

} // verus!
