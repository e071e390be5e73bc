use drk::error::Error;
use drk::keys::{derive_public, SecretKey};
use drk::merkle::MerkleNode;
use drk::note::{Coin, EncryptedNote, Note, Nullifier};
use drk::serial::{
    decode_bytes, decode_string, decode_u64, decode_u8, decode_varint, encode_bytes,
    encode_string, encode_u64, encode_u8, encode_varint,
};
use drk::tx::{
    decode_note, encode_note, PartialTransaction, PartialTransactionClearInput,
    PartialTransactionInput, SpendRevealedValues, Transaction, TransactionClearInput,
    TransactionInput, TransactionOutput,
};
use drk::vm2::{ZkBinary, ZkContract, ZkFunctionCall, ZkType};

#[test]
fn u64_round_trip() {
    let mut out = Vec::new();
    encode_u64(&mut out, 0xdead_beef_1234_5678);
    assert_eq!(out.len(), 8);
    assert_eq!(out[0], 0x78);
    let mut pos = 0usize;
    assert_eq!(decode_u64(&out, &mut pos), Ok(0xdead_beef_1234_5678));
    assert_eq!(pos, 8);
}

#[test]
fn u64_truncated_input_fails() {
    let mut out = Vec::new();
    encode_u8(&mut out, 1);
    let mut pos = 0usize;
    assert_eq!(decode_u64(&out, &mut pos), Err(Error::DecodeFailure));
    assert_eq!(pos, 0);
}

#[test]
fn varint_round_trips_all_widths() {
    for value in [0u64, 0xfc, 0xfd, 0xffff, 0x10000, 0xffff_ffff, 0x1_0000_0000, u64::MAX] {
        let mut out = Vec::new();
        encode_varint(&mut out, value);
        let mut pos = 0usize;
        assert_eq!(decode_varint(&out, &mut pos), Ok(value), "value {value}");
        assert_eq!(pos, out.len());
    }
}

#[test]
fn non_canonical_varint_is_rejected() {
    // 0xfd prefix carrying a value that fits one byte.
    let data = vec![0xfdu8, 0x01, 0x00];
    let mut pos = 0usize;
    assert_eq!(decode_varint(&data, &mut pos), Err(Error::DecodeFailure));
    assert_eq!(pos, 0);
}

#[test]
fn bytes_round_trip() {
    let payload = vec![1u8, 2, 3, 4, 5];
    let mut out = Vec::new();
    encode_bytes(&mut out, &payload);
    let mut pos = 0usize;
    assert_eq!(decode_bytes(&out, &mut pos), Ok(payload));
    assert_eq!(pos, out.len());
}

#[test]
fn string_round_trip() {
    let name = String::from("mint_contract");
    let mut out = Vec::new();
    encode_string(&mut out, &name);
    let mut pos = 0usize;
    assert_eq!(decode_string(&out, &mut pos), Ok(name));
}

#[test]
fn non_ascii_string_is_rejected() {
    let data = vec![1u8, 0xC3];
    let mut pos = 0usize;
    assert_eq!(decode_string(&data, &mut pos), Err(Error::DecodeFailure));
    assert_eq!(pos, 0);
}

#[test]
fn zktype_round_trip() {
    for t in [
        ZkType::Base,
        ZkType::Scalar,
        ZkType::EcPoint,
        ZkType::EcConstPointShort,
        ZkType::EcConstPoint,
    ] {
        let mut out = Vec::new();
        t.encode(&mut out);
        let mut pos = 0usize;
        assert_eq!(ZkType::decode(&out, &mut pos), Ok(t));
    }
}

#[test]
fn unknown_zktype_tag_is_bad_operation() {
    let data = vec![9u8];
    let mut pos = 0usize;
    assert_eq!(ZkType::decode(&data, &mut pos), Err(Error::BadOperationType));
}

#[test]
fn function_call_round_trip() {
    let calls = [
        ZkFunctionCall::PoseidonHash(0, (1, 2)),
        ZkFunctionCall::Add(3, (4, 5)),
        ZkFunctionCall::ConstrainInstance(6),
        ZkFunctionCall::EcMulShort(7, (8, 9)),
        ZkFunctionCall::EcMul(10, (11, 12)),
        ZkFunctionCall::EcAdd(13, (14, 15)),
        ZkFunctionCall::EcGetX(16, 17),
        ZkFunctionCall::EcGetY(18, 19),
    ];
    for call in calls {
        let mut out = Vec::new();
        call.encode(&mut out);
        let mut pos = 0usize;
        assert_eq!(ZkFunctionCall::decode(&out, &mut pos), Ok(call));
        assert_eq!(pos, out.len());
    }
}

#[test]
fn zk_binary_round_trip() {
    let binary = ZkBinary {
        constants: vec![ZkType::Base, ZkType::EcConstPoint],
        contracts: vec![
            (
                String::from("mint"),
                ZkContract {
                    witness: vec![ZkType::Base, ZkType::Scalar],
                    code: vec![
                        ZkFunctionCall::PoseidonHash(0, (1, 2)),
                        ZkFunctionCall::ConstrainInstance(0),
                    ],
                },
            ),
            (
                String::from("burn"),
                ZkContract { witness: vec![ZkType::EcPoint], code: vec![] },
            ),
        ],
    };
    let mut out = Vec::new();
    binary.encode(&mut out);
    let mut pos = 0usize;
    let decoded = ZkBinary::decode(&out, &mut pos).expect("binary decodes");
    assert_eq!(pos, out.len());
    assert_eq!(decoded.constants, binary.constants);
    assert_eq!(decoded.contracts.len(), 2);
    assert_eq!(decoded.contracts[0].0, "mint");
    assert_eq!(decoded.contracts[0].1.witness, binary.contracts[0].1.witness);
    assert_eq!(decoded.contracts[0].1.code, binary.contracts[0].1.code);
    assert_eq!(decoded.contracts[1].0, "burn");
    assert_eq!(decoded.contracts[1].1.code.len(), 0);
}

#[test]
fn zk_contract_decode_rejects_garbage() {
    let data = vec![0xffu8, 0xff];
    let mut pos = 0usize;
    assert!(ZkContract::decode(&data, &mut pos).is_err());
    assert_eq!(pos, 0);
}

#[test]
fn note_round_trip() {
    let note = Note { serial: 1, value: 2, token_id: 3, coin_blind: 4, valcom_blind: 5 };
    let mut out = Vec::new();
    encode_note(&mut out, &note);
    assert_eq!(out.len(), 40);
    let mut pos = 0usize;
    assert_eq!(decode_note(&out, &mut pos), Ok(note));
}

#[test]
fn transaction_round_trip() {
    let pk = derive_public(&SecretKey { value: 3 });
    let note = Note { serial: 9, value: 10, token_id: 11, coin_blind: 12, valcom_blind: 13 };
    let tx = Transaction {
        clear_inputs: vec![TransactionClearInput {
            value: 4,
            token_id: 7,
            signature_public: derive_public(&SecretKey { value: 8 }),
            signature: vec![1, 2],
        }],
        inputs: vec![TransactionInput {
            spend_proof: vec![5, 6, 7],
            revealed: SpendRevealedValues {
                value_commit: 1,
                token_commit: 2,
                nullifier: Nullifier { repr: 33 },
                merkle_root: MerkleNode { repr: 44 },
                signature_public: derive_public(&SecretKey { value: 9 }),
            },
            signature: vec![],
        }],
        outputs: vec![TransactionOutput {
            mint_proof: vec![8],
            coin: Coin { repr: 55 },
            enc_note: EncryptedNote { recipient: pk, note },
        }],
    };
    let mut slab = Vec::new();
    tx.encode(&mut slab);
    let mut pos = 0usize;
    let decoded = Transaction::decode(&slab, &mut pos).expect("transaction decodes");
    assert_eq!(pos, slab.len());
    assert_eq!(decoded.clear_inputs.len(), 1);
    assert_eq!(decoded.clear_inputs[0].value, 4);
    assert_eq!(decoded.inputs.len(), 1);
    assert_eq!(decoded.inputs[0].revealed.nullifier, Nullifier { repr: 33 });
    assert_eq!(decoded.inputs[0].spend_proof, vec![5, 6, 7]);
    assert_eq!(decoded.outputs.len(), 1);
    assert_eq!(decoded.outputs[0].coin, Coin { repr: 55 });
    assert_eq!(decoded.outputs[0].enc_note.note, note);
}

#[test]
fn partial_transaction_round_trip() {
    let ptx = PartialTransaction {
        clear_inputs: vec![PartialTransactionClearInput {
            value: 1,
            token_id: 2,
            valcom_blind: 3,
            token_commit_blind: 4,
            signature_public: derive_public(&SecretKey { value: 5 }),
        }],
        inputs: vec![PartialTransactionInput {
            spend_proof: vec![1, 2, 3, 4],
            revealed: SpendRevealedValues {
                value_commit: 6,
                token_commit: 7,
                nullifier: Nullifier { repr: 8 },
                merkle_root: MerkleNode { repr: 9 },
                signature_public: derive_public(&SecretKey { value: 10 }),
            },
        }],
        outputs: vec![],
    };
    let mut out = Vec::new();
    ptx.encode(&mut out);
    let mut pos = 0usize;
    let decoded = PartialTransaction::decode(&out, &mut pos).expect("partial decodes");
    assert_eq!(pos, out.len());
    assert_eq!(decoded.clear_inputs.len(), 1);
    assert_eq!(decoded.clear_inputs[0].token_commit_blind, 4);
    assert_eq!(decoded.inputs.len(), 1);
    assert_eq!(decoded.inputs[0].revealed.merkle_root, MerkleNode { repr: 9 });
    assert!(decoded.outputs.is_empty());
}

#[test]
fn garbage_slab_fails_to_decode() {
    let data = vec![0xfdu8, 0x00];
    let mut pos = 0usize;
    assert!(Transaction::decode(&data, &mut pos).is_err());
}
