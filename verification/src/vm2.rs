//! The zk binary: typed constants, contracts and their instruction lists,
//! together with their byte codec.
//!
//! The wire format is the crate's serial format: one tag byte per type or
//! instruction, variable-length integers for counts and indices, and
//! length-prefixed ASCII names.

use vstd::prelude::*;
use crate::error::Error;
use crate::serial::{
    decode_string, decode_u8, decode_varint, encode_string, encode_u8, encode_varint,
    parse_string, parse_u8, parse_varint, ser_string, ser_varint,
};

verus! {

pub type RetValIdx = usize;

pub type ArgIdx = usize;

/// A value type of the zk virtual machine.
#[derive(Clone, Copy, PartialEq, Eq, Structural, Debug)]
pub enum ZkType {
    Base,
    Scalar,
    EcPoint,
    EcConstPointShort,
    EcConstPoint,
}

/// One instruction of a zk contract.
#[derive(Clone, Copy, PartialEq, Eq, Debug)]
pub enum ZkFunctionCall {
    PoseidonHash(RetValIdx, (ArgIdx, ArgIdx)),
    Add(RetValIdx, (ArgIdx, ArgIdx)),
    ConstrainInstance(ArgIdx),
    EcMulShort(RetValIdx, (ArgIdx, ArgIdx)),
    EcMul(RetValIdx, (ArgIdx, ArgIdx)),
    EcAdd(RetValIdx, (ArgIdx, ArgIdx)),
    EcGetX(RetValIdx, ArgIdx),
    EcGetY(RetValIdx, ArgIdx),
}

/// One compiled contract: its witness types and its code.
#[derive(Debug)]
pub struct ZkContract {
    pub witness: Vec<ZkType>,
    pub code: Vec<ZkFunctionCall>,
}

/// A compiled zk binary: shared constants and named contracts.
#[derive(Debug)]
pub struct ZkBinary {
    pub constants: Vec<ZkType>,
    pub contracts: Vec<(String, ZkContract)>,
}

/// The zk instruction interpreter.
#[derive(Debug)]
pub struct ZkInterpreter {}

/// The tag byte of a type.
pub open spec fn zktype_tag(t: ZkType) -> u8 {
    match t {
        ZkType::Base => 0,
        ZkType::Scalar => 1,
        ZkType::EcPoint => 2,
        ZkType::EcConstPointShort => 3,
        ZkType::EcConstPoint => 4,
    }
}

pub open spec fn ser_zktype(t: ZkType) -> Seq<u8> {
    seq![zktype_tag(t)]
}

pub open spec fn zktype_of_tag(tag: u8) -> ZkType {
    if tag == 0 {
        ZkType::Base
    } else if tag == 1 {
        ZkType::Scalar
    } else if tag == 2 {
        ZkType::EcPoint
    } else if tag == 3 {
        ZkType::EcConstPointShort
    } else {
        ZkType::EcConstPoint
    }
}

pub open spec fn parse_zktype(data: Seq<u8>, pos: int) -> Option<(ZkType, int)> {
    match parse_u8(data, pos) {
        Some(p) => {
            if p.0 <= 4 {
                Some((zktype_of_tag(p.0), p.1))
            } else {
                None
            }
        },
        None => None,
    }
}

impl ZkType {
    /// Appends this type's one-byte encoding.
    pub fn encode(&self, out: &mut Vec<u8>)
        ensures
            final(out)@ == old(out)@ + ser_zktype(*self),
    {
        let tag: u8 = match self {
            ZkType::Base => 0,
            ZkType::Scalar => 1,
            ZkType::EcPoint => 2,
            ZkType::EcConstPointShort => 3,
            ZkType::EcConstPoint => 4,
        };
        encode_u8(out, tag);
    }

    /// Reads one type; an unknown tag fails with `BadOperationType`.
    pub fn decode(data: &Vec<u8>, pos: &mut usize) -> (r: Result<ZkType, Error>)
        ensures
            parse_zktype(data@, *old(pos) as int) matches Some(p) ==> r == Result::<
                ZkType,
                Error,
            >::Ok(p.0) && *final(pos) == p.1,
            parse_zktype(data@, *old(pos) as int) is None ==> (r is Err && *final(pos) == *old(
                pos,
            )),
            (parse_u8(data@, *old(pos) as int) matches Some(p) && p.0 > 4) ==> r == Result::<
                ZkType,
                Error,
            >::Err(Error::BadOperationType),
            parse_u8(data@, *old(pos) as int) is None ==> r == Result::<ZkType, Error>::Err(
                Error::DecodeFailure,
            ),
    {
        let start = *pos;
        let op_type = match decode_u8(data, pos) {
            Ok(v) => v,
            Err(e) => {
                return Err(e);
            },
        };
        match op_type {
            0 => Ok(ZkType::Base),
            1 => Ok(ZkType::Scalar),
            2 => Ok(ZkType::EcPoint),
            3 => Ok(ZkType::EcConstPointShort),
            4 => Ok(ZkType::EcConstPoint),
            _ => {
                *pos = start;
                Err(Error::BadOperationType)
            },
        }
    }
}

/// The encoding of a sequence of types, without a count prefix.
pub open spec fn ser_zktype_seq(s: Seq<ZkType>) -> Seq<u8>
    decreases s.len(),
{
    if s.len() == 0 {
        Seq::empty()
    } else {
        ser_zktype(s[0]) + ser_zktype_seq(s.drop_first())
    }
}

/// Reads `count` consecutive types.
pub open spec fn parse_zktype_seq(data: Seq<u8>, pos: int, count: nat) -> Option<
    (Seq<ZkType>, int),
>
    decreases count,
{
    if count == 0 {
        Some((Seq::empty(), pos))
    } else {
        match parse_zktype(data, pos) {
            Some(e) => match parse_zktype_seq(data, e.1, (count - 1) as nat) {
                Some(rest) => Some((seq![e.0] + rest.0, rest.1)),
                None => None,
            },
            None => None,
        }
    }
}

/// The count-prefixed encoding of a type vector.
pub open spec fn ser_zktypes(s: Seq<ZkType>) -> Seq<u8> {
    ser_varint(s.len() as u64) + ser_zktype_seq(s)
}

pub open spec fn parse_zktypes(data: Seq<u8>, pos: int) -> Option<(Seq<ZkType>, int)> {
    match parse_varint(data, pos) {
        Some(n) => parse_zktype_seq(data, n.1, n.0 as nat),
        None => None,
    }
}

/// Appends a count-prefixed type vector.
#[verifier::loop_isolation(false)]
pub fn encode_zktypes(out: &mut Vec<u8>, v: &Vec<ZkType>)
    ensures
        final(out)@ == old(out)@ + ser_zktypes(v@),
{
    encode_varint(out, v.len() as u64);
    let ghost mid = out@;
    let mut i: usize = 0;
    proof {
        assert(v@.skip(0) =~= v@);
    }
    while i < v.len()
        invariant
            i <= v@.len(),
            mid + ser_zktype_seq(v@) == out@ + ser_zktype_seq(v@.skip(i as int)),
        decreases v@.len() - i,
    {
        proof {
            assert(v@.skip(i as int)[0] == v@[i as int]);
            assert(v@.skip(i as int).drop_first() =~= v@.skip(i as int + 1));
        }
        v[i].encode(out);
        i = i + 1;
    }
    proof {
        assert(ser_zktype_seq(v@.skip(i as int)) =~= Seq::<u8>::empty());
        assert(final(out)@ =~= old(out)@ + ser_zktypes(v@));
    }
}

/// Reads a count-prefixed type vector.
#[verifier::loop_isolation(false)]
pub fn decode_zktypes(data: &Vec<u8>, pos: &mut usize) -> (r: Result<Vec<ZkType>, Error>)
    ensures
        parse_zktypes(data@, *old(pos) as int) matches Some(p) ==> (r matches Ok(v) && v@ == p.0
            && *final(pos) == p.1),
        parse_zktypes(data@, *old(pos) as int) is None ==> r is Err,
{
    let start = *pos;
    let count = match decode_varint(data, pos) {
        Ok(v) => v,
        Err(e) => {
            return Err(e);
        },
    };
    let mut v: Vec<ZkType> = Vec::new();
    let mut i: u64 = 0;
    let ghost full = parse_zktypes(data@, start as int);
    while i < count
        invariant
            i <= count,
            full == (match parse_zktype_seq(data@, *pos as int, (count - i) as nat) {
                Some(rest) => Some::<(Seq<ZkType>, int)>((v@ + rest.0, rest.1)),
                None => None::<(Seq<ZkType>, int)>,
            }),
        decreases count - i,
    {
        let e = match ZkType::decode(data, pos) {
            Ok(t) => t,
            Err(err) => {
                proof {
                    assert(full is None);
                }
                return Err(err);
            },
        };
        v.push(e);
        i = i + 1;
        proof {
            let after = parse_zktype_seq(data@, *pos as int, (count - i) as nat);
            if after is Some {
                let rest0 = after->Some_0.0;
                assert(v@ + rest0 =~= v@.drop_last() + (seq![e] + rest0));
            }
        }
    }
    proof {
        assert(parse_zktype_seq(data@, *pos as int, 0) == Some::<(Seq<ZkType>, int)>((
            Seq::empty(),
            *pos as int,
        )));
        assert(v@ + Seq::<ZkType>::empty() =~= v@);
    }
    Ok(v)
}

/// The tag byte of an instruction.
pub open spec fn call_tag(c: ZkFunctionCall) -> u8 {
    match c {
        ZkFunctionCall::PoseidonHash(_, _) => 0,
        ZkFunctionCall::Add(_, _) => 1,
        ZkFunctionCall::ConstrainInstance(_) => 2,
        ZkFunctionCall::EcMulShort(_, _) => 3,
        ZkFunctionCall::EcMul(_, _) => 4,
        ZkFunctionCall::EcAdd(_, _) => 5,
        ZkFunctionCall::EcGetX(_, _) => 6,
        ZkFunctionCall::EcGetY(_, _) => 7,
    }
}

/// The encoding of one instruction: its tag, then its indices as
/// variable-length integers.
pub open spec fn ser_call(c: ZkFunctionCall) -> Seq<u8> {
    match c {
        ZkFunctionCall::PoseidonHash(r, a) => seq![0u8] + ser_varint(r as u64) + ser_varint(
            a.0 as u64,
        ) + ser_varint(a.1 as u64),
        ZkFunctionCall::Add(r, a) => seq![1u8] + ser_varint(r as u64) + ser_varint(a.0 as u64)
            + ser_varint(a.1 as u64),
        ZkFunctionCall::ConstrainInstance(a) => seq![2u8] + ser_varint(a as u64),
        ZkFunctionCall::EcMulShort(r, a) => seq![3u8] + ser_varint(r as u64) + ser_varint(
            a.0 as u64,
        ) + ser_varint(a.1 as u64),
        ZkFunctionCall::EcMul(r, a) => seq![4u8] + ser_varint(r as u64) + ser_varint(a.0 as u64)
            + ser_varint(a.1 as u64),
        ZkFunctionCall::EcAdd(r, a) => seq![5u8] + ser_varint(r as u64) + ser_varint(a.0 as u64)
            + ser_varint(a.1 as u64),
        ZkFunctionCall::EcGetX(r, a) => seq![6u8] + ser_varint(r as u64) + ser_varint(a as u64),
        ZkFunctionCall::EcGetY(r, a) => seq![7u8] + ser_varint(r as u64) + ser_varint(a as u64),
    }
}

/// Reads one index that must fit a `usize`.
pub open spec fn parse_idx(data: Seq<u8>, pos: int) -> Option<(usize, int)> {
    match parse_varint(data, pos) {
        Some(p) => {
            if p.0 <= usize::MAX as u64 {
                Some((p.0 as usize, p.1))
            } else {
                None
            }
        },
        None => None,
    }
}

fn decode_idx(data: &Vec<u8>, pos: &mut usize) -> (r: Result<usize, Error>)
    ensures
        parse_idx(data@, *old(pos) as int) matches Some(p) ==> r == Result::<usize, Error>::Ok(p.0)
            && *final(pos) == p.1,
        parse_idx(data@, *old(pos) as int) is None ==> (r == Result::<usize, Error>::Err(
            Error::DecodeFailure,
        ) && *final(pos) == *old(pos)),
{
    let start = *pos;
    let v = match decode_varint(data, pos) {
        Ok(v) => v,
        Err(e) => {
            return Err(e);
        },
    };
    if v > usize::MAX as u64 {
        *pos = start;
        return Err(Error::DecodeFailure);
    }
    Ok(v as usize)
}

/// Reads one instruction.
pub open spec fn parse_call(data: Seq<u8>, pos: int) -> Option<(ZkFunctionCall, int)> {
    match parse_u8(data, pos) {
        Some(t) => {
            if t.0 == 2 {
                match parse_idx(data, t.1) {
                    Some(a) => Some((ZkFunctionCall::ConstrainInstance(a.0), a.1)),
                    None => None,
                }
            } else if t.0 == 6 || t.0 == 7 {
                match parse_idx(data, t.1) {
                    Some(r) => match parse_idx(data, r.1) {
                        Some(a) => {
                            if t.0 == 6 {
                                Some((ZkFunctionCall::EcGetX(r.0, a.0), a.1))
                            } else {
                                Some((ZkFunctionCall::EcGetY(r.0, a.0), a.1))
                            }
                        },
                        None => None,
                    },
                    None => None,
                }
            } else if t.0 <= 5 {
                match parse_idx(data, t.1) {
                    Some(r) => match parse_idx(data, r.1) {
                        Some(a0) => match parse_idx(data, a0.1) {
                            Some(a1) => {
                                let c = if t.0 == 0 {
                                    ZkFunctionCall::PoseidonHash(r.0, (a0.0, a1.0))
                                } else if t.0 == 1 {
                                    ZkFunctionCall::Add(r.0, (a0.0, a1.0))
                                } else if t.0 == 3 {
                                    ZkFunctionCall::EcMulShort(r.0, (a0.0, a1.0))
                                } else if t.0 == 4 {
                                    ZkFunctionCall::EcMul(r.0, (a0.0, a1.0))
                                } else {
                                    ZkFunctionCall::EcAdd(r.0, (a0.0, a1.0))
                                };
                                Some((c, a1.1))
                            },
                            None => None,
                        },
                        None => None,
                    },
                    None => None,
                }
            } else {
                None
            }
        },
        None => None,
    }
}

impl ZkFunctionCall {
    /// Appends this instruction's encoding.
    pub fn encode(&self, out: &mut Vec<u8>)
        ensures
            final(out)@ == old(out)@ + ser_call(*self),
    {
        match self {
            ZkFunctionCall::PoseidonHash(r, a) => {
                encode_u8(out, 0);
                encode_varint(out, *r as u64);
                encode_varint(out, a.0 as u64);
                encode_varint(out, a.1 as u64);
            },
            ZkFunctionCall::Add(r, a) => {
                encode_u8(out, 1);
                encode_varint(out, *r as u64);
                encode_varint(out, a.0 as u64);
                encode_varint(out, a.1 as u64);
            },
            ZkFunctionCall::ConstrainInstance(a) => {
                encode_u8(out, 2);
                encode_varint(out, *a as u64);
            },
            ZkFunctionCall::EcMulShort(r, a) => {
                encode_u8(out, 3);
                encode_varint(out, *r as u64);
                encode_varint(out, a.0 as u64);
                encode_varint(out, a.1 as u64);
            },
            ZkFunctionCall::EcMul(r, a) => {
                encode_u8(out, 4);
                encode_varint(out, *r as u64);
                encode_varint(out, a.0 as u64);
                encode_varint(out, a.1 as u64);
            },
            ZkFunctionCall::EcAdd(r, a) => {
                encode_u8(out, 5);
                encode_varint(out, *r as u64);
                encode_varint(out, a.0 as u64);
                encode_varint(out, a.1 as u64);
            },
            ZkFunctionCall::EcGetX(r, a) => {
                encode_u8(out, 6);
                encode_varint(out, *r as u64);
                encode_varint(out, *a as u64);
            },
            ZkFunctionCall::EcGetY(r, a) => {
                encode_u8(out, 7);
                encode_varint(out, *r as u64);
                encode_varint(out, *a as u64);
            },
        }
        proof {
            assert(final(out)@ =~= old(out)@ + ser_call(*self));
        }
    }

    /// Reads one instruction; an unknown tag fails with `BadOperationType`.
    pub fn decode(data: &Vec<u8>, pos: &mut usize) -> (r: Result<ZkFunctionCall, Error>)
        ensures
            parse_call(data@, *old(pos) as int) matches Some(p) ==> r == Result::<
                ZkFunctionCall,
                Error,
            >::Ok(p.0) && *final(pos) == p.1,
            parse_call(data@, *old(pos) as int) is None ==> (r is Err && *final(pos) == *old(pos)),
    {
        let start = *pos;
        let tag = match decode_u8(data, pos) {
            Ok(v) => v,
            Err(e) => {
                return Err(e);
            },
        };
        if tag > 7 {
            *pos = start;
            return Err(Error::BadOperationType);
        }
        if tag == 2 {
            let a = match decode_idx(data, pos) {
                Ok(v) => v,
                Err(e) => {
                    *pos = start;
                    return Err(e);
                },
            };
            return Ok(ZkFunctionCall::ConstrainInstance(a));
        }
        if tag == 6 || tag == 7 {
            let r0 = match decode_idx(data, pos) {
                Ok(v) => v,
                Err(e) => {
                    *pos = start;
                    return Err(e);
                },
            };
            let a = match decode_idx(data, pos) {
                Ok(v) => v,
                Err(e) => {
                    *pos = start;
                    return Err(e);
                },
            };
            if tag == 6 {
                return Ok(ZkFunctionCall::EcGetX(r0, a));
            }
            return Ok(ZkFunctionCall::EcGetY(r0, a));
        }
        let r0 = match decode_idx(data, pos) {
            Ok(v) => v,
            Err(e) => {
                *pos = start;
                return Err(e);
            },
        };
        let a0 = match decode_idx(data, pos) {
            Ok(v) => v,
            Err(e) => {
                *pos = start;
                return Err(e);
            },
        };
        let a1 = match decode_idx(data, pos) {
            Ok(v) => v,
            Err(e) => {
                *pos = start;
                return Err(e);
            },
        };
        if tag == 0 {
            Ok(ZkFunctionCall::PoseidonHash(r0, (a0, a1)))
        } else if tag == 1 {
            Ok(ZkFunctionCall::Add(r0, (a0, a1)))
        } else if tag == 3 {
            Ok(ZkFunctionCall::EcMulShort(r0, (a0, a1)))
        } else if tag == 4 {
            Ok(ZkFunctionCall::EcMul(r0, (a0, a1)))
        } else {
            Ok(ZkFunctionCall::EcAdd(r0, (a0, a1)))
        }
    }
}

/// The encoding of a sequence of instructions, without a count prefix.
pub open spec fn ser_call_seq(s: Seq<ZkFunctionCall>) -> Seq<u8>
    decreases s.len(),
{
    if s.len() == 0 {
        Seq::empty()
    } else {
        ser_call(s[0]) + ser_call_seq(s.drop_first())
    }
}

pub open spec fn parse_call_seq(data: Seq<u8>, pos: int, count: nat) -> Option<
    (Seq<ZkFunctionCall>, int),
>
    decreases count,
{
    if count == 0 {
        Some((Seq::empty(), pos))
    } else {
        match parse_call(data, pos) {
            Some(e) => match parse_call_seq(data, e.1, (count - 1) as nat) {
                Some(rest) => Some((seq![e.0] + rest.0, rest.1)),
                None => None,
            },
            None => None,
        }
    }
}

/// The count-prefixed encoding of an instruction vector.
pub open spec fn ser_calls(s: Seq<ZkFunctionCall>) -> Seq<u8> {
    ser_varint(s.len() as u64) + ser_call_seq(s)
}

pub open spec fn parse_calls(data: Seq<u8>, pos: int) -> Option<(Seq<ZkFunctionCall>, int)> {
    match parse_varint(data, pos) {
        Some(n) => parse_call_seq(data, n.1, n.0 as nat),
        None => None,
    }
}

/// Appends a count-prefixed instruction vector.
#[verifier::loop_isolation(false)]
pub fn encode_calls(out: &mut Vec<u8>, v: &Vec<ZkFunctionCall>)
    ensures
        final(out)@ == old(out)@ + ser_calls(v@),
{
    encode_varint(out, v.len() as u64);
    let ghost mid = out@;
    let mut i: usize = 0;
    proof {
        assert(v@.skip(0) =~= v@);
    }
    while i < v.len()
        invariant
            i <= v@.len(),
            mid + ser_call_seq(v@) == out@ + ser_call_seq(v@.skip(i as int)),
        decreases v@.len() - i,
    {
        proof {
            assert(v@.skip(i as int)[0] == v@[i as int]);
            assert(v@.skip(i as int).drop_first() =~= v@.skip(i as int + 1));
        }
        v[i].encode(out);
        i = i + 1;
    }
    proof {
        assert(ser_call_seq(v@.skip(i as int)) =~= Seq::<u8>::empty());
        assert(final(out)@ =~= old(out)@ + ser_calls(v@));
    }
}

/// Reads a count-prefixed instruction vector.
#[verifier::loop_isolation(false)]
pub fn decode_calls(data: &Vec<u8>, pos: &mut usize) -> (r: Result<Vec<ZkFunctionCall>, Error>)
    ensures
        parse_calls(data@, *old(pos) as int) matches Some(p) ==> (r matches Ok(v) && v@ == p.0
            && *final(pos) == p.1),
        parse_calls(data@, *old(pos) as int) is None ==> r is Err,
{
    let count = match decode_varint(data, pos) {
        Ok(v) => v,
        Err(e) => {
            return Err(e);
        },
    };
    let mut v: Vec<ZkFunctionCall> = Vec::new();
    let mut i: u64 = 0;
    let ghost full = parse_call_seq(data@, *pos as int, count as nat);
    while i < count
        invariant
            i <= count,
            full == (match parse_call_seq(data@, *pos as int, (count - i) as nat) {
                Some(rest) => Some::<(Seq<ZkFunctionCall>, int)>((v@ + rest.0, rest.1)),
                None => None::<(Seq<ZkFunctionCall>, int)>,
            }),
        decreases count - i,
    {
        let e = match ZkFunctionCall::decode(data, pos) {
            Ok(t) => t,
            Err(err) => {
                proof {
                    assert(full is None);
                }
                return Err(err);
            },
        };
        v.push(e);
        i = i + 1;
        proof {
            let after = parse_call_seq(data@, *pos as int, (count - i) as nat);
            if after is Some {
                let rest0 = after->Some_0.0;
                assert(v@ + rest0 =~= v@.drop_last() + (seq![e] + rest0));
            }
        }
    }
    proof {
        assert(parse_call_seq(data@, *pos as int, 0) == Some::<(Seq<ZkFunctionCall>, int)>((
            Seq::empty(),
            *pos as int,
        )));
        assert(v@ + Seq::<ZkFunctionCall>::empty() =~= v@);
    }
    Ok(v)
}

/// Ghost form of a contract: witness types and code.
pub type ContractModel = (Seq<ZkType>, Seq<ZkFunctionCall>);

pub open spec fn contract_matches(c: ZkContract, m: ContractModel) -> bool {
    &&& c.witness@ == m.0
    &&& c.code@ == m.1
}

/// The encoding of a contract: its witness types, then its code.
pub open spec fn ser_contract(m: ContractModel) -> Seq<u8> {
    ser_zktypes(m.0) + ser_calls(m.1)
}

pub open spec fn parse_contract(data: Seq<u8>, pos: int) -> Option<(ContractModel, int)> {
    match parse_zktypes(data, pos) {
        Some(w) => match parse_calls(data, w.1) {
            Some(c) => Some(((w.0, c.0), c.1)),
            None => None,
        },
        None => None,
    }
}

impl ZkContract {
    /// Appends this contract's encoding.
    pub fn encode(&self, out: &mut Vec<u8>)
        ensures
            final(out)@ == old(out)@ + ser_contract((self.witness@, self.code@)),
    {
        encode_zktypes(out, &self.witness);
        encode_calls(out, &self.code);
        proof {
            assert(final(out)@ =~= old(out)@ + ser_contract((self.witness@, self.code@)));
        }
    }

    /// Reads one contract.
    pub fn decode(data: &Vec<u8>, pos: &mut usize) -> (r: Result<ZkContract, Error>)
        ensures
            parse_contract(data@, *old(pos) as int) matches Some(p) ==> (r matches Ok(v)
                && contract_matches(v, p.0) && *final(pos) == p.1),
            parse_contract(data@, *old(pos) as int) is None ==> (r is Err && *final(pos) == *old(
                pos,
            )),
    {
        let start = *pos;
        let witness = match decode_zktypes(data, pos) {
            Ok(v) => v,
            Err(e) => {
                *pos = start;
                return Err(e);
            },
        };
        let code = match decode_calls(data, pos) {
            Ok(v) => v,
            Err(e) => {
                *pos = start;
                return Err(e);
            },
        };
        Ok(ZkContract { witness, code })
    }
}

/// Ghost form of a named contract.
pub type EntryModel = (Seq<char>, ContractModel);

pub open spec fn entry_matches(e: (String, ZkContract), m: EntryModel) -> bool {
    &&& e.0@ == m.0
    &&& contract_matches(e.1, m.1)
}

pub open spec fn ser_entry(m: EntryModel) -> Seq<u8> {
    ser_string(m.0) + ser_contract(m.1)
}

pub open spec fn parse_entry(data: Seq<u8>, pos: int) -> Option<(EntryModel, int)> {
    match parse_string(data, pos) {
        Some(n) => match parse_contract(data, n.1) {
            Some(c) => Some(((n.0, c.0), c.1)),
            None => None,
        },
        None => None,
    }
}

pub open spec fn parse_entry_seq(data: Seq<u8>, pos: int, count: nat) -> Option<
    (Seq<EntryModel>, int),
>
    decreases count,
{
    if count == 0 {
        Some((Seq::empty(), pos))
    } else {
        match parse_entry(data, pos) {
            Some(e) => match parse_entry_seq(data, e.1, (count - 1) as nat) {
                Some(rest) => Some((seq![e.0] + rest.0, rest.1)),
                None => None,
            },
            None => None,
        }
    }
}

pub open spec fn ser_entry_seq(s: Seq<EntryModel>) -> Seq<u8>
    decreases s.len(),
{
    if s.len() == 0 {
        Seq::empty()
    } else {
        ser_entry(s[0]) + ser_entry_seq(s.drop_first())
    }
}

/// Ghost form of a zk binary.
pub type BinaryModel = (Seq<ZkType>, Seq<EntryModel>);

pub open spec fn binary_matches(b: ZkBinary, m: BinaryModel) -> bool {
    &&& b.constants@ == m.0
    &&& b.contracts@.len() == m.1.len()
    &&& forall|j: int| 0 <= j < m.1.len() ==> entry_matches(#[trigger] b.contracts@[j], m.1[j])
}

/// The encoding of a zk binary: its constants, then its named contracts.
pub open spec fn ser_binary(m: BinaryModel) -> Seq<u8> {
    ser_zktypes(m.0) + ser_varint(m.1.len() as u64) + ser_entry_seq(m.1)
}

pub open spec fn parse_binary(data: Seq<u8>, pos: int) -> Option<(BinaryModel, int)> {
    match parse_zktypes(data, pos) {
        Some(k) => match parse_varint(data, k.1) {
            Some(n) => match parse_entry_seq(data, n.1, n.0 as nat) {
                Some(e) => Some(((k.0, e.0), e.1)),
                None => None,
            },
            None => None,
        },
        None => None,
    }
}

impl ZkBinary {
    /// The ghost form of this binary.
    pub open spec fn model(&self) -> BinaryModel {
        (
            self.constants@,
            Seq::new(
                self.contracts@.len(),
                |j: int| (self.contracts@[j].0@, (self.contracts@[j].1.witness@, self.contracts@[j].1.code@)),
            ),
        )
    }

    /// Appends this binary's encoding.
    #[verifier::loop_isolation(false)]
    pub fn encode(&self, out: &mut Vec<u8>)
        requires
            forall|j: int|
                0 <= j < self.contracts@.len() ==> vstd::string::string_is_ascii(
                    &(#[trigger] self.contracts@[j]).0,
                ),
        ensures
            final(out)@ == old(out)@ + ser_binary(self.model()),
    {
        encode_zktypes(out, &self.constants);
        encode_varint(out, self.contracts.len() as u64);
        let ghost mid = out@;
        let ghost ms = self.model().1;
        let mut i: usize = 0;
        proof {
            assert(ms.skip(0) =~= ms);
        }
        while i < self.contracts.len()
            invariant
                i <= self.contracts@.len(),
                mid + ser_entry_seq(ms) == out@ + ser_entry_seq(ms.skip(i as int)),
            decreases self.contracts@.len() - i,
        {
            proof {
                assert(ms.skip(i as int)[0] == ms[i as int]);
                assert(ms.skip(i as int).drop_first() =~= ms.skip(i as int + 1));
            }
            encode_string(out, &self.contracts[i].0);
            self.contracts[i].1.encode(out);
            i = i + 1;
        }
        proof {
            assert(ser_entry_seq(ms.skip(i as int)) =~= Seq::<u8>::empty());
            assert(final(out)@ =~= old(out)@ + ser_binary(self.model()));
        }
    }

    /// Reads one binary.
    #[verifier::loop_isolation(false)]
    pub fn decode(data: &Vec<u8>, pos: &mut usize) -> (r: Result<ZkBinary, Error>)
        ensures
            parse_binary(data@, *old(pos) as int) matches Some(p) ==> (r matches Ok(v)
                && v.constants@ == p.0.0 && v.contracts@.len() == p.0.1.len() && (forall|j: int|
                0 <= j < p.0.1.len() ==> entry_matches(#[trigger] v.contracts@[j], p.0.1[j]))
                && *final(pos) == p.1),
            parse_binary(data@, *old(pos) as int) is None ==> r is Err,
    {
        let constants = match decode_zktypes(data, pos) {
            Ok(v) => v,
            Err(e) => {
                return Err(e);
            },
        };
        let count = match decode_varint(data, pos) {
            Ok(v) => v,
            Err(e) => {
                return Err(e);
            },
        };
        let mut contracts: Vec<(String, ZkContract)> = Vec::new();
        let ghost mut ms: Seq<EntryModel> = Seq::empty();
        let mut i: u64 = 0;
        let ghost full = parse_entry_seq(data@, *pos as int, count as nat);
        while i < count
            invariant
                i <= count,
                contracts@.len() == ms.len(),
                forall|j: int| 0 <= j < ms.len() ==> entry_matches(#[trigger] contracts@[j], ms[j]),
                full == (match parse_entry_seq(data@, *pos as int, (count - i) as nat) {
                    Some(rest) => Some::<(Seq<EntryModel>, int)>((ms + rest.0, rest.1)),
                    None => None::<(Seq<EntryModel>, int)>,
                }),
            decreases count - i,
        {
            let name = match decode_string(data, pos) {
                Ok(v) => v,
                Err(e) => {
                    proof {
                        assert(full is None);
                    }
                    return Err(e);
                },
            };
            let contract = match ZkContract::decode(data, pos) {
                Ok(v) => v,
                Err(e) => {
                    proof {
                        assert(full is None);
                    }
                    return Err(e);
                },
            };
            proof {
                ms = ms.push((name@, (contract.witness@, contract.code@)));
            }
            contracts.push((name, contract));
            i = i + 1;
            proof {
                let after = parse_entry_seq(data@, *pos as int, (count - i) as nat);
                if after is Some {
                    let rest0 = after->Some_0.0;
                    assert(ms + rest0 =~= ms.drop_last() + (seq![ms.last()] + rest0));
                }
            }
        }
        proof {
            assert(parse_entry_seq(data@, *pos as int, 0) == Some::<(Seq<EntryModel>, int)>((
                Seq::empty(),
                *pos as int,
            )));
            assert(ms + Seq::<EntryModel>::empty() =~= ms);
        }
        Ok(ZkBinary { constants, contracts })
    }
}

} // verus!
