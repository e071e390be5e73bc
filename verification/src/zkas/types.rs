//! Types and function signatures known to the zk assembly language.

use vstd::prelude::*;
use vstd::string::StringExecFns;

verus! {

pub const TYPE_ID_BASE: usize = 0;

pub const TYPE_ID_SCALAR: usize = 1;

pub const TYPE_ID_EC_POINT: usize = 2;

pub const TYPE_ID_EC_FIXED_POINT: usize = 3;

pub const TYPE_ID_LAST: usize = 4;

/// The types a zk assembly declaration may use.
#[derive(Clone, Copy, PartialEq, Eq, Structural, Debug)]
pub enum AllowedTypes {
    Base,
    Scalar,
    EcFixedPoint,
}

pub const FUNC_ID_POSEIDON_HASH: usize = 0;

pub const FUNC_ID_ADD: usize = 1;

pub const FUNC_ID_CONSTRAIN_INSTANCE: usize = 2;

pub const FUNC_ID_EC_MUL_SHORT: usize = 3;

pub const FUNC_ID_EC_MUL: usize = 4;

pub const FUNC_ID_EC_ADD: usize = 4;

pub const FUNC_ID_EC_GET_X: usize = 4;

pub const FUNC_ID_EC_GET_Y: usize = 4;

/// The calling shape of one built-in function: its identifier, the types it
/// returns and the types it takes.
#[derive(Debug)]
pub struct FuncFormat {
    pub func_id: usize,
    pub return_type_ids: Vec<usize>,
    pub param_types: Vec<usize>,
}

impl FuncFormat {
    pub fn new(func_id: usize, return_type_ids: Vec<usize>, param_types: Vec<usize>) -> (f:
        FuncFormat)
        ensures
            f.func_id == func_id,
            f.return_type_ids == return_type_ids,
            f.param_types == param_types,
    {
        FuncFormat { func_id, return_type_ids, param_types }
    }

    /// How many slots a call of this function occupies: its returns plus its
    /// parameters.
    pub fn total_arguments(&self) -> (r: usize)
        requires
            self.return_type_ids@.len() + self.param_types@.len() <= usize::MAX,
        ensures
            r == self.return_type_ids@.len() + self.param_types@.len(),
    {
        self.return_type_ids.len() + self.param_types.len()
    }
}

/// The built-in function table, keyed by source-level name.
pub fn function_formats() -> (r: Vec<(String, FuncFormat)>)
    ensures
        r@.len() == 8,
{
    let mut r: Vec<(String, FuncFormat)> = Vec::new();
    let mut base_pair: Vec<usize> = Vec::new();
    base_pair.push(TYPE_ID_BASE);
    base_pair.push(TYPE_ID_BASE);
    let mut point_one: Vec<usize> = Vec::new();
    point_one.push(TYPE_ID_EC_POINT);
    let mut point_pair: Vec<usize> = Vec::new();
    point_pair.push(TYPE_ID_EC_POINT);
    point_pair.push(TYPE_ID_EC_POINT);
    let mut short_params: Vec<usize> = Vec::new();
    short_params.push(TYPE_ID_BASE);
    short_params.push(TYPE_ID_EC_FIXED_POINT);

    let mut v: Vec<usize> = Vec::new();
    v.push(TYPE_ID_BASE);
    r.push(
        (
            String::from_str("poseidon_hash"),
            FuncFormat::new(FUNC_ID_POSEIDON_HASH, v, base_pair),
        ),
    );
    let mut v2: Vec<usize> = Vec::new();
    v2.push(TYPE_ID_BASE);
    let mut base_pair2: Vec<usize> = Vec::new();
    base_pair2.push(TYPE_ID_BASE);
    base_pair2.push(TYPE_ID_BASE);
    r.push((String::from_str("add"), FuncFormat::new(FUNC_ID_ADD, v2, base_pair2)));
    let mut base_pair3: Vec<usize> = Vec::new();
    base_pair3.push(TYPE_ID_BASE);
    base_pair3.push(TYPE_ID_BASE);
    let empty: Vec<usize> = Vec::new();
    r.push(
        (
            String::from_str("constrain_instance"),
            FuncFormat::new(FUNC_ID_CONSTRAIN_INSTANCE, empty, base_pair3),
        ),
    );
    let mut p1: Vec<usize> = Vec::new();
    p1.push(TYPE_ID_EC_POINT);
    r.push(
        (
            String::from_str("ec_mul_short"),
            FuncFormat::new(FUNC_ID_EC_MUL_SHORT, p1, short_params),
        ),
    );
    let mut p2: Vec<usize> = Vec::new();
    p2.push(TYPE_ID_EC_POINT);
    r.push((String::from_str("ec_mul"), FuncFormat::new(FUNC_ID_EC_MUL, p2, point_pair)));
    let mut p3: Vec<usize> = Vec::new();
    p3.push(TYPE_ID_EC_POINT);
    let mut point_pair2: Vec<usize> = Vec::new();
    point_pair2.push(TYPE_ID_EC_POINT);
    point_pair2.push(TYPE_ID_EC_POINT);
    r.push((String::from_str("ec_add"), FuncFormat::new(FUNC_ID_EC_ADD, p3, point_pair2)));
    let mut b1: Vec<usize> = Vec::new();
    b1.push(TYPE_ID_BASE);
    r.push((String::from_str("ec_get_x"), FuncFormat::new(FUNC_ID_EC_GET_X, b1, point_one)));
    let mut b2: Vec<usize> = Vec::new();
    b2.push(TYPE_ID_BASE);
    let mut point_one2: Vec<usize> = Vec::new();
    point_one2.push(TYPE_ID_EC_POINT);
    r.push((String::from_str("ec_get_y"), FuncFormat::new(FUNC_ID_EC_GET_Y, b2, point_one2)));
    r
}

} // verus!
