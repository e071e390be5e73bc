//! Byte-level serialization: little-endian integers, variable-length
//! integers, length-prefixed byte strings and ASCII strings.
//!
//! Every decoder is strict: it consumes exactly the encoding of the value it
//! returns, leaves the position untouched on failure, and rejects
//! non-canonical variable-length integers.

use vstd::prelude::*;
use vstd::string::StringSliceAdditionalSpecFns;
use crate::error::Error;

verus! {

/// `256^n`.
pub open spec fn pow256(n: nat) -> int
    decreases n,
{
    if n == 0 {
        1
    } else {
        256 * pow256((n - 1) as nat)
    }
}

/// The value of a little-endian byte sequence.
pub open spec fn le_val(b: Seq<u8>) -> int
    decreases b.len(),
{
    if b.len() == 0 {
        0
    } else {
        b[0] + 256 * le_val(b.drop_first())
    }
}

/// The `n`-byte little-endian encoding of `x`.
pub open spec fn ser_le(x: int, n: nat) -> Seq<u8>
    decreases n,
{
    if n == 0 {
        Seq::empty()
    } else {
        seq![(x % 256) as u8] + ser_le(x / 256, (n - 1) as nat)
    }
}

pub proof fn lemma_ser_le_len(x: int, n: nat)
    ensures
        ser_le(x, n).len() == n,
    decreases n,
{
    if n > 0 {
        lemma_ser_le_len(x / 256, (n - 1) as nat);
    }
}

/// Values below `256^n` survive the encode/decode round trip.
pub proof fn lemma_le_val_ser_le(x: int, n: nat)
    requires
        0 <= x < pow256(n),
    ensures
        le_val(ser_le(x, n)) == x,
    decreases n,
{
    if n > 0 {
        lemma_le_val_ser_le(x / 256, (n - 1) as nat);
        assert(ser_le(x, n).drop_first() =~= ser_le(x / 256, (n - 1) as nat));
        assert(x == 256 * (x / 256) + x % 256) by {
            vstd::arithmetic::div_mod::lemma_fundamental_div_mod(x, 256);
        };
    }
}

pub proof fn lemma_le_val_bound(b: Seq<u8>)
    ensures
        0 <= le_val(b) < pow256(b.len()),
    decreases b.len(),
{
    if b.len() > 0 {
        lemma_le_val_bound(b.drop_first());
    }
}

pub proof fn lemma_pow256_vals()
    ensures
        pow256(1) == 0x100,
        pow256(2) == 0x10000,
        pow256(4) == 0x100000000,
        pow256(8) == 0x10000000000000000,
{
    assert(pow256(0) == 1);
    assert(pow256(1) == 0x100);
    assert(pow256(2) == 0x10000);
    assert(pow256(3) == 0x1000000);
    assert(pow256(4) == 0x100000000);
    assert(pow256(5) == 0x10000000000);
    assert(pow256(6) == 0x1000000000000);
    assert(pow256(7) == 0x100000000000000);
    assert(pow256(8) == 0x10000000000000000);
}

/// Appends the `n`-byte little-endian encoding of `x`.
#[verifier::loop_isolation(false)]
fn encode_le(out: &mut Vec<u8>, x: u64, n: usize)
    requires
        n <= 8,
    ensures
        final(out)@ == old(out)@ + ser_le(x as int, n as nat),
{
    let mut v: u64 = x;
    let mut i: usize = 0;
    while i < n
        invariant
            i <= n,
            old(out)@ + ser_le(x as int, n as nat) == out@ + ser_le(v as int, (n - i) as nat),
        decreases n - i,
    {
        out.push((v % 256) as u8);
        v = v / 256;
        i = i + 1;
    }
    proof {
        assert(ser_le(v as int, (n - i) as nat) =~= Seq::<u8>::empty());
        assert(final(out)@ =~= old(out)@ + ser_le(x as int, n as nat));
    }
}

/// Reads an `n`-byte little-endian value.
#[verifier::loop_isolation(false)]
fn decode_le(data: &Vec<u8>, pos: usize, n: usize) -> (v: u64)
    requires
        n <= 8,
        pos + n <= data@.len(),
    ensures
        v == le_val(data@.subrange(pos as int, pos as int + n as int)),
{
    proof {
        lemma_pow256_vals();
    }
    let mut v: u64 = 0;
    let mut i: usize = n;
    proof {
        assert(data@.subrange(pos as int + n as int, pos as int + n as int) =~= Seq::<u8>::empty());
    }
    while i > 0
        invariant
            i <= n,
            v == le_val(data@.subrange(pos as int + i as int, pos as int + n as int)),
            v < pow256((n - i) as nat),
        decreases i,
    {
        proof {
            assert(pos + i <= data.len());
            let s = data@.subrange(pos as int + i as int - 1, pos as int + n as int);
            assert(s[0] == data@[pos as int + i as int - 1]);
            assert(s.drop_first() =~= data@.subrange(pos as int + i as int, pos as int + n as int));
            lemma_le_val_bound(data@.subrange(pos as int + i as int, pos as int + n as int));
            assert(pow256((n - i + 1) as nat) == 256 * pow256((n - i) as nat));
            assert(pow256((n - i + 1) as nat) <= pow256(8)) by {
                lemma_pow256_increases((n - i + 1) as nat, 8);
            };
        }
        v = v * 256 + (data[pos + (i - 1)] as u64);
        i = i - 1;
    }
    v
}

pub proof fn lemma_pow256_increases(a: nat, b: nat)
    requires
        a <= b,
    ensures
        pow256(a) <= pow256(b),
    decreases b,
{
    if a < b {
        lemma_pow256_increases(a, (b - 1) as nat);
        assert(pow256(b) == 256 * pow256((b - 1) as nat));
        assert(pow256((b - 1) as nat) >= 1) by {
            lemma_pow256_pos((b - 1) as nat);
        };
    }
}

pub proof fn lemma_pow256_pos(n: nat)
    ensures
        pow256(n) >= 1,
    decreases n,
{
    if n > 0 {
        lemma_pow256_pos((n - 1) as nat);
    }
}

/// Appends one byte.
pub fn encode_u8(out: &mut Vec<u8>, x: u8)
    ensures
        final(out)@ == old(out)@ + seq![x],
{
    out.push(x);
    proof {
        assert(final(out)@ =~= old(out)@ + seq![x]);
    }
}

/// Reads one byte.
pub open spec fn parse_u8(data: Seq<u8>, pos: int) -> Option<(u8, int)> {
    if 0 <= pos && pos + 1 <= data.len() {
        Some((data[pos], pos + 1))
    } else {
        None
    }
}

pub fn decode_u8(data: &Vec<u8>, pos: &mut usize) -> (r: Result<u8, Error>)
    ensures
        parse_u8(data@, *old(pos) as int) matches Some(p) ==> r == Result::<u8, Error>::Ok(p.0)
            && *final(pos) == p.1,
        parse_u8(data@, *old(pos) as int) is None ==> r == Result::<u8, Error>::Err(
            Error::DecodeFailure,
        ) && *final(pos) == *old(pos),
{
    if *pos < data.len() {
        let b = data[*pos];
        *pos = *pos + 1;
        Ok(b)
    } else {
        Err(Error::DecodeFailure)
    }
}

/// The 8-byte little-endian encoding of a `u64`.
pub open spec fn ser_u64(x: u64) -> Seq<u8> {
    ser_le(x as int, 8)
}

pub open spec fn parse_u64(data: Seq<u8>, pos: int) -> Option<(u64, int)> {
    if 0 <= pos && pos + 8 <= data.len() {
        Some((le_val(data.subrange(pos, pos + 8)) as u64, pos + 8))
    } else {
        None
    }
}

/// Appends the 8-byte little-endian encoding of `x`.
pub fn encode_u64(out: &mut Vec<u8>, x: u64)
    ensures
        final(out)@ == old(out)@ + ser_u64(x),
{
    encode_le(out, x, 8);
}

/// Reads an 8-byte little-endian `u64`.
pub fn decode_u64(data: &Vec<u8>, pos: &mut usize) -> (r: Result<u64, Error>)
    ensures
        parse_u64(data@, *old(pos) as int) matches Some(p) ==> r == Result::<u64, Error>::Ok(p.0)
            && *final(pos) == p.1,
        parse_u64(data@, *old(pos) as int) is None ==> r == Result::<u64, Error>::Err(
            Error::DecodeFailure,
        ) && *final(pos) == *old(pos),
{
    if data.len() >= 8 && *pos <= data.len() - 8 {
        let v = decode_le(data, *pos, 8);
        *pos = *pos + 8;
        Ok(v)
    } else {
        Err(Error::DecodeFailure)
    }
}

/// A `u64` encoded and then decoded from any position comes back unchanged.
pub proof fn lemma_u64_round_trip(x: u64, prefix: Seq<u8>, rest: Seq<u8>)
    ensures
        parse_u64(prefix + ser_u64(x) + rest, prefix.len() as int) == Some(
            (x, prefix.len() as int + 8),
        ),
{
    lemma_ser_le_len(x as int, 8);
    lemma_pow256_vals();
    lemma_le_val_ser_le(x as int, 8);
    assert((prefix + ser_u64(x) + rest).subrange(
        prefix.len() as int,
        prefix.len() as int + 8,
    ) =~= ser_u64(x));
}

/// The canonical variable-length encoding of a length or count.
pub open spec fn ser_varint(x: u64) -> Seq<u8> {
    if x < 0xfd {
        seq![x as u8]
    } else if x <= 0xffff {
        seq![0xfdu8] + ser_le(x as int, 2)
    } else if x <= 0xffffffff {
        seq![0xfeu8] + ser_le(x as int, 4)
    } else {
        seq![0xffu8] + ser_le(x as int, 8)
    }
}

/// Reads a variable-length integer; a value encoded in more bytes than it
/// needs is rejected.
pub open spec fn parse_varint(data: Seq<u8>, pos: int) -> Option<(u64, int)> {
    if 0 <= pos && pos + 1 <= data.len() {
        let tag = data[pos];
        if tag < 0xfd {
            Some((tag as u64, pos + 1))
        } else if tag == 0xfd {
            if pos + 3 <= data.len() {
                let v = le_val(data.subrange(pos + 1, pos + 3));
                if v >= 0xfd {
                    Some((v as u64, pos + 3))
                } else {
                    None
                }
            } else {
                None
            }
        } else if tag == 0xfe {
            if pos + 5 <= data.len() {
                let v = le_val(data.subrange(pos + 1, pos + 5));
                if v > 0xffff {
                    Some((v as u64, pos + 5))
                } else {
                    None
                }
            } else {
                None
            }
        } else {
            if pos + 9 <= data.len() {
                let v = le_val(data.subrange(pos + 1, pos + 9));
                if v > 0xffffffff {
                    Some((v as u64, pos + 9))
                } else {
                    None
                }
            } else {
                None
            }
        }
    } else {
        None
    }
}

/// Appends the variable-length encoding of `x`.
pub fn encode_varint(out: &mut Vec<u8>, x: u64)
    ensures
        final(out)@ == old(out)@ + ser_varint(x),
{
    if x < 0xfd {
        out.push(x as u8);
        proof {
            assert(final(out)@ =~= old(out)@ + ser_varint(x));
        }
    } else if x <= 0xffff {
        out.push(0xfd);
        encode_le(out, x, 2);
        proof {
            assert(final(out)@ =~= old(out)@ + ser_varint(x));
        }
    } else if x <= 0xffffffff {
        out.push(0xfe);
        encode_le(out, x, 4);
        proof {
            assert(final(out)@ =~= old(out)@ + ser_varint(x));
        }
    } else {
        out.push(0xff);
        encode_le(out, x, 8);
        proof {
            assert(final(out)@ =~= old(out)@ + ser_varint(x));
        }
    }
}

/// Reads a variable-length integer.
pub fn decode_varint(data: &Vec<u8>, pos: &mut usize) -> (r: Result<u64, Error>)
    ensures
        parse_varint(data@, *old(pos) as int) matches Some(p) ==> r == Result::<u64, Error>::Ok(
            p.0,
        ) && *final(pos) == p.1,
        parse_varint(data@, *old(pos) as int) is None ==> r == Result::<u64, Error>::Err(
            Error::DecodeFailure,
        ) && *final(pos) == *old(pos),
{
    proof {
        lemma_pow256_vals();
    }
    if *pos >= data.len() {
        return Err(Error::DecodeFailure);
    }
    let tag = data[*pos];
    if tag < 0xfd {
        *pos = *pos + 1;
        return Ok(tag as u64);
    }
    if tag == 0xfd {
        if data.len() < 3 || *pos > data.len() - 3 {
            return Err(Error::DecodeFailure);
        }
        let v = decode_le(data, *pos + 1, 2);
        proof {
            lemma_le_val_bound(data@.subrange(*pos as int + 1, *pos as int + 3));
        }
        if v < 0xfd {
            return Err(Error::DecodeFailure);
        }
        *pos = *pos + 3;
        return Ok(v);
    }
    if tag == 0xfe {
        if data.len() < 5 || *pos > data.len() - 5 {
            return Err(Error::DecodeFailure);
        }
        let v = decode_le(data, *pos + 1, 4);
        proof {
            lemma_le_val_bound(data@.subrange(*pos as int + 1, *pos as int + 5));
        }
        if v <= 0xffff {
            return Err(Error::DecodeFailure);
        }
        *pos = *pos + 5;
        return Ok(v);
    }
    if data.len() < 9 || *pos > data.len() - 9 {
        return Err(Error::DecodeFailure);
    }
    let v = decode_le(data, *pos + 1, 8);
    if v <= 0xffffffff {
        return Err(Error::DecodeFailure);
    }
    *pos = *pos + 9;
    Ok(v)
}

/// A varint round trip from any position.
pub proof fn lemma_varint_round_trip(x: u64, prefix: Seq<u8>, rest: Seq<u8>)
    ensures
        parse_varint(prefix + ser_varint(x) + rest, prefix.len() as int) == Some(
            (x, prefix.len() as int + ser_varint(x).len() as int),
        ),
{
    lemma_pow256_vals();
    let data = prefix + ser_varint(x) + rest;
    let pos = prefix.len() as int;
    if x < 0xfd {
        assert(data[pos] == x as u8);
    } else if x <= 0xffff {
        lemma_ser_le_len(x as int, 2);
        assert(data[pos] == 0xfd);
        lemma_le_val_ser_le(x as int, 2);
        assert(data.subrange(pos + 1, pos + 3) =~= ser_le(x as int, 2));
    } else if x <= 0xffffffff {
        lemma_ser_le_len(x as int, 4);
        assert(data[pos] == 0xfe);
        lemma_le_val_ser_le(x as int, 4);
        assert(data.subrange(pos + 1, pos + 5) =~= ser_le(x as int, 4));
    } else {
        lemma_ser_le_len(x as int, 8);
        assert(data[pos] == 0xff);
        lemma_le_val_ser_le(x as int, 8);
        assert(data.subrange(pos + 1, pos + 9) =~= ser_le(x as int, 8));
    }
}

/// The length-prefixed encoding of a byte string.
pub open spec fn ser_bytes(b: Seq<u8>) -> Seq<u8> {
    ser_varint(b.len() as u64) + b
}

pub open spec fn parse_bytes(data: Seq<u8>, pos: int) -> Option<(Seq<u8>, int)> {
    match parse_varint(data, pos) {
        Some(p) => {
            if p.1 + p.0 <= data.len() {
                Some((data.subrange(p.1, p.1 + p.0 as int), p.1 + p.0 as int))
            } else {
                None
            }
        },
        None => None,
    }
}

/// Appends a length-prefixed byte string.
#[verifier::loop_isolation(false)]
pub fn encode_bytes(out: &mut Vec<u8>, b: &Vec<u8>)
    ensures
        final(out)@ == old(out)@ + ser_bytes(b@),
{
    encode_varint(out, b.len() as u64);
    let ghost mid = out@;
    let mut i: usize = 0;
    while i < b.len()
        invariant
            i <= b@.len(),
            out@ == mid + b@.subrange(0, i as int),
        decreases b@.len() - i,
    {
        out.push(b[i]);
        i = i + 1;
        proof {
            assert(out@ =~= mid + b@.subrange(0, i as int));
        }
    }
    proof {
        assert(final(out)@ =~= old(out)@ + ser_bytes(b@));
    }
}

/// Reads a length-prefixed byte string.
#[verifier::loop_isolation(false)]
pub fn decode_bytes(data: &Vec<u8>, pos: &mut usize) -> (r: Result<Vec<u8>, Error>)
    ensures
        parse_bytes(data@, *old(pos) as int) matches Some(p) ==> (r matches Ok(v) && v@ == p.0
            && *final(pos) == p.1),
        parse_bytes(data@, *old(pos) as int) is None ==> r == Result::<Vec<u8>, Error>::Err(
            Error::DecodeFailure,
        ) && *final(pos) == *old(pos),
{
    let start = *pos;
    let len = match decode_varint(data, pos) {
        Ok(v) => v,
        Err(e) => {
            return Err(e);
        },
    };
    if len > (data.len() - *pos) as u64 {
        *pos = start;
        return Err(Error::DecodeFailure);
    }
    let count = len as usize;
    let mut v: Vec<u8> = Vec::new();
    let mut i: usize = 0;
    while i < count
        invariant
            i <= count,
            *pos + count <= data@.len(),
            v@ == data@.subrange(*pos as int, *pos as int + i as int),
        decreases count - i,
    {
        v.push(data[*pos + i]);
        i = i + 1;
        proof {
            assert(v@ =~= data@.subrange(*pos as int, *pos as int + i as int));
        }
    }
    *pos = *pos + count;
    Ok(v)
}

/// Whether every byte is an ASCII code.
pub open spec fn all_ascii(b: Seq<u8>) -> bool {
    forall|i: int| 0 <= i < b.len() ==> b[i] < 128
}

/// The characters of an ASCII byte sequence.
pub open spec fn ascii_chars(b: Seq<u8>) -> Seq<char> {
    Seq::new(b.len(), |i: int| b[i] as char)
}

/// The bytes of an ASCII character sequence.
pub open spec fn ascii_bytes(s: Seq<char>) -> Seq<u8> {
    Seq::new(s.len(), |i: int| s[i] as u8)
}

/// The length-prefixed encoding of an ASCII string.
pub open spec fn ser_string(s: Seq<char>) -> Seq<u8> {
    ser_bytes(ascii_bytes(s))
}

pub open spec fn parse_string(data: Seq<u8>, pos: int) -> Option<(Seq<char>, int)> {
    match parse_bytes(data, pos) {
        Some(p) => {
            if all_ascii(p.0) {
                Some((ascii_chars(p.0), p.1))
            } else {
                None
            }
        },
        None => None,
    }
}

/// Relies on `String::from_utf8`: bytes below 128 are valid UTF-8 and decode
/// to exactly one character per byte, each the character with that code.
#[verifier::external_body]
fn string_from_ascii(bytes: Vec<u8>) -> (r: String)
    requires
        forall|i: int| 0 <= i < bytes@.len() ==> bytes@[i] < 128,
    ensures
        r@ == ascii_chars(bytes@),
{
    String::from_utf8(bytes).unwrap_or_default()
}

/// Appends a length-prefixed ASCII string.
pub fn encode_string(out: &mut Vec<u8>, s: &String)
    requires
        vstd::string::string_is_ascii(s),
    ensures
        final(out)@ == old(out)@ + ser_string(s@),
{
    let st = s.as_str();
    proof {
        assert(vstd::string::is_ascii(st));
        vstd::string::is_ascii_spec_bytes(st);
        assert(st.spec_bytes() =~= ascii_bytes(s@));
    }
    let bytes_slice = st.as_bytes();
    let mut bytes: Vec<u8> = Vec::new();
    let mut i: usize = 0;
    while i < bytes_slice.len()
        invariant
            i <= bytes_slice@.len(),
            bytes@ == bytes_slice@.subrange(0, i as int),
        decreases bytes_slice@.len() - i,
    {
        bytes.push(bytes_slice[i]);
        i = i + 1;
        proof {
            assert(bytes@ =~= bytes_slice@.subrange(0, i as int));
        }
    }
    proof {
        assert(bytes@ =~= bytes_slice@);
        assert(bytes@ =~= ascii_bytes(s@));
    }
    encode_bytes(out, &bytes);
}

/// Reads a length-prefixed ASCII string; bytes outside ASCII are rejected.
#[verifier::loop_isolation(false)]
pub fn decode_string(data: &Vec<u8>, pos: &mut usize) -> (r: Result<String, Error>)
    ensures
        parse_string(data@, *old(pos) as int) matches Some(p) ==> (r matches Ok(v) && v@ == p.0
            && *final(pos) == p.1),
        parse_string(data@, *old(pos) as int) is None ==> r == Result::<String, Error>::Err(
            Error::DecodeFailure,
        ) && *final(pos) == *old(pos),
{
    let start = *pos;
    let bytes = match decode_bytes(data, pos) {
        Ok(v) => v,
        Err(e) => {
            return Err(e);
        },
    };
    let ghost endpos = *pos;
    let mut i: usize = 0;
    while i < bytes.len()
        invariant
            i <= bytes@.len(),
            *pos == endpos,
            forall|j: int| 0 <= j < i ==> bytes@[j] < 128,
        decreases bytes@.len() - i,
    {
        if bytes[i] >= 128 {
            proof {
                assert(!all_ascii(bytes@));
                assert(parse_string(data@, start as int) is None);
            }
            *pos = start;
            return Err(Error::DecodeFailure);
        }
        i = i + 1;
    }
    proof {
        let pb = parse_bytes(data@, start as int);
        assert(pb matches Some(p) && p.0 == bytes@);
        assert(all_ascii(bytes@));
        assert(all_ascii(pb->Some_0.0));
        assert(parse_string(data@, start as int) is Some);
        assert(ascii_chars(pb->Some_0.0) =~= ascii_chars(bytes@));
        assert(parse_string(data@, start as int)->Some_0.0 == ascii_chars(bytes@));
        assert(parse_string(data@, start as int)->Some_0.1 == *pos);
    }
    Ok(string_from_ascii(bytes))
}

} // verus!
