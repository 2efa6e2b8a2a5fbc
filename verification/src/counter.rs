//! Signed 64-bit counters, stored as exactly eight little-endian bytes.
//!
//! A counter absent from the store is semantically zero; a present value of
//! any other length is malformed.

use vstd::prelude::*;

use crate::error::Error;

verus! {

/// The unsigned little-endian reading of eight bytes.
pub open spec fn le64_unsigned(b: Seq<u8>) -> int
    recommends
        b.len() == 8,
{
    b[0] + b[1] * 0x100 + b[2] * 0x10000 + b[3] * 0x1000000 + b[4] * 0x100000000
        + b[5] * 0x10000000000 + b[6] * 0x1000000000000 + b[7] * 0x100000000000000
}

/// The signed (two's complement) value of eight little-endian bytes.
pub open spec fn counter_value(b: Seq<u8>) -> int
    recommends
        b.len() == 8,
{
    if le64_unsigned(b) < 0x8000000000000000 {
        le64_unsigned(b)
    } else {
        le64_unsigned(b) - 0x10000000000000000
    }
}

/// Decodes a counter from its stored bytes.
///
/// Exactly eight bytes decode to their little-endian two's complement value;
/// any other length is rejected.
pub fn counter_from_bytes(bytes: &Vec<u8>) -> (r: Result<i64, Error>)
    ensures
        r is Ok <==> bytes@.len() == 8,
        r matches Ok(v) ==> v as int == counter_value(bytes@),
        r is Err ==> r == Err::<i64, Error>(Error::InvalidCounter),
{
    if bytes.len() != 8 {
        return Err(Error::InvalidCounter);
    }
    let u: u64 = bytes[0] as u64 + bytes[1] as u64 * 0x100 + bytes[2] as u64 * 0x10000
        + bytes[3] as u64 * 0x1000000 + bytes[4] as u64 * 0x100000000
        + bytes[5] as u64 * 0x10000000000 + bytes[6] as u64 * 0x1000000000000
        + bytes[7] as u64 * 0x100000000000000;
    if u <= 0x7fffffffffffffff {
        Ok(u as i64)
    } else {
        let diff: u64 = u64::MAX - u;
        Ok(-(diff as i64) - 1)
    }
}

/// Point lookup of a counter: `stored` is the engine's answer for the key in
/// the counters subspace.
///
/// An absent counter reads as zero; a present counter must be exactly eight
/// bytes and reads as its little-endian signed value.
pub fn get_counter(stored: Option<Vec<u8>>) -> (r: Result<i64, Error>)
    ensures
        stored is None ==> r == Ok::<i64, Error>(0i64),
        stored matches Some(b) ==> {
            &&& r is Ok <==> b@.len() == 8
            &&& (r matches Ok(v) ==> v as int == counter_value(b@))
            &&& (r is Err ==> r == Err::<i64, Error>(Error::InvalidCounter))
        },
{
    match stored {
        Some(bytes) => counter_from_bytes(&bytes),
        None => Ok(0),
    }
}

/// Encodes a counter into the eight little-endian bytes the store holds.
pub fn counter_to_bytes(v: i64) -> (r: Vec<u8>)
    ensures
        r@.len() == 8,
        counter_value(r@) == v as int,
{
    let u: u64 = if v >= 0 {
        v as u64
    } else {
        u64::MAX - ((-(v + 1)) as u64)
    };
    let b0: u8 = (u % 0x100) as u8;
    let u1: u64 = u / 0x100;
    let b1: u8 = (u1 % 0x100) as u8;
    let u2: u64 = u1 / 0x100;
    let b2: u8 = (u2 % 0x100) as u8;
    let u3: u64 = u2 / 0x100;
    let b3: u8 = (u3 % 0x100) as u8;
    let u4: u64 = u3 / 0x100;
    let b4: u8 = (u4 % 0x100) as u8;
    let u5: u64 = u4 / 0x100;
    let b5: u8 = (u5 % 0x100) as u8;
    let u6: u64 = u5 / 0x100;
    let b6: u8 = (u6 % 0x100) as u8;
    let b7: u8 = (u6 / 0x100) as u8;
    let r: Vec<u8> = vec![b0, b1, b2, b3, b4, b5, b6, b7];
    proof {
        assert(r@.len() == 8);
        assert(le64_unsigned(r@) == u) by {
            assert(u == b0 + u1 * 0x100);
            assert(u1 == b1 + u2 * 0x100);
            assert(u2 == b2 + u3 * 0x100);
            assert(u3 == b3 + u4 * 0x100);
            assert(u4 == b4 + u5 * 0x100);
            assert(u5 == b5 + u6 * 0x100);
            assert(u6 == b6 + b7 * 0x100);
        }
    }
    r
}

/// A counter reads as zero exactly when its eight bytes are all zero.
///
/// Together with the absence rule of `get_counter`, a counter is zero iff it
/// is absent or was written as eight zero bytes.
pub proof fn lemma_counter_zero_iff_zero_bytes(b: Seq<u8>)
    requires
        b.len() == 8,
    ensures
        counter_value(b) == 0 <==> b =~= seq![0u8, 0u8, 0u8, 0u8, 0u8, 0u8, 0u8, 0u8],
{
    if counter_value(b) == 0 {
        assert(le64_unsigned(b) == 0);
        assert(b[0] == 0 && b[1] == 0 && b[2] == 0 && b[3] == 0 && b[4] == 0 && b[5] == 0
            && b[6] == 0 && b[7] == 0);
    }
}

} // verus!
