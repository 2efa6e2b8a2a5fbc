//! Point lookup of opaque typed values.
//!
//! The value decoder is a per-type contract: every readable type says, at
//! the specification level, which byte strings decode to which value.

use vstd::prelude::*;

use crate::bytes::be32;
use crate::error::Error;

verus! {

/// A type that can be reconstructed from its stored bytes.
///
/// `decode_spec` is the type's decoding relation: the value its bytes
/// decode to, or nothing where the bytes are malformed for the type.
/// Implementations are free to pick their encoding, but `deserialize` must
/// return exactly what `decode_spec` says.
pub trait Deserialize: Sized {
    /// Which value, if any, the given bytes decode to.
    spec fn decode_spec(bytes: Seq<u8>) -> Option<Self>;

    /// Reconstructs a value from its stored bytes.
    fn deserialize(bytes: &Vec<u8>) -> (r: Result<Self, Error>)
        ensures
            r matches Ok(v) ==> Self::decode_spec(bytes@) == Some(v),
            r matches Err(e) ==> Self::decode_spec(bytes@) is None && e == Error::ValueDecode,
    ;
}

/// Point lookup of a typed value: `stored` is the engine's answer for the
/// key in the values subspace.
///
/// An absent entry reads as absent; present bytes are decoded for the
/// requested type, and a decode failure is surfaced unchanged.
pub fn get_value<U: Deserialize>(stored: Option<Vec<u8>>) -> (r: Result<Option<U>, Error>)
    ensures
        stored is None ==> (r matches Ok(v) && v is None),
        stored matches Some(bytes) ==> match U::decode_spec(bytes@) {
            Option::Some(v) => (r matches Ok(o) && o == Some(v)),
            Option::None => r == Err::<Option<U>, Error>(Error::ValueDecode),
        },
{
    match stored {
        None => Ok(None),
        Some(bytes) => match U::deserialize(&bytes) {
            Ok(v) => Ok(Some(v)),
            Err(e) => Err(e),
        },
    }
}

impl Deserialize for u32 {
    /// A document identifier: exactly four big-endian bytes.
    open spec fn decode_spec(bytes: Seq<u8>) -> Option<u32> {
        if bytes.len() == 4 {
            Some(be32(bytes, 0) as u32)
        } else {
            None
        }
    }

    fn deserialize(bytes: &Vec<u8>) -> (r: Result<u32, Error>) {
        if bytes.len() == 4 {
            let v = crate::bytes::read_be32(bytes, 0);
            proof {
                assert(be32(bytes@, 0) <= 0xFFFFFFFF);
            }
            Ok(v)
        } else {
            Err(Error::ValueDecode)
        }
    }
}

/// Encodes a 32-bit value into the four big-endian bytes it is stored as.
///
/// Decoding the encoding yields the value back: the value round trip.
pub fn u32_to_be_bytes(v: u32) -> (r: Vec<u8>)
    ensures
        r@.len() == 4,
        <u32 as Deserialize>::decode_spec(r@) == Some(v),
{
    let b0: u8 = (v / 0x1000000) as u8;
    let b1: u8 = ((v / 0x10000) % 0x100) as u8;
    let b2: u8 = ((v / 0x100) % 0x100) as u8;
    let b3: u8 = (v % 0x100) as u8;
    let r: Vec<u8> = vec![b0, b1, b2, b3];
    proof {
        assert(be32(r@, 0) == v) by {
            assert(v == ((v as int / 0x1000000) * 0x1000000) + ((v as int / 0x10000) % 0x100)
                * 0x10000 + ((v as int / 0x100) % 0x100) * 0x100 + (v as int % 0x100));
        }
    }
    r
}

} // verus!
