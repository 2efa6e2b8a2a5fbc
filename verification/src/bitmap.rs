//! Point lookup of compact document-id sets, stored as serialized roaring
//! bitmaps.
//!
//! A bitmap that is present but decodes to the empty set is reported as
//! absent: downstream set operations treat absence as the empty set, and a
//! stored empty bitmap is an artifact that must not leak into query
//! semantics.

use vstd::prelude::*;

use crate::error::Error;

verus! {

/// The roaring bitmap of the outside crate, opaque to this library; its
/// contents are described by `bitmap_set`.
#[verifier::external_type_specification]
#[verifier::external_body]
pub struct ExRoaringBitmap(roaring::RoaringBitmap);

/// The set of 32-bit document identifiers a roaring bitmap holds.
pub uninterp spec fn bitmap_set(b: roaring::RoaringBitmap) -> Set<u32>;

/// What deserializing a byte string as a roaring bitmap yields: the decoded
/// set, or nothing where the bytes are malformed. Deserialization is a
/// function of the bytes alone.
pub uninterp spec fn decoded_bitmap(bytes: Seq<u8>) -> Option<Set<u32>>;

/// Relies on roaring::RoaringBitmap::deserialize_from: reading the
/// serialized format from a byte slice is a function of the bytes alone and
/// yields the set they encode, or an error where they are malformed.
#[verifier::external_body]
pub(crate) fn rb_deserialize(bytes: &Vec<u8>) -> (r: Result<roaring::RoaringBitmap, Error>)
    ensures
        r matches Ok(b) ==> decoded_bitmap(bytes@) == Some(bitmap_set(b)),
        r matches Err(e) ==> decoded_bitmap(bytes@) is None && e == Error::BitmapDecode,
{
    match roaring::RoaringBitmap::deserialize_from(&bytes[..]) {
        Ok(b) => Ok(b),
        Err(_) => Err(Error::BitmapDecode),
    }
}

/// Relies on roaring::RoaringBitmap::is_empty: true exactly when the bitmap
/// holds no identifier.
#[verifier::external_body]
pub(crate) fn rb_is_empty(b: &roaring::RoaringBitmap) -> (r: bool)
    ensures
        r == bitmap_set(*b).is_empty(),
{
    b.is_empty()
}

/// Point lookup of a bitmap: `stored` is the engine's answer for the key in
/// the bitmaps subspace.
///
/// An absent entry reads as absent; malformed bytes are an error; a decoded
/// empty set reads as absent; a decoded non-empty set is returned.
pub fn get_bitmap(stored: Option<Vec<u8>>) -> (r: Result<
    Option<roaring::RoaringBitmap>,
    Error,
>)
    ensures
        stored is None ==> r == Ok::<Option<roaring::RoaringBitmap>, Error>(None),
        stored matches Some(bytes) ==> match decoded_bitmap(bytes@) {
            Option::None => r == Err::<Option<roaring::RoaringBitmap>, Error>(
                Error::BitmapDecode,
            ),
            Option::Some(s) => {
                if s.is_empty() {
                    r == Ok::<Option<roaring::RoaringBitmap>, Error>(None)
                } else {
                    (r matches Ok(Some(b)) && bitmap_set(b) == s)
                }
            },
        },
        r matches Ok(Some(b)) ==> !bitmap_set(b).is_empty(),
{
    match stored {
        None => Ok(None),
        Some(bytes) => {
            let b = rb_deserialize(&bytes)?;
            if rb_is_empty(&b) {
                Ok(None)
            } else {
                Ok(Some(b))
            }
        },
    }
}

} // verus!
