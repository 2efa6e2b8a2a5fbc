//! The fixed, closed set of logical partitions (column families) of the store.

use vstd::prelude::*;

verus! {

/// A logical partition of the key space.
///
/// Each subspace is identified by a single ASCII byte, the first byte of its
/// tag; the engine resolves a column-family handle from it.
#[derive(Clone, Copy, Debug, PartialEq, Eq, Structural)]
pub enum Subspace {
    /// Compact document-id sets, serialized roaring bitmaps.
    Bitmaps,
    /// Opaque typed values.
    Values,
    /// Materialized secondary-index payloads.
    IndexValues,
    /// Signed 64-bit counters, eight little-endian bytes each.
    Counters,
    /// Ordered index entries; values are empty or a marker.
    Indexes,
    /// Blob metadata.
    Blobs,
    /// Blob content chunks.
    BlobData,
    /// Replication / change log.
    Logs,
}

impl Subspace {
    /// The identifying byte of this subspace's tag.
    pub fn tag(&self) -> (r: u8)
        ensures
            r == self.tag_spec(),
    {
        match self {
            Subspace::Bitmaps => 98u8,
            Subspace::Values => 118u8,
            Subspace::IndexValues => 110u8,
            Subspace::Counters => 99u8,
            Subspace::Indexes => 105u8,
            Subspace::Blobs => 111u8,
            Subspace::BlobData => 116u8,
            Subspace::Logs => 108u8,
        }
    }

    /// The identifying byte, at the specification level.
    pub open spec fn tag_spec(&self) -> u8 {
        match self {
            Subspace::Bitmaps => 98u8,
            Subspace::Values => 118u8,
            Subspace::IndexValues => 110u8,
            Subspace::Counters => 99u8,
            Subspace::Indexes => 105u8,
            Subspace::Blobs => 111u8,
            Subspace::BlobData => 116u8,
            Subspace::Logs => 108u8,
        }
    }

    /// Resolves a subspace from its identifying byte; unknown bytes have no
    /// subspace.
    pub fn from_tag(tag: u8) -> (r: Option<Subspace>)
        ensures
            r == Self::from_tag_spec(tag),
    {
        match tag {
            98u8 => Some(Subspace::Bitmaps),
            118u8 => Some(Subspace::Values),
            110u8 => Some(Subspace::IndexValues),
            99u8 => Some(Subspace::Counters),
            105u8 => Some(Subspace::Indexes),
            111u8 => Some(Subspace::Blobs),
            116u8 => Some(Subspace::BlobData),
            108u8 => Some(Subspace::Logs),
            _ => None,
        }
    }

    /// Specification of `from_tag`.
    pub open spec fn from_tag_spec(tag: u8) -> Option<Subspace> {
        if tag == 98u8 {
            Some(Subspace::Bitmaps)
        } else if tag == 118u8 {
            Some(Subspace::Values)
        } else if tag == 110u8 {
            Some(Subspace::IndexValues)
        } else if tag == 99u8 {
            Some(Subspace::Counters)
        } else if tag == 105u8 {
            Some(Subspace::Indexes)
        } else if tag == 111u8 {
            Some(Subspace::Blobs)
        } else if tag == 116u8 {
            Some(Subspace::BlobData)
        } else if tag == 108u8 {
            Some(Subspace::Logs)
        } else {
            None
        }
    }
}

/// The tag byte identifies its subspace: resolving a subspace's own tag
/// yields that subspace back.
pub proof fn lemma_tag_round_trip(s: Subspace)
    ensures
        Subspace::from_tag_spec(s.tag_spec()) == Some(s),
{
}

} // verus!
