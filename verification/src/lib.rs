//! Read path of a column-family-partitioned key/value store.
//!
//! The store persists object metadata, secondary indexes, signed counters and
//! compact document-id sets in a fixed set of subspaces (column families).
//! This crate holds the verified logic of the read path: decoding a stored
//! counter, the empty-bitmap absence policy, inclusive range iteration with a
//! caller-supplied visitor, and the emptiness assertor used by tests.
//!
//! The embedded storage engine itself is an external collaborator: callers
//! fetch raw bytes (a point read or an ordered scan) and hand them to the
//! functions of this crate as plain values.

pub mod bitmap;
pub mod bytes;
pub mod check;
pub mod counter;
pub mod error;
pub mod iterate;
pub mod subspace;
pub mod token;
pub mod value;
