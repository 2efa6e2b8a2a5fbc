//! The invariant assertor: a white-box check, used by tests, that the store
//! is logically empty after a fixture has been torn down.
//!
//! Each subspace is scanned from its start and every entry is classified:
//! it conforms, it is a log row to be drained, or it is a violation. The
//! reserved account sentinel exempts store-internal metadata in the bitmaps
//! and values subspaces; the logs subspace may hold rows, which are
//! collected and deleted after the scan.

use vstd::prelude::*;

use crate::bitmap::{decoded_bitmap, rb_deserialize, rb_is_empty};
use crate::bytes::{be32, has_reserved_account, is_reserved_account, read_be32};
use crate::counter::{counter_from_bytes, counter_value};
use crate::iterate::{row_views, Row};
use crate::subspace::Subspace;

verus! {

/// A way in which the store fails the emptiness check.
#[derive(Clone, Copy, Debug, PartialEq, Eq, Structural)]
pub enum Violation {
    /// A non-reserved bitmaps entry decodes to a non-empty set.
    BitmapNotEmpty { account: u32, collection: u8, family: u8, field: u8 },
    /// A bitmaps entry does not decode at all.
    BitmapUndecodable,
    /// A non-reserved entry is present in the values subspace.
    ValueNotEmpty,
    /// A counters entry is present whose value is not exactly eight bytes.
    CounterInvalid,
    /// A counters entry holds a non-zero value.
    CounterNotZero { value: i64 },
    /// A subspace that must be wholly empty holds an entry.
    SubspaceNotEmpty { subspace: Subspace },
    /// An index entry is present; its indexed value is the key's bytes
    /// between the property byte and the trailing document id.
    IndexNotEmpty { account: u32, collection: u8, document: u32, property: u8 },
}

/// What the assertor does with one conforming entry.
#[derive(Clone, Copy, Debug, PartialEq, Eq, Structural)]
pub enum EntryCheck {
    /// The entry conforms; nothing to do.
    Pass,
    /// The entry is a log row: its key is collected and deleted after the
    /// scan.
    Drain,
}

/// The key lengths the writer guarantees per subspace: a bitmaps key starts
/// with account, collection, family and field; a values key with an
/// account; an indexes key holds account, collection, property, value and a
/// trailing document id.
pub open spec fn entry_key_wf(s: Subspace, key: Seq<u8>) -> bool {
    match s {
        Subspace::Bitmaps => key.len() >= 7,
        Subspace::Values => key.len() >= 4,
        Subspace::Indexes => key.len() >= 10,
        _ => true,
    }
}

/// The verdict of the assertor on one entry of a subspace.
pub open spec fn entry_verdict(s: Subspace, key: Seq<u8>, value: Seq<u8>) -> Result<
    EntryCheck,
    Violation,
>
    recommends
        entry_key_wf(s, key),
{
    match s {
        Subspace::Bitmaps => {
            if is_reserved_account(key) {
                Ok(EntryCheck::Pass)
            } else {
                match decoded_bitmap(value) {
                    Option::None => Err(Violation::BitmapUndecodable),
                    Option::Some(set) => {
                        if set.is_empty() {
                            Ok(EntryCheck::Pass)
                        } else {
                            Err(
                                Violation::BitmapNotEmpty {
                                    account: be32(key, 0) as u32,
                                    collection: key[4],
                                    family: key[5],
                                    field: key[6],
                                },
                            )
                        }
                    },
                }
            }
        },
        Subspace::Values => {
            if is_reserved_account(key) {
                Ok(EntryCheck::Pass)
            } else {
                Err(Violation::ValueNotEmpty)
            }
        },
        Subspace::Counters => {
            if value.len() != 8 {
                Err(Violation::CounterInvalid)
            } else if counter_value(value) == 0 {
                Ok(EntryCheck::Pass)
            } else {
                Err(Violation::CounterNotZero { value: counter_value(value) as i64 })
            }
        },
        Subspace::Indexes => {
            Err(
                Violation::IndexNotEmpty {
                    account: be32(key, 0) as u32,
                    collection: key[4],
                    document: be32(key, key.len() - 4) as u32,
                    property: key[5],
                },
            )
        },
        Subspace::Logs => Ok(EntryCheck::Drain),
        _ => Err(Violation::SubspaceNotEmpty { subspace: s }),
    }
}

/// Classifies one scanned entry.
pub fn check_entry(subspace: Subspace, key: &Vec<u8>, value: &Vec<u8>) -> (r: Result<
    EntryCheck,
    Violation,
>)
    requires
        entry_key_wf(subspace, key@),
    ensures
        r == entry_verdict(subspace, key@, value@),
{
    match subspace {
        Subspace::Bitmaps => {
            if has_reserved_account(key) {
                Ok(EntryCheck::Pass)
            } else {
                match rb_deserialize(value) {
                    Err(_) => Err(Violation::BitmapUndecodable),
                    Ok(b) => {
                        if rb_is_empty(&b) {
                            Ok(EntryCheck::Pass)
                        } else {
                            proof {
                                assert(0 <= be32(key@, 0) < 0x100000000);
                            }
                            Err(
                                Violation::BitmapNotEmpty {
                                    account: read_be32(key, 0),
                                    collection: key[4],
                                    family: key[5],
                                    field: key[6],
                                },
                            )
                        }
                    },
                }
            }
        },
        Subspace::Values => {
            if has_reserved_account(key) {
                Ok(EntryCheck::Pass)
            } else {
                Err(Violation::ValueNotEmpty)
            }
        },
        Subspace::Counters => {
            match counter_from_bytes(value) {
                Err(_) => Err(Violation::CounterInvalid),
                Ok(v) => {
                    if v == 0 {
                        Ok(EntryCheck::Pass)
                    } else {
                        Err(Violation::CounterNotZero { value: v })
                    }
                },
            }
        },
        Subspace::Indexes => {
            proof {
                assert(0 <= be32(key@, 0) < 0x100000000);
                assert(0 <= be32(key@, key@.len() - 4) < 0x100000000);
            }
            Err(
                Violation::IndexNotEmpty {
                    account: read_be32(key, 0),
                    collection: key[4],
                    document: read_be32(key, key.len() - 4),
                    property: key[5],
                },
            )
        },
        Subspace::Logs => Ok(EntryCheck::Drain),
        _ => Err(Violation::SubspaceNotEmpty { subspace }),
    }
}

/// Whether every entry of a subspace conforms.
pub open spec fn subspace_clean(s: Subspace, rows: Seq<Row>) -> bool {
    forall|i: int|
        0 <= i < rows.len() ==> (#[trigger] entry_verdict(s, rows[i].0, rows[i].1)) is Ok
}

/// The keys of the rows the assertor drains, in scan order.
pub open spec fn drained_keys(s: Subspace, rows: Seq<Row>) -> Seq<Seq<u8>>
    decreases rows.len(),
{
    if rows.len() == 0 {
        Seq::empty()
    } else {
        let prefix = drained_keys(s, rows.drop_last());
        let last = rows.last();
        if entry_verdict(s, last.0, last.1) == Ok::<EntryCheck, Violation>(EntryCheck::Drain) {
            prefix.push(last.0)
        } else {
            prefix
        }
    }
}

/// The views of a sequence of collected keys.
pub open spec fn key_views(keys: Seq<Vec<u8>>) -> Seq<Seq<u8>> {
    keys.map_values(|k: Vec<u8>| k@)
}

/// Scans one subspace: every entry must conform; the first violation, in
/// scan order, fails the check. On success the keys to drain (all log rows;
/// nothing in any other subspace) are returned in scan order.
#[verifier::loop_isolation(false)]
pub fn check_subspace(subspace: Subspace, entries: &Vec<(Vec<u8>, Vec<u8>)>) -> (r: Result<
    Vec<Vec<u8>>,
    Violation,
>)
    requires
        forall|i: int|
            0 <= i < entries@.len() ==> entry_key_wf(subspace, #[trigger] entries@[i].0@),
    ensures
        ({
            let rows = row_views(entries@);
            &&& (r is Ok <==> subspace_clean(subspace, rows))
            &&& (r matches Ok(d) ==> key_views(d@) =~= drained_keys(subspace, rows))
            &&& (r matches Err(v) ==> exists|i: int|
                0 <= i < rows.len() && #[trigger] entry_verdict(subspace, rows[i].0, rows[i].1)
                    == Err::<EntryCheck, Violation>(v) && (forall|j: int|
                    0 <= j < i ==> (#[trigger] entry_verdict(subspace, rows[j].0, rows[j].1))
                        is Ok))
        }),
{
    let ghost rows = row_views(entries@);
    let mut drained: Vec<Vec<u8>> = Vec::new();
    let mut i: usize = 0;
    proof {
        assert(rows.take(0) =~= Seq::<Row>::empty());
        assert(key_views(drained@) =~= drained_keys(subspace, rows.take(0)));
    }
    while i < entries.len()
        invariant
            i <= entries.len(),
            forall|j: int|
                0 <= j < i ==> (#[trigger] entry_verdict(subspace, rows[j].0, rows[j].1)) is Ok,
            key_views(drained@) =~= drained_keys(subspace, rows.take(i as int)),
        decreases entries@.len() - i,
    {
        let row: &(Vec<u8>, Vec<u8>) = &entries[i];
        proof {
            assert(rows[i as int] == (row.0@, row.1@));
        }
        let ghost prev = drained@;
        match check_entry(subspace, &row.0, &row.1) {
            Err(v) => {
                return Err(v);
            },
            Ok(EntryCheck::Pass) => {},
            Ok(EntryCheck::Drain) => {
                let k = crate::bytes::copy_bytes(&row.0);
                drained.push(k);
            },
        }
        proof {
            assert(rows.take(i as int + 1).drop_last() =~= rows.take(i as int));
            assert(rows.take(i as int + 1).last() == rows[i as int]);
            if entry_verdict(subspace, rows[i as int].0, rows[i as int].1) == Ok::<
                EntryCheck,
                Violation,
            >(EntryCheck::Drain) {
                assert(drained@ == prev.push(drained@.last()));
                assert(key_views(drained@) =~= key_views(prev).push(row.0@));
            } else {
                assert(drained@ == prev);
            }
            assert(key_views(drained@) =~= drained_keys(subspace, rows.take(i as int + 1)));
        }
        i = i + 1;
    }
    proof {
        assert(rows.take(rows.len() as int) =~= rows);
    }
    Ok(drained)
}

/// The order in which the assertor scans the subspaces.
pub fn scan_order() -> (r: Vec<Subspace>)
    ensures
        r@ =~= seq![
            Subspace::Bitmaps,
            Subspace::Values,
            Subspace::IndexValues,
            Subspace::Counters,
            Subspace::BlobData,
            Subspace::Indexes,
            Subspace::Blobs,
            Subspace::Logs,
        ],
{
    let mut r: Vec<Subspace> = Vec::new();
    r.push(Subspace::Bitmaps);
    r.push(Subspace::Values);
    r.push(Subspace::IndexValues);
    r.push(Subspace::Counters);
    r.push(Subspace::BlobData);
    r.push(Subspace::Indexes);
    r.push(Subspace::Blobs);
    r.push(Subspace::Logs);
    r
}

} // verus!
