use kvread::check::{check_entry, check_subspace, scan_order, EntryCheck, Violation};
use kvread::subspace::Subspace;

fn serialized(bits: &[u32]) -> Vec<u8> {
    let mut bm = roaring::RoaringBitmap::new();
    for b in bits {
        bm.insert(*b);
    }
    let mut out = Vec::new();
    bm.serialize_into(&mut out).unwrap();
    out
}

const RESERVED: [u8; 4] = [0xFF, 0xFF, 0xFF, 0xFF];

#[test]
fn reserved_values_entry_passes() {
    let mut key = RESERVED.to_vec();
    key.extend_from_slice(&[0x01, 0x02]);
    let r = check_entry(Subspace::Values, &key, &vec![0xAA]);
    assert_eq!(r, Ok(EntryCheck::Pass));
}

#[test]
fn non_reserved_values_entry_is_violation() {
    let key = vec![0x00, 0x00, 0x00, 0x07, 0x01];
    let r = check_entry(Subspace::Values, &key, &vec![0xAA]);
    assert_eq!(r, Err(Violation::ValueNotEmpty));
}

#[test]
fn zero_counter_entry_passes() {
    let key = vec![0x00, 0x00, 0x00, 0x01];
    let r = check_entry(Subspace::Counters, &key, &vec![0, 0, 0, 0, 0, 0, 0, 0]);
    assert_eq!(r, Ok(EntryCheck::Pass));
}

#[test]
fn nonzero_counter_entry_is_violation() {
    let key = vec![0x00, 0x00, 0x00, 0x01];
    let r = check_entry(Subspace::Counters, &key, &5i64.to_le_bytes().to_vec());
    assert_eq!(r, Err(Violation::CounterNotZero { value: 5 }));
}

#[test]
fn short_counter_entry_is_invalid() {
    let key = vec![0x00, 0x00, 0x00, 0x01];
    let r = check_entry(Subspace::Counters, &key, &vec![1, 2, 3]);
    assert_eq!(r, Err(Violation::CounterInvalid));
}

#[test]
fn empty_bitmap_entry_passes() {
    // account 1, collection 2, family 3, field 4
    let key = vec![0x00, 0x00, 0x00, 0x01, 0x02, 0x03, 0x04];
    let r = check_entry(Subspace::Bitmaps, &key, &serialized(&[]));
    assert_eq!(r, Ok(EntryCheck::Pass));
}

#[test]
fn reserved_bitmap_entry_passes_even_nonempty() {
    let mut key = RESERVED.to_vec();
    key.extend_from_slice(&[0x02, 0x03, 0x04]);
    let r = check_entry(Subspace::Bitmaps, &key, &serialized(&[9]));
    assert_eq!(r, Ok(EntryCheck::Pass));
}

#[test]
fn nonempty_bitmap_entry_reports_fields() {
    let key = vec![0x00, 0x00, 0x00, 0x09, 0x02, 0x03, 0x04];
    let r = check_entry(Subspace::Bitmaps, &key, &serialized(&[7, 8]));
    assert_eq!(
        r,
        Err(Violation::BitmapNotEmpty {
            account: 9,
            collection: 2,
            family: 3,
            field: 4,
        })
    );
}

#[test]
fn index_entry_reports_fields() {
    // account 5 | collection 1 | property 2 | value "ab" | document 0x00000063
    let key = vec![
        0x00, 0x00, 0x00, 0x05, 0x01, 0x02, b'a', b'b', 0x00, 0x00, 0x00, 0x63,
    ];
    let r = check_entry(Subspace::Indexes, &key, &Vec::new());
    assert_eq!(
        r,
        Err(Violation::IndexNotEmpty {
            account: 5,
            collection: 1,
            document: 0x63,
            property: 2,
        })
    );
}

#[test]
fn blob_entries_are_violations() {
    for s in [Subspace::IndexValues, Subspace::Blobs, Subspace::BlobData] {
        let r = check_entry(s, &vec![0x01], &vec![0x02]);
        assert_eq!(r, Err(Violation::SubspaceNotEmpty { subspace: s }));
    }
}

#[test]
fn log_entries_are_drained() {
    let entries = vec![
        (vec![0x01, 0x02], vec![0xAA]),
        (vec![0x03], vec![0xBB]),
    ];
    let r = check_subspace(Subspace::Logs, &entries);
    assert_eq!(r, Ok(vec![vec![0x01, 0x02], vec![0x03]]));
}

#[test]
fn clean_subspace_scan_passes() {
    let entries = vec![
        (RESERVED.to_vec(), vec![0xAA]),
        (RESERVED.to_vec(), vec![0xBB]),
    ];
    let r = check_subspace(Subspace::Values, &entries);
    assert_eq!(r, Ok(Vec::new()));
}

#[test]
fn first_violation_fails_the_scan() {
    let entries = vec![
        (RESERVED.to_vec(), vec![0xAA]),
        (vec![0x00, 0x00, 0x00, 0x01], vec![0xBB]),
    ];
    let r = check_subspace(Subspace::Values, &entries);
    assert_eq!(r, Err(Violation::ValueNotEmpty));
}

#[test]
fn empty_subspace_scan_passes() {
    let entries: Vec<(Vec<u8>, Vec<u8>)> = Vec::new();
    assert_eq!(check_subspace(Subspace::Indexes, &entries), Ok(Vec::new()));
}

#[test]
fn scan_covers_every_subspace_once() {
    let order = scan_order();
    assert_eq!(order.len(), 8);
    for s in [
        Subspace::Bitmaps,
        Subspace::Values,
        Subspace::IndexValues,
        Subspace::Counters,
        Subspace::Indexes,
        Subspace::Blobs,
        Subspace::BlobData,
        Subspace::Logs,
    ] {
        assert_eq!(order.iter().filter(|x| **x == s).count(), 1);
    }
}

#[test]
fn subspace_tags_round_trip() {
    for s in scan_order() {
        assert_eq!(Subspace::from_tag(s.tag()), Some(s));
    }
    assert_eq!(Subspace::from_tag(0x00), None);
}

#[test]
fn default_token_is_empty() {
    let t = kvread::token::AccessToken::default();
    assert_eq!(t.primary_id, 0);
    assert_eq!(t.tenant_id, None);
    assert!(t.member_of.is_empty());
    assert!(t.access_to.is_empty());
    assert_eq!(t.name, "");
    assert_eq!(t.description, None);
    assert_eq!(t.quota, 0);
    assert!(t.permissions.is_empty());
}
