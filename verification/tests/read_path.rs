use kvread::bitmap::get_bitmap;
use kvread::counter::{counter_to_bytes, get_counter};
use kvread::error::Error;
use kvread::iterate::{iterate, CollectVisitor, FailAtKeyVisitor, IterateParams, StopAtKeyVisitor};
use kvread::value::{get_value, u32_to_be_bytes};

fn serialized(bits: &[u32]) -> Vec<u8> {
    let mut bm = roaring::RoaringBitmap::new();
    for b in bits {
        bm.insert(*b);
    }
    let mut out = Vec::new();
    bm.serialize_into(&mut out).unwrap();
    out
}

#[test]
fn empty_counter_reads_zero() {
    assert_eq!(get_counter(None), Ok(0));
}

#[test]
fn zero_counter_present_reads_zero() {
    assert_eq!(get_counter(Some(vec![0, 0, 0, 0, 0, 0, 0, 0])), Ok(0));
}

#[test]
fn negative_counter_reads_minus_one() {
    assert_eq!(
        get_counter(Some(vec![0xFF, 0xFF, 0xFF, 0xFF, 0xFF, 0xFF, 0xFF, 0xFF])),
        Ok(-1)
    );
}

#[test]
fn counter_wrong_length_is_invalid() {
    let r = get_counter(Some(vec![1, 2, 3]));
    assert_eq!(r, Err(Error::InvalidCounter));
    assert_eq!(Error::InvalidCounter.message(), "Invalid counter value.");
}

#[test]
fn counter_little_endian_decode() {
    // 0x0102030405060708 stored little-endian.
    let bytes = vec![0x08, 0x07, 0x06, 0x05, 0x04, 0x03, 0x02, 0x01];
    assert_eq!(get_counter(Some(bytes)), Ok(0x0102030405060708));
}

#[test]
fn counter_round_trip_is_identity() {
    for v in [0i64, 1, -1, 42, -42, i64::MAX, i64::MIN, 0x0102030405060708] {
        let bytes = counter_to_bytes(v);
        assert_eq!(bytes.len(), 8);
        assert_eq!(bytes, v.to_le_bytes().to_vec());
        assert_eq!(get_counter(Some(bytes)), Ok(v));
    }
}

#[test]
fn value_absent_reads_absent() {
    assert_eq!(get_value::<u32>(None), Ok(None));
}

#[test]
fn value_round_trip() {
    let bytes = u32_to_be_bytes(0xDEADBEEF);
    assert_eq!(bytes, vec![0xDE, 0xAD, 0xBE, 0xEF]);
    assert_eq!(get_value::<u32>(Some(bytes)), Ok(Some(0xDEADBEEF)));
}

#[test]
fn value_malformed_is_decode_error() {
    assert_eq!(get_value::<u32>(Some(vec![1, 2, 3])), Err(Error::ValueDecode));
}

#[test]
fn bitmap_absent_reads_absent() {
    let r = get_bitmap(None);
    assert!(matches!(r, Ok(None)));
}

#[test]
fn empty_bitmap_artifact_reads_absent() {
    let r = get_bitmap(Some(serialized(&[])));
    assert!(matches!(r, Ok(None)));
}

#[test]
fn nonempty_bitmap_round_trips() {
    let r = get_bitmap(Some(serialized(&[1, 5, 100000]))).unwrap().unwrap();
    let expected: roaring::RoaringBitmap = [1u32, 5, 100000].into_iter().collect();
    assert_eq!(r, expected);
}

#[test]
fn malformed_bitmap_is_decode_error() {
    let r = get_bitmap(Some(vec![0xAB, 0xCD]));
    assert_eq!(r, Err(Error::BitmapDecode));
}

fn rows(keys: &[&[u8]]) -> Vec<(Vec<u8>, Vec<u8>)> {
    keys.iter().map(|k| (k.to_vec(), vec![0xEEu8])).collect()
}

fn visited_keys(v: &CollectVisitor) -> Vec<Vec<u8>> {
    v.rows.iter().map(|r| r.0.clone()).collect()
}

#[test]
fn inclusive_range_ascending_visits_all() {
    let entries = rows(&[&[0x01], &[0x02], &[0x03]]);
    let params = IterateParams {
        begin: vec![0x01],
        end: vec![0x03],
        ascending: true,
        first: false,
    };
    let mut v = CollectVisitor::new();
    assert_eq!(iterate(&entries, &params, &mut v), Ok(()));
    assert_eq!(visited_keys(&v), vec![vec![0x01], vec![0x02], vec![0x03]]);
}

#[test]
fn inclusive_range_descending_visits_reverse() {
    // The engine yields rows in reverse cursor order when descending.
    let entries = rows(&[&[0x03], &[0x02], &[0x01]]);
    let params = IterateParams {
        begin: vec![0x01],
        end: vec![0x03],
        ascending: false,
        first: false,
    };
    let mut v = CollectVisitor::new();
    assert_eq!(iterate(&entries, &params, &mut v), Ok(()));
    assert_eq!(visited_keys(&v), vec![vec![0x03], vec![0x02], vec![0x01]]);
}

#[test]
fn equal_bounds_visit_one_row() {
    let entries = rows(&[&[0x01], &[0x02], &[0x03]]);
    let params = IterateParams {
        begin: vec![0x01],
        end: vec![0x01],
        ascending: true,
        first: false,
    };
    let mut v = CollectVisitor::new();
    assert_eq!(iterate(&entries, &params, &mut v), Ok(()));
    assert_eq!(visited_keys(&v), vec![vec![0x01]]);
}

#[test]
fn first_only_visits_first_ascending() {
    let entries = rows(&[&[0x01], &[0x02], &[0x03]]);
    let params = IterateParams {
        begin: vec![0x01],
        end: vec![0x03],
        ascending: true,
        first: true,
    };
    let mut v = CollectVisitor::new();
    assert_eq!(iterate(&entries, &params, &mut v), Ok(()));
    assert_eq!(visited_keys(&v), vec![vec![0x01]]);
}

#[test]
fn first_only_visits_last_descending() {
    let entries = rows(&[&[0x03], &[0x02], &[0x01]]);
    let params = IterateParams {
        begin: vec![0x01],
        end: vec![0x03],
        ascending: false,
        first: true,
    };
    let mut v = CollectVisitor::new();
    assert_eq!(iterate(&entries, &params, &mut v), Ok(()));
    assert_eq!(visited_keys(&v), vec![vec![0x03]]);
}

#[test]
fn visitor_false_stops_iteration() {
    let entries = rows(&[&[0x01], &[0x02], &[0x03]]);
    let params = IterateParams {
        begin: vec![0x01],
        end: vec![0x03],
        ascending: true,
        first: false,
    };
    let mut v = StopAtKeyVisitor::new(vec![0x02]);
    assert_eq!(iterate(&entries, &params, &mut v), Ok(()));
    let seen: Vec<Vec<u8>> = v.rows.iter().map(|r| r.0.clone()).collect();
    assert_eq!(seen, vec![vec![0x01], vec![0x02]]);
}

#[test]
fn visitor_failure_halts_and_surfaces() {
    let entries = rows(&[&[0x01], &[0x02], &[0x03]]);
    let params = IterateParams {
        begin: vec![0x01],
        end: vec![0x03],
        ascending: true,
        first: false,
    };
    let mut v = FailAtKeyVisitor::new(vec![0x02]);
    assert_eq!(iterate(&entries, &params, &mut v), Err(Error::Visitor));
    let seen: Vec<Vec<u8>> = v.rows.iter().map(|r| r.0.clone()).collect();
    assert_eq!(seen, vec![vec![0x01], vec![0x02]]);
}

#[test]
fn out_of_range_key_stops_before_visit() {
    let entries = rows(&[&[0x01], &[0x04], &[0x05]]);
    let params = IterateParams {
        begin: vec![0x01],
        end: vec![0x03],
        ascending: true,
        first: false,
    };
    let mut v = CollectVisitor::new();
    assert_eq!(iterate(&entries, &params, &mut v), Ok(()));
    assert_eq!(visited_keys(&v), vec![vec![0x01]]);
}

#[test]
fn empty_scan_visits_nothing() {
    let entries: Vec<(Vec<u8>, Vec<u8>)> = Vec::new();
    let params = IterateParams {
        begin: vec![0x01],
        end: vec![0x03],
        ascending: true,
        first: false,
    };
    let mut v = CollectVisitor::new();
    assert_eq!(iterate(&entries, &params, &mut v), Ok(()));
    assert!(v.rows.is_empty());
}
