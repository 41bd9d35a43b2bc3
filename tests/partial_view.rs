use partial_view::codec::{decode, encode, Checkpoint, DecodeError, FORMAT_VERSION};
use partial_view::database::{Database, StoreError, TemporaryDB};
use partial_view::model::CheckpointError;
use partial_view::storage::PartialViewDataStorage;
use partial_view::types::{Address, Value};

fn addr(b: u8) -> Address {
    Address::from_bytes([b; 20])
}

fn val(n: u64) -> Value {
    Value::from_u64(n)
}

fn test_record() -> Checkpoint {
    Checkpoint {
        sequence: 42,
        label: "Test".as_bytes().to_vec(),
        payload: vec![0, 1, 2, 3],
    }
}

fn state(s: &PartialViewDataStorage<TemporaryDB>) -> Vec<(Address, Value)> {
    s.entries().iter().map(|e| (e.address, e.value)).collect()
}

#[test]
fn test_temporary_db() {
    let mut temp_db = TemporaryDB::new();

    let checkpoint_data = test_record();
    let serialized = encode(&checkpoint_data);
    temp_db.save_checkpoint(&serialized).unwrap();

    let loaded = temp_db.load_checkpoint().unwrap();
    assert_eq!(serialized, loaded);
}

#[test]
fn test_partial_view_data_storage() {
    let temp_db = TemporaryDB::new();
    let mut storage = PartialViewDataStorage::new(10, temp_db).unwrap();

    let checkpoint_data = test_record();
    storage.save_checkpoint(checkpoint_data.clone()).unwrap();

    storage.load_checkpoint().unwrap();
    let loaded = storage.database().load_checkpoint().unwrap();
    let deserialized = decode(&loaded).unwrap();
    assert_eq!(checkpoint_data, deserialized);
}

#[test]
fn record_round_trip() {
    let r = test_record();
    let bytes = encode(&r);
    assert_eq!(decode(&bytes).unwrap(), r);

    let empty = Checkpoint { sequence: 0, label: vec![], payload: vec![] };
    assert_eq!(decode(&encode(&empty)).unwrap(), empty);
}

#[test]
fn record_exact_bytes() {
    let bytes = encode(&test_record());
    let mut expected = vec![FORMAT_VERSION];
    expected.extend_from_slice(&42u64.to_be_bytes());
    expected.extend_from_slice(&4u64.to_be_bytes());
    expected.extend_from_slice(b"Test");
    expected.extend_from_slice(&4u64.to_be_bytes());
    expected.extend_from_slice(&[0, 1, 2, 3]);
    assert_eq!(bytes, expected);
    assert_eq!(bytes.len(), 33);
}

#[test]
fn decode_rejects_empty_and_truncated() {
    assert_eq!(decode(&[]), Err(DecodeError::Malformed));
    let bytes = encode(&test_record());
    assert_eq!(decode(&bytes[..bytes.len() - 1]), Err(DecodeError::Malformed));
    assert_eq!(decode(&bytes[..10]), Err(DecodeError::Malformed));
}

#[test]
fn decode_rejects_trailing_bytes() {
    let mut bytes = encode(&test_record());
    bytes.push(0);
    assert_eq!(decode(&bytes), Err(DecodeError::Malformed));
}

#[test]
fn decode_rejects_other_version() {
    let mut bytes = encode(&test_record());
    bytes[0] = FORMAT_VERSION + 1;
    assert_eq!(decode(&bytes), Err(DecodeError::VersionMismatch));
}

#[test]
fn example_scenario_capacity_two() {
    let mut s = PartialViewDataStorage::new(2, TemporaryDB::new()).unwrap();
    let (a, b, c) = (addr(0xA), addr(0xB), addr(0xC));

    assert_eq!(s.resolve(&a), None);
    s.query_and_store(a, val(10)).unwrap();
    assert_eq!(state(&s), vec![(a, val(10))]);
    assert_eq!(s.queue(), vec![a]);

    assert_eq!(s.resolve(&b), None);
    s.query_and_store(b, val(20)).unwrap();
    assert_eq!(state(&s), vec![(a, val(10)), (b, val(20))]);
    assert_eq!(s.queue(), vec![a, b]);

    assert_eq!(s.resolve(&c), None);
    s.query_and_store(c, val(30)).unwrap();
    assert_eq!(state(&s), vec![(b, val(20)), (c, val(30))]);
    assert_eq!(s.queue(), vec![b, c]);
    assert_eq!(s.resolve(&a), None);

    let before = state(&s);
    assert_eq!(s.resolve(&b), Some(val(20)));
    assert_eq!(state(&s), before);
    assert_eq!(s.queue(), vec![b, c]);

    let db = s.into_database();
    let reloaded = PartialViewDataStorage::new(2, db).unwrap();
    assert_eq!(state(&reloaded), vec![(b, val(20)), (c, val(30))]);
    assert_eq!(reloaded.queue(), vec![b, c]);
    assert_eq!(reloaded.resolve(&b), Some(val(20)));
    assert_eq!(reloaded.resolve(&c), Some(val(30)));
}

#[test]
fn fifo_eviction_of_first_address() {
    let n: u8 = 3;
    let mut s = PartialViewDataStorage::new(n as usize, TemporaryDB::new()).unwrap();
    for i in 1..=n + 1 {
        s.query_and_store(addr(i), val(i as u64 * 100)).unwrap();
    }
    assert_eq!(s.resolve(&addr(1)), None);
    for i in 2..=n + 1 {
        assert_eq!(s.resolve(&addr(i)), Some(val(i as u64 * 100)));
    }
    assert_eq!(s.queue(), vec![addr(2), addr(3), addr(4)]);
}

#[test]
fn hits_do_not_reorder_queue() {
    let mut s = PartialViewDataStorage::new(2, TemporaryDB::new()).unwrap();
    s.query_and_store(addr(1), val(1)).unwrap();
    s.query_and_store(addr(2), val(2)).unwrap();
    assert_eq!(s.resolve(&addr(1)), Some(val(1)));
    s.query_and_store(addr(3), val(3)).unwrap();
    assert_eq!(s.queue(), vec![addr(2), addr(3)]);
}

#[test]
fn requery_refreshes_value_in_place() {
    let mut s = PartialViewDataStorage::new(2, TemporaryDB::new()).unwrap();
    s.query_and_store(addr(1), val(1)).unwrap();
    s.query_and_store(addr(2), val(2)).unwrap();
    s.query_and_store(addr(1), val(11)).unwrap();
    s.query_and_store(addr(1), val(12)).unwrap();
    assert_eq!(s.len(), 2);
    assert_eq!(s.queue(), vec![addr(1), addr(2)]);
    assert_eq!(s.resolve(&addr(1)), Some(val(12)));
    assert_eq!(s.resolve(&addr(2)), Some(val(2)));
}

#[test]
fn capacity_zero_keeps_nothing() {
    let mut s = PartialViewDataStorage::new(0, TemporaryDB::new()).unwrap();
    s.query_and_store(addr(1), val(5)).unwrap();
    assert_eq!(s.len(), 0);
    assert_eq!(s.resolve(&addr(1)), None);
    assert_eq!(s.sequence(), 1);
    let saved = decode(&s.database().load_checkpoint().unwrap()).unwrap();
    assert_eq!(saved.sequence, 1);
    assert!(saved.payload.is_empty());
}

#[test]
fn fresh_backend_reports_not_found() {
    let db = TemporaryDB::new();
    assert_eq!(db.load_checkpoint(), Err(StoreError::NotFound));
}

#[test]
fn last_write_wins() {
    let mut db = TemporaryDB::new();
    db.save_checkpoint(&[1, 2, 3]).unwrap();
    db.save_checkpoint(&[4, 5]).unwrap();
    assert_eq!(db.load_checkpoint(), Ok(vec![4, 5]));
    assert_eq!(db.load_checkpoint(), Ok(vec![4, 5]));
}

#[test]
fn every_change_is_saved_with_next_sequence() {
    let mut s = PartialViewDataStorage::new(4, TemporaryDB::new()).unwrap();
    s.query_and_store(addr(1), val(1)).unwrap();
    s.query_and_store(addr(2), val(2)).unwrap();
    s.query_and_store(addr(1), val(3)).unwrap();
    assert_eq!(s.sequence(), 3);
    let saved = decode(&s.database().load_checkpoint().unwrap()).unwrap();
    assert_eq!(saved.sequence, 3);
    assert_eq!(saved.label, b"partial-view".to_vec());
    assert_eq!(saved, s.snapshot());
    assert_eq!(saved.payload.len(), 2 * 52);
}

#[test]
fn snapshot_payload_bytes() {
    let mut s = PartialViewDataStorage::new(4, TemporaryDB::new()).unwrap();
    s.query_and_store(addr(7), Value::from_limbs([1, 2, 3, 4])).unwrap();
    let payload = s.snapshot().payload;
    let mut expected = vec![7u8; 20];
    for limb in [1u64, 2, 3, 4] {
        expected.extend_from_slice(&limb.to_be_bytes());
    }
    assert_eq!(payload, expected);
}

#[test]
fn persistence_survives_reconstruction() {
    let mut s = PartialViewDataStorage::new(3, TemporaryDB::new()).unwrap();
    s.query_and_store(addr(1), val(10)).unwrap();
    s.query_and_store(addr(2), Value::from_limbs([u64::MAX, 1, 2, u64::MAX])).unwrap();
    let before = state(&s);
    let seq = s.sequence();
    let db = s.into_database();
    let r = PartialViewDataStorage::new(3, db).unwrap();
    assert_eq!(state(&r), before);
    assert_eq!(r.queue(), vec![addr(1), addr(2)]);
    assert_eq!(r.sequence(), seq);
    assert_eq!(r.capacity(), 3);
}

#[test]
fn cold_start_is_empty() {
    let s = PartialViewDataStorage::new(5, TemporaryDB::new()).unwrap();
    assert_eq!(s.len(), 0);
    assert_eq!(s.queue(), vec![]);
    assert_eq!(s.sequence(), 0);
    assert_eq!(s.resolve(&addr(1)), None);
}

#[test]
fn load_checkpoint_on_cold_backend_is_not_found() {
    let s = PartialViewDataStorage::new(5, TemporaryDB::new()).unwrap();
    assert_eq!(s.load_checkpoint(), Err(CheckpointError::Store(StoreError::NotFound)));
}

#[test]
fn construction_fails_on_malformed_checkpoint() {
    let mut db = TemporaryDB::new();
    db.save_checkpoint(&[FORMAT_VERSION, 1, 2]).unwrap();
    assert_eq!(
        PartialViewDataStorage::new(2, db).err(),
        Some(CheckpointError::Decode(DecodeError::Malformed))
    );
}

#[test]
fn construction_fails_on_version_mismatch() {
    let mut db = TemporaryDB::new();
    let mut bytes = encode(&test_record());
    bytes[0] = 9;
    db.save_checkpoint(&bytes).unwrap();
    assert_eq!(
        PartialViewDataStorage::new(2, db).err(),
        Some(CheckpointError::Decode(DecodeError::VersionMismatch))
    );
}

#[test]
fn construction_fails_on_partial_entry_payload() {
    let mut db = TemporaryDB::new();
    db.save_checkpoint(&encode(&test_record())).unwrap();
    assert_eq!(
        PartialViewDataStorage::new(2, db).err(),
        Some(CheckpointError::Decode(DecodeError::Malformed))
    );
}

#[test]
fn construction_fails_on_duplicate_addresses() {
    let mut entry = vec![5u8; 20];
    entry.extend_from_slice(&[0u8; 32]);
    let mut payload = entry.clone();
    payload.extend_from_slice(&entry);
    let record = Checkpoint { sequence: 1, label: vec![], payload };
    let mut db = TemporaryDB::new();
    db.save_checkpoint(&encode(&record)).unwrap();
    assert_eq!(
        PartialViewDataStorage::new(4, db).err(),
        Some(CheckpointError::Decode(DecodeError::Malformed))
    );
}

#[test]
fn construction_fails_over_capacity() {
    let mut s = PartialViewDataStorage::new(3, TemporaryDB::new()).unwrap();
    for i in 1..=3u8 {
        s.query_and_store(addr(i), val(i as u64)).unwrap();
    }
    let db = s.into_database();
    assert_eq!(
        PartialViewDataStorage::new(2, db).err(),
        Some(CheckpointError::OverCapacity)
    );
}

#[test]
fn backend_failure_on_load_is_fatal() {
    let r = PartialViewDataStorage::from_loaded(2, TemporaryDB::new(), Err(StoreError::Backend));
    assert_eq!(r.err(), Some(CheckpointError::Store(StoreError::Backend)));
}

#[test]
fn from_loaded_not_found_is_empty() {
    let r = PartialViewDataStorage::from_loaded(2, TemporaryDB::new(), Err(StoreError::NotFound))
        .unwrap();
    assert_eq!(r.len(), 0);
}

#[test]
fn address_and_value_constructors() {
    let a = addr(3);
    assert!(a.same_as(&Address::from_bytes([3; 20])));
    assert!(!a.same_as(&addr(4)));
    assert_eq!(val(7).limbs, [7, 0, 0, 0]);
}

#[test]
fn sequence_continues_from_loaded_checkpoint() {
    let record = Checkpoint { sequence: 5, label: vec![], payload: vec![] };
    let mut db = TemporaryDB::new();
    db.save_checkpoint(&encode(&record)).unwrap();
    let mut s = PartialViewDataStorage::new(2, db).unwrap();
    assert_eq!(s.sequence(), 5);
    assert_eq!(s.len(), 0);
    s.query_and_store(addr(1), val(1)).unwrap();
    assert_eq!(s.sequence(), 6);
}

#[test]
fn sequence_stays_at_maximum() {
    let record = Checkpoint { sequence: u64::MAX, label: vec![], payload: vec![] };
    let mut db = TemporaryDB::new();
    db.save_checkpoint(&encode(&record)).unwrap();
    let mut s = PartialViewDataStorage::new(2, db).unwrap();
    s.query_and_store(addr(1), val(1)).unwrap();
    assert_eq!(s.sequence(), u64::MAX);
    let saved = decode(&s.database().load_checkpoint().unwrap()).unwrap();
    assert_eq!(saved.sequence, u64::MAX);
}

#[test]
fn value_read_back_after_store() {
    let mut s = PartialViewDataStorage::new(1, TemporaryDB::new()).unwrap();
    s.query_and_store(addr(9), val(90)).unwrap();
    assert_eq!(s.resolve(&addr(9)), Some(val(90)));
    s.query_and_store(addr(8), val(80)).unwrap();
    assert_eq!(s.resolve(&addr(9)), None);
    assert_eq!(s.resolve(&addr(8)), Some(val(80)));
}
