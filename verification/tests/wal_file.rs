use mum::wal::record::{Record, RecordType};
use mum::wal::wal_file::{read_records, WalFile, WalFileIterator, SEGMENT_SIZE};

#[test]
fn insert_test() {
    let wal_path = "./file_tests/wal/test.wal";
    let mut wal_file = WalFile::create(wal_path.as_bytes().to_vec());
    let r1 = Record::new(RecordType::EntryType, vec![1, 2, 3, 4, 5]);
    wal_file.insert_record(r1.clone()).unwrap();
    let r2 = Record::new(RecordType::EntryType, vec![1, 2, 3, 4, 5, 6, 7, 8, 9, 0]);
    wal_file.insert_record(r2.clone()).unwrap();
    let r3 = Record::new(
        RecordType::EntryType,
        vec![
            1, 2, 3, 4, 5, 6, 7, 1, 2, 3, 4, 5, 6, 7, 8, 9, 0, 1, 2, 3, 4, 5, 6, 7, 8, 9, 0,
        ],
    );
    wal_file.insert_record(r3.clone()).unwrap();
    let bytes = wal_file.sync();
    let mut iter = WalFileIterator::new(bytes);
    let a = iter.next().unwrap();
    println!("{:?}", a);
    let b = iter.next().unwrap();
    println!("{:?}", b);
    let c = iter.next().unwrap();
    println!("{:?}", c);
    assert_eq!((a, b, c), (r1, r2, r3));
    assert!(iter.next().is_none());
}

#[test]
fn iter_test() {}

#[test]
fn a_record_is_stored_behind_its_length() {
    let mut f = WalFile::create(b"x.wal".to_vec());
    let r = Record::new(RecordType::StateType, vec![9, 8]);
    f.insert_record(r.clone()).unwrap();
    assert_eq!(f.size(), 8 + 13 + 2);
    assert_eq!(f.file_size(), 0);
    let bytes = f.sync();
    assert_eq!(&bytes[..8], &15u64.to_le_bytes());
    assert_eq!(&bytes[8..], &r.encode()[..]);
    assert_eq!(f.size(), 23);
    assert_eq!(f.file_size(), 23);
    assert!(f.sync().is_empty());
}

#[test]
fn reading_stops_at_a_torn_tail() {
    let mut f = WalFile::create(b"x.wal".to_vec());
    let r = Record::new(RecordType::EntryType, vec![1, 2, 3]);
    f.insert_record(r.clone()).unwrap();
    f.insert_record(r.clone()).unwrap();
    let mut bytes = f.sync();
    bytes.truncate(bytes.len() - 1);
    assert_eq!(read_records(bytes), vec![r.clone()]);
    let mut bad_tag = Vec::new();
    bad_tag.extend_from_slice(&13u64.to_le_bytes());
    bad_tag.push(7);
    bad_tag.extend_from_slice(&[0; 12]);
    assert_eq!(read_records(bad_tag), vec![]);
}

#[test]
fn a_segment_is_full_at_32_mib() {
    assert_eq!(SEGMENT_SIZE, 32 * 1024 * 1024);
    assert!(!WalFile::open(b"x.wal".to_vec(), SEGMENT_SIZE - 1).check_cut());
    assert!(WalFile::open(b"x.wal".to_vec(), SEGMENT_SIZE).check_cut());
    let mut f = WalFile::open(b"x.wal".to_vec(), u64::MAX - 10);
    let r = Record::new(RecordType::EntryType, vec![]);
    assert!(f.insert_record(r).is_err());
    assert_eq!(f.size(), u64::MAX - 10);
}
