use mum::errors::Error;
use mum::raftpb::{Entry, EntryType, HardState};
use mum::wal::record::{Record, RecordType};
use mum::wal::replay::{index_pair, replay};
use mum::wal::{new_wal_path, split_at_index, valid_seq, SegmentFile, Wal, WalAction};
use mum::wal::wal_file::{put_frame, SEGMENT_SIZE};
use mum::wire::encode_entry;

fn entry(index: u64, data: Vec<u8>) -> Entry {
    Entry {
        entry_type: EntryType::EntryNormal,
        term: 1,
        index,
        data,
        context: vec![],
        sync_log: false,
    }
}

fn frames(records: &[Record]) -> Vec<u8> {
    let mut out = Vec::new();
    for r in records {
        put_frame(&mut out, r);
    }
    out
}

fn file(path: &str, len: u64) -> SegmentFile {
    SegmentFile { path: path.as_bytes().to_vec(), len }
}

#[test]
fn a_new_log_starts_with_segment_zero() {
    let wal = Wal::create(b"w".to_vec());
    assert_eq!(wal.segment_count(), 1);
    assert_eq!(
        wal.head_path(),
        &b"w/0000000000000000-0000000000000000.wal".to_vec()
    );
    assert_eq!(wal.state(), HardState { term: 0, vote: 0, commit: 0 });
    assert_eq!(
        new_wal_path(b"w", (1, 26)),
        b"w/0000000000000001-000000000000001a.wal".to_vec()
    );
}

#[test]
fn what_is_inserted_is_read_back_in_order() {
    let mut wal = Wal::create(b"w".to_vec());
    let first = vec![entry(1, vec![1]), entry(2, vec![2, 2])];
    let second = vec![entry(3, vec![]), entry(4, vec![4])];
    let hs = HardState { term: 1, vote: 2, commit: 3 };
    let mut content = Vec::new();
    match wal.insert(Some(hs), &first, true).unwrap() {
        WalAction::Sync { path, bytes } => {
            assert_eq!(&path, wal.head_path());
            content.extend_from_slice(&bytes);
        }
        other => panic!("{:?}", other),
    }
    assert!(matches!(wal.insert(None, &second, false).unwrap(), WalAction::Nothing));
    content.extend_from_slice(&wal.sync());
    assert_eq!(wal.state(), hs);

    let mut expected = Vec::new();
    for e in first.iter() {
        put_frame(&mut expected, &Record::new(RecordType::EntryType, encode_entry(e).unwrap()));
    }
    put_frame(&mut expected, &Record::new(RecordType::StateType, vec![0x08, 1, 0x10, 2, 0x18, 3]));
    for e in second.iter() {
        put_frame(&mut expected, &Record::new(RecordType::EntryType, encode_entry(e).unwrap()));
    }
    assert_eq!(content, expected);

    let mut reopened = Wal::create(b"w".to_vec());
    let (state, entries) = reopened.read_all(&vec![content]).unwrap();
    assert_eq!(state, hs);
    let mut all = first.clone();
    all.extend(second);
    assert_eq!(entries, all);
}

#[test]
fn an_insert_of_nothing_does_nothing() {
    let mut wal = Wal::create(b"w".to_vec());
    assert!(matches!(wal.insert(None, &vec![], true).unwrap(), WalAction::Nothing));
    assert!(wal.sync().is_empty());
}

#[test]
fn a_full_segment_is_cut() {
    let mut wal = Wal::create(b"w".to_vec());
    let big = vec![entry(7, vec![0; SEGMENT_SIZE as usize])];
    match wal.insert(None, &big, false).unwrap() {
        WalAction::Cut { path, bytes, next } => {
            assert_eq!(path, b"w/0000000000000000-0000000000000000.wal".to_vec());
            assert!(bytes.len() as u64 >= SEGMENT_SIZE);
            assert_eq!(next, b"w/0000000000000001-0000000000000008.wal".to_vec());
        }
        other => panic!("{:?}", other),
    }
    assert_eq!(wal.segment_count(), 2);
    assert_eq!(wal.head_path(), &b"w/0000000000000001-0000000000000008.wal".to_vec());
    assert!(matches!(wal.insert(None, &vec![entry(8, vec![1])], false).unwrap(), WalAction::Nothing));
    assert_eq!(wal.release_lock_to(7), Vec::<Vec<u8>>::new());
    assert_eq!(
        wal.release_lock_to(8),
        vec![b"w/0000000000000000-0000000000000000.wal".to_vec()]
    );
    assert_eq!(wal.segment_count(), 1);
}

#[test]
fn an_entry_that_is_too_large_is_refused_and_nothing_is_stored() {
    let mut wal = Wal::create(b"w".to_vec());
    let ents = vec![entry(1, vec![1]), entry(2, vec![0; mum::raftpb::MAX_PAYLOAD + 1])];
    assert!(matches!(wal.insert(None, &ents, true), Err(Error::Protbuf)));
    assert!(wal.sync().is_empty());
}

#[test]
fn a_log_is_opened_at_the_segment_that_holds_the_index() {
    let listing = vec![
        file("w/0000000000000000-0000000000000000.wal", 10),
        file("w/0000000000000001-0000000000000005.wal", 20),
        file("w/0000000000000002-0000000000000009.wal", 30),
    ];
    let wal = Wal::open_at(b"w".to_vec(), Some(listing), (1, 6)).unwrap();
    assert_eq!(wal.segment_count(), 2);
    assert_eq!(
        wal.segment_paths(),
        vec![
            b"w/0000000000000001-0000000000000005.wal".to_vec(),
            b"w/0000000000000002-0000000000000009.wal".to_vec(),
        ]
    );
    assert_eq!(wal.head_path(), &b"w/0000000000000002-0000000000000009.wal".to_vec());
}

#[test]
fn a_log_that_cannot_be_opened_says_why() {
    assert!(matches!(
        Wal::open_at(b"w".to_vec(), None, (0, 0)),
        Err(Error::MissFilePath(d)) if d == b"w".to_vec()
    ));
    assert!(matches!(Wal::open_at(b"w".to_vec(), Some(vec![]), (0, 0)), Err(Error::NoSegment)));
    let late = vec![file("w/0000000000000001-0000000000000005.wal", 0)];
    assert!(matches!(Wal::open_at(b"w".to_vec(), Some(late), (0, 4)), Err(Error::NoSegment)));
    let odd = vec![
        file("w/0000000000000000-0000000000000000.wal", 0),
        file("w/nonsense.wal", 0),
    ];
    assert!(matches!(
        Wal::open_at(b"w".to_vec(), Some(odd), (0, 0)),
        Err(Error::BadSegmentName(p)) if p == b"w/nonsense.wal".to_vec()
    ));
    let gap = vec![
        file("w/0000000000000000-0000000000000000.wal", 0),
        file("w/0000000000000002-0000000000000005.wal", 0),
    ];
    assert!(matches!(Wal::open_at(b"w".to_vec(), Some(gap), (0, 0)), Err(Error::SeqGap)));
}

#[test]
fn entries_up_to_the_start_are_left_out() {
    let listing = vec![file("w/0000000000000000-0000000000000000.wal", 0)];
    let mut wal = Wal::open_at(b"w".to_vec(), Some(listing), (1, 2)).unwrap();
    let records: Vec<Record> = (1..=4)
        .map(|i| Record::new(RecordType::EntryType, encode_entry(&entry(i, vec![i as u8])).unwrap()))
        .collect();
    let (_, entries) = wal.read_all(&vec![frames(&records[..2]), frames(&records[2..])]).unwrap();
    assert_eq!(entries, vec![entry(3, vec![3]), entry(4, vec![4])]);
}

#[test]
fn the_latest_state_wins() {
    let a = Record::new(RecordType::StateType, vec![0x08, 1, 0x10, 5]);
    let b = Record::new(RecordType::StateType, vec![0x08, 2]);
    let g = replay(&vec![frames(&[a, b])], (0, 0), 0).unwrap();
    assert_eq!(g.state, HardState { term: 2, vote: 0, commit: 0 });
}

#[test]
fn records_that_fail_end_the_replay() {
    let good = Record::new(RecordType::CrcType, vec![1, 2, 3]);
    assert!(replay(&vec![frames(&[good.clone()])], (0, 0), 0).is_ok());
    let mut bad = good;
    bad.crc ^= 1;
    assert!(matches!(replay(&vec![frames(&[bad])], (0, 0), 0), Err(Error::CrcMissMatch)));

    let mut marker = 4u64.to_le_bytes().to_vec();
    marker.extend_from_slice(&9u64.to_le_bytes());
    let index = Record::new(RecordType::IndexType, marker);
    assert!(replay(&vec![frames(&[index.clone()])], (4, 9), 0).is_ok());
    assert!(replay(&vec![frames(&[index.clone()])], (5, 8), 0).is_ok());
    assert!(matches!(
        replay(&vec![frames(&[index])], (5, 9), 0),
        Err(Error::SnapMissMatch)
    ));
    let short = Record::new(RecordType::IndexType, vec![1, 2, 3]);
    assert!(matches!(replay(&vec![frames(&[short])], (0, 0), 0), Err(Error::Bincode)));

    let no_entry = Record::new(RecordType::EntryType, vec![0x22, 9]);
    assert!(matches!(replay(&vec![frames(&[no_entry])], (0, 0), 0), Err(Error::Protbuf)));
    let no_state = Record::new(RecordType::StateType, vec![0x08]);
    assert!(matches!(replay(&vec![frames(&[no_state])], (0, 0), 0), Err(Error::Protbuf)));
}

#[test]
fn helpers_of_the_segment_list() {
    let idx = vec![(0, 0), (1, 5), (2, 9)];
    assert_eq!(split_at_index(&idx, 0), Some(0));
    assert_eq!(split_at_index(&idx, 8), Some(1));
    assert_eq!(split_at_index(&idx, 100), Some(2));
    assert_eq!(split_at_index(&vec![(0, 3)], 2), None);
    assert_eq!(split_at_index(&vec![], 2), None);
    assert!(valid_seq(&idx));
    assert!(valid_seq(&vec![]));
    assert!(!valid_seq(&vec![(0, 0), (2, 1)]));
    assert!(!valid_seq(&vec![(u64::MAX, 0), (0, 1)]));
    let mut data = 1u64.to_le_bytes().to_vec();
    data.extend_from_slice(&2u64.to_le_bytes());
    assert_eq!(index_pair(&data), Some((1, 2)));
    assert_eq!(index_pair(&data[..15]), None);
}
