use mum::errors::Error;
use mum::raftpb::{Snapshot, SnapshotMetadata};
use mum::snap::{SnapFile, Snapshotter};

fn new_snapshot(index: u64, term: u64) -> Snapshot {
    Snapshot {
        data: vec![],
        metadata: Some(SnapshotMetadata { conf_state: None, index, term }),
    }
}

#[test]
fn snapshot_save_test() {
    let index = 1;
    let term = 1;
    let snap_dir = "./file_tests/snap_save";
    let snap_shotter = Snapshotter::new(snap_dir.as_bytes().to_vec());
    let snap_path = snap_shotter.new_snap_path(index, term);
    let snap = new_snapshot(index, term);
    let write = snap_shotter.save(&snap).unwrap();
    assert_eq!(write.path, snap_path);
    assert_eq!(
        snap_path,
        b"./file_tests/snap_save/0000000000000001-0000000000000001.snap".to_vec()
    );
}

#[test]
fn snapshot_load_test() {
    let index = 1;
    let term = 1;
    let snap_dir = "./file_tests/snap_load";
    let snap_shotter = Snapshotter::new(snap_dir.as_bytes().to_vec());
    let snap_path = snap_shotter.new_snap_path(index, term);
    let mut snap = new_snapshot(index, term);
    let data = vec![1u8, 2u8, 3u8];
    snap.data = data.clone();
    let write = snap_shotter.save(&snap).unwrap();
    assert_eq!(write.path, snap_path);
    let files = vec![SnapFile { path: write.path, bytes: write.bytes }];
    let loaded = snap_shotter.load(&files).snapshot.unwrap();
    assert_eq!(loaded.data, data);
    assert_eq!(loaded, snap);
}

#[test]
fn a_snapshot_file_is_checksum_length_payload() {
    let s = Snapshotter::new(b"d".to_vec());
    let mut snap = new_snapshot(1, 1);
    snap.data = vec![1, 2, 3];
    let w = s.save(&snap).unwrap();
    let payload = vec![0x0a, 3, 1, 2, 3, 0x12, 4, 0x10, 1, 0x18, 1];
    let mut expected = 0x4cef_5533u32.to_le_bytes().to_vec();
    expected.extend_from_slice(&(payload.len() as u64).to_le_bytes());
    expected.extend_from_slice(&payload);
    assert_eq!(w.bytes, expected);
    assert_eq!(w.bytes.len(), 4 + 8 + payload.len());
}

#[test]
fn a_snapshot_without_metadata_is_not_saved() {
    let s = Snapshotter::new(b"d".to_vec());
    assert!(matches!(
        s.save(&Snapshot { data: vec![1], metadata: None }),
        Err(Error::MissMetadata)
    ));
}

#[test]
fn a_changed_byte_breaks_the_file() {
    let s = Snapshotter::new(b"d".to_vec());
    let mut snap = new_snapshot(3, 2);
    snap.data = vec![5, 6, 7, 8];
    let w = s.save(&snap).unwrap();
    assert_eq!(Snapshotter::load_snap(&w.bytes).unwrap(), snap);
    let last = w.bytes.len() - 1;
    let mut garbled = w.bytes.clone();
    garbled[last] ^= 0xff;
    assert!(matches!(Snapshotter::load_snap(&garbled), Err(Error::CrcMissMatch)));
    let mut bad_crc = w.bytes.clone();
    bad_crc[0] ^= 1;
    assert!(matches!(Snapshotter::load_snap(&bad_crc), Err(Error::CrcMissMatch)));
    assert!(matches!(Snapshotter::load_snap(&w.bytes[..last]), Err(Error::Bincode)));
    assert!(matches!(Snapshotter::load_snap(&[1, 2]), Err(Error::Bincode)));
}

#[test]
fn a_payload_that_is_no_snapshot_is_refused() {
    let payload = vec![0x0au8, 5, 1];
    let crc = mum::wal::record::Record::new(mum::wal::record::RecordType::CrcType, payload.clone()).crc;
    let mut bytes = crc.to_le_bytes().to_vec();
    bytes.extend_from_slice(&(payload.len() as u64).to_le_bytes());
    bytes.extend_from_slice(&payload);
    assert!(matches!(Snapshotter::load_snap(&bytes), Err(Error::Protbuf)));
}

#[test]
fn loading_takes_the_newest_intact_file_and_sets_the_broken_aside() {
    let s = Snapshotter::new(b"d".to_vec());
    let mut old = new_snapshot(1, 1);
    old.data = vec![1];
    let mut new = new_snapshot(9, 2);
    new.data = vec![2];
    let w_old = s.save(&old).unwrap();
    let w_new = s.save(&new).unwrap();
    let last = w_new.bytes.len() - 1;
    let mut garbled = w_new.bytes.clone();
    garbled[last] ^= 0x01;
    let files = vec![
        SnapFile { path: w_new.path.clone(), bytes: garbled },
        SnapFile { path: w_old.path.clone(), bytes: w_old.bytes.clone() },
    ];
    let loaded = s.load(&files);
    assert_eq!(loaded.snapshot, Some(old));
    assert_eq!(loaded.broken.len(), 1);
    assert_eq!(loaded.broken[0].from, w_new.path);
    assert_eq!(
        loaded.broken[0].to,
        b"d/0000000000000002-0000000000000009.snap.broken".to_vec()
    );
    let intact = vec![
        SnapFile { path: w_new.path.clone(), bytes: w_new.bytes.clone() },
        SnapFile { path: w_old.path, bytes: w_old.bytes },
    ];
    let loaded = s.load(&intact);
    assert_eq!(loaded.snapshot, Some(new));
    assert!(loaded.broken.is_empty());
    let none = s.load(&vec![SnapFile { path: b"d/x.snap".to_vec(), bytes: vec![] }]);
    assert!(none.snapshot.is_none());
    assert_eq!(none.broken.len(), 1);
    assert!(s.load(&vec![]).snapshot.is_none());
}
