use mum::raftpb::{
    ConfChange, ConfChangeType, ConfState, Entry, EntryType, HardState, Snapshot,
    SnapshotMetadata, MAX_PAYLOAD,
};
use mum::wire::{
    decode_conf_change, decode_entry, decode_hard_state, decode_snapshot, encode_conf_change,
    encode_entry, encode_hard_state, encode_snapshot, entry_fits, message_to,
};

fn entry(index: u64, data: Vec<u8>) -> Entry {
    Entry {
        entry_type: EntryType::EntryNormal,
        term: 1,
        index,
        data,
        context: vec![],
        sync_log: false,
    }
}

#[test]
fn an_entry_is_encoded_as_protobuf() {
    let e = entry(2, vec![7]);
    let bytes = encode_entry(&e).unwrap();
    assert_eq!(bytes, vec![0x10, 1, 0x18, 2, 0x22, 1, 7]);
    assert_eq!(decode_entry(&bytes).unwrap(), e);
    let c = Entry {
        entry_type: EntryType::EntryConfChange,
        term: 300,
        index: 0,
        data: vec![],
        context: vec![9, 9],
        sync_log: true,
    };
    let bytes = encode_entry(&c).unwrap();
    assert_eq!(bytes, vec![0x08, 1, 0x10, 0xac, 0x02, 0x32, 2, 9, 9, 0x28, 1]);
    assert_eq!(decode_entry(&bytes).unwrap(), c);
}

#[test]
fn bytes_that_are_no_entry_are_refused() {
    assert!(decode_entry(&[0x22, 5, 1]).is_err());
    assert!(decode_entry(&[0xff]).is_err());
    let mut empty = entry(0, vec![]);
    empty.term = 0;
    assert_eq!(decode_entry(&[]).unwrap(), empty);
}

#[test]
fn an_entry_that_is_too_large_cannot_be_encoded() {
    let e = entry(1, vec![0; MAX_PAYLOAD + 1]);
    assert!(!entry_fits(&e));
    assert!(encode_entry(&e).is_err());
}

#[test]
fn a_hard_state_is_encoded_as_protobuf() {
    let hs = HardState { term: 1, vote: 2, commit: 3 };
    let bytes = encode_hard_state(&hs).unwrap();
    assert_eq!(bytes, vec![0x08, 1, 0x10, 2, 0x18, 3]);
    assert_eq!(decode_hard_state(&bytes).unwrap(), hs);
    assert!(decode_hard_state(&[0x08]).is_err());
}

#[test]
fn a_snapshot_is_encoded_as_protobuf() {
    let s = Snapshot {
        data: vec![1, 2, 3],
        metadata: Some(SnapshotMetadata { conf_state: None, index: 1, term: 1 }),
    };
    let bytes = encode_snapshot(&s).unwrap();
    assert_eq!(bytes, vec![0x0a, 3, 1, 2, 3, 0x12, 4, 0x10, 1, 0x18, 1]);
    assert_eq!(decode_snapshot(&bytes).unwrap(), s);
    let with_members = Snapshot {
        data: vec![],
        metadata: Some(SnapshotMetadata {
            conf_state: Some(ConfState { nodes: vec![1, 2], learners: vec![] }),
            index: 5,
            term: 2,
        }),
    };
    let bytes = encode_snapshot(&with_members).unwrap();
    assert_eq!(decode_snapshot(&bytes).unwrap(), with_members);
    let bare = Snapshot { data: vec![], metadata: None };
    assert_eq!(encode_snapshot(&bare).unwrap(), Vec::<u8>::new());
    assert_eq!(decode_snapshot(&[]).unwrap(), bare);
    assert!(decode_snapshot(&[0x0a, 5, 1]).is_err());
}

#[test]
fn a_membership_change_is_encoded_as_protobuf() {
    let c = ConfChange {
        id: 1,
        change_type: ConfChangeType::RemoveNode,
        node_id: 3,
        context: vec![0x61],
    };
    let bytes = encode_conf_change(&c).unwrap();
    assert_eq!(bytes, vec![0x08, 1, 0x10, 1, 0x18, 3, 0x22, 1, 0x61]);
    assert_eq!(decode_conf_change(&bytes).unwrap(), c);
    let learner = ConfChange {
        id: 0,
        change_type: ConfChangeType::AddLearnerNode,
        node_id: 0,
        context: vec![],
    };
    assert_eq!(decode_conf_change(&encode_conf_change(&learner).unwrap()).unwrap(), learner);
    assert!(decode_conf_change(&[0x22, 3]).is_err());
}

#[test]
fn the_addressee_of_a_message_is_its_second_field() {
    assert_eq!(message_to(&[0x10, 2]), Some(2));
    assert_eq!(message_to(&[0x08, 3, 0x10, 0xac, 0x02, 0x18, 1]), Some(300));
    assert_eq!(message_to(&[]), Some(0));
    assert_eq!(message_to(&[0x10]), None);
}
