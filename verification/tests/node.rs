use mum::errors::Error;
use mum::kv::Store;
use mum::mumpb::{ConfRequest, Op, OpRequest, RaftMessage};
use mum::node::apply::{ents_to_apply, no_gap, publish_entries};
use mum::node::{
    send_all, Command, Input, Node, Ready, SNAPSHOT_CATCH_UP_ENTRIES_N, SNAPSHOT_TRIG_COUNT,
};
use mum::raftpb::{
    ConfChange, ConfChangeType, ConfState, Entry, EntryType, HardState, Snapshot,
    SnapshotMetadata,
};
use mum::server::WorkItem;
use mum::snap::Snapshotter;
use mum::transport::RaftClients;
use mum::wal::{SegmentFile, WalAction};
use mum::wire::encode_conf_change;

fn op(field_type: Op, key: &[u8], value: &[u8]) -> OpRequest {
    OpRequest { field_type, key: key.to_vec(), value: value.to_vec(), limit: 0 }
}

fn normal(index: u64, req: &OpRequest) -> Entry {
    Entry {
        entry_type: EntryType::EntryNormal,
        term: 1,
        index,
        data: req.write_to_bytes(),
        context: vec![],
        sync_log: false,
    }
}

fn conf(index: u64, change_type: ConfChangeType, node_id: u64, context: &[u8]) -> Entry {
    let c = ConfChange { id: 1, change_type, node_id, context: context.to_vec() };
    Entry {
        entry_type: EntryType::EntryConfChange,
        term: 1,
        index,
        data: encode_conf_change(&c).unwrap(),
        context: vec![],
        sync_log: false,
    }
}

fn ready(entries: Vec<Entry>, committed: Option<Vec<Entry>>) -> Ready {
    Ready {
        hs: None,
        entries,
        committed_entries: committed,
        snapshot: Snapshot { data: vec![], metadata: None },
        messages: vec![],
        must_sync: true,
    }
}

fn started(store: &mut Store) -> Node {
    let addrs = vec![b"127.0.0.1:9001".to_vec(), b"127.0.0.1:9002".to_vec()];
    let mut node = Node::new(1, &addrs, b"w".to_vec(), b"s".to_vec());
    assert_eq!(node.open_wal(&None, vec![]).unwrap(), true);
    node.reply_wal(store, None, &vec![vec![]]).unwrap();
    node
}

#[test]
fn a_new_node_knows_its_peers_and_its_settings() {
    let addrs = vec![b"h:1".to_vec(), b"h:2".to_vec(), b"h:3".to_vec()];
    let node = Node::new(2, &addrs, b"w".to_vec(), b"s".to_vec());
    let cfg = node.config();
    assert_eq!((cfg.id, cfg.heartbeat_tick, cfg.election_tick, cfg.max_inflight_msgs), (2, 10, 100, 10));
    assert_eq!(node.applied_index(), 0);
    assert_eq!(node.snapshot_index(), 0);
    assert_eq!(SNAPSHOT_TRIG_COUNT, 1);
    assert_eq!(SNAPSHOT_CATCH_UP_ENTRIES_N, 1);
}

#[test]
fn each_input_becomes_one_call() {
    let mut node = Node::new(1, &vec![], b"w".to_vec(), b"s".to_vec());
    let msg = RaftMessage { message: vec![1, 2] };
    assert_eq!(
        node.dispatch(Input::Work(WorkItem::InboundRaft(msg.clone()))),
        Command::Step(msg)
    );
    let set = op(Op::Put, b"a", b"1");
    assert_eq!(
        node.dispatch(Input::Work(WorkItem::ProposeOp(set.clone()))),
        Command::Propose(set.write_to_bytes())
    );
    assert_eq!(node.dispatch(Input::Tick), Command::Tick);
    let change = ConfChange {
        id: 77,
        change_type: ConfChangeType::AddNode,
        node_id: 3,
        context: b"h:3".to_vec(),
    };
    let req = ConfRequest { change: change.clone() };
    match node.dispatch(Input::Work(WorkItem::ProposeConf(req.clone()))) {
        Command::ProposeConfChange(c) => assert_eq!(c, ConfChange { id: 1, ..change.clone() }),
        other => panic!("{:?}", other),
    }
    match node.dispatch(Input::Work(WorkItem::ProposeConf(req))) {
        Command::ProposeConfChange(c) => assert_eq!(c.id, 2),
        other => panic!("{:?}", other),
    }
}

#[test]
fn entries_that_are_applied_are_dropped() {
    let set = op(Op::Put, b"a", b"1");
    let all: Vec<Entry> = (3..=6).map(|i| normal(i, &set)).collect();
    let mut ents = all.clone();
    ents_to_apply(&mut ents, 2);
    assert_eq!(ents, all);
    let mut ents = all.clone();
    ents_to_apply(&mut ents, 4);
    assert_eq!(ents, all[2..].to_vec());
    let mut ents = all.clone();
    ents_to_apply(&mut ents, 6);
    assert!(ents.is_empty());
    let mut ents = all.clone();
    ents_to_apply(&mut ents, 60);
    assert!(ents.is_empty());
    let mut none: Vec<Entry> = vec![];
    ents_to_apply(&mut none, 5);
    assert!(none.is_empty());
    assert!(no_gap(&all, 2));
    assert!(no_gap(&all, 9));
    assert!(!no_gap(&all, 1));
    assert!(no_gap(&vec![], 0));
    assert!(no_gap(&vec![normal(0, &set)], u64::MAX));
}

#[test]
fn committed_operations_reach_the_store_in_order() {
    let mut store = Store::new();
    let mut peers = RaftClients::new();
    let ents = vec![
        normal(1, &op(Op::Put, b"a", b"1")),
        normal(2, &op(Op::Put, b"b", b"2")),
        normal(3, &op(Op::Get, b"a", b"")),
        normal(4, &op(Op::Del, b"a", b"")),
        normal(5, &op(Op::Put, b"b", b"3")),
    ];
    let (applied, term, published) = publish_entries(&mut store, &mut peers, 1, 0, 0, &ents).unwrap();
    assert_eq!((applied, term), (5, 1));
    assert!(!published.halted);
    assert!(published.changes.is_empty());
    assert_eq!(store.get(b"a"), None);
    assert_eq!(store.get(b"b"), Some(b"3".to_vec()));
}

#[test]
fn membership_changes_reach_the_peer_directory() {
    let mut store = Store::new();
    let mut peers = RaftClients::new();
    peers.upsert_peer(2, b"h:2");
    let ents = vec![
        conf(1, ConfChangeType::AddNode, 3, b"h:3"),
        conf(2, ConfChangeType::AddNode, 4, b""),
        conf(3, ConfChangeType::RemoveNode, 2, b""),
        conf(4, ConfChangeType::AddLearnerNode, 5, b"h:5"),
    ];
    let (applied, _, published) = publish_entries(&mut store, &mut peers, 1, 0, 0, &ents).unwrap();
    assert_eq!(applied, 4);
    assert!(!published.halted);
    assert_eq!(published.changes.len(), 4);
    assert_eq!(published.changes[0].node_id, 3);
    assert_eq!(peers.address_of(3), Some(b"h:3".to_vec()));
    assert_eq!(peers.address_of(4), None);
    assert_eq!(peers.address_of(2), None);
    assert_eq!(peers.address_of(5), None);
}

#[test]
fn removing_the_node_itself_halts_it() {
    let mut store = Store::new();
    let mut peers = RaftClients::new();
    let ents = vec![
        normal(1, &op(Op::Put, b"a", b"1")),
        conf(2, ConfChangeType::RemoveNode, 1, b""),
        normal(3, &op(Op::Put, b"b", b"2")),
    ];
    let (applied, _, published) = publish_entries(&mut store, &mut peers, 1, 0, 0, &ents).unwrap();
    assert!(published.halted);
    assert_eq!(applied, 1);
    assert_eq!(published.changes.len(), 1);
    assert_eq!(store.get(b"a"), Some(b"1".to_vec()));
    assert_eq!(store.get(b"b"), None);
}

#[test]
fn payloads_that_do_not_decode_fail() {
    let mut store = Store::new();
    let mut peers = RaftClients::new();
    let mut bad = normal(1, &op(Op::Put, b"a", b"1"));
    bad.data = vec![0x12, 9];
    assert!(matches!(
        publish_entries(&mut store, &mut peers, 1, 0, 0, &vec![bad]),
        Err(Error::Protbuf)
    ));
    let mut bad = conf(1, ConfChangeType::AddNode, 2, b"x");
    bad.data = vec![0x22, 9];
    assert!(matches!(
        publish_entries(&mut store, &mut peers, 1, 0, 0, &vec![bad]),
        Err(Error::Protbuf)
    ));
    let not_text = conf(1, ConfChangeType::AddNode, 2, &[0xff, 0xfe]);
    assert!(matches!(
        publish_entries(&mut store, &mut peers, 1, 0, 0, &vec![not_text]),
        Err(Error::Utf8)
    ));
    assert_eq!(peers.address_of(2), None);
}

#[test]
fn messages_become_calls_in_order() {
    let mut peers = RaftClients::new();
    peers.upsert_peer(2, b"h:2");
    peers.upsert_peer(3, b"h:3");
    let messages = vec![
        RaftMessage { message: vec![0x10, 3] },
        RaftMessage { message: vec![0x10, 9] },
        RaftMessage { message: vec![0x10, 2] },
    ];
    let calls = send_all(&mut peers, &messages);
    assert_eq!(calls.len(), 2);
    assert_eq!(calls[0].address, b"h:3".to_vec());
    assert_eq!(calls[1].address, b"h:2".to_vec());
    assert_eq!(calls[1].request, messages[2].write_to_bytes());
}

#[test]
fn a_round_stores_first_and_applies_afterwards() {
    let mut store = Store::new();
    let mut node = started(&mut store);
    let e1 = normal(1, &op(Op::Put, b"a", b"1"));
    let mut batch = ready(vec![e1.clone()], Some(vec![e1.clone()]));
    batch.hs = Some(HardState { term: 1, vote: 1, commit: 1 });
    batch.messages = vec![RaftMessage { message: vec![0x10, 2] }];
    match node.on_ready(batch).unwrap() {
        WalAction::Sync { path, bytes } => {
            assert_eq!(path, b"w/0000000000000000-0000000000000000.wal".to_vec());
            assert!(!bytes.is_empty());
        }
        other => panic!("{:?}", other),
    }
    assert_eq!(store.get(b"a"), None);
    assert_eq!(node.applied_index(), 0);
    assert!(node.can_go_on());
    let round = node.after_persist(&mut store).unwrap();
    assert_eq!(round.append, vec![e1]);
    assert_eq!(round.hard_state, Some(HardState { term: 1, vote: 1, commit: 1 }));
    assert!(round.install.is_none());
    assert_eq!(round.calls.len(), 1);
    assert_eq!(round.calls[0].address, b"127.0.0.1:9002".to_vec());
    assert!(round.changes.is_empty());
    assert!(!round.halted);
    assert!(round.checkpoint.is_none());
    assert_eq!(store.get(b"a"), Some(b"1".to_vec()));
    assert_eq!(node.applied_index(), 1);
    assert_eq!(node.snapshot_index(), 0);
    assert!(!node.can_go_on());
}

#[test]
fn a_snapshot_is_taken_when_the_applied_index_runs_ahead() {
    let mut store = Store::new();
    let mut node = started(&mut store);
    let ents = vec![
        normal(1, &op(Op::Put, b"a", b"1")),
        normal(2, &op(Op::Put, b"b", b"2")),
        normal(3, &op(Op::Put, b"c", b"3")),
    ];
    node.on_ready(ready(ents.clone(), Some(ents))).unwrap();
    let round = node.after_persist(&mut store).unwrap();
    let cp = round.checkpoint.unwrap();
    assert_eq!(cp.index, 3);
    assert_eq!(cp.compact_index, 2);
    assert_eq!(cp.data, store.get_snapshot().unwrap());
    assert_eq!(cp.conf_state, Some(ConfState { nodes: vec![], learners: vec![] }));
    let write = cp.saved.write;
    assert_eq!(write.path, b"s/0000000000000001-0000000000000003.snap".to_vec());
    let saved = Snapshotter::load_snap(&write.bytes).unwrap();
    assert_eq!(saved.data, cp.data);
    assert_eq!(saved.metadata.unwrap().index, 3);
    assert!(cp.saved.release.is_empty());
    assert_eq!(node.snapshot_index(), 3);
    assert_eq!(node.applied_index(), 3);

    let e4 = normal(4, &op(Op::Put, b"d", b"4"));
    node.on_ready(ready(vec![e4.clone()], Some(vec![e4]))).unwrap();
    let round = node.after_persist(&mut store).unwrap();
    assert!(round.checkpoint.is_none());
    assert_eq!(node.snapshot_index(), 3);
    assert_eq!(node.applied_index(), 4);
}

#[test]
fn a_snapshot_from_the_leader_is_installed() {
    let mut source = Store::new();
    source.set(b"x".to_vec(), b"9".to_vec());
    let snapshot = Snapshot {
        data: source.get_snapshot().unwrap(),
        metadata: Some(SnapshotMetadata {
            conf_state: Some(ConfState { nodes: vec![1, 2], learners: vec![] }),
            index: 10,
            term: 2,
        }),
    };
    let mut store = Store::new();
    store.set(b"old".to_vec(), b"1".to_vec());
    let mut node = started(&mut store);
    let mut batch = ready(vec![], Some(vec![normal(11, &op(Op::Put, b"y", b"1"))]));
    batch.snapshot = snapshot.clone();
    node.on_ready(batch).unwrap();
    assert!(node.can_go_on());
    let round = node.after_persist(&mut store).unwrap();
    let install = round.install.unwrap();
    assert_eq!(install.snapshot, snapshot);
    assert_eq!(
        install.saved.write.path,
        b"s/0000000000000002-000000000000000a.snap".to_vec()
    );
    assert_eq!(store.get(b"old"), None);
    assert_eq!(store.get(b"x"), Some(b"9".to_vec()));
    assert_eq!(store.get(b"y"), Some(b"1".to_vec()));
    assert_eq!(node.applied_index(), 11);
    assert_eq!(node.snapshot_index(), 10);

    let mut stale = ready(vec![], None);
    stale.snapshot = snapshot;
    node.on_ready(stale).unwrap();
    assert!(matches!(node.after_persist(&mut store), Err(Error::SnapMissMatch)));
}

#[test]
fn committed_entries_must_not_leave_a_gap() {
    let mut store = Store::new();
    let mut node = started(&mut store);
    let e5 = normal(5, &op(Op::Put, b"a", b"1"));
    node.on_ready(ready(vec![], Some(vec![e5]))).unwrap();
    assert!(!node.can_go_on());
}

#[test]
fn a_round_ends_where_the_node_is_removed() {
    let mut store = Store::new();
    let mut node = started(&mut store);
    let ents = vec![
        normal(1, &op(Op::Put, b"a", b"1")),
        normal(2, &op(Op::Put, b"b", b"2")),
        conf(3, ConfChangeType::RemoveNode, 1, b""),
    ];
    node.on_ready(ready(ents.clone(), Some(ents))).unwrap();
    let round = node.after_persist(&mut store).unwrap();
    assert!(round.halted);
    assert!(round.checkpoint.is_none());
    assert_eq!(round.changes.len(), 1);
    assert_eq!(node.applied_index(), 2);
}

#[test]
fn a_node_starts_from_its_snapshot_and_its_log() {
    let mut source = Store::new();
    source.set(b"a".to_vec(), b"1".to_vec());
    let snapshot = Snapshot {
        data: source.get_snapshot().unwrap(),
        metadata: Some(SnapshotMetadata {
            conf_state: Some(ConfState { nodes: vec![1], learners: vec![] }),
            index: 3,
            term: 1,
        }),
    };
    let mut writer_store = Store::new();
    let mut writer = started(&mut writer_store);
    let ents: Vec<Entry> = (1..=5).map(|i| normal(i, &op(Op::Put, b"k", &[i as u8]))).collect();
    let mut batch = ready(ents.clone(), None);
    batch.hs = Some(HardState { term: 1, vote: 1, commit: 5 });
    let content = match writer.on_ready(batch).unwrap() {
        WalAction::Sync { bytes, .. } => bytes,
        other => panic!("{:?}", other),
    };

    let mut store = Store::new();
    let mut node = Node::new(1, &vec![b"h:1".to_vec()], b"w".to_vec(), b"s".to_vec());
    let listing = vec![SegmentFile {
        path: b"w/0000000000000000-0000000000000000.wal".to_vec(),
        len: content.len() as u64,
    }];
    assert_eq!(node.open_wal(&Some(snapshot.clone()), listing).unwrap(), false);
    assert_eq!(node.wal_paths(), vec![b"w/0000000000000000-0000000000000000.wal".to_vec()]);
    let replayed = node.reply_wal(&mut store, Some(snapshot.clone()), &vec![content]).unwrap();
    assert_eq!(replayed.snapshot, Some(snapshot));
    assert_eq!(replayed.hard_state, HardState { term: 1, vote: 1, commit: 5 });
    assert_eq!(replayed.entries, ents[3..].to_vec());
    assert_eq!(store.get(b"a"), Some(b"1".to_vec()));
    assert_eq!(node.applied_index(), 3);
    assert_eq!(node.snapshot_index(), 3);
    assert_eq!(node.last_index(), 5);
}

#[test]
fn a_node_without_segments_starts_a_new_log() {
    let mut node = Node::new(1, &vec![], b"w".to_vec(), b"s".to_vec());
    let snapshot = Snapshot { data: vec![], metadata: None };
    assert_eq!(node.open_wal(&Some(snapshot), vec![]).unwrap(), true);
    assert_eq!(node.wal_paths(), vec![b"w/0000000000000000-0000000000000000.wal".to_vec()]);
    let none = node.load_snapshot(&vec![]);
    assert!(none.snapshot.is_none());
}
