use mum::errors::Error;
use mum::kv::Store;
use mum::mumpb::{ConfRequest, KvPair, Op, OpRequest, OpResponse, RaftMessage};
use mum::mumpb_grpc::{create_mum, CallOption, Method, MumClient};
use mum::raftpb::{ConfChange, ConfChangeType};
use mum::server::{MumServer, WorkItem};
use mum::transport::RaftClients;

fn op(field_type: Op, key: &[u8], value: &[u8], limit: u32) -> OpRequest {
    OpRequest { field_type, key: key.to_vec(), value: value.to_vec(), limit }
}

fn change(node_id: u64) -> ConfRequest {
    ConfRequest {
        change: ConfChange {
            id: 0,
            change_type: ConfChangeType::AddNode,
            node_id,
            context: b"h:1".to_vec(),
        },
    }
}

#[test]
fn a_client_describes_its_calls() {
    let c = MumClient::new(b"127.0.0.1:9001".to_vec());
    let req = op(Op::Get, b"a", b"", 0);
    let call = c.op(&req);
    assert_eq!(call.address, b"127.0.0.1:9001".to_vec());
    assert_eq!(call.method, Method::Op);
    assert_eq!(call.request, req.write_to_bytes());
    assert_eq!(call.option, CallOption::default());
    assert!(call.blocking);
    let opt = CallOption { timeout_ms: Some(50), wait_for_ready: true };
    assert_eq!(c.op_opt(&req, opt).option, opt);
    assert!(c.op_opt(&req, opt).blocking);
    assert!(!c.op_async(&req).blocking);
    assert_eq!(c.op_async_opt(&req, opt).option, opt);
    assert!(!c.op_async_opt(&req, opt).blocking);

    let conf = change(3);
    let call = c.conf(&conf).unwrap();
    assert_eq!(call.method, Method::Conf);
    assert_eq!(call.request, conf.write_to_bytes().unwrap());
    assert!(call.blocking);
    assert_eq!(c.conf_opt(&conf, opt).unwrap().option, opt);
    assert!(!c.conf_async(&conf).unwrap().blocking);
    assert!(!c.conf_async_opt(&conf, opt).unwrap().blocking);

    let msg = RaftMessage { message: vec![0x10, 2] };
    let call = c.raft(&msg);
    assert_eq!(call.method, Method::Raft);
    assert_eq!(call.request, vec![0x0a, 2, 0x10, 2]);
    assert!(call.blocking);
    assert_eq!(c.raft_opt(&msg, opt).option, opt);
    assert!(!c.raft_async(&msg).blocking);
    assert!(!c.raft_async_opt(&msg, opt).blocking);
}

#[test]
fn the_procedures_have_their_paths() {
    assert_eq!(Method::Op.path(), b"/mumpb.Mum/Op".to_vec());
    assert_eq!(Method::Conf.path(), b"/mumpb.Mum/Conf".to_vec());
    assert_eq!(Method::Raft.path(), b"/mumpb.Mum/Raft".to_vec());
    assert_eq!(Method::of_path(b"/mumpb.Mum/Raft"), Some(Method::Raft));
    assert_eq!(Method::of_path(b"/mumpb.Mum/raft"), None);
}

#[test]
fn a_client_reads_the_answer_to_an_operation() {
    let r = OpResponse { kvs: vec![KvPair { key: vec![1], value: vec![2] }] };
    assert_eq!(MumClient::op_reply(&r.write_to_bytes()).unwrap(), r);
    assert!(MumClient::op_reply(&[0x0a]).is_err());
    assert!(MumClient::empty_reply(&[]));
    assert!(!MumClient::empty_reply(&[0x0a]));
}

#[test]
fn writes_are_handed_on_and_reads_are_answered_from_the_store() {
    let mut store = Store::new();
    store.set(b"a".to_vec(), b"1".to_vec());
    store.set(b"b".to_vec(), b"2".to_vec());
    store.set(b"c".to_vec(), b"3".to_vec());
    let mut server = MumServer::new();

    let set = op(Op::Put, b"k", b"v", 0);
    assert!(server.op(&store, set.clone()).kvs.is_empty());
    let del = op(Op::Del, b"a", b"", 0);
    assert!(server.op(&store, del.clone()).kvs.is_empty());
    assert_eq!(store.get(b"a"), Some(b"1".to_vec()));
    assert_eq!(store.get(b"k"), None);

    let got = server.op(&store, op(Op::Get, b"a", b"", 0));
    assert_eq!(got.kvs, vec![KvPair { key: b"a".to_vec(), value: b"1".to_vec() }]);
    assert!(server.op(&store, op(Op::Get, b"zz", b"", 0)).kvs.is_empty());

    let scanned = server.op(&store, op(Op::Scan, b"b", b"", 5));
    assert_eq!(
        scanned.kvs,
        vec![
            KvPair { key: b"b".to_vec(), value: b"2".to_vec() },
            KvPair { key: b"c".to_vec(), value: b"3".to_vec() },
        ]
    );
    assert_eq!(server.op(&store, op(Op::Scan, b"a", b"", 1)).kvs.len(), 1);

    server.conf(change(3));
    server.raft(RaftMessage { message: vec![1] });
    let items = server.take_outbox();
    assert_eq!(
        items,
        vec![
            WorkItem::ProposeOp(set),
            WorkItem::ProposeOp(del),
            WorkItem::ProposeConf(change(3)),
            WorkItem::InboundRaft(RaftMessage { message: vec![1] }),
        ]
    );
    assert!(server.take_outbox().is_empty());
}

#[test]
fn a_service_answers_by_path() {
    let mut store = Store::new();
    store.set(b"a".to_vec(), b"1".to_vec());
    let mut service = create_mum(MumServer::new());
    let get = op(Op::Get, b"a", b"", 0).write_to_bytes();
    let reply = service.call(&store, b"/mumpb.Mum/Op", &get).unwrap();
    let expected = OpResponse { kvs: vec![KvPair { key: b"a".to_vec(), value: b"1".to_vec() }] };
    assert_eq!(reply, expected.write_to_bytes());

    let reply = service.call(&store, b"/mumpb.Mum/Conf", &change(2).write_to_bytes().unwrap());
    assert_eq!(reply.unwrap(), Vec::<u8>::new());
    let reply = service.call(&store, b"/mumpb.Mum/Raft", &[0x0a, 1, 7]);
    assert_eq!(reply.unwrap(), Vec::<u8>::new());
    assert_eq!(
        service.handler.take_outbox(),
        vec![
            WorkItem::ProposeConf(change(2)),
            WorkItem::InboundRaft(RaftMessage { message: vec![7] }),
        ]
    );

    assert!(matches!(
        service.call(&store, b"/mumpb.Mum/Nope", &[]),
        Err(Error::UnknownMethod(p)) if p == b"/mumpb.Mum/Nope".to_vec()
    ));
    assert!(matches!(service.call(&store, b"/mumpb.Mum/Op", &[0x08]), Err(Error::Protbuf)));
    assert!(service.handler.take_outbox().is_empty());
}

#[test]
fn messages_go_to_the_address_of_their_addressee() {
    let mut peers = RaftClients::new();
    peers.upsert_peer(1, b"h:1");
    peers.upsert_peer(2, b"h:2");
    let msg = RaftMessage { message: vec![0x10, 2] };
    let call = peers.send(msg.clone()).unwrap();
    assert_eq!(call.address, b"h:2".to_vec());
    assert_eq!(call.method, Method::Raft);
    assert_eq!(call.request, msg.write_to_bytes());
    assert!(!call.blocking);
    assert_eq!(peers.get_conn(2), Some(0));
    assert_eq!(peers.get_conn(1), Some(1));
    assert_eq!(peers.get_conn(2), Some(0));
    assert_eq!(peers.get_conn(7), None);

    assert!(peers.send(RaftMessage { message: vec![0x10, 9] }).is_none());
    assert!(peers.send(RaftMessage { message: vec![0x10] }).is_none());

    peers.upsert_peer(2, b"h:22");
    assert_eq!(peers.address_of(2), Some(b"h:22".to_vec()));
    assert_eq!(peers.send(msg.clone()).unwrap().address, b"h:22".to_vec());
    peers.delete_peer(2);
    assert_eq!(peers.address_of(2), None);
    assert!(peers.send(msg).is_none());
}
