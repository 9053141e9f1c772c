//! The front end: what the server answers to each request, and what it
//! hands on to the driver.
//!
//! Writes and membership changes are handed on and answered at once; reads
//! are answered from the local store and never reach the driver.

use crate::kv::{spec_lookup, spec_scan, Pair, Store};
use crate::mumpb::{
    spec_kvs, ConfRequest, ConfResponse, Done, KvPair, Op, OpRequest, OpResponse, RaftMessage,
};
use crate::mumpb_grpc::Mum;
use crate::layout::copy_of;
use vstd::prelude::*;

verus! {

/// One thing for the driver to do, in the order in which it came in.
#[derive(Clone, Debug, PartialEq)]
pub enum WorkItem {
    /// Step a consensus message from a peer into the consensus library.
    InboundRaft(RaftMessage),
    /// Propose a client write.
    ProposeOp(OpRequest),
    /// Propose a membership change.
    ProposeConf(ConfRequest),
}

/// The pairs that answer the read `req` from a store with the pairs
/// `pairs`: the pair of the key for `Get`, the scan from the key for `Scan`.
pub open spec fn spec_read(pairs: Seq<Pair>, req: crate::mumpb::OpRequestModel) -> Seq<Pair> {
    match req.field_type {
        Op::Get => match spec_lookup(pairs, req.key) {
            Some(v) => seq![(req.key, v)],
            None => Seq::empty(),
        },
        Op::Scan => spec_scan(pairs, req.key, req.limit),
        _ => Seq::empty(),
    }
}

/// Whether an operation changes the store, and so has to go through the
/// driver.
pub open spec fn spec_is_write(op: Op) -> bool {
    op == Op::Put || op == Op::Del
}

/// The server side of the three remote procedures.
#[derive(Debug)]
pub struct MumServer {
    outbox: Vec<WorkItem>,
}

impl MumServer {
    /// The work items that wait to be handed to the driver, oldest first.
    pub closed spec fn spec_outbox(&self) -> Seq<WorkItem> {
        self.outbox@
    }

    /// A server with nothing to hand on.
    pub fn new() -> (s: MumServer)
        ensures
            s.spec_outbox() == Seq::<WorkItem>::empty(),
    {
        MumServer { outbox: Vec::new() }
    }

    /// Hands out the work items that have come in, oldest first, for the
    /// caller to pass to the driver in that order.
    pub fn take_outbox(&mut self) -> (items: Vec<WorkItem>)
        ensures
            items@ == old(self).spec_outbox(),
            final(self).spec_outbox() == Seq::<WorkItem>::empty(),
    {
        let mut items: Vec<WorkItem> = Vec::new();
        core::mem::swap(&mut items, &mut self.outbox);
        items
    }

    /// A consensus message from a peer: it is handed on to the driver.
    pub fn raft(&mut self, req: RaftMessage) -> (done: Done)
        ensures
            final(self).spec_outbox() == old(self).spec_outbox().push(WorkItem::InboundRaft(req)),
    {
        self.outbox.push(WorkItem::InboundRaft(req));
        Done {  }
    }

    /// A client operation. A write is handed on to the driver and answered
    /// with no pairs, before it is committed. A read is answered from
    /// `store`: `Get` with the pair of the key if the store holds it, `Scan`
    /// with the pairs from the key on, up to the limit.
    pub fn op(&mut self, store: &Store, req: OpRequest) -> (resp: OpResponse)
        ensures
            spec_is_write(req.field_type) ==> {
                &&& final(self).spec_outbox() == old(self).spec_outbox().push(
                    WorkItem::ProposeOp(req),
                )
                &&& resp.kvs@.len() == 0
            },
            !spec_is_write(req.field_type) ==> {
                &&& final(self).spec_outbox() == old(self).spec_outbox()
                &&& spec_kvs(resp.kvs@) == spec_read(store.spec_pairs(), req@)
            },
    {
        let mut kvs: Vec<KvPair> = Vec::new();
        match req.field_type {
            Op::Put | Op::Del => {
                self.outbox.push(WorkItem::ProposeOp(req));
            },
            Op::Get => {
                match store.get(req.key.as_slice()) {
                    Some(v) => {
                        kvs.push(KvPair { key: req.key, value: v });
                        assert(spec_kvs(kvs@) =~= seq![(req.key@, v@)]);
                    },
                    None => {
                        assert(spec_kvs(kvs@) =~= Seq::<Pair>::empty());
                    },
                }
            },
            Op::Scan => {
                let found = store.scan(req.key.as_slice(), req.limit);
                let ghost pairs = crate::kv::spec_pair_views(found@);
                let mut i: usize = 0;
                assert(spec_kvs(kvs@) =~= pairs.subrange(0, 0));
                while i < found.len()
                    invariant
                        i <= found@.len(),
                        pairs == crate::kv::spec_pair_views(found@),
                        spec_kvs(kvs@) == pairs.subrange(0, i as int),
                    decreases found@.len() - i,
                {
                    let ghost before = spec_kvs(kvs@);
                    let key = copy_of(found[i].0.as_slice());
                    let value = copy_of(found[i].1.as_slice());
                    kvs.push(KvPair { key, value });
                    assert(spec_kvs(kvs@) =~= before.push((key@, value@)));
                    assert(pairs[i as int] == (found@[i as int].0@, found@[i as int].1@));
                    i = i + 1;
                    assert(pairs.subrange(0, i as int) =~= pairs.subrange(0, i - 1).push(
                        pairs[i - 1],
                    ));
                }
                assert(pairs.subrange(0, i as int) =~= pairs);
            },
        }
        OpResponse { kvs }
    }

    /// A membership change: it is handed on to the driver and answered at
    /// once.
    pub fn conf(&mut self, req: ConfRequest) -> (resp: ConfResponse)
        ensures
            final(self).spec_outbox() == old(self).spec_outbox().push(WorkItem::ProposeConf(req)),
    {
        self.outbox.push(WorkItem::ProposeConf(req));
        ConfResponse {  }
    }
}

impl Mum for MumServer {
    open spec fn spec_answer(&self, pairs: Seq<Pair>, req: crate::mumpb::OpRequestModel) -> Seq<
        Pair,
    > {
        spec_read(pairs, req)
    }

    /// A consensus message from a peer: it is handed on to the driver.
    fn raft(&mut self, req: RaftMessage) -> (done: Done)
        ensures
            final(self).spec_outbox() == old(self).spec_outbox().push(WorkItem::InboundRaft(req)),
    {
        MumServer::raft(self, req)
    }

    fn op(&mut self, store: &Store, req: OpRequest) -> OpResponse {
        MumServer::op(self, store, req)
    }

    /// A membership change: it is handed on to the driver and answered at
    /// once.
    fn conf(&mut self, req: ConfRequest) -> (resp: ConfResponse)
        ensures
            final(self).spec_outbox() == old(self).spec_outbox().push(WorkItem::ProposeConf(req)),
    {
        MumServer::conf(self, req)
    }
}

} // verus!
