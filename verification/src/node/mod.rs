//! The driver: what a node decides on each input and on each batch that the
//! consensus library hands over.
//!
//! The consensus handle, the files and the network stay with the caller.
//! The driver says what to do with them and in which order, and keeps the
//! key-value store, the peer directory and its own indexes in step.

pub mod apply;

use crate::errors::Error;
use crate::kv::{spec_import, spec_map_bytes, Pair, Store};
use crate::layout::copy_of;
use crate::mumpb::{spec_encode_op_request, spec_wrap, RaftMessage};
use crate::mumpb_grpc::{Call, CallModel, CallOption, Method};
use crate::node::apply::{
    ents_to_apply, lemma_applied_grows, no_gap, publish_entries, spec_apply_all,
    spec_change_models, spec_ents_to_apply, spec_no_gap, spec_rising, ApplyModel,
};
use crate::raftpb::{
    ConfChange, ConfState, ConfStateModel, Entry, EntryModel, HardState, Snapshot,
    SnapshotMetadata, SnapshotMetadataModel, SnapshotModel,
};
use crate::server::WorkItem;
use crate::snap::{
    spec_broken_suffix, spec_first_intact, spec_load_snap, spec_snap_file, spec_snap_path, Loaded,
    SnapFile, SnapWrite, Snapshotter,
};
use crate::transport::RaftClients;
use crate::wal::replay::{spec_all_records, spec_entry_models, spec_replay};
use crate::wal::{spec_split_position, SegmentFile, Wal, WalAction};
use crate::wire::{spec_message_to, spec_snapshot_bytes, spec_snapshot_fits};
use vstd::prelude::*;

verus! {

/// How far the applied index may run ahead of the last snapshot before a
/// new snapshot is taken.
pub const SNAPSHOT_TRIG_COUNT: u64 = 1;

/// How many applied entries stay in the log of the consensus library when
/// it is compacted.
pub const SNAPSHOT_CATCH_UP_ENTRIES_N: u64 = 1;

/// What the driver reacts to: a work item from the front end, or a tick of
/// the clock.
#[derive(Debug)]
pub enum Input {
    Work(WorkItem),
    Tick,
}

/// What to call on the consensus handle for an input.
#[derive(Debug, PartialEq)]
pub enum Command {
    /// Step the message into the consensus library.
    Step(RaftMessage),
    /// Propose the encoded client operation.
    Propose(Vec<u8>),
    /// Propose the membership change.
    ProposeConfChange(ConfChange),
    /// Advance the logical clock.
    Tick,
}

/// What the consensus library hands over in one round.
#[derive(Debug)]
pub struct Ready {
    /// The hard state, where it has changed.
    pub hs: Option<HardState>,
    /// The entries to store before anything else happens.
    pub entries: Vec<Entry>,
    /// The entries that are committed and to be applied.
    pub committed_entries: Option<Vec<Entry>>,
    /// A snapshot to install; empty where there is none.
    pub snapshot: Snapshot,
    /// The messages to send to peers.
    pub messages: Vec<RaftMessage>,
    /// Whether what is stored has to be durable before the round goes on.
    pub must_sync: bool,
}

/// The settings of the consensus library.
#[derive(Clone, Copy, Debug, PartialEq, Eq, Structural)]
pub struct RaftConfig {
    pub id: u64,
    pub heartbeat_tick: usize,
    pub election_tick: usize,
    pub max_inflight_msgs: usize,
}

/// A snapshot file to write, and the log segments to give up once it is
/// written.
#[derive(Debug)]
pub struct Saved {
    pub write: SnapWrite,
    pub release: Vec<Vec<u8>>,
}

/// A snapshot from the leader to install: the file and segments first, then
/// the snapshot into the storage of the consensus library.
#[derive(Debug)]
pub struct Install {
    pub saved: Saved,
    pub snapshot: Snapshot,
}

/// A snapshot of the own state machine to take: create it in the storage of
/// the consensus library at `index` with `conf_state` and `data`, compact
/// that storage to `compact_index`, then write the file and give up the
/// segments of `saved`.
#[derive(Debug)]
pub struct Checkpoint {
    pub index: u64,
    pub conf_state: Option<ConfState>,
    pub data: Vec<u8>,
    pub compact_index: u64,
    pub saved: Saved,
}

/// What is left to do in a round once its log records are durable, in this
/// order: append `append` to the storage of the consensus library and set
/// `hard_state` there; install `install`; make the calls of `calls`; apply
/// `changes` on the consensus handle; end the process at once where `halted`
/// is set; take `checkpoint`; tell the consensus library that the round is
/// done.
#[derive(Debug)]
pub struct Round {
    pub append: Vec<Entry>,
    pub hard_state: Option<HardState>,
    pub install: Option<Install>,
    pub calls: Vec<Call>,
    pub changes: Vec<ConfChange>,
    pub halted: bool,
    pub checkpoint: Option<Checkpoint>,
}

/// What replaying the log at start-up leaves for the storage of the
/// consensus library: the snapshot to apply, the hard state to set and the
/// entries to append.
#[derive(Debug)]
pub struct Replayed {
    pub snapshot: Option<Snapshot>,
    pub hard_state: HardState,
    pub entries: Vec<Entry>,
}

/// The address of each peer at start-up: the node with the id `i + 1` lives
/// at the address at position `i`.
pub open spec fn spec_initial_addrs(addrs: Seq<Vec<u8>>) -> Map<u64, Seq<u8>>
    decreases addrs.len(),
{
    if addrs.len() == 0 {
        Map::empty()
    } else {
        spec_initial_addrs(addrs.drop_last()).insert(addrs.len() as u64, addrs.last()@)
    }
}

/// Whether the message with the encoding `msg` can be delivered: it names an
/// addressee whose address is known.
pub open spec fn spec_deliverable(addrs: Map<u64, Seq<u8>>, msg: Seq<u8>) -> bool {
    spec_message_to(msg) matches Some(to) && addrs.contains_key(to)
}

/// The calls that deliver `messages`, in order; a message that cannot be
/// delivered is dropped.
pub open spec fn spec_calls(addrs: Map<u64, Seq<u8>>, messages: Seq<RaftMessage>) -> Seq<CallModel>
    decreases messages.len(),
{
    if messages.len() == 0 {
        Seq::empty()
    } else {
        let rest = spec_calls(addrs, messages.drop_last());
        let msg = messages.last().message@;
        if spec_deliverable(addrs, msg) {
            rest.push(
                CallModel {
                    address: addrs[spec_message_to(msg)->0],
                    method: Method::Raft,
                    request: spec_wrap(msg),
                    option: CallOption::spec_default(),
                    blocking: false,
                },
            )
        } else {
            rest
        }
    }
}

/// The views of a vector of calls.
pub open spec fn spec_call_models(calls: Seq<Call>) -> Seq<CallModel> {
    calls.map_values(|c: Call| c@)
}

/// The index of a snapshot: that of its metadata, or 0 without metadata.
pub open spec fn spec_snapshot_index(s: Snapshot) -> u64 {
    match s.metadata {
        Some(md) => md.index,
        None => 0,
    }
}

/// How many of the segments with the sequence numbers and starting indexes
/// `indexes` a snapshot at `index` makes unnecessary: those before the
/// segment that holds `index`.
pub open spec fn spec_released(indexes: Seq<(u64, u64)>, index: u64) -> int {
    if spec_split_position(indexes, index) < 0 {
        0
    } else {
        spec_split_position(indexes, index)
    }
}

/// The index at which the log of the consensus library is cut when a
/// snapshot is taken at `applied`.
pub open spec fn spec_compact_index(applied: u64) -> u64 {
    if applied > SNAPSHOT_CATCH_UP_ENTRIES_N {
        (applied - SNAPSHOT_CATCH_UP_ENTRIES_N) as u64
    } else {
        1
    }
}

/// Whether a snapshot is due: the applied index has run ahead of the last
/// snapshot by more than `SNAPSHOT_TRIG_COUNT`.
pub open spec fn spec_snapshot_due(applied: u64, snapshot_index: u64) -> bool {
    applied - snapshot_index > SNAPSHOT_TRIG_COUNT
}

/// The calls that deliver `messages` through `peers`, in order.
pub fn send_all(peers: &mut RaftClients, messages: &Vec<RaftMessage>) -> (calls: Vec<Call>)
    requires
        old(peers).wf(),
    ensures
        final(peers).wf(),
        final(peers).spec_addrs() == old(peers).spec_addrs(),
        spec_call_models(calls@) == spec_calls(old(peers).spec_addrs(), messages@),
{
    let mut calls: Vec<Call> = Vec::new();
    let mut i: usize = 0;
    assert(spec_call_models(calls@) =~= spec_calls(peers.spec_addrs(), messages@.subrange(0, 0)));
    while i < messages.len()
        invariant
            i <= messages@.len(),
            peers.wf(),
            peers.spec_addrs() == old(peers).spec_addrs(),
            spec_call_models(calls@) == spec_calls(
                old(peers).spec_addrs(),
                messages@.subrange(0, i as int),
            ),
        decreases messages@.len() - i,
    {
        let ghost before = spec_call_models(calls@);
        proof {
            let upto = messages@.subrange(0, i + 1);
            assert(upto.drop_last() =~= messages@.subrange(0, i as int));
            assert(upto.last() == messages@[i as int]);
        }
        let m = RaftMessage { message: copy_of(messages[i].message.as_slice()) };
        match peers.send(m) {
            Some(c) => {
                calls.push(c);
                assert(spec_call_models(calls@) =~= before.push(c@));
            },
            None => {},
        }
        i = i + 1;
    }
    assert(messages@.subrange(0, i as int) =~= messages@);
    calls
}

/// The driver of one node.
pub struct Node {
    id: u64,
    applied_index: u64,
    applied_term: u64,
    snapshot_index: u64,
    conf_state: Option<ConfState>,
    wal_dir: Vec<u8>,
    snapshotter: Snapshotter,
    wal: Option<Wal>,
    last_index: u64,
    raft_clients: RaftClients,
    conf_id: u64,
    pending: Option<Ready>,
}

impl Node {
    /// The id of the node.
    pub closed spec fn spec_id(&self) -> u64 {
        self.id
    }

    /// The index of the last entry whose effect the store reflects.
    pub closed spec fn spec_applied_index(&self) -> u64 {
        self.applied_index
    }

    /// The term of the last entry or snapshot applied.
    pub closed spec fn spec_applied_term(&self) -> u64 {
        self.applied_term
    }

    /// The index of the last snapshot taken or installed.
    pub closed spec fn spec_snapshot_index(&self) -> u64 {
        self.snapshot_index
    }

    /// The members of the cluster as of the last snapshot.
    pub closed spec fn spec_conf_state(&self) -> Option<ConfState> {
        self.conf_state
    }

    /// The directory of the log.
    pub closed spec fn spec_wal_dir(&self) -> Seq<u8> {
        self.wal_dir@
    }

    /// The snapshotter.
    pub closed spec fn spec_snapshotter(&self) -> Snapshotter {
        self.snapshotter
    }

    /// The log, once it is opened.
    pub closed spec fn spec_wal(&self) -> Option<Wal> {
        self.wal
    }

    /// The index of the last entry found at start-up.
    pub closed spec fn spec_last_index(&self) -> u64 {
        self.last_index
    }

    /// The peer directory.
    pub closed spec fn spec_peers(&self) -> RaftClients {
        self.raft_clients
    }

    /// The id given to the last membership change proposed.
    pub closed spec fn spec_conf_id(&self) -> u64 {
        self.conf_id
    }

    /// The batch whose log records are being made durable, if any.
    pub closed spec fn spec_pending(&self) -> Option<Ready> {
        self.pending
    }

    /// What holds of every driver: the peer directory and the log are well
    /// formed.
    pub closed spec fn wf(&self) -> bool {
        &&& self.raft_clients.wf()
        &&& (self.wal matches Some(w) ==> w.wf())
    }

    /// The driver of the node `id` in a cluster whose node `i + 1` lives at
    /// `addrs[i]`, with its log in `wal_dir` and its snapshots in
    /// `snap_dir`. Nothing is applied and no log is opened yet.
    pub fn new(id: u64, addrs: &Vec<Vec<u8>>, wal_dir: Vec<u8>, snap_dir: Vec<u8>) -> (n: Node)
        ensures
            n.wf(),
            n.spec_id() == id,
            n.spec_applied_index() == 0,
            n.spec_snapshot_index() == 0,
            n.spec_conf_state() is None,
            n.spec_wal() is None,
            n.spec_pending() is None,
            n.spec_conf_id() == 0,
            n.spec_last_index() == 0,
            n.spec_wal_dir() == wal_dir@,
            n.spec_snapshotter().spec_dir() == snap_dir@,
            n.spec_peers().spec_addrs() == spec_initial_addrs(addrs@),
    {
        let mut raft_clients = RaftClients::new();
        let mut i: usize = 0;
        while i < addrs.len()
            invariant
                i <= addrs@.len(),
                raft_clients.wf(),
                raft_clients.spec_addrs() == spec_initial_addrs(addrs@.subrange(0, i as int)),
            decreases addrs@.len() - i,
        {
            proof {
                let next = addrs@.subrange(0, i + 1);
                assert(next.drop_last() =~= addrs@.subrange(0, i as int));
                assert(next.last() == addrs@[i as int]);
            }
            raft_clients.upsert_peer((i + 1) as u64, addrs[i].as_slice());
            i = i + 1;
        }
        assert(addrs@.subrange(0, i as int) =~= addrs@);
        Node {
            id,
            applied_index: 0,
            applied_term: 0,
            snapshot_index: 0,
            conf_state: None,
            wal_dir,
            snapshotter: Snapshotter::new(snap_dir),
            wal: None,
            last_index: 0,
            raft_clients,
            conf_id: 0,
            pending: None,
        }
    }

    /// The settings of the consensus library for this node: a heartbeat
    /// every ten ticks, an election after ten heartbeats without one, at
    /// most ten messages in flight.
    pub fn config(&self) -> (cfg: RaftConfig)
        ensures
            cfg == (RaftConfig {
                id: self.spec_id(),
                heartbeat_tick: 10,
                election_tick: 100,
                max_inflight_msgs: 10,
            }),
    {
        RaftConfig { id: self.id, heartbeat_tick: 10, election_tick: 100, max_inflight_msgs: 10 }
    }

    /// The index of the last entry whose effect the store reflects.
    pub fn applied_index(&self) -> (i: u64)
        ensures
            i == self.spec_applied_index(),
    {
        self.applied_index
    }

    /// The index of the last snapshot taken or installed.
    pub fn snapshot_index(&self) -> (i: u64)
        ensures
            i == self.spec_snapshot_index(),
    {
        self.snapshot_index
    }

    /// The index of the last entry found at start-up.
    pub fn last_index(&self) -> (i: u64)
        ensures
            i == self.spec_last_index(),
    {
        self.last_index
    }

    /// What to call on the consensus handle for `input`: one call for each
    /// input. A message from a peer is stepped in, a client write is
    /// proposed in its encoding, a membership change is proposed under the
    /// next local id, a tick advances the clock. Local ids count up from 1
    /// and stay at the largest `u64` once they reach it.
    pub fn dispatch(&mut self, input: Input) -> (cmd: Command)
        ensures
            match input {
                Input::Work(WorkItem::InboundRaft(msg)) => {
                    &&& cmd == Command::Step(msg)
                    &&& final(self).spec_conf_id() == old(self).spec_conf_id()
                },
                Input::Work(WorkItem::ProposeOp(op)) => {
                    &&& cmd matches Command::Propose(data)
                    &&& data@ == spec_encode_op_request(op@)
                    &&& final(self).spec_conf_id() == old(self).spec_conf_id()
                },
                Input::Work(WorkItem::ProposeConf(conf)) => {
                    &&& cmd matches Command::ProposeConfChange(change)
                    &&& change.id == final(self).spec_conf_id()
                    &&& change.change_type == conf.change.change_type
                    &&& change.node_id == conf.change.node_id
                    &&& change.context == conf.change.context
                    &&& final(self).spec_conf_id() == (if old(self).spec_conf_id() < u64::MAX {
                        (old(self).spec_conf_id() + 1) as u64
                    } else {
                        u64::MAX
                    })
                },
                Input::Tick => cmd == Command::Tick && final(self).spec_conf_id() == old(self).spec_conf_id(),
            },
            final(self).spec_id() == old(self).spec_id(),
            final(self).spec_applied_index() == old(self).spec_applied_index(),
            final(self).spec_applied_term() == old(self).spec_applied_term(),
            final(self).spec_snapshot_index() == old(self).spec_snapshot_index(),
            final(self).spec_conf_state() == old(self).spec_conf_state(),
            final(self).spec_wal() == old(self).spec_wal(),
            final(self).spec_peers() == old(self).spec_peers(),
            final(self).spec_pending() == old(self).spec_pending(),
            final(self).spec_snapshotter() == old(self).spec_snapshotter(),
            old(self).wf() ==> final(self).wf(),
    {
        match input {
            Input::Work(WorkItem::InboundRaft(msg)) => Command::Step(msg),
            Input::Work(WorkItem::ProposeOp(op)) => Command::Propose(op.write_to_bytes()),
            Input::Work(WorkItem::ProposeConf(conf)) => {
                if self.conf_id < u64::MAX {
                    self.conf_id = self.conf_id + 1;
                }
                let mut change = conf.change;
                change.id = self.conf_id;
                Command::ProposeConfChange(change)
            },
            Input::Tick => Command::Tick,
        }
    }

    /// Picks the snapshot to start from among `files`, the snapshot files of
    /// the snapshot directory, newest first: the snapshot of the first file
    /// that loads. Every file in front of it is corrupt and is to be renamed
    /// with `.broken` added.
    pub fn load_snapshot(&self, files: &Vec<SnapFile>) -> (out: Loaded)
        ensures
            ({
                let k = spec_first_intact(files@);
                &&& 0 <= k <= files@.len()
                &&& (k == files@.len() ==> out.snapshot is None)
                &&& (k < files@.len() ==> (out.snapshot matches Some(s)
                    && spec_load_snap(files@[k].bytes@) == Ok::<SnapshotModel, Error>(
                    s@,
                )))
                &&& out.broken@.len() == k
                &&& forall|i: int|
                    0 <= i < k ==> {
                        &&& (#[trigger] out.broken@[i]).from@ == files@[i].path@
                        &&& out.broken@[i].to@ == files@[i].path@
                            + spec_broken_suffix()
                    }
            }),
    {
        self.snapshotter.load(files)
    }

    /// The term of a snapshot: that of its metadata, or 0 without metadata.
    pub open spec fn spec_term_of(s: Snapshot) -> u64 {
        match s.metadata {
            Some(md) => md.term,
            None => 0,
        }
    }

    /// The members that a snapshot names: those of its metadata, or none.
    pub open spec fn spec_members_of(s: Snapshot) -> ConfStateModel {
        match s.metadata {
            Some(md) => match md.conf_state {
                Some(cs) => cs@,
                None => ConfStateModel { nodes: Seq::empty(), learners: Seq::empty() },
            },
            None => ConfStateModel { nodes: Seq::empty(), learners: Seq::empty() },
        }
    }

    fn members_of(s: &Snapshot) -> (cs: ConfState)
        ensures
            cs@ == Node::spec_members_of(*s),
    {
        let mut nodes: Vec<u64> = Vec::new();
        let mut learners: Vec<u64> = Vec::new();
        match &s.metadata {
            Some(md) => match &md.conf_state {
                Some(cs) => {
                    nodes = copy_ids(&cs.nodes);
                    learners = copy_ids(&cs.learners);
                },
                None => {},
            },
            None => {},
        }
        ConfState { nodes, learners }
    }

    fn index_of(s: &Snapshot) -> (i: u64)
        ensures
            i == spec_snapshot_index(*s),
    {
        match &s.metadata {
            Some(md) => md.index,
            None => 0,
        }
    }

    fn term_of(s: &Snapshot) -> (t: u64)
        ensures
            t == Node::spec_term_of(*s),
    {
        match &s.metadata {
            Some(md) => md.term,
            None => 0,
        }
    }

    /// Opens the log. `snap` is the snapshot that the node starts from, if
    /// any, and `listing` holds the segment files of the log directory in
    /// ascending order of their names. With segment files and a snapshot
    /// the log is opened at the term and index of the snapshot; else a new
    /// log is created. Returns whether the log is new. The caller opens and
    /// locks the files of the segments, or creates and locks the one of a
    /// new log.
    pub fn open_wal(&mut self, snap: &Option<Snapshot>, listing: Vec<SegmentFile>) -> (out: Result<
        bool,
        Error,
    >)
        requires
            old(self).wf(),
        ensures
            final(self).wf(),
            final(self).spec_id() == old(self).spec_id(),
            final(self).spec_applied_index() == old(self).spec_applied_index(),
            final(self).spec_snapshot_index() == old(self).spec_snapshot_index(),
            final(self).spec_peers() == old(self).spec_peers(),
            final(self).spec_pending() == old(self).spec_pending(),
            final(self).spec_snapshotter() == old(self).spec_snapshotter(),
            final(self).spec_wal_dir() == old(self).spec_wal_dir(),
            match *snap {
                Some(s) if listing@.len() > 0 => Wal::spec_open_at_post(
                    old(self).spec_wal_dir(),
                    Some(listing),
                    (Node::spec_term_of(s), spec_snapshot_index(s)),
                    match out {
                        Ok(_) => Ok(final(self).spec_wal().unwrap()),
                        Err(e) => Err(e),
                    },
                ) && (out matches Ok(fresh) ==> !fresh && final(self).spec_wal() is Some) && (out is Err
                    ==> final(self).spec_wal() == old(self).spec_wal()),
                _ => out matches Ok(true) && final(self).spec_wal() matches Some(w)
                    && Wal::spec_created(w, old(self).spec_wal_dir()),
            },
    {
        let dir = copy_of(self.wal_dir.as_slice());
        match snap {
            Some(s) => {
                if listing.len() > 0 {
                    let at = (Node::term_of(s), Node::index_of(s));
                    let wal = Wal::open_at(dir, Some(listing), at)?;
                    self.wal = Some(wal);
                    return Ok(false);
                }
            },
            None => {},
        }
        self.wal = Some(Wal::create(dir));
        Ok(true)
    }

    /// The paths of the segment files of the log, oldest first.
    pub fn wal_paths(&self) -> (paths: Vec<Vec<u8>>)
        requires
            self.spec_wal() is Some,
        ensures
            paths@.len() == self.spec_wal().unwrap().spec_segments().len(),
            forall|i: int|
                0 <= i < paths@.len() ==> (#[trigger] paths@[i])@
                    == self.spec_wal().unwrap().spec_segments()[i].spec_path(),
    {
        match &self.wal {
            Some(w) => w.segment_paths(),
            None => Vec::new(),
        }
    }

    /// Replays the log at start-up. `snap` is the snapshot that the node
    /// starts from, if any, and `contents` holds the bytes of the segment
    /// files of the log, oldest first.
    ///
    /// The store takes the pairs of the snapshot, and the applied index and
    /// the snapshot index become the index of the snapshot, or 0 without
    /// one. The result is what the storage of the consensus library needs:
    /// the snapshot, the hard state stored last, and the entries behind the
    /// snapshot. The call fails with the error of the first record that
    /// fails, or with `Error::Bincode` where the data of the snapshot
    /// encodes no store.
    pub fn reply_wal(&mut self, store: &mut Store, snap: Option<Snapshot>, contents: &Vec<Vec<u8>>) -> (out:
        Result<Replayed, Error>)
        requires
            old(self).wf(),
            old(self).spec_wal() is Some,
        ensures
            final(self).wf(),
            final(self).spec_id() == old(self).spec_id(),
            final(self).spec_peers() == old(self).spec_peers(),
            final(self).spec_pending() == old(self).spec_pending(),
            final(self).spec_wal() is Some,
            ({
                let wal = old(self).spec_wal().unwrap();
                match spec_replay(spec_all_records(contents@), wal.spec_start(), wal.spec_enti()) {
                    Err(e) => out matches Err(err) && err == e && final(store).spec_pairs() == old(
                        store,
                    ).spec_pairs(),
                    Ok(rep) => match snap {
                        Some(s) if spec_import(s.data@) is None => out matches Err(Error::Bincode)
                            && final(store).spec_pairs() == old(store).spec_pairs(),
                        _ => {
                            &&& out matches Ok(r)
                            &&& r.snapshot == snap
                            &&& r.hard_state == rep.state
                            &&& spec_entry_models(r.entries@) == rep.entries
                            &&& final(store).spec_pairs() == (match snap {
                                Some(s) => spec_import(s.data@).unwrap(),
                                None => old(store).spec_pairs(),
                            })
                            &&& final(self).spec_applied_index() == (match snap {
                                Some(s) => spec_snapshot_index(s),
                                None => 0,
                            })
                            &&& final(self).spec_snapshot_index() == final(self).spec_applied_index()
                            &&& final(self).spec_last_index() == (if rep.entries.len() > 0 {
                                rep.entries.last().index
                            } else {
                                old(self).spec_last_index()
                            })
                            &&& final(self).spec_applied_term() == (match snap {
                                Some(s) => Node::spec_term_of(s),
                                None => 0,
                            })
                            &&& final(self).spec_conf_state() matches Some(cs)
                            &&& cs@ == (match snap {
                                Some(s) => Node::spec_members_of(s),
                                None => ConfStateModel {
                                    nodes: Seq::empty(),
                                    learners: Seq::empty(),
                                },
                            })
                        },
                    },
                }
            }),
    {
        let mut wal = self.wal.take().unwrap();
        let read = wal.read_all(contents);
        self.wal = Some(wal);
        let (hs, ents) = read?;
        match &snap {
            Some(s) => {
                store.from_snapshot(s)?;
                self.conf_state = Some(Node::members_of(s));
                self.applied_index = Node::index_of(s);
                self.applied_term = Node::term_of(s);
            },
            None => {
                self.conf_state = Some(ConfState { nodes: Vec::new(), learners: Vec::new() });
                self.applied_index = 0;
                self.applied_term = 0;
            },
        }
        self.snapshot_index = self.applied_index;
        if ents.len() > 0 {
            assert(spec_entry_models(ents@).last() == ents@[ents@.len() - 1]@);
            self.last_index = ents[ents.len() - 1].index;
        }
        Ok(Replayed { snapshot: snap, hard_state: hs, entries: ents })
    }

    /// The file to write for `snap` and the log segments that it makes
    /// unnecessary: those before the segment that holds the index of the
    /// snapshot. The segments leave the log at once; the caller writes the
    /// file first and then releases their locks. Fails, and keeps every
    /// segment, with `Error::MissMetadata` exactly where the snapshot has no
    /// metadata and with `Error::Protbuf` exactly where it has and is too
    /// large to be encoded.
    pub fn save_snap(&mut self, snap: &Snapshot) -> (out: Result<Saved, Error>)
        requires
            old(self).wf(),
            old(self).spec_wal() is Some,
        ensures
            final(self).wf(),
            final(self).spec_wal() is Some,
            final(self).spec_id() == old(self).spec_id(),
            final(self).spec_applied_index() == old(self).spec_applied_index(),
            final(self).spec_applied_term() == old(self).spec_applied_term(),
            final(self).spec_snapshot_index() == old(self).spec_snapshot_index(),
            final(self).spec_conf_state() == old(self).spec_conf_state(),
            final(self).spec_peers() == old(self).spec_peers(),
            final(self).spec_pending() == old(self).spec_pending(),
            final(self).spec_snapshotter() == old(self).spec_snapshotter(),
            final(self).spec_conf_id() == old(self).spec_conf_id(),
            ({
                let before = old(self).spec_wal().unwrap();
                let after = final(self).spec_wal().unwrap();
                if snap.metadata is None {
                    out matches Err(Error::MissMetadata) && after == before
                } else if !spec_snapshot_fits(snap@) {
                    out matches Err(Error::Protbuf) && after == before
                } else {
                    let pos = spec_split_position(before.spec_indexes(), spec_snapshot_index(*snap));
                    let keep = if pos < 0 {
                        0
                    } else {
                        pos
                    };
                    &&& out matches Ok(saved)
                    &&& saved.write.path@ == spec_snap_path(
                        old(self).spec_snapshotter().spec_dir(),
                        spec_snapshot_index(*snap),
                        Node::spec_term_of(*snap),
                    )
                    &&& saved.write.bytes@ == spec_snap_file(spec_snapshot_bytes(snap@))
                    &&& saved.release@.len() == keep
                    &&& forall|k: int|
                        0 <= k < keep ==> (#[trigger] saved.release@[k])@
                            == before.spec_segments()[k].spec_path()
                    &&& after.spec_segments() == before.spec_segments().skip(keep)
                    &&& after.spec_indexes() == before.spec_indexes().skip(keep)
                }
            }),
    {
        let write = self.snapshotter.save(snap)?;
        let mut wal = self.wal.take().unwrap();
        let release = wal.release_lock_to(Node::index_of(snap));
        self.wal = Some(wal);
        Ok(Saved { write, release })
    }

    /// Makes the state of `snap` the state of the node: the store takes its
    /// pairs, and the applied index and the snapshot index become its
    /// index. Fails, and changes nothing, with `Error::SnapMissMatch` where
    /// the snapshot is not newer than what is applied, and with
    /// `Error::Bincode` where its data encodes no store.
    pub fn publish_snapshot(&mut self, store: &mut Store, snap: &Snapshot) -> (out: Result<(), Error>)
        requires
            old(self).wf(),
        ensures
            final(self).wf(),
            final(self).spec_id() == old(self).spec_id(),
            final(self).spec_wal() == old(self).spec_wal(),
            final(self).spec_peers() == old(self).spec_peers(),
            final(self).spec_pending() == old(self).spec_pending(),
            final(self).spec_snapshotter() == old(self).spec_snapshotter(),
            final(self).spec_conf_id() == old(self).spec_conf_id(),
            if spec_snapshot_index(*snap) <= old(self).spec_applied_index() {
                &&& out matches Err(Error::SnapMissMatch)
                &&& final(store).spec_pairs() == old(store).spec_pairs()
                &&& final(self).spec_applied_index() == old(self).spec_applied_index()
                &&& final(self).spec_applied_term() == old(self).spec_applied_term()
                &&& final(self).spec_snapshot_index() == old(self).spec_snapshot_index()
                &&& final(self).spec_conf_state() == old(self).spec_conf_state()
            } else if spec_import(snap.data@) is None {
                &&& out matches Err(Error::Bincode)
                &&& final(store).spec_pairs() == old(store).spec_pairs()
                &&& final(self).spec_applied_index() == old(self).spec_applied_index()
                &&& final(self).spec_applied_term() == old(self).spec_applied_term()
                &&& final(self).spec_snapshot_index() == old(self).spec_snapshot_index()
                &&& final(self).spec_conf_state() == old(self).spec_conf_state()
            } else {
                &&& out is Ok
                &&& final(store).spec_pairs() == spec_import(snap.data@).unwrap()
                &&& final(self).spec_applied_index() == spec_snapshot_index(*snap)
                &&& final(self).spec_applied_term() == Node::spec_term_of(*snap)
                &&& final(self).spec_snapshot_index() == spec_snapshot_index(*snap)
                &&& final(self).spec_conf_state() matches Some(cs) && cs@ == Node::spec_members_of(
                    *snap,
                )
            },
    {
        let idx = Node::index_of(snap);
        if idx <= self.applied_index {
            return Err(Error::SnapMissMatch);
        }
        store.from_snapshot(snap)?;
        self.conf_state = Some(Node::members_of(snap));
        self.snapshot_index = idx;
        self.applied_index = idx;
        self.applied_term = Node::term_of(snap);
        Ok(())
    }

    /// The members of a cluster as contracts see them, where they are known.
    pub open spec fn spec_members_view(cs: Option<ConfState>) -> Option<
        ConfStateModel,
    > {
        match cs {
            Some(c) => Some(c@),
            None => None,
        }
    }

    /// The snapshot of the own state machine at the applied index `index`
    /// with the term `term`: the members `conf_state` and the store as bytes.
    pub open spec fn spec_checkpoint(
        pairs: Seq<Pair>,
        conf_state: Option<ConfState>,
        index: u64,
        term: u64,
    ) -> SnapshotModel {
        SnapshotModel {
            data: spec_map_bytes(pairs),
            metadata: Some(
                SnapshotMetadataModel {
                    conf_state: match conf_state {
                        Some(cs) => Some(cs@),
                        None => None,
                    },
                    index,
                    term,
                },
            ),
        }
    }

    /// Takes a snapshot of the store where one is due: where the applied
    /// index has run ahead of the last snapshot by more than
    /// `SNAPSHOT_TRIG_COUNT`. The snapshot holds the store as bytes at the
    /// applied index and term, with the members of the last snapshot; the
    /// snapshot index becomes the applied index. Fails with
    /// `Error::Protbuf`, and keeps the snapshot index, exactly where a
    /// snapshot is due and too large to be encoded.
    pub fn maybe_trigger_snapshot(&mut self, store: &Store) -> (out: Result<
        Option<Checkpoint>,
        Error,
    >)
        requires
            old(self).wf(),
            old(self).spec_wal() is Some,
        ensures
            final(self).wf(),
            final(self).spec_wal() is Some,
            final(self).spec_id() == old(self).spec_id(),
            final(self).spec_applied_index() == old(self).spec_applied_index(),
            final(self).spec_applied_term() == old(self).spec_applied_term(),
            final(self).spec_conf_state() == old(self).spec_conf_state(),
            final(self).spec_peers() == old(self).spec_peers(),
            final(self).spec_pending() == old(self).spec_pending(),
            final(self).spec_snapshotter() == old(self).spec_snapshotter(),
            ({
                let applied = old(self).spec_applied_index();
                let snap = Node::spec_checkpoint(
                    store.spec_pairs(),
                    old(self).spec_conf_state(),
                    applied,
                    old(self).spec_applied_term(),
                );
                if !spec_snapshot_due(applied, old(self).spec_snapshot_index()) {
                    &&& out matches Ok(None)
                    &&& final(self).spec_snapshot_index() == old(self).spec_snapshot_index()
                    &&& final(self).spec_wal() == old(self).spec_wal()
                } else if !spec_snapshot_fits(snap) {
                    &&& out matches Err(Error::Protbuf)
                    &&& final(self).spec_snapshot_index() == old(self).spec_snapshot_index()
                    &&& final(self).spec_wal() == old(self).spec_wal()
                } else {
                    &&& out matches Ok(Some(cp))
                    &&& cp.index == applied
                    &&& Node::spec_members_view(cp.conf_state) == Node::spec_members_view(
                        old(self).spec_conf_state(),
                    )
                    &&& cp.data@ == spec_map_bytes(store.spec_pairs())
                    &&& cp.compact_index == spec_compact_index(applied)
                    &&& cp.saved.write.path@ == spec_snap_path(
                        old(self).spec_snapshotter().spec_dir(),
                        applied,
                        old(self).spec_applied_term(),
                    )
                    &&& cp.saved.write.bytes@ == spec_snap_file(spec_snapshot_bytes(snap))
                    &&& ({
                        let before = old(self).spec_wal().unwrap();
                        let after = final(self).spec_wal().unwrap();
                        let pos = spec_split_position(before.spec_indexes(), applied);
                        let keep = if pos < 0 {
                            0
                        } else {
                            pos
                        };
                        &&& cp.saved.release@.len() == keep
                        &&& forall|k: int|
                            0 <= k < keep ==> (#[trigger] cp.saved.release@[k])@
                                == before.spec_segments()[k].spec_path()
                        &&& after.spec_segments() == before.spec_segments().skip(keep)
                        &&& after.spec_indexes() == before.spec_indexes().skip(keep)
                    })
                    &&& final(self).spec_snapshot_index() == applied
                }
            }),
    {
        if !(self.applied_index > self.snapshot_index && self.applied_index - self.snapshot_index
            > SNAPSHOT_TRIG_COUNT) {
            return Ok(None);
        }
        let data = match store.get_snapshot() {
            Ok(d) => d,
            Err(e) => {
                return Err(e);
            },
        };
        let conf_state = match &self.conf_state {
            Some(cs) => Some(
                ConfState { nodes: copy_ids(&cs.nodes), learners: copy_ids(&cs.learners) },
            ),
            None => None,
        };
        let snap = Snapshot {
            data: copy_of(data.as_slice()),
            metadata: Some(
                SnapshotMetadata { conf_state, index: self.applied_index, term: self.applied_term },
            ),
        };
        assert(snap@ == Node::spec_checkpoint(
            store.spec_pairs(),
            self.spec_conf_state(),
            self.applied_index,
            self.applied_term,
        ));
        let compact_index = if self.applied_index > SNAPSHOT_CATCH_UP_ENTRIES_N {
            self.applied_index - SNAPSHOT_CATCH_UP_ENTRIES_N
        } else {
            1
        };
        let saved = self.save_snap(&snap)?;
        let index = self.applied_index;
        self.snapshot_index = self.applied_index;
        let conf_state = match snap.metadata {
            Some(md) => md.conf_state,
            None => None,
        };
        Ok(Some(Checkpoint { index, conf_state, data, compact_index, saved }))
    }

    /// The first step of a round: stores the entries and the hard state of
    /// `ready` in the log, and keeps the batch until its records are
    /// durable. The store is out of reach of this step: nothing is applied
    /// before the caller has done what the result asks for and calls
    /// `after_persist`. On an error the batch is dropped and the log is as
    /// `Wal::insert` leaves it.
    pub fn on_ready(&mut self, ready: Ready) -> (out: Result<WalAction, Error>)
        requires
            old(self).wf(),
            old(self).spec_wal() is Some,
            old(self).spec_pending() is None,
        ensures
            final(self).wf(),
            final(self).spec_wal() is Some,
            Wal::spec_insert_post(
                old(self).spec_wal().unwrap(),
                final(self).spec_wal().unwrap(),
                ready.hs,
                ready.entries@,
                ready.must_sync,
                out,
            ),
            out is Ok ==> final(self).spec_pending() == Some(ready),
            out is Err ==> final(self).spec_pending() is None,
            final(self).spec_id() == old(self).spec_id(),
            final(self).spec_applied_index() == old(self).spec_applied_index(),
            final(self).spec_applied_term() == old(self).spec_applied_term(),
            final(self).spec_snapshot_index() == old(self).spec_snapshot_index(),
            final(self).spec_conf_state() == old(self).spec_conf_state(),
            final(self).spec_peers() == old(self).spec_peers(),
            final(self).spec_snapshotter() == old(self).spec_snapshotter(),
    {
        let mut wal = self.wal.take().unwrap();
        let out = wal.insert(ready.hs, &ready.entries, ready.must_sync);
        self.wal = Some(wal);
        if out.is_ok() {
            self.pending = Some(ready);
        }
        out
    }

    /// Whether the round that is pending can go on: its committed entries
    /// follow what will be applied, counting the snapshot to install,
    /// without a gap. A caller must not call `after_persist` otherwise.
    pub open spec fn spec_can_go_on(&self) -> bool {
        match self.spec_pending() {
            Some(ready) => {
                let a0 = if !ready.snapshot.spec_is_empty() {
                    spec_snapshot_index(ready.snapshot)
                } else {
                    self.spec_applied_index()
                };
                match ready.committed_entries {
                    Some(v) => spec_no_gap(spec_entry_models(v@), a0),
                    None => true,
                }
            },
            None => false,
        }
    }

    /// Whether the round that is pending can go on.
    pub fn can_go_on(&self) -> (ok: bool)
        ensures
            ok == self.spec_can_go_on(),
    {
        match &self.pending {
            Some(ready) => {
                let a0 = if !ready.snapshot.is_empty() {
                    Node::index_of(&ready.snapshot)
                } else {
                    self.applied_index
                };
                match &ready.committed_entries {
                    Some(v) => no_gap(v, a0),
                    None => true,
                }
            },
            None => false,
        }
    }

    /// The rest of a round, once the caller has made the log records of the
    /// pending batch durable.
    ///
    /// A snapshot that the batch carries is installed: the store takes its
    /// pairs and the indexes move to its index. The messages of the batch
    /// become calls. The committed entries that are not applied yet are
    /// applied to the store and the peer directory, in order. Unless the
    /// node has halted, a snapshot of the store is taken where one is due.
    /// Where the indexes of the entries to apply do not fall, the applied
    /// index stays at or ahead of the snapshot index.
    ///
    /// The call fails with `Error::SnapMissMatch` where the snapshot to
    /// install is not newer than what is applied, with `Error::Protbuf`
    /// where it or the snapshot to take is too large to be encoded or where
    /// the payload of a committed entry does not decode, with
    /// `Error::Bincode` where the data of the snapshot to install encodes no
    /// store, and with `Error::Utf8` where the address of a node to add is
    /// not UTF-8. After an error the state is unrecoverable and the driver
    /// must not be used again.
    pub fn after_persist(&mut self, store: &mut Store) -> (out: Result<Round, Error>)
        requires
            old(self).wf(),
            old(self).spec_wal() is Some,
            old(self).spec_can_go_on(),
        ensures
            final(self).wf(),
            final(self).spec_wal() is Some,
            final(self).spec_pending() is None,
            final(self).spec_id() == old(self).spec_id(),
            ({
                let ready = old(self).spec_pending().unwrap();
                let id = old(self).spec_id();
                let installs = !ready.snapshot.spec_is_empty();
                let stale = installs && spec_snapshot_index(ready.snapshot) <= old(self).spec_applied_index();
                let unfit = installs && ready.snapshot.metadata is Some && !spec_snapshot_fits(
                    ready.snapshot@,
                );
                let no_store = installs && spec_import(ready.snapshot.data@) is None;
                let a0 = if installs {
                    spec_snapshot_index(ready.snapshot)
                } else {
                    old(self).spec_applied_index()
                };
                let t0 = if installs {
                    Node::spec_term_of(ready.snapshot)
                } else {
                    old(self).spec_applied_term()
                };
                let s0 = if installs {
                    spec_snapshot_index(ready.snapshot)
                } else {
                    old(self).spec_snapshot_index()
                };
                let pairs0 = if installs {
                    spec_import(ready.snapshot.data@).unwrap()
                } else {
                    old(store).spec_pairs()
                };
                let left = match ready.committed_entries {
                    Some(v) => spec_ents_to_apply(spec_entry_models(v@), a0),
                    None => Seq::empty(),
                };
                let applying = spec_apply_all(
                    ApplyModel {
                        pairs: pairs0,
                        addrs: old(self).spec_peers().spec_addrs(),
                        applied: a0,
                        term: t0,
                        changes: Seq::empty(),
                        halted: false,
                    },
                    left,
                    id,
                );
                if stale {
                    out matches Err(Error::SnapMissMatch)
                } else if unfit {
                    out matches Err(Error::Protbuf)
                } else if no_store {
                    out matches Err(Error::Bincode)
                } else {
                    match applying {
                        Err(e) => out matches Err(err) && err == e,
                        Ok(end) => {
                            let due = !end.halted && spec_snapshot_due(end.applied, s0);
                            let cp = Node::spec_checkpoint(
                                end.pairs,
                                final(self).spec_conf_state(),
                                end.applied,
                                end.term,
                            );
                            if due && !spec_snapshot_fits(cp) {
                                out matches Err(Error::Protbuf)
                            } else {
                                &&& out matches Ok(round)
                                &&& round.append == ready.entries
                                &&& round.hard_state == ready.hs
                                &&& (round.install is Some <==> installs)
                                &&& (round.install matches Some(i) ==> i.snapshot
                                    == ready.snapshot && i.saved.write.path@ == spec_snap_path(
                                    old(self).spec_snapshotter().spec_dir(),
                                    spec_snapshot_index(ready.snapshot),
                                    Node::spec_term_of(ready.snapshot),
                                ) && i.saved.write.bytes@ == spec_snap_file(
                                    spec_snapshot_bytes(ready.snapshot@),
                                ))
                                &&& spec_call_models(round.calls@) == spec_calls(
                                    old(self).spec_peers().spec_addrs(),
                                    ready.messages@,
                                )
                                &&& spec_change_models(round.changes@) == end.changes
                                &&& round.halted == end.halted
                                &&& final(store).spec_pairs() == end.pairs
                                &&& final(self).spec_peers().spec_addrs() == end.addrs
                                &&& final(self).spec_applied_index() == end.applied
                                &&& final(self).spec_applied_term() == end.term
                                &&& (round.checkpoint is Some <==> due)
                                &&& (round.checkpoint matches Some(c) ==> c.index == end.applied
                                    && c.data@ == spec_map_bytes(end.pairs) && c.compact_index
                                    == spec_compact_index(end.applied) && Node::spec_members_view(
                                        c.conf_state,
                                ) == Node::spec_members_view(final(self).spec_conf_state())
                                    && c.saved.write.path@ == spec_snap_path(
                                    old(self).spec_snapshotter().spec_dir(),
                                    end.applied,
                                    end.term,
                                ) && c.saved.write.bytes@ == spec_snap_file(
                                    spec_snapshot_bytes(cp),
                                ))
                                &&& final(self).spec_snapshot_index() == (if due {
                                    end.applied
                                } else {
                                    s0
                                })
                                &&& ({
                                    let before = old(self).spec_wal().unwrap();
                                    let after = final(self).spec_wal().unwrap();
                                    let k1 = if installs {
                                        spec_released(before.spec_indexes(), a0)
                                    } else {
                                        0
                                    };
                                    let k2 = if due {
                                        spec_released(before.spec_indexes().skip(k1), end.applied)
                                    } else {
                                        0
                                    };
                                    &&& after.spec_segments() == before.spec_segments().skip(
                                        k1 + k2,
                                    )
                                    &&& after.spec_indexes() == before.spec_indexes().skip(k1 + k2)
                                    &&& (round.install matches Some(i) ==> i.saved.release@.len()
                                        == k1 && forall|k: int|
                                        0 <= k < k1 ==> (#[trigger] i.saved.release@[k])@
                                            == before.spec_segments()[k].spec_path())
                                    &&& (round.checkpoint matches Some(c)
                                        ==> c.saved.release@.len() == k2 && forall|k: int|
                                        0 <= k < k2 ==> (#[trigger] c.saved.release@[k])@
                                            == before.spec_segments()[k1 + k].spec_path())
                                })
                                &&& (old(self).spec_snapshot_index() <= old(self).spec_applied_index()
                                    && spec_rising(left, a0)
                                    ==> final(self).spec_snapshot_index() <= final(self).spec_applied_index())
                            }
                        },
                    }
                }
            }),
    {
        let ready = self.pending.take().unwrap();
        let Ready { hs, entries, committed_entries, snapshot, messages, must_sync: _ } = ready;
        let mut install: Option<Install> = None;
        if !snapshot.is_empty() {
            if Node::index_of(&snapshot) <= self.applied_index {
                return Err(Error::SnapMissMatch);
            }
            let saved = self.save_snap(&snapshot)?;
            self.publish_snapshot(store, &snapshot)?;
            install = Some(Install { saved, snapshot });
        }
        let ghost before = old(self).spec_wal().unwrap();
        let ghost k1 = if install is Some {
            spec_released(before.spec_indexes(), self.applied_index)
        } else {
            0
        };
        assert(self.spec_wal().unwrap().spec_segments() =~= before.spec_segments().skip(k1));
        assert(self.spec_wal().unwrap().spec_indexes() =~= before.spec_indexes().skip(k1));
        proof {
            before.lemma_wf();
            crate::wal::lemma_split_position(before.spec_indexes(), self.applied_index);
        }
        let calls = send_all(&mut self.raft_clients, &messages);
        let mut left = match committed_entries {
            Some(v) => v,
            None => Vec::new(),
        };
        assert(committed_entries is None ==> spec_entry_models(left@) =~= Seq::<
            EntryModel,
        >::empty());
        ents_to_apply(&mut left, self.applied_index);
        proof {
            if spec_rising(spec_entry_models(left@), self.applied_index) {
                lemma_applied_grows(
                    ApplyModel {
                        pairs: store.spec_pairs(),
                        addrs: self.raft_clients.spec_addrs(),
                        applied: self.applied_index,
                        term: self.applied_term,
                        changes: Seq::empty(),
                        halted: false,
                    },
                    spec_entry_models(left@),
                    self.id,
                );
            }
        }
        let (applied, term, published) = publish_entries(
            store,
            &mut self.raft_clients,
            self.id,
            self.applied_index,
            self.applied_term,
            &left,
        )?;
        self.applied_index = applied;
        self.applied_term = term;
        let checkpoint = if published.halted {
            None
        } else {
            self.maybe_trigger_snapshot(store)?
        };
        proof {
            let mid_indexes = before.spec_indexes().skip(k1);
            let k2 = if checkpoint is Some {
                spec_released(mid_indexes, applied)
            } else {
                0
            };
            crate::wal::lemma_split_position(mid_indexes, applied);
            assert(0 <= k1 <= before.spec_segments().len());
            assert(0 <= k2 <= mid_indexes.len());
            assert(before.spec_segments().skip(k1).skip(k2) =~= before.spec_segments().skip(
                k1 + k2,
            ));
            assert(mid_indexes.skip(k2) =~= before.spec_indexes().skip(k1 + k2));
            assert forall|k: int| 0 <= k < k2 implies before.spec_segments().skip(k1)[k]
                == before.spec_segments()[k1 + k] by {}
        }
        Ok(
            Round {
                append: entries,
                hard_state: hs,
                install,
                calls,
                changes: published.changes,
                halted: published.halted,
                checkpoint,
            },
        )
    }
}

/// A copy of a list of node ids.
pub fn copy_ids(ids: &Vec<u64>) -> (out: Vec<u64>)
    ensures
        out@ == ids@,
{
    let mut out: Vec<u64> = Vec::new();
    let mut i: usize = 0;
    while i < ids.len()
        invariant
            i <= ids@.len(),
            out@ == ids@.subrange(0, i as int),
        decreases ids@.len() - i,
    {
        out.push(ids[i]);
        i = i + 1;
        assert(out@ =~= ids@.subrange(0, i as int));
    }
    assert(ids@.subrange(0, i as int) =~= ids@);
    out
}

} // verus!
