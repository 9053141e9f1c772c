//! The consensus library's messages as plain values, and their protobuf
//! encoding, which the consensus library's own message types compute.

use vstd::prelude::*;

verus! {

/// The largest payload, in bytes, that a message may carry and still be
/// encoded: encoded sizes are counted in 32 bits.
pub const MAX_PAYLOAD: usize = 0x4000_0000;

/// What a log entry carries.
#[derive(Clone, Copy, Debug, PartialEq, Eq, Structural)]
pub enum EntryType {
    /// A client operation.
    EntryNormal,
    /// A membership change.
    EntryConfChange,
}

/// A log entry as contracts see it.
pub struct EntryModel {
    pub entry_type: EntryType,
    pub term: u64,
    pub index: u64,
    pub data: Seq<u8>,
    pub context: Seq<u8>,
    pub sync_log: bool,
}

/// A Raft log entry.
#[derive(Clone, Debug, PartialEq)]
pub struct Entry {
    pub entry_type: EntryType,
    pub term: u64,
    pub index: u64,
    pub data: Vec<u8>,
    pub context: Vec<u8>,
    pub sync_log: bool,
}

impl View for Entry {
    type V = EntryModel;

    open spec fn view(&self) -> EntryModel {
        EntryModel {
            entry_type: self.entry_type,
            term: self.term,
            index: self.index,
            data: self.data@,
            context: self.context@,
            sync_log: self.sync_log,
        }
    }
}

/// The durable state of a Raft node: current term, vote and commit index.
#[derive(Clone, Copy, Debug, PartialEq, Eq, Structural)]
pub struct HardState {
    pub term: u64,
    pub vote: u64,
    pub commit: u64,
}

/// The members of a cluster as contracts see them.
pub struct ConfStateModel {
    pub nodes: Seq<u64>,
    pub learners: Seq<u64>,
}

/// The members of a cluster: voters and learners.
#[derive(Clone, Debug, PartialEq)]
pub struct ConfState {
    pub nodes: Vec<u64>,
    pub learners: Vec<u64>,
}

impl View for ConfState {
    type V = ConfStateModel;

    open spec fn view(&self) -> ConfStateModel {
        ConfStateModel { nodes: self.nodes@, learners: self.learners@ }
    }
}

/// Snapshot metadata as contracts see it.
pub struct SnapshotMetadataModel {
    pub conf_state: Option<ConfStateModel>,
    pub index: u64,
    pub term: u64,
}

/// Where in the log a snapshot was taken, and the members at that point.
#[derive(Clone, Debug, PartialEq)]
pub struct SnapshotMetadata {
    pub conf_state: Option<ConfState>,
    pub index: u64,
    pub term: u64,
}

impl View for SnapshotMetadata {
    type V = SnapshotMetadataModel;

    open spec fn view(&self) -> SnapshotMetadataModel {
        SnapshotMetadataModel {
            conf_state: match self.conf_state {
                Some(cs) => Some(cs@),
                None => None,
            },
            index: self.index,
            term: self.term,
        }
    }
}

/// A snapshot as contracts see it.
pub struct SnapshotModel {
    pub data: Seq<u8>,
    pub metadata: Option<SnapshotMetadataModel>,
}

/// A checkpoint of the state machine.
#[derive(Clone, Debug, PartialEq)]
pub struct Snapshot {
    pub data: Vec<u8>,
    pub metadata: Option<SnapshotMetadata>,
}

impl View for Snapshot {
    type V = SnapshotModel;

    open spec fn view(&self) -> SnapshotModel {
        SnapshotModel {
            data: self.data@,
            metadata: match self.metadata {
                Some(md) => Some(md@),
                None => None,
            },
        }
    }
}

/// The kind of a membership change.
#[derive(Clone, Copy, Debug, PartialEq, Eq, Structural)]
pub enum ConfChangeType {
    AddNode,
    RemoveNode,
    AddLearnerNode,
}

/// A membership change as contracts see it.
pub struct ConfChangeModel {
    pub id: u64,
    pub change_type: ConfChangeType,
    pub node_id: u64,
    pub context: Seq<u8>,
}

/// A membership change.
#[derive(Clone, Debug, PartialEq)]
pub struct ConfChange {
    pub id: u64,
    pub change_type: ConfChangeType,
    pub node_id: u64,
    pub context: Vec<u8>,
}

impl View for ConfChange {
    type V = ConfChangeModel;

    open spec fn view(&self) -> ConfChangeModel {
        ConfChangeModel {
            id: self.id,
            change_type: self.change_type,
            node_id: self.node_id,
            context: self.context@,
        }
    }
}

impl Snapshot {
    /// Whether the snapshot carries nothing: its metadata is absent or names
    /// index 0.
    pub open spec fn spec_is_empty(&self) -> bool {
        match self.metadata {
            Some(md) => md.index == 0,
            None => true,
        }
    }

    /// Whether the snapshot carries nothing.
    pub fn is_empty(&self) -> (empty: bool)
        ensures
            empty == self.spec_is_empty(),
    {
        match &self.metadata {
            Some(md) => md.index == 0,
            None => true,
        }
    }
}

} // verus!
