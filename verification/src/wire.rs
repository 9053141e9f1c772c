//! Protobuf encoding of the consensus library's messages.
//!
//! The bytes are computed by the consensus library's own message types. The
//! functions here convert between those types and the plain values of
//! `raftpb`, bound the sizes that can be encoded, and map the outside error.

use crate::errors::Error;
use crate::raftpb::{
    ConfChange, ConfChangeModel, ConfChangeType, ConfState, Entry, EntryModel, EntryType,
    HardState, Snapshot, SnapshotMetadata, SnapshotModel, MAX_PAYLOAD,
};
use protobuf::error::ProtobufError;
use protobuf::Message;
use raft::eraftpb;
use vstd::prelude::*;

verus! {

/// `protobuf::error::ProtobufError`, the error of `protobuf`; nothing is
/// known of it.
#[verifier::external_type_specification]
#[verifier::external_body]
pub struct ExProtobufError(ProtobufError);

/// The protobuf encoding of a log entry.
pub uninterp spec fn spec_entry_bytes(e: EntryModel) -> Seq<u8>;

/// The log entry that protobuf decodes from `b`, if it decodes one.
pub uninterp spec fn spec_entry_of_bytes(b: Seq<u8>) -> Option<EntryModel>;

/// The protobuf encoding of a hard state.
pub uninterp spec fn spec_hard_state_bytes(hs: HardState) -> Seq<u8>;

/// The hard state that protobuf decodes from `b`, if it decodes one.
pub uninterp spec fn spec_hard_state_of_bytes(b: Seq<u8>) -> Option<HardState>;

/// The protobuf encoding of a snapshot.
pub uninterp spec fn spec_snapshot_bytes(s: SnapshotModel) -> Seq<u8>;

/// The snapshot that protobuf decodes from `b`, if it decodes one.
pub uninterp spec fn spec_snapshot_of_bytes(b: Seq<u8>) -> Option<SnapshotModel>;

/// The membership change that protobuf decodes from `b`, if it decodes one.
pub uninterp spec fn spec_conf_change_of_bytes(b: Seq<u8>) -> Option<ConfChangeModel>;

/// The protobuf encoding of a membership change.
pub uninterp spec fn spec_conf_change_bytes(c: ConfChangeModel) -> Seq<u8>;

/// The addressee of the consensus message that protobuf decodes from `b`,
/// if it decodes one.
pub uninterp spec fn spec_message_to(b: Seq<u8>) -> Option<u64>;

/// Whether an entry is small enough to be encoded.
pub open spec fn spec_entry_fits(e: EntryModel) -> bool {
    e.data.len() + e.context.len() <= MAX_PAYLOAD
}

/// Whether a snapshot is small enough to be encoded.
pub open spec fn spec_snapshot_fits(s: SnapshotModel) -> bool {
    s.data.len() <= MAX_PAYLOAD && match s.metadata {
        Some(md) => match md.conf_state {
            Some(cs) => cs.nodes.len() + cs.learners.len() <= 0x100_0000,
            None => true,
        },
        None => true,
    }
}

/// Builds an `eraftpb::Entry` with the fields of `e` and calls
/// `protobuf::Message::write_to_bytes` on it. For an entry that fits the call
/// succeeds; the bytes are a function of the fields, and parsing them gives
/// the same fields back.
#[verifier::external_body]
fn write_entry(e: &Entry) -> (out: Result<Vec<u8>, ProtobufError>)
    requires
        spec_entry_fits(e@),
    ensures
        match out {
            Ok(b) => b@ == spec_entry_bytes(e@) && spec_entry_of_bytes(b@) == Some(e@),
            Err(_) => false,
        },
{
    let mut m = eraftpb::Entry::new();
    m.set_entry_type(
        match e.entry_type {
            EntryType::EntryNormal => eraftpb::EntryType::EntryNormal,
            EntryType::EntryConfChange => eraftpb::EntryType::EntryConfChange,
        },
    );
    m.set_term(e.term);
    m.set_index(e.index);
    m.set_data(e.data.clone());
    m.set_context(e.context.clone());
    m.set_sync_log(e.sync_log);
    m.write_to_bytes()
}

/// Calls `protobuf::Message::parse_from_bytes` for `eraftpb::Entry` and
/// copies the fields out. Fields that the message type does not know are
/// dropped.
#[verifier::external_body]
fn parse_entry(b: &[u8]) -> (out: Result<Entry, ProtobufError>)
    ensures
        match out {
            Ok(e) => spec_entry_of_bytes(b@) == Some(e@),
            Err(_) => spec_entry_of_bytes(b@) is None,
        },
{
    let mut m = eraftpb::Entry::parse_from_bytes(b)?;
    Ok(
        Entry {
            entry_type: match m.get_entry_type() {
                eraftpb::EntryType::EntryNormal => EntryType::EntryNormal,
                eraftpb::EntryType::EntryConfChange => EntryType::EntryConfChange,
            },
            term: m.get_term(),
            index: m.get_index(),
            data: m.take_data(),
            context: m.take_context(),
            sync_log: m.get_sync_log(),
        },
    )
}

/// Builds an `eraftpb::HardState` and calls
/// `protobuf::Message::write_to_bytes` on it. The call succeeds; the bytes
/// are a function of the three fields, and parsing them gives the fields back.
#[verifier::external_body]
fn write_hard_state(hs: &HardState) -> (out: Result<Vec<u8>, ProtobufError>)
    ensures
        match out {
            Ok(b) => b@ == spec_hard_state_bytes(*hs) && spec_hard_state_of_bytes(b@) == Some(*hs),
            Err(_) => false,
        },
{
    let mut m = eraftpb::HardState::new();
    m.set_term(hs.term);
    m.set_vote(hs.vote);
    m.set_commit(hs.commit);
    m.write_to_bytes()
}

/// Calls `protobuf::Message::parse_from_bytes` for `eraftpb::HardState` and
/// copies the fields out.
#[verifier::external_body]
fn parse_hard_state(b: &[u8]) -> (out: Result<HardState, ProtobufError>)
    ensures
        match out {
            Ok(hs) => spec_hard_state_of_bytes(b@) == Some(hs),
            Err(_) => spec_hard_state_of_bytes(b@) is None,
        },
{
    let m = eraftpb::HardState::parse_from_bytes(b)?;
    Ok(HardState { term: m.get_term(), vote: m.get_vote(), commit: m.get_commit() })
}

/// Builds an `eraftpb::Snapshot` with the fields of `s` and calls
/// `protobuf::Message::write_to_bytes` on it. For a snapshot that fits the
/// call succeeds; the bytes are a function of the fields, and parsing them
/// gives the same fields back.
#[verifier::external_body]
fn write_snapshot(s: &Snapshot) -> (out: Result<Vec<u8>, ProtobufError>)
    requires
        spec_snapshot_fits(s@),
    ensures
        match out {
            Ok(b) => b@ == spec_snapshot_bytes(s@) && spec_snapshot_of_bytes(b@) == Some(s@),
            Err(_) => false,
        },
{
    let mut m = eraftpb::Snapshot::new();
    m.set_data(s.data.clone());
    if let Some(md) = &s.metadata {
        m.mut_metadata().set_index(md.index);
        m.mut_metadata().set_term(md.term);
        if let Some(cs) = &md.conf_state {
            m.mut_metadata().mut_conf_state().set_nodes(cs.nodes.clone());
            m.mut_metadata().mut_conf_state().set_learners(cs.learners.clone());
        }
    }
    m.write_to_bytes()
}

/// Calls `protobuf::Message::parse_from_bytes` for `eraftpb::Snapshot` and
/// copies the fields out; a nested message that is absent stays absent.
#[verifier::external_body]
fn parse_snapshot(b: &[u8]) -> (out: Result<Snapshot, ProtobufError>)
    ensures
        match out {
            Ok(s) => spec_snapshot_of_bytes(b@) == Some(s@),
            Err(_) => spec_snapshot_of_bytes(b@) is None,
        },
{
    let mut m = eraftpb::Snapshot::parse_from_bytes(b)?;
    let metadata = m.metadata.take().map(
        |mut md| SnapshotMetadata {
            conf_state: md.conf_state.take().map(
                |mut cs| ConfState { nodes: cs.take_nodes(), learners: cs.take_learners() },
            ),
            index: md.get_index(),
            term: md.get_term(),
        },
    );
    Ok(Snapshot { data: m.take_data(), metadata })
}

/// Calls `protobuf::Message::parse_from_bytes` for `eraftpb::ConfChange` and
/// copies the fields out.
#[verifier::external_body]
fn parse_conf_change(b: &[u8]) -> (out: Result<ConfChange, ProtobufError>)
    ensures
        match out {
            Ok(c) => spec_conf_change_of_bytes(b@) == Some(c@),
            Err(_) => spec_conf_change_of_bytes(b@) is None,
        },
{
    let mut m = eraftpb::ConfChange::parse_from_bytes(b)?;
    Ok(
        ConfChange {
            id: m.get_id(),
            change_type: match m.get_change_type() {
                eraftpb::ConfChangeType::AddNode => ConfChangeType::AddNode,
                eraftpb::ConfChangeType::RemoveNode => ConfChangeType::RemoveNode,
                eraftpb::ConfChangeType::AddLearnerNode => ConfChangeType::AddLearnerNode,
            },
            node_id: m.get_node_id(),
            context: m.take_context(),
        },
    )
}

/// Builds an `eraftpb::ConfChange` with the fields of `c` and calls
/// `protobuf::Message::write_to_bytes` on it. For a change whose context
/// fits the call succeeds; the bytes are a function of the fields, and
/// parsing them gives the same fields back.
#[verifier::external_body]
fn write_conf_change(c: &ConfChange) -> (out: Result<Vec<u8>, ProtobufError>)
    requires
        c.context@.len() <= MAX_PAYLOAD,
    ensures
        match out {
            Ok(b) => b@ == spec_conf_change_bytes(c@) && spec_conf_change_of_bytes(b@) == Some(c@),
            Err(_) => false,
        },
{
    let mut m = eraftpb::ConfChange::new();
    m.set_id(c.id);
    m.set_change_type(
        match c.change_type {
            ConfChangeType::AddNode => eraftpb::ConfChangeType::AddNode,
            ConfChangeType::RemoveNode => eraftpb::ConfChangeType::RemoveNode,
            ConfChangeType::AddLearnerNode => eraftpb::ConfChangeType::AddLearnerNode,
        },
    );
    m.set_node_id(c.node_id);
    m.set_context(c.context.clone());
    m.write_to_bytes()
}

/// Calls `protobuf::Message::parse_from_bytes` for `eraftpb::Message` and
/// reads the addressee.
#[verifier::external_body]
fn parse_message_to(b: &[u8]) -> (out: Result<u64, ProtobufError>)
    ensures
        match out {
            Ok(to) => spec_message_to(b@) == Some(to),
            Err(_) => spec_message_to(b@) is None,
        },
{
    Ok(eraftpb::Message::parse_from_bytes(b)?.get_to())
}

/// Whether `e` is small enough to be encoded.
pub fn entry_fits(e: &Entry) -> (fits: bool)
    ensures
        fits == spec_entry_fits(e@),
{
    e.data.len() <= MAX_PAYLOAD && e.context.len() <= MAX_PAYLOAD - e.data.len()
}

/// Whether `s` is small enough to be encoded.
pub fn snapshot_fits(s: &Snapshot) -> (fits: bool)
    ensures
        fits == spec_snapshot_fits(s@),
{
    if s.data.len() > MAX_PAYLOAD {
        return false;
    }
    match &s.metadata {
        Some(md) => match &md.conf_state {
            Some(cs) => cs.nodes.len() <= 0x100_0000 && cs.learners.len() <= 0x100_0000
                - cs.nodes.len(),
            None => true,
        },
        None => true,
    }
}

/// The protobuf encoding of `e`. Fails with `Error::Protbuf` exactly where
/// `e` is too large to be encoded.
pub fn encode_entry(e: &Entry) -> (out: Result<Vec<u8>, Error>)
    ensures
        match out {
            Ok(b) => spec_entry_fits(e@) && b@ == spec_entry_bytes(e@) && spec_entry_of_bytes(b@)
                == Some(e@),
            Err(err) => err is Protbuf && !spec_entry_fits(e@),
        },
{
    if !entry_fits(e) {
        return Err(Error::Protbuf);
    }
    match write_entry(e) {
        Ok(b) => Ok(b),
        Err(_) => Err(Error::Protbuf),
    }
}

/// The log entry that `b` encodes. Fails with `Error::Protbuf` exactly where
/// protobuf decodes none from `b`.
pub fn decode_entry(b: &[u8]) -> (out: Result<Entry, Error>)
    ensures
        match out {
            Ok(e) => spec_entry_of_bytes(b@) == Some(e@),
            Err(err) => err is Protbuf && spec_entry_of_bytes(b@) is None,
        },
{
    match parse_entry(b) {
        Ok(e) => Ok(e),
        Err(_) => Err(Error::Protbuf),
    }
}

/// The protobuf encoding of `hs`.
pub fn encode_hard_state(hs: &HardState) -> (out: Result<Vec<u8>, Error>)
    ensures
        out matches Ok(b) && b@ == spec_hard_state_bytes(*hs) && spec_hard_state_of_bytes(b@)
            == Some(*hs),
{
    match write_hard_state(hs) {
        Ok(b) => Ok(b),
        Err(_) => Err(Error::Protbuf),
    }
}

/// The hard state that `b` encodes. Fails with `Error::Protbuf` exactly
/// where protobuf decodes none from `b`.
pub fn decode_hard_state(b: &[u8]) -> (out: Result<HardState, Error>)
    ensures
        match out {
            Ok(hs) => spec_hard_state_of_bytes(b@) == Some(hs),
            Err(err) => err is Protbuf && spec_hard_state_of_bytes(b@) is None,
        },
{
    match parse_hard_state(b) {
        Ok(hs) => Ok(hs),
        Err(_) => Err(Error::Protbuf),
    }
}

/// The protobuf encoding of `s`. Fails with `Error::Protbuf` exactly where
/// `s` is too large to be encoded.
pub fn encode_snapshot(s: &Snapshot) -> (out: Result<Vec<u8>, Error>)
    ensures
        match out {
            Ok(b) => spec_snapshot_fits(s@) && b@ == spec_snapshot_bytes(s@)
                && spec_snapshot_of_bytes(b@) == Some(s@),
            Err(err) => err is Protbuf && !spec_snapshot_fits(s@),
        },
{
    if !snapshot_fits(s) {
        return Err(Error::Protbuf);
    }
    match write_snapshot(s) {
        Ok(b) => Ok(b),
        Err(_) => Err(Error::Protbuf),
    }
}

/// The snapshot that `b` encodes. Fails with `Error::Protbuf` exactly where
/// protobuf decodes none from `b`.
pub fn decode_snapshot(b: &[u8]) -> (out: Result<Snapshot, Error>)
    ensures
        match out {
            Ok(s) => spec_snapshot_of_bytes(b@) == Some(s@),
            Err(err) => err is Protbuf && spec_snapshot_of_bytes(b@) is None,
        },
{
    match parse_snapshot(b) {
        Ok(s) => Ok(s),
        Err(_) => Err(Error::Protbuf),
    }
}

/// The membership change that `b` encodes. Fails with `Error::Protbuf`
/// exactly where protobuf decodes none from `b`.
pub fn decode_conf_change(b: &[u8]) -> (out: Result<ConfChange, Error>)
    ensures
        match out {
            Ok(c) => spec_conf_change_of_bytes(b@) == Some(c@),
            Err(err) => err is Protbuf && spec_conf_change_of_bytes(b@) is None,
        },
{
    match parse_conf_change(b) {
        Ok(c) => Ok(c),
        Err(_) => Err(Error::Protbuf),
    }
}

/// The protobuf encoding of `c`. Fails with `Error::Protbuf` exactly where
/// the context of `c` is too large to be encoded.
pub fn encode_conf_change(c: &ConfChange) -> (out: Result<Vec<u8>, Error>)
    ensures
        match out {
            Ok(b) => c.context@.len() <= MAX_PAYLOAD && b@ == spec_conf_change_bytes(c@)
                && spec_conf_change_of_bytes(b@) == Some(c@),
            Err(err) => err is Protbuf && c.context@.len() > MAX_PAYLOAD,
        },
{
    if c.context.len() > MAX_PAYLOAD {
        return Err(Error::Protbuf);
    }
    match write_conf_change(c) {
        Ok(b) => Ok(b),
        Err(_) => Err(Error::Protbuf),
    }
}

/// The addressee of the encoded consensus message `b`, or `None` where
/// protobuf decodes no message from `b`.
pub fn message_to(b: &[u8]) -> (out: Option<u64>)
    ensures
        out == spec_message_to(b@),
{
    match parse_message_to(b) {
        Ok(to) => Some(to),
        Err(_) => None,
    }
}

} // verus!
