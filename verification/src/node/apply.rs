//! Applying committed entries: client operations to the store, membership
//! changes to the peer directory.

use crate::errors::Error;
use crate::kv::{spec_delete, spec_set, Pair, Store};
use crate::layout::copy_of;
use crate::mumpb::{
    lemma_op_request_round_trip, spec_decode_op_request, spec_encode_op_request, Op, OpRequest,
    OpRequestModel,
};
use crate::raftpb::{
    ConfChange, ConfChangeModel, ConfChangeType, Entry, EntryModel, EntryType,
};
use crate::transport::RaftClients;
use crate::wal::replay::spec_entry_models;
use crate::wire::{decode_conf_change, spec_conf_change_of_bytes};
use vstd::prelude::*;
use vstd::utf8::valid_utf8;

verus! {

/// Calls `std::str::from_utf8` and tells whether it accepts the bytes.
#[verifier::external_body]
fn is_utf8(b: &[u8]) -> (ok: bool)
    ensures
        ok == valid_utf8(b@),
{
    std::str::from_utf8(b).is_ok()
}

/// What applying committed entries works on: the pairs of the store, the
/// address of each peer, the index and term applied last, the membership
/// changes to pass to the consensus library, and whether the node has been
/// removed from the cluster.
pub struct ApplyModel {
    pub pairs: Seq<Pair>,
    pub addrs: Map<u64, Seq<u8>>,
    pub applied: u64,
    pub term: u64,
    pub changes: Seq<ConfChangeModel>,
    pub halted: bool,
}

/// The pairs after the operation `op` is applied: `Put` sets the key, `Del`
/// deletes it, a read changes nothing.
pub open spec fn spec_apply_op(pairs: Seq<Pair>, op: OpRequestModel) -> Seq<Pair> {
    match op.field_type {
        Op::Put => spec_set(pairs, op.key, op.value),
        Op::Del => spec_delete(pairs, op.key),
        _ => pairs,
    }
}

/// Applying one committed entry on a node with the id `id`.
///
/// A normal entry is decoded as a client operation and applied to the
/// pairs. A membership entry is decoded, noted for the consensus library,
/// and applied to the peer directory: `AddNode` with a context sets the
/// address of the node to the context, which has to be UTF-8; `RemoveNode`
/// forgets the node, and halts this node where it is the one removed. Unless
/// the node halts, the entry then counts as applied.
pub open spec fn spec_apply_entry(m: ApplyModel, e: EntryModel, id: u64) -> Result<
    ApplyModel,
    Error,
> {
    match e.entry_type {
        EntryType::EntryNormal => match spec_decode_op_request(e.data) {
            Some(op) => Ok(
                ApplyModel {
                    pairs: spec_apply_op(m.pairs, op),
                    applied: e.index,
                    term: e.term,
                    ..m
                },
            ),
            None => Err(Error::Protbuf),
        },
        EntryType::EntryConfChange => match spec_conf_change_of_bytes(e.data) {
            Some(c) => {
                let noted = ApplyModel { changes: m.changes.push(c), ..m };
                match c.change_type {
                    ConfChangeType::AddNode => if c.context.len() == 0 {
                        Ok(ApplyModel { applied: e.index, term: e.term, ..noted })
                    } else if valid_utf8(c.context) {
                        Ok(
                            ApplyModel {
                                addrs: m.addrs.insert(c.node_id, c.context),
                                applied: e.index,
                                term: e.term,
                                ..noted
                            },
                        )
                    } else {
                        Err(Error::Utf8)
                    },
                    ConfChangeType::RemoveNode => if c.node_id == id {
                        Ok(ApplyModel { halted: true, ..noted })
                    } else {
                        Ok(
                            ApplyModel {
                                addrs: m.addrs.remove(c.node_id),
                                applied: e.index,
                                term: e.term,
                                ..noted
                            },
                        )
                    },
                    ConfChangeType::AddLearnerNode => Ok(
                        ApplyModel { applied: e.index, term: e.term, ..noted },
                    ),
                }
            },
            None => Err(Error::Protbuf),
        },
    }
}

/// Applying committed entries in order. Applying stops where the node
/// halts, and fails with the error of the first entry that fails.
pub open spec fn spec_apply_all(m: ApplyModel, entries: Seq<EntryModel>, id: u64) -> Result<
    ApplyModel,
    Error,
>
    decreases entries.len(),
{
    if entries.len() == 0 || m.halted {
        Ok(m)
    } else {
        match spec_apply_entry(m, entries[0], id) {
            Ok(next) => spec_apply_all(next, entries.skip(1), id),
            Err(e) => Err(e),
        }
    }
}

/// Membership self-removal. Applying the removal of the node itself halts
/// the node, whatever state it is in, and nothing is applied after it.
pub proof fn lemma_self_removal_halts(m: ApplyModel, entries: Seq<EntryModel>, id: u64)
    requires
        !m.halted,
        entries.len() > 0,
        entries[0].entry_type == EntryType::EntryConfChange,
        spec_conf_change_of_bytes(entries[0].data) matches Some(c) && c.change_type
            == ConfChangeType::RemoveNode && c.node_id == id,
    ensures
        spec_apply_all(m, entries, id) matches Ok(end) && end.halted && end.pairs == m.pairs
            && end.addrs == m.addrs && end.applied == m.applied,
{
    let next = spec_apply_entry(m, entries[0], id)->Ok_0;
    assert(next.halted);
    assert(spec_apply_all(next, entries.skip(1), id) == Ok::<ApplyModel, Error>(next));
}

/// What is proposed is what is applied. An entry that carries the encoding
/// of a client operation, as `Node::dispatch` proposes it, applies that
/// operation to the pairs and counts as applied.
pub proof fn lemma_proposed_op_applies(
    m: ApplyModel,
    e: EntryModel,
    op: OpRequestModel,
    id: u64,
)
    requires
        e.entry_type == EntryType::EntryNormal,
        e.data == spec_encode_op_request(op),
        op.key.len() <= u64::MAX,
        op.value.len() <= u64::MAX,
    ensures
        spec_apply_entry(m, e, id) == Ok::<ApplyModel, Error>(
            ApplyModel { pairs: spec_apply_op(m.pairs, op), applied: e.index, term: e.term, ..m },
        ),
{
    lemma_op_request_round_trip(op);
}

/// Whether the indexes of `entries` do not fall and none lies below `from`.
pub open spec fn spec_rising(entries: Seq<EntryModel>, from: u64) -> bool {
    &&& forall|i: int| 0 <= i < entries.len() ==> (#[trigger] entries[i]).index >= from
    &&& forall|i: int, j: int|
        0 <= i < j < entries.len() ==> (#[trigger] entries[i]).index <= (
        #[trigger] entries[j]).index
}

/// The applied index does not fall. Applying entries whose indexes do not
/// fall, none below what is applied, leaves an applied index at or above the
/// one before.
pub proof fn lemma_applied_grows(m: ApplyModel, entries: Seq<EntryModel>, id: u64)
    requires
        spec_rising(entries, m.applied),
    ensures
        spec_apply_all(m, entries, id) matches Ok(end) ==> end.applied >= m.applied,
    decreases entries.len(),
{
    if entries.len() > 0 && !m.halted {
        match spec_apply_entry(m, entries[0], id) {
            Ok(next) => {
                let rest = entries.skip(1);
                assert(next.applied == m.applied || next.applied == entries[0].index);
                assert forall|i: int| 0 <= i < rest.len() implies (#[trigger] rest[i]).index
                    >= next.applied by {
                    assert(rest[i] == entries[i + 1]);
                    assert(entries[0].index <= entries[i + 1].index);
                }
                assert forall|i: int, j: int| 0 <= i < j < rest.len() implies (
                #[trigger] rest[i]).index <= (#[trigger] rest[j]).index by {
                    assert(rest[i] == entries[i + 1]);
                    assert(rest[j] == entries[j + 1]);
                }
                lemma_applied_grows(next, rest, id);
            },
            Err(_) => {},
        }
    }
}

/// The views of a vector of membership changes.
pub open spec fn spec_change_models(changes: Seq<ConfChange>) -> Seq<ConfChangeModel> {
    changes.map_values(|c: ConfChange| c@)
}

/// What applying committed entries leaves for the caller to do.
#[derive(Debug)]
pub struct Published {
    /// The membership changes to apply on the consensus handle, in order.
    pub changes: Vec<ConfChange>,
    /// Whether this node has been removed: the process has to end
    /// abnormally, at once.
    pub halted: bool,
}

/// The committed entries that are still to be applied: those behind the
/// applied index `applied`.
pub open spec fn spec_ents_to_apply(ents: Seq<EntryModel>, applied: u64) -> Seq<EntryModel> {
    if ents.len() == 0 {
        ents
    } else {
        let skip = applied + 1 - ents[0].index;
        if skip < ents.len() {
            ents.skip(skip)
        } else {
            Seq::empty()
        }
    }
}

/// Whether committed entries follow the applied index without a gap: the
/// first one lies at most one behind it.
pub open spec fn spec_no_gap(ents: Seq<EntryModel>, applied: u64) -> bool {
    ents.len() > 0 ==> ents[0].index <= applied + 1
}

/// Whether committed entries follow the applied index `applied` without a
/// gap. Entries that leave a gap must not be applied.
pub fn no_gap(ents: &Vec<Entry>, applied: u64) -> (ok: bool)
    ensures
        ok == spec_no_gap(spec_entry_models(ents@), applied),
{
    if ents.len() == 0 {
        return true;
    }
    assert(spec_entry_models(ents@)[0] == ents@[0]@);
    let first = ents[0].index;
    first == 0 || first - 1 <= applied
}

/// Drops from `ents` the entries that are applied already: as many as the
/// applied index `applied` lies at or behind the index of the first one.
pub fn ents_to_apply(ents: &mut Vec<Entry>, applied: u64)
    requires
        spec_no_gap(spec_entry_models(old(ents)@), applied),
    ensures
        spec_entry_models(final(ents)@) == spec_ents_to_apply(
            spec_entry_models(old(ents)@),
            applied,
        ),
{
    if ents.len() == 0 {
        return ;
    }
    assert(spec_entry_models(ents@)[0] == ents@[0]@);
    let first = ents[0].index;
    let n = ents.len();
    // applied + 1 - first entries go, as far as there are that many
    let gone: usize = if first == 0 {
        if applied >= n as u64 {
            n
        } else {
            (applied + 1) as usize
        }
    } else if applied - (first - 1) >= n as u64 {
        n
    } else {
        (applied - (first - 1)) as usize
    };
    let ghost before = ents@;
    let mut k: usize = 0;
    while k < gone
        invariant
            k <= gone <= before.len(),
            ents@ == before.skip(k as int),
        decreases gone - k,
    {
        let _ = ents.remove(0);
        k = k + 1;
        assert(ents@ =~= before.skip(k as int));
    }
    assert(spec_entry_models(ents@) =~= spec_entry_models(before).skip(gone as int));
    if gone == n {
        assert(spec_entry_models(ents@) =~= Seq::<EntryModel>::empty());
    }
}

/// Applies the committed entries `ents` in order: client operations to
/// `store`, membership changes to `peers`.
///
/// Returns the index and term applied last, the membership changes for the
/// consensus library, and whether the node has halted. Fails with the error
/// of the first entry that fails: `Error::Protbuf` for a payload that does
/// not decode, `Error::Utf8` for an address that is not UTF-8.
pub fn publish_entries(
    store: &mut Store,
    peers: &mut RaftClients,
    id: u64,
    applied: u64,
    term: u64,
    ents: &Vec<Entry>,
) -> (out: Result<(u64, u64, Published), Error>)
    requires
        old(peers).wf(),
    ensures
        final(peers).wf(),
        final(peers).spec_conns() == old(peers).spec_conns(),
        ({
            let start = ApplyModel {
                pairs: old(store).spec_pairs(),
                addrs: old(peers).spec_addrs(),
                applied,
                term,
                changes: Seq::empty(),
                halted: false,
            };
            match spec_apply_all(start, spec_entry_models(ents@), id) {
                Ok(end) => {
                    &&& out matches Ok(got)
                    &&& got.0 == end.applied
                    &&& got.1 == end.term
                    &&& spec_change_models(got.2.changes@) == end.changes
                    &&& got.2.halted == end.halted
                    &&& final(store).spec_pairs() == end.pairs
                    &&& final(peers).spec_addrs() == end.addrs
                },
                Err(e) => out matches Err(err) && err == e,
            }
        }),
{
    let ghost all = spec_entry_models(ents@);
    let ghost start = ApplyModel {
        pairs: store.spec_pairs(),
        addrs: peers.spec_addrs(),
        applied,
        term,
        changes: Seq::empty(),
        halted: false,
    };
    let mut cur_applied = applied;
    let mut cur_term = term;
    let mut changes: Vec<ConfChange> = Vec::new();
    let mut i: usize = 0;
    assert(all.skip(0) =~= all);
    assert(spec_change_models(changes@) =~= Seq::<ConfChangeModel>::empty());
    while i < ents.len()
        invariant
            i <= ents@.len(),
            all == spec_entry_models(ents@),
            peers.wf(),
            peers.spec_conns() == old(peers).spec_conns(),
            start == (ApplyModel {
                pairs: old(store).spec_pairs(),
                addrs: old(peers).spec_addrs(),
                applied,
                term,
                changes: Seq::empty(),
                halted: false,
            }),
            spec_apply_all(start, all, id) == spec_apply_all(
                ApplyModel {
                    pairs: store.spec_pairs(),
                    addrs: peers.spec_addrs(),
                    applied: cur_applied,
                    term: cur_term,
                    changes: spec_change_models(changes@),
                    halted: false,
                },
                all.skip(i as int),
                id,
            ),
        decreases ents@.len() - i,
    {
        let entry = &ents[i];
        proof {
            assert(all.skip(i as int)[0] == entry@);
            assert(all.skip(i as int).skip(1) =~= all.skip(i + 1));
        }
        match entry.entry_type {
            EntryType::EntryNormal => {
                let op = OpRequest::parse_from_bytes(entry.data.as_slice())?;
                match op.field_type {
                    Op::Put => {
                        let _ = store.set(op.key, op.value);
                    },
                    Op::Del => {
                        let _ = store.delete(op.key.as_slice());
                    },
                    _ => {},
                }
            },
            EntryType::EntryConfChange => {
                let change = decode_conf_change(entry.data.as_slice())?;
                let ghost before = spec_change_models(changes@);
                let kind = change.change_type;
                let node_id = change.node_id;
                let context = copy_of(change.context.as_slice());
                changes.push(change);
                assert(spec_change_models(changes@) =~= before.push(change@));
                match kind {
                    ConfChangeType::AddNode => {
                        if context.len() > 0 {
                            if !is_utf8(context.as_slice()) {
                                return Err(Error::Utf8);
                            }
                            peers.upsert_peer(node_id, context.as_slice());
                        }
                    },
                    ConfChangeType::RemoveNode => {
                        if node_id == id {
                            proof {
                                let end = ApplyModel {
                                    pairs: store.spec_pairs(),
                                    addrs: peers.spec_addrs(),
                                    applied: cur_applied,
                                    term: cur_term,
                                    changes: spec_change_models(changes@),
                                    halted: true,
                                };
                                assert(spec_apply_all(end, all.skip(i + 1), id) == Ok::<
                                    ApplyModel,
                                    Error,
                                >(end));
                            }
                            return Ok((cur_applied, cur_term, Published { changes, halted: true }));
                        }
                        peers.delete_peer(node_id);
                    },
                    ConfChangeType::AddLearnerNode => {},
                }
            },
        }
        cur_applied = entry.index;
        cur_term = entry.term;
        i = i + 1;
    }
    assert(all.skip(i as int).len() == 0);
    Ok((cur_applied, cur_term, Published { changes, halted: false }))
}

} // verus!
