//! What the log promises: entries come back in the order in which they were
//! stored, and what a durable insert hands out reads back as it was stored.

use crate::errors::Error;
use crate::raftpb::{Entry, EntryModel, HardState};
use crate::wal::record::RecordModel;
use crate::wal::replay::{
    lemma_replay_concat, spec_entry_models, spec_no_state, spec_replay, spec_replay_from, Replay,
};
use crate::wal::wal_file::{
    lemma_frames_round_trip, lemma_parse_frames_concat, spec_all_fit, spec_frames,
    spec_parse_frames,
};
use crate::wal::{
    spec_entries_read_back, spec_entry_records, spec_insert_records, spec_last_index,
    spec_state_reads_back, Wal, WalAction,
};
use crate::wire::{spec_entry_bytes, spec_entry_of_bytes, spec_hard_state_bytes};
use vstd::prelude::*;

verus! {

/// One insert as contracts see it: the hard state, if any, and the entries.
pub struct Batch {
    pub state: Option<HardState>,
    pub entries: Seq<EntryModel>,
}

/// The records that a run of inserts stores, in the order of the inserts.
pub open spec fn spec_batches_records(batches: Seq<Batch>) -> Seq<RecordModel>
    decreases batches.len(),
{
    if batches.len() == 0 {
        Seq::empty()
    } else {
        spec_batches_records(batches.drop_last()) + spec_insert_records(
            batches.last().state,
            batches.last().entries,
        )
    }
}

/// The entries of a run of inserts, in the order in which they were handed in.
pub open spec fn spec_batches_entries(batches: Seq<Batch>) -> Seq<EntryModel>
    decreases batches.len(),
{
    if batches.len() == 0 {
        Seq::empty()
    } else {
        spec_batches_entries(batches.drop_last()) + batches.last().entries
    }
}

/// The hard state that the last insert with one has stored, or `init`.
pub open spec fn spec_batches_state(batches: Seq<Batch>, init: HardState) -> HardState
    decreases batches.len(),
{
    if batches.len() == 0 {
        init
    } else {
        match batches.last().state {
            Some(hs) => hs,
            None => spec_batches_state(batches.drop_last(), init),
        }
    }
}

/// Whether every insert of the run stores what reads back as it was: this is
/// what a successful `Wal::insert` ensures of what it has stored.
pub open spec fn spec_batches_read_back(batches: Seq<Batch>) -> bool {
    forall|i: int|
        0 <= i < batches.len() ==> {
            &&& spec_entries_read_back((#[trigger] batches[i]).entries)
            &&& spec_state_reads_back(batches[i].state)
            &&& spec_all_fit(spec_insert_records(batches[i].state, batches[i].entries))
        }
}

/// Whether each entry has a greater index than the one before it.
pub open spec fn spec_increasing(entries: Seq<EntryModel>) -> bool {
    forall|i: int, j: int|
        0 <= i < j < entries.len() ==> (#[trigger] entries[i]).index < (#[trigger] entries[j]).index
}

/// Replaying the entry records of `entries` appends the entries, as long as
/// they read back and lie behind the starting point.
pub proof fn lemma_replay_entries(init: Replay, entries: Seq<EntryModel>, start: (u64, u64))
    requires
        spec_entries_read_back(entries),
        forall|i: int| 0 <= i < entries.len() ==> (#[trigger] entries[i]).index > start.1,
    ensures
        spec_replay_from(init, spec_entry_records(entries), start) == Ok::<Replay, Error>(
            Replay {
                state: init.state,
                entries: init.entries + entries,
                enti: spec_last_index(entries, init.enti),
            },
        ),
    decreases entries.len(),
{
    if entries.len() == 0 {
        assert(init.entries + entries =~= init.entries);
    } else {
        let head = entries.drop_last();
        assert forall|i: int| 0 <= i < head.len() implies spec_entry_of_bytes(
            spec_entry_bytes(#[trigger] head[i]),
        ) == Some(head[i]) by {
            assert(head[i] == entries[i]);
        }
        assert forall|i: int| 0 <= i < head.len() implies (#[trigger] head[i]).index > start.1 by {
            assert(head[i] == entries[i]);
        }
        lemma_replay_entries(init, head, start);
        let rs = spec_entry_records(entries);
        assert(rs.drop_last() =~= spec_entry_records(head));
        assert(rs.last().data == spec_entry_bytes(entries.last()));
        assert(entries[entries.len() - 1].index > start.1);
        assert(spec_entry_of_bytes(spec_entry_bytes(entries[entries.len() - 1])) == Some(
            entries[entries.len() - 1],
        ));
        assert((init.entries + head).push(entries.last()) =~= init.entries + entries);
    }
}

/// Replaying what one insert has stored appends its entries and takes its
/// hard state.
pub proof fn lemma_replay_insert(init: Replay, b: Batch, start: (u64, u64))
    requires
        spec_entries_read_back(b.entries),
        spec_state_reads_back(b.state),
        forall|i: int| 0 <= i < b.entries.len() ==> (#[trigger] b.entries[i]).index > start.1,
    ensures
        spec_replay_from(init, spec_insert_records(b.state, b.entries), start) == Ok::<
            Replay,
            Error,
        >(
            Replay {
                state: match b.state {
                    Some(hs) => hs,
                    None => init.state,
                },
                entries: init.entries + b.entries,
                enti: spec_last_index(b.entries, init.enti),
            },
        ),
{
    lemma_replay_entries(init, b.entries, start);
    let rs = spec_insert_records(b.state, b.entries);
    match b.state {
        Some(hs) => {
            assert(rs.drop_last() =~= spec_entry_records(b.entries));
            assert(rs.last().data == spec_hard_state_bytes(hs));
        },
        None => {
            assert(rs =~= spec_entry_records(b.entries));
        },
    }
}

/// The entries of a run of inserts hold the entries of each insert.
pub proof fn lemma_batches_entries_hold(batches: Seq<Batch>, k: int, i: int)
    requires
        0 <= k < batches.len(),
        0 <= i < batches[k].entries.len(),
    ensures
        exists|j: int|
            0 <= j < spec_batches_entries(batches).len() && #[trigger] spec_batches_entries(
                batches,
            )[j] == batches[k].entries[i],
    decreases batches.len(),
{
    let all = spec_batches_entries(batches);
    let head = spec_batches_entries(batches.drop_last());
    if k == batches.len() - 1 {
        assert(all[head.len() + i] == batches[k].entries[i]);
    } else {
        lemma_batches_entries_hold(batches.drop_last(), k, i);
        let j = choose|j: int| 0 <= j < head.len() && #[trigger] head[j] == batches[k].entries[i];
        assert(all[j] == head[j]);
    }
}

/// Log monotonicity. Whatever inserts have stored, entries with strictly
/// increasing indices behind the starting point, reading the stored bytes
/// back yields the stored records, and replaying those records, from one
/// segment or from several, yields exactly those entries, in the order in
/// which they were handed in, and the hard state stored last.
pub proof fn lemma_wal_monotonic(batches: Seq<Batch>, start: (u64, u64), enti: u64)
    requires
        spec_batches_read_back(batches),
        spec_increasing(spec_batches_entries(batches)),
        spec_batches_entries(batches).len() > 0 ==> spec_batches_entries(batches)[0].index
            > start.1,
    ensures
        spec_parse_frames(spec_frames(spec_batches_records(batches))) == spec_batches_records(
            batches,
        ),
        spec_replay(spec_batches_records(batches), start, enti) matches Ok(rep) && rep.entries
            == spec_batches_entries(batches) && rep.state == spec_batches_state(
            batches,
            spec_no_state(),
        ),
{
    lemma_batches_fit(batches);
    lemma_frames_round_trip(spec_batches_records(batches));
    let init = Replay { state: spec_no_state(), entries: Seq::empty(), enti };
    let all = spec_batches_entries(batches);
    assert forall|k: int, i: int|
        0 <= k < batches.len() && 0 <= i < batches[k].entries.len() implies (
    #[trigger] batches[k].entries[i]).index > start.1 by {
        lemma_batches_entries_hold(batches, k, i);
        let j = choose|j: int| 0 <= j < all.len() && #[trigger] all[j] == batches[k].entries[i];
        if j > 0 {
            assert(all[0].index < all[j].index);
        }
    }
    lemma_replay_batches(init, batches, start);
    assert(init.entries + all =~= all);
}

/// Every record of a run of inserts that read back has a length that fits.
pub proof fn lemma_batches_fit(batches: Seq<Batch>)
    requires
        spec_batches_read_back(batches),
    ensures
        spec_all_fit(spec_batches_records(batches)),
    decreases batches.len(),
{
    if batches.len() > 0 {
        let head = batches.drop_last();
        assert forall|i: int| 0 <= i < head.len() implies {
            &&& spec_entries_read_back((#[trigger] head[i]).entries)
            &&& spec_state_reads_back(head[i].state)
            &&& spec_all_fit(spec_insert_records(head[i].state, head[i].entries))
        } by {
            assert(head[i] == batches[i]);
        }
        lemma_batches_fit(head);
        let a = spec_batches_records(head);
        let last = batches[batches.len() - 1];
        let b = spec_insert_records(last.state, last.entries);
        assert(spec_all_fit(b));
        assert forall|i: int| 0 <= i < (a + b).len() implies 13 + (#[trigger] (a + b)[i]).data.len()
            <= u64::MAX by {
            if i < a.len() {
                assert((a + b)[i] == a[i]);
            } else {
                assert((a + b)[i] == b[i - a.len()]);
            }
        }
    }
}

/// Replaying what a run of inserts has stored appends all their entries and
/// takes the hard state stored last.
pub proof fn lemma_replay_batches(init: Replay, batches: Seq<Batch>, start: (u64, u64))
    requires
        spec_batches_read_back(batches),
        forall|k: int, i: int|
            0 <= k < batches.len() && 0 <= i < batches[k].entries.len() ==> (
            #[trigger] batches[k].entries[i]).index > start.1,
    ensures
        spec_replay_from(init, spec_batches_records(batches), start) matches Ok(rep)
            && rep.entries == init.entries + spec_batches_entries(batches) && rep.state
            == spec_batches_state(batches, init.state),
    decreases batches.len(),
{
    if batches.len() == 0 {
        assert(init.entries + spec_batches_entries(batches) =~= init.entries);
    } else {
        let head = batches.drop_last();
        let last = batches[batches.len() - 1];
        assert forall|i: int| 0 <= i < head.len() implies {
            &&& spec_entries_read_back((#[trigger] head[i]).entries)
            &&& spec_state_reads_back(head[i].state)
            &&& spec_all_fit(spec_insert_records(head[i].state, head[i].entries))
        } by {
            assert(head[i] == batches[i]);
        }
        assert forall|k: int, i: int|
            0 <= k < head.len() && 0 <= i < head[k].entries.len() implies (
        #[trigger] head[k].entries[i]).index > start.1 by {
            assert(head[k] == batches[k]);
            assert(batches[k].entries[i].index > start.1);
        }
        lemma_replay_batches(init, head, start);
        let mid = spec_replay_from(init, spec_batches_records(head), start)->Ok_0;
        assert forall|i: int| 0 <= i < last.entries.len() implies (#[trigger] last.entries[i]).index
            > start.1 by {
            assert(batches[batches.len() - 1].entries[i].index > start.1);
        }
        lemma_replay_insert(mid, last, start);
        lemma_replay_concat(
            init,
            spec_batches_records(head),
            spec_insert_records(last.state, last.entries),
            start,
        );
        assert((init.entries + spec_batches_entries(head)) + last.entries =~= init.entries
            + spec_batches_entries(batches));
    }
}

/// Durability after sync. Where an insert that must be durable succeeds on
/// a log with nothing pending, it hands out the stored form of exactly the
/// records it has stored and keeps nothing back; appended to a head file
/// that holds the records `held`, those bytes read back as `held` and then
/// the records of the insert.
pub proof fn lemma_synced_insert_reads_back(
    before: Wal,
    after: Wal,
    state: Option<HardState>,
    entries: Seq<Entry>,
    out: Result<WalAction, Error>,
    held: Seq<RecordModel>,
)
    requires
        Wal::spec_insert_post(before, after, state, entries, true, out),
        out is Ok,
        state is Some || entries.len() > 0,
        before.spec_head().spec_pending() == Seq::<u8>::empty(),
        spec_all_fit(held),
    ensures
        ({
            let stored = spec_insert_records(state, spec_entry_models(entries));
            let n = before.spec_segments().len() as int;
            &&& match out {
                Ok(WalAction::Sync { path, bytes }) => bytes@ == spec_frames(stored),
                Ok(WalAction::Cut { path, bytes, next }) => bytes@ == spec_frames(stored),
                _ => false,
            }
            &&& after.spec_segments()[n - 1].spec_pending() == Seq::<u8>::empty()
            &&& spec_parse_frames(spec_frames(held) + spec_frames(stored)) == held + stored
        }),
{
    let stored = spec_insert_records(state, spec_entry_models(entries));
    assert(spec_entry_models(entries).len() == entries.len());
    assert(Seq::<u8>::empty() + spec_frames(stored) =~= spec_frames(stored));
    lemma_frames_round_trip(stored);
    lemma_parse_frames_concat(held, spec_frames(stored));
}

} // verus!
