//! Replaying the records of a log: what they add up to.

use crate::errors::Error;
use crate::layout::read_u64_le;
use crate::raftpb::{Entry, EntryModel, HardState};
use crate::wal::record::{spec_crc_ok, Record, RecordModel, RecordType};
use crate::wal::wal_file::{read_records, spec_models, spec_parse_frames};
use crate::wire::{
    decode_entry, decode_hard_state, spec_entry_of_bytes, spec_hard_state_of_bytes,
};
use vstd::bytes::spec_u64_from_le_bytes;
use vstd::prelude::*;
use vstd::slice::{slice_subrange, slice_to_vec};

verus! {

/// The views of a vector of entries.
pub open spec fn spec_entry_models(entries: Seq<Entry>) -> Seq<EntryModel> {
    entries.map_values(|e: Entry| e@)
}

/// The hard state of a node that has stored none yet.
pub open spec fn spec_no_state() -> HardState {
    HardState { term: 0, vote: 0, commit: 0 }
}

/// What replaying records has gathered: the latest hard state, the entries
/// behind the starting point, and the index of the last entry seen.
pub struct Replay {
    pub state: HardState,
    pub entries: Seq<EntryModel>,
    pub enti: u64,
}

/// The pair of numbers that the payload of a boundary marker holds: two
/// little-endian `u64`, whatever follows them.
pub open spec fn spec_index_pair(data: Seq<u8>) -> Option<(u64, u64)> {
    if data.len() >= 16 {
        Some(
            (
                spec_u64_from_le_bytes(data.subrange(0, 8)),
                spec_u64_from_le_bytes(data.subrange(8, 16)),
            ),
        )
    } else {
        None
    }
}

/// Replaying one record on top of what was gathered before it. `start` is the
/// term and index of the snapshot that the log was opened at.
pub open spec fn spec_replay_step(acc: Replay, r: RecordModel, start: (u64, u64)) -> Result<
    Replay,
    Error,
> {
    match r.ty {
        RecordType::EntryType => match spec_entry_of_bytes(r.data) {
            Some(e) => Ok(
                Replay {
                    state: acc.state,
                    entries: if e.index > start.1 {
                        acc.entries.push(e)
                    } else {
                        acc.entries
                    },
                    enti: e.index,
                },
            ),
            None => Err(Error::Protbuf),
        },
        RecordType::StateType => match spec_hard_state_of_bytes(r.data) {
            Some(hs) => Ok(Replay { state: hs, entries: acc.entries, enti: acc.enti }),
            None => Err(Error::Protbuf),
        },
        RecordType::CrcType => if spec_crc_ok(r) {
            Ok(acc)
        } else {
            Err(Error::CrcMissMatch)
        },
        RecordType::IndexType => match spec_index_pair(r.data) {
            Some(idx) => if idx.1 == start.1 && idx.0 != start.0 {
                Err(Error::SnapMissMatch)
            } else {
                Ok(acc)
            },
            None => Err(Error::Bincode),
        },
    }
}

/// Replaying `records` in order, starting from `init`; the first record that
/// fails ends the replay with its error.
pub open spec fn spec_replay_from(init: Replay, records: Seq<RecordModel>, start: (u64, u64)) -> Result<
    Replay,
    Error,
>
    decreases records.len(),
{
    if records.len() == 0 {
        Ok(init)
    } else {
        match spec_replay_from(init, records.drop_last(), start) {
            Ok(acc) => spec_replay_step(acc, records.last(), start),
            Err(e) => Err(e),
        }
    }
}

/// Replaying `records` from nothing. `enti` is the index of the last entry
/// known before the replay.
pub open spec fn spec_replay(records: Seq<RecordModel>, start: (u64, u64), enti: u64) -> Result<
    Replay,
    Error,
> {
    spec_replay_from(
        Replay { state: spec_no_state(), entries: Seq::empty(), enti },
        records,
        start,
    )
}

/// The records of several segments, given by their bytes, one segment after
/// the other.
pub open spec fn spec_all_records(contents: Seq<Vec<u8>>) -> Seq<RecordModel>
    decreases contents.len(),
{
    if contents.len() == 0 {
        Seq::empty()
    } else {
        spec_all_records(contents.drop_last()) + spec_parse_frames(contents.last()@)
    }
}

/// Replaying two runs of records one after the other is replaying the second
/// on top of what the first gathered.
pub proof fn lemma_replay_concat(init: Replay, a: Seq<RecordModel>, b: Seq<RecordModel>, start: (
    u64,
    u64,
))
    ensures
        spec_replay_from(init, a + b, start) == match spec_replay_from(init, a, start) {
            Ok(acc) => spec_replay_from(acc, b, start),
            Err(e) => Err(e),
        },
    decreases b.len(),
{
    if b.len() == 0 {
        assert(a + b =~= a);
    } else {
        assert((a + b).drop_last() =~= a + b.drop_last());
        assert((a + b).last() == b.last());
        lemma_replay_concat(init, a, b.drop_last(), start);
    }
}

/// The pair of numbers in the payload of a boundary marker.
pub fn index_pair(data: &[u8]) -> (idx: Option<(u64, u64)>)
    ensures
        idx == spec_index_pair(data@),
{
    if data.len() < 16 {
        return None;
    }
    let a = read_u64_le(data);
    let tail = slice_subrange(data, 8, data.len());
    assert(tail@.subrange(0, 8) =~= data@.subrange(8, 16));
    let b = read_u64_le(tail);
    Some((a, b))
}

/// What replaying has gathered, in executable form.
pub struct Gathered {
    pub state: HardState,
    pub entries: Vec<Entry>,
    pub enti: u64,
}

impl View for Gathered {
    type V = Replay;

    open spec fn view(&self) -> Replay {
        Replay { state: self.state, entries: spec_entry_models(self.entries@), enti: self.enti }
    }
}

/// Replays one record on top of `acc`.
pub fn replay_record(acc: &mut Gathered, r: &Record, start: (u64, u64)) -> (out: Result<(), Error>)
    ensures
        match spec_replay_step(old(acc)@, r@, start) {
            Ok(next) => out is Ok && final(acc)@ == next,
            Err(e) => out == Err::<(), Error>(e) && final(acc)@ == old(acc)@,
        },
{
    match r.ty {
        RecordType::EntryType => {
            let e = decode_entry(r.data.as_slice())?;
            acc.enti = e.index;
            if e.index > start.1 {
                let ghost before = spec_entry_models(acc.entries@);
                acc.entries.push(e);
                assert(spec_entry_models(acc.entries@) =~= before.push(e@));
            }
            Ok(())
        },
        RecordType::StateType => {
            let hs = decode_hard_state(r.data.as_slice())?;
            acc.state = hs;
            Ok(())
        },
        RecordType::CrcType => {
            if r.crc_ok() {
                Ok(())
            } else {
                Err(Error::CrcMissMatch)
            }
        },
        RecordType::IndexType => {
            match index_pair(r.data.as_slice()) {
                Some(idx) => {
                    if idx.1 == start.1 && idx.0 != start.0 {
                        Err(Error::SnapMissMatch)
                    } else {
                        Ok(())
                    }
                },
                None => Err(Error::Bincode),
            }
        },
    }
}

/// Replays the records of the segments whose bytes are `contents`, oldest
/// segment first, on behalf of a log opened at `start` that last saw the
/// entry index `enti`.
pub fn replay(contents: &Vec<Vec<u8>>, start: (u64, u64), enti: u64) -> (out: Result<
    Gathered,
    Error,
>)
    ensures
        match spec_replay(spec_all_records(contents@), start, enti) {
            Ok(rep) => out matches Ok(g) && g@ == rep,
            Err(e) => out matches Err(err) && err == e,
        },
{
    let mut acc = Gathered { state: HardState { term: 0, vote: 0, commit: 0 }, entries: Vec::new(), enti };
    assert(spec_entry_models(acc.entries@) =~= Seq::<EntryModel>::empty());
    let ghost init = acc@;
    let mut i: usize = 0;
    while i < contents.len()
        invariant
            i <= contents@.len(),
            init == (Replay { state: spec_no_state(), entries: Seq::empty(), enti }),
            spec_replay_from(init, spec_all_records(contents@.subrange(0, i as int)), start) == Ok::<
                Replay,
                Error,
            >(acc@),
        decreases contents@.len() - i,
    {
        let records = read_records(slice_to_vec(contents[i].as_slice()));
        let ghost done = spec_all_records(contents@.subrange(0, i as int));
        let ghost these = spec_parse_frames(contents@[i as int]@);
        let ghost at_entry = acc@;
        proof {
            let next = contents@.subrange(0, i + 1);
            assert(next.drop_last() =~= contents@.subrange(0, i as int));
            assert(next.last() == contents@[i as int]);
            assert(spec_all_records(next) == done + these);
            lemma_replay_concat(init, done, these, start);
            lemma_replay_prefix_of_all(contents@, i + 1);
        }
        let mut j: usize = 0;
        while j < records.len()
            invariant
                j <= records@.len(),
                init == (Replay { state: spec_no_state(), entries: Seq::empty(), enti }),
                spec_models(records@) == these,
                spec_replay_from(at_entry, these.subrange(0, j as int), start) == Ok::<
                    Replay,
                    Error,
                >(acc@),
                spec_replay_from(init, done, start) == Ok::<Replay, Error>(at_entry),
                spec_replay_from(init, done + these, start) == spec_replay_from(
                    at_entry,
                    these,
                    start,
                ),
                spec_replay_from(init, spec_all_records(contents@), start) == (match spec_replay_from(
                    init,
                    done + these,
                    start,
                ) {
                    Ok(a) => spec_replay_from(a, spec_rest_records(contents@, i + 1), start),
                    Err(e) => Err(e),
                }),
            decreases records@.len() - j,
        {
            proof {
                let upto = these.subrange(0, j + 1);
                assert(upto.drop_last() =~= these.subrange(0, j as int));
                assert(upto.last() == records@[j as int]@);
                lemma_replay_error_sticks(at_entry, these, j + 1, start);
            }
            match replay_record(&mut acc, &records[j], start) {
                Ok(()) => {},
                Err(e) => {
                    return Err(e);
                },
            }
            j = j + 1;
        }
        assert(these.subrange(0, j as int) =~= these);
        i = i + 1;
    }
    assert(contents@.subrange(0, i as int) =~= contents@);
    Ok(acc)
}

/// The records of the segments from position `k` on.
pub open spec fn spec_rest_records(contents: Seq<Vec<u8>>, k: int) -> Seq<RecordModel> {
    spec_all_records(contents.subrange(k, contents.len() as int))
}

/// The records of all segments are those of the first `k`, then the rest.
pub proof fn lemma_all_records_split(contents: Seq<Vec<u8>>, k: int)
    requires
        0 <= k <= contents.len(),
    ensures
        spec_all_records(contents) == spec_all_records(contents.subrange(0, k))
            + spec_rest_records(contents, k),
    decreases contents.len() - k,
{
    let n = contents.len() as int;
    if k == n {
        assert(contents.subrange(0, k) =~= contents);
        assert(contents.subrange(k, n).len() == 0);
        assert(spec_all_records(contents) + Seq::<RecordModel>::empty() =~= spec_all_records(
            contents,
        ));
    } else {
        let head = contents.drop_last();
        lemma_all_records_split(head, k);
        assert(head.subrange(0, k) =~= contents.subrange(0, k));
        assert(contents.subrange(k, n).drop_last() =~= head.subrange(k, n - 1));
        assert(contents.subrange(k, n).last() == contents.last());
        let last = spec_parse_frames(contents.last()@);
        assert(spec_all_records(contents.subrange(0, k)) + (spec_rest_records(head, k) + last)
            =~= (spec_all_records(contents.subrange(0, k)) + spec_rest_records(head, k)) + last);
    }
}

/// Replaying all segments is replaying the first `k`, then the rest on top.
pub proof fn lemma_replay_prefix_of_all(contents: Seq<Vec<u8>>, k: int)
    requires
        0 <= k <= contents.len(),
    ensures
        forall|init: Replay, start: (u64, u64)|
            #[trigger] spec_replay_from(init, spec_all_records(contents), start) == (
            match spec_replay_from(init, spec_all_records(contents.subrange(0, k)), start) {
                Ok(a) => spec_replay_from(a, spec_rest_records(contents, k), start),
                Err(e) => Err(e),
            }),
{
    lemma_all_records_split(contents, k);
    assert forall|init: Replay, start: (u64, u64)|
        #[trigger] spec_replay_from(init, spec_all_records(contents), start) == (
        match spec_replay_from(init, spec_all_records(contents.subrange(0, k)), start) {
            Ok(a) => spec_replay_from(a, spec_rest_records(contents, k), start),
            Err(e) => Err(e),
        }) by {
        lemma_replay_concat(
            init,
            spec_all_records(contents.subrange(0, k)),
            spec_rest_records(contents, k),
            start,
        );
    }
}

/// Once replaying a prefix of records has failed, replaying more of them
/// fails with the same error.
pub proof fn lemma_replay_error_sticks(init: Replay, records: Seq<RecordModel>, k: int, start: (
    u64,
    u64,
))
    requires
        0 <= k <= records.len(),
    ensures
        spec_replay_from(init, records.subrange(0, k), start) matches Err(e) ==> spec_replay_from(
            init,
            records,
            start,
        ) == Err::<Replay, Error>(e),
    decreases records.len() - k,
{
    if k == records.len() {
        assert(records.subrange(0, k) =~= records);
    } else {
        let next = records.subrange(0, k + 1);
        assert(next.drop_last() =~= records.subrange(0, k));
        lemma_replay_error_sticks(init, records, k + 1, start);
    }
}

} // verus!
