//! The write-ahead log: an ordered run of segments that holds the hard state
//! and the log entries of a Raft node.

pub mod laws;
pub mod record;
pub mod replay;
pub mod wal_file;

use crate::checksum::spec_crc32c;
use crate::errors::Error;
use crate::names::{
    file_name, index_from_path, join, spec_file_name, spec_index_from_path, spec_join,
};
use crate::raftpb::{Entry, EntryModel, HardState};
use crate::util::{spec_wal_ext, wal_ext};
use crate::wal::record::{lemma_record_len, Record, RecordModel, RecordType};
use crate::wal::replay::{replay, spec_all_records, spec_entry_models, spec_no_state, spec_replay};
use crate::wal::wal_file::{
    put_frame, spec_all_fit, spec_frames, WalFile, SEGMENT_SIZE,
};
use crate::wire::{
    encode_entry, encode_hard_state, spec_entry_bytes, spec_entry_fits, spec_entry_of_bytes,
    spec_hard_state_bytes, spec_hard_state_of_bytes,
};
use vstd::bytes::lemma_auto_spec_u64_to_from_le_bytes;
use vstd::prelude::*;
use vstd::slice::slice_to_vec;

verus! {

/// The record of type `ty` over `data`, with the checksum of `data`.
pub open spec fn spec_record_of(ty: RecordType, data: Seq<u8>) -> RecordModel {
    RecordModel { ty, crc: spec_crc32c(data), data }
}

/// The records that hold `entries`, one entry record each, in order.
pub open spec fn spec_entry_records(entries: Seq<EntryModel>) -> Seq<RecordModel> {
    Seq::new(
        entries.len(),
        |i: int| spec_record_of(RecordType::EntryType, spec_entry_bytes(entries[i])),
    )
}

/// The records that one insert stores: the entries in order, then the hard
/// state where there is one.
pub open spec fn spec_insert_records(state: Option<HardState>, entries: Seq<EntryModel>) -> Seq<
    RecordModel,
> {
    spec_entry_records(entries) + match state {
        Some(hs) => seq![spec_record_of(RecordType::StateType, spec_hard_state_bytes(hs))],
        None => Seq::empty(),
    }
}

/// Whether every entry is small enough to be encoded.
pub open spec fn spec_all_entries_fit(entries: Seq<EntryModel>) -> bool {
    forall|i: int| 0 <= i < entries.len() ==> spec_entry_fits(#[trigger] entries[i])
}

/// Whether the encoding of every entry decodes to the entry again.
pub open spec fn spec_entries_read_back(entries: Seq<EntryModel>) -> bool {
    forall|i: int|
        0 <= i < entries.len() ==> spec_entry_of_bytes(spec_entry_bytes(#[trigger] entries[i]))
            == Some(entries[i])
}

/// Whether the encoding of the hard state, where there is one, decodes to it
/// again.
pub open spec fn spec_state_reads_back(state: Option<HardState>) -> bool {
    match state {
        Some(hs) => spec_hard_state_of_bytes(spec_hard_state_bytes(hs)) == Some(hs),
        None => true,
    }
}

/// The index of the last entry of `entries`, or `enti` where there is none.
pub open spec fn spec_last_index(entries: Seq<EntryModel>, enti: u64) -> u64 {
    if entries.len() > 0 {
        entries.last().index
    } else {
        enti
    }
}

/// The path of the segment with sequence number `idx.0` that starts at the
/// Raft index `idx.1`, in the directory `dir`.
pub open spec fn spec_wal_path(dir: Seq<u8>, idx: (u64, u64)) -> Seq<u8> {
    spec_join(dir, spec_file_name(idx.0, idx.1, spec_wal_ext()))
}

/// The path of the segment `idx` in the directory `dir`.
pub fn new_wal_path(dir: &[u8], idx: (u64, u64)) -> (path: Vec<u8>)
    ensures
        path@ == spec_wal_path(dir@, idx),
{
    let ext = wal_ext();
    let name = file_name(idx.0, idx.1, ext.as_slice());
    join(dir, name.as_slice())
}

/// The stored form of the records that hold `entries`. Fails with
/// `Error::Protbuf` exactly where an entry is too large to be encoded.
pub fn frame_entries(entries: &Vec<Entry>) -> (out: Result<Vec<u8>, Error>)
    ensures
        match out {
            Ok(b) => {
                &&& spec_all_entries_fit(spec_entry_models(entries@))
                &&& spec_entries_read_back(spec_entry_models(entries@))
                &&& spec_all_fit(spec_entry_records(spec_entry_models(entries@)))
                &&& b@ == spec_frames(spec_entry_records(spec_entry_models(entries@)))
            },
            Err(e) => e is Protbuf && !spec_all_entries_fit(spec_entry_models(entries@)),
        },
{
    let ghost models = spec_entry_models(entries@);
    let mut batch: Vec<u8> = Vec::new();
    let mut i: usize = 0;
    while i < entries.len()
        invariant
            i <= entries@.len(),
            models == spec_entry_models(entries@),
            forall|k: int| 0 <= k < i ==> spec_entry_fits(#[trigger] models[k]),
            forall|k: int|
                0 <= k < i ==> spec_entry_of_bytes(spec_entry_bytes(#[trigger] models[k])) == Some(
                    models[k],
                ),
            batch@ == spec_frames(spec_entry_records(models.subrange(0, i as int))),
            forall|k: int|
                0 <= k < i ==> 13 + (#[trigger] spec_entry_records(models)[k]).data.len()
                    <= u64::MAX,
        decreases entries@.len() - i,
    {
        let ghost done = spec_entry_records(models.subrange(0, i as int));
        assert(models[i as int] == entries@[i as int]@);
        let bytes = match encode_entry(&entries[i]) {
            Ok(b) => b,
            Err(_) => {
                return Err(Error::Protbuf);
            },
        };
        let r = Record::new(RecordType::EntryType, bytes);
        put_frame(&mut batch, &r);
        proof {
            assert(batch@.len() == batch.len());
            let next = spec_entry_records(models.subrange(0, i + 1));
            assert(next.drop_last() =~= done);
            assert(next.last() == r@);
            lemma_record_len(r@);
            lemma_auto_spec_u64_to_from_le_bytes();
            assert(spec_entry_records(models)[i as int] == r@);
        }
        i = i + 1;
    }
    assert(models.subrange(0, i as int) =~= models);
    Ok(batch)
}

/// What the caller has to do to the files after an insert.
#[derive(Debug)]
pub enum WalAction {
    /// Nothing: what was appended stays pending until the next sync.
    Nothing,
    /// Write `bytes` to the end of the file at `path` and make it durable.
    Sync { path: Vec<u8>, bytes: Vec<u8> },
    /// Write `bytes` to the end of the file at `path` and make it durable,
    /// then create and lock the new head segment at `next`.
    Cut { path: Vec<u8>, bytes: Vec<u8>, next: Vec<u8> },
}

/// A segment file that a directory listing has found: its path and length.
#[derive(Debug)]
pub struct SegmentFile {
    pub path: Vec<u8>,
    pub len: u64,
}

/// The write-ahead log.
#[derive(Debug)]
pub struct Wal {
    dir: Vec<u8>,
    state: HardState,
    last_wal_index: (u64, u64),
    start: (u64, u64),
    segments: Vec<WalFile>,
    indexes: Vec<(u64, u64)>,
    enti: u64,
}

impl Wal {
    /// The directory of the segment files.
    pub closed spec fn spec_dir(&self) -> Seq<u8> {
        self.dir@
    }

    /// The hard state stored last.
    pub closed spec fn spec_state(&self) -> HardState {
        self.state
    }

    /// Sequence number and starting Raft index of the head segment.
    pub closed spec fn spec_last_wal_index(&self) -> (u64, u64) {
        self.last_wal_index
    }

    /// Term and index of the snapshot that the log was opened at.
    pub closed spec fn spec_start(&self) -> (u64, u64) {
        self.start
    }

    /// The segments, oldest first; the last one is the head.
    pub closed spec fn spec_segments(&self) -> Seq<WalFile> {
        self.segments@
    }

    /// Sequence number and starting Raft index of each segment.
    pub closed spec fn spec_indexes(&self) -> Seq<(u64, u64)> {
        self.indexes@
    }

    /// The index of the entry stored or read last.
    pub closed spec fn spec_enti(&self) -> u64 {
        self.enti
    }

    /// What holds of every log: it has a head segment, and its segments are
    /// well formed.
    pub closed spec fn wf(&self) -> bool {
        &&& self.segments@.len() > 0
        &&& self.indexes@.len() == self.segments@.len()
        &&& self.last_wal_index == self.indexes@.last()
        &&& forall|i: int| 0 <= i < self.segments@.len() ==> (#[trigger] self.segments@[i]).wf()
    }

    /// A well-formed log has a head segment, one pair of numbers for each
    /// segment, and those of the head are the last.
    pub proof fn lemma_wf(&self)
        requires
            self.wf(),
        ensures
            self.spec_segments().len() > 0,
            self.spec_indexes().len() == self.spec_segments().len(),
            self.spec_last_wal_index() == self.spec_indexes().last(),
    {
    }

    /// The head segment.
    pub open spec fn spec_head(&self) -> WalFile {
        self.spec_segments().last()
    }

    /// What holds of a log that was just created in the directory `dir`.
    pub open spec fn spec_created(wal: Wal, dir: Seq<u8>) -> bool {
        &&& wal.wf()
        &&& wal.spec_dir() == dir
        &&& wal.spec_state() == spec_no_state()
        &&& wal.spec_last_wal_index() == (0u64, 0u64)
        &&& wal.spec_start() == (0u64, 0u64)
        &&& wal.spec_enti() == 0
        &&& wal.spec_segments().len() == 1
        &&& wal.spec_indexes() == seq![(0u64, 0u64)]
        &&& wal.spec_head().spec_path() == spec_wal_path(dir, (0, 0))
        &&& wal.spec_head().spec_size() == 0
        &&& wal.spec_head().spec_pending() == Seq::<u8>::empty()
    }

    /// A new log in the directory `dir`. Its first segment has the sequence
    /// number 0 and starts at the Raft index 0; the caller creates and locks
    /// the file at the path of that segment.
    pub fn create(dir: Vec<u8>) -> (wal: Wal)
        ensures
            Wal::spec_created(wal, dir@),
    {
        let first = WalFile::create(new_wal_path(dir.as_slice(), (0, 0)));
        let mut segments: Vec<WalFile> = Vec::new();
        segments.push(first);
        let mut indexes: Vec<(u64, u64)> = Vec::new();
        indexes.push((0, 0));
        assert(indexes@ =~= seq![(0u64, 0u64)]);
        Wal {
            dir,
            state: HardState { term: 0, vote: 0, commit: 0 },
            last_wal_index: (0, 0),
            start: (0, 0),
            segments,
            indexes,
            enti: 0,
        }
    }

    /// The path of the head segment.
    pub fn head_path(&self) -> (path: &Vec<u8>)
        requires
            self.wf(),
        ensures
            path@ == self.spec_head().spec_path(),
    {
        self.segments[self.segments.len() - 1].path()
    }

    /// The paths of the segment files, oldest first.
    pub fn segment_paths(&self) -> (paths: Vec<Vec<u8>>)
        ensures
            paths@.len() == self.spec_segments().len(),
            forall|i: int|
                0 <= i < paths@.len() ==> (#[trigger] paths@[i])@ == self.spec_segments()[i].spec_path(),
    {
        let mut paths: Vec<Vec<u8>> = Vec::new();
        let mut i: usize = 0;
        while i < self.segments.len()
            invariant
                i <= self.segments@.len(),
                paths@.len() == i,
                forall|k: int|
                    0 <= k < i ==> (#[trigger] paths@[k])@ == self.segments@[k].spec_path(),
            decreases self.segments@.len() - i,
        {
            paths.push(slice_to_vec(self.segments[i].path().as_slice()));
            i = i + 1;
        }
        paths
    }

    /// The number of segments.
    pub fn segment_count(&self) -> (n: usize)
        ensures
            n == self.spec_segments().len(),
    {
        self.segments.len()
    }

    /// The hard state stored last.
    pub fn state(&self) -> (hs: HardState)
        ensures
            hs == self.spec_state(),
    {
        self.state
    }

    /// Hands out what is pending in the head segment, for the caller to write
    /// to the head file and make durable.
    pub fn sync(&mut self) -> (bytes: Vec<u8>)
        requires
            old(self).wf(),
        ensures
            final(self).wf(),
            bytes@ == old(self).spec_head().spec_pending(),
            final(self).spec_head().spec_pending() == Seq::<u8>::empty(),
            final(self).spec_head().spec_size() == old(self).spec_head().spec_size(),
            final(self).spec_head().spec_path() == old(self).spec_head().spec_path(),
            final(self).spec_segments().len() == old(self).spec_segments().len(),
            final(self).spec_segments().drop_last() == old(self).spec_segments().drop_last(),
            final(self).spec_dir() == old(self).spec_dir(),
            final(self).spec_state() == old(self).spec_state(),
            final(self).spec_last_wal_index() == old(self).spec_last_wal_index(),
            final(self).spec_indexes() == old(self).spec_indexes(),
            final(self).spec_start() == old(self).spec_start(),
            final(self).spec_enti() == old(self).spec_enti(),
    {
        let mut head = self.segments.pop().unwrap();
        let bytes = head.sync();
        self.segments.push(head);
        assert(self.segments@.drop_last() =~= old(self).segments@.drop_last());
        bytes
    }

    /// What `insert` ensures of the log before and after it, of what it
    /// was given and of what it returns.
    pub open spec fn spec_insert_post(
        before: Wal,
        after: Wal,
        state: Option<HardState>,
        entries: Seq<Entry>,
        must_sync: bool,
        out: Result<WalAction, Error>,
    ) -> bool {
        &&& after.wf()
        &&& after.spec_dir() == before.spec_dir()
        &&& after.spec_start() == before.spec_start()
        &&& {
                let models = spec_entry_models(entries);
                let batch = spec_frames(spec_insert_records(state, models));
                let head = before.spec_head();
                let total = head.spec_size() + batch.len();
                let enti = spec_last_index(models, before.spec_enti());
                let full = total >= SEGMENT_SIZE;
                let idx = before.spec_last_wal_index();
                let n = before.spec_segments().len() as int;
                if state is None && models.len() == 0 {
                    out matches Ok(WalAction::Nothing) && after == before
                } else if !spec_all_entries_fit(models) {
                    out matches Err(Error::Protbuf) && after == before
                } else if total > u64::MAX || (full && (idx.0 == u64::MAX || enti == u64::MAX)) {
                    out matches Err(Error::Io) && after == before
                } else {
                    &&& spec_entries_read_back(models)
                    &&& spec_state_reads_back(state)
                    &&& spec_all_fit(spec_insert_records(state, models))
                    &&& after.spec_state() == (match state {
                        Some(hs) => hs,
                        None => before.spec_state(),
                    })
                    &&& after.spec_enti() == enti
                    &&& after.spec_segments().subrange(0, n - 1) == before.spec_segments().subrange(0, n - 1)
                    &&& after.spec_segments()[n - 1].spec_path() == head.spec_path()
                    &&& after.spec_segments()[n - 1].spec_size() == total
                    &&& if full {
                        let next = spec_wal_path(
                            before.spec_dir(),
                            ((idx.0 + 1) as u64, (enti + 1) as u64),
                        );
                        &&& out matches Ok(WalAction::Cut { path, bytes, next: found })
                        &&& path@ == head.spec_path()
                        &&& bytes@ == head.spec_pending() + batch
                        &&& found@ == next
                        &&& after.spec_segments().len() == n + 1
                        &&& after.spec_segments()[n - 1].spec_pending() == Seq::<u8>::empty()
                        &&& after.spec_head().spec_path() == next
                        &&& after.spec_head().spec_size() == 0
                        &&& after.spec_head().spec_pending() == Seq::<u8>::empty()
                        &&& after.spec_last_wal_index() == ((idx.0 + 1) as u64, (enti + 1) as u64)
                        &&& after.spec_indexes() == before.spec_indexes().push(
                            ((idx.0 + 1) as u64, (enti + 1) as u64),
                        )
                    } else if must_sync {
                        &&& out matches Ok(WalAction::Sync { path, bytes })
                        &&& path@ == head.spec_path()
                        &&& bytes@ == head.spec_pending() + batch
                        &&& after.spec_segments().len() == n
                        &&& after.spec_head().spec_pending() == Seq::<u8>::empty()
                        &&& after.spec_last_wal_index() == idx
                        &&& after.spec_indexes() == before.spec_indexes()
                    } else {
                        &&& out matches Ok(WalAction::Nothing)
                        &&& after.spec_segments().len() == n
                        &&& after.spec_head().spec_pending() == head.spec_pending() + batch
                        &&& after.spec_last_wal_index() == idx
                        &&& after.spec_indexes() == before.spec_indexes()
                    }
                }
            }
    }

    /// Stores `entries`, each as an entry record, then `state` as a state
    /// record where there is one, in the head segment.
    ///
    /// With nothing to store, nothing happens. Otherwise the call fails, and
    /// changes nothing, with `Error::Protbuf` where an entry is too large to
    /// be encoded and with `Error::Io` where the head file or the name of the
    /// next segment would leave the range of `u64`. On success the head
    /// segment has grown by the stored records. Where that fills it, its
    /// pending bytes are handed out and a new head segment follows, one
    /// sequence number on and starting behind the last entry stored; else the
    /// pending bytes are handed out where `must_sync` is set, and stay
    /// pending where it is not.
    pub fn insert(&mut self, state: Option<HardState>, entries: &Vec<Entry>, must_sync: bool) -> (out:
        Result<WalAction, Error>)
        requires
            old(self).wf(),
        ensures
            Wal::spec_insert_post(*old(self), *final(self), state, entries@, must_sync, out),
    {
        if state.is_none() && entries.len() == 0 {
            return Ok(WalAction::Nothing);
        }
        let ghost models = spec_entry_models(entries@);
        let mut batch = frame_entries(entries)?;
        match state {
            Some(hs) => {
                let ghost before = batch@;
                let bytes = match encode_hard_state(&hs) {
                    Ok(b) => b,
                    Err(e) => {
                        return Err(e);
                    },
                };
                let r = Record::new(RecordType::StateType, bytes);
                put_frame(&mut batch, &r);
                proof {
                    assert(batch@.len() == batch.len());
                    let all = spec_insert_records(state, models);
                    assert(all.drop_last() =~= spec_entry_records(models));
                    assert(all.last() == r@);
                    lemma_record_len(r@);
                    lemma_auto_spec_u64_to_from_le_bytes();
                    assert forall|k: int| 0 <= k < all.len() implies 13 + (#[trigger] all[k]).data.len()
                        <= u64::MAX by {
                        if k < all.len() - 1 {
                            assert(all[k] == spec_entry_records(models)[k]);
                        }
                    }
                }
            },
            None => {
                assert(spec_insert_records(state, models) =~= spec_entry_records(models));
            },
        }
        let n = self.segments.len();
        let size = self.segments[n - 1].size();
        if batch.len() as u64 > u64::MAX - size {
            return Err(Error::Io);
        }
        let total = size + batch.len() as u64;
        let enti = if entries.len() > 0 {
            assert(models.last() == entries@[entries@.len() - 1]@);
            entries[entries.len() - 1].index
        } else {
            self.enti
        };
        let full = total >= SEGMENT_SIZE;
        if full && (self.last_wal_index.0 == u64::MAX || enti == u64::MAX) {
            return Err(Error::Io);
        }
        let mut head = self.segments.pop().unwrap();
        assert(self.segments@ =~= old(self).segments@.subrange(0, n - 1));
        match head.append(batch.as_slice()) {
            Ok(()) => {},
            Err(e) => {
                self.segments.push(head);
                assert(self.segments@ =~= old(self).segments@);
                return Err(e);
            },
        }
        match state {
            Some(hs) => {
                self.state = hs;
            },
            None => {},
        }
        self.enti = enti;
        if full {
            let bytes = head.sync();
            let path = slice_to_vec(head.path().as_slice());
            let idx = (self.last_wal_index.0 + 1, enti + 1);
            let next = new_wal_path(self.dir.as_slice(), idx);
            let fresh = WalFile::create(slice_to_vec(next.as_slice()));
            self.segments.push(head);
            self.segments.push(fresh);
            self.indexes.push(idx);
            self.last_wal_index = idx;
            assert(self.segments@.subrange(0, n - 1) =~= old(self).segments@.subrange(0, n - 1));
            Ok(WalAction::Cut { path, bytes, next })
        } else if must_sync {
            let bytes = head.sync();
            let path = slice_to_vec(head.path().as_slice());
            self.segments.push(head);
            assert(self.segments@.subrange(0, n - 1) =~= old(self).segments@.subrange(0, n - 1));
            Ok(WalAction::Sync { path, bytes })
        } else {
            self.segments.push(head);
            assert(self.segments@.subrange(0, n - 1) =~= old(self).segments@.subrange(0, n - 1));
            Ok(WalAction::Nothing)
        }
    }
}

/// The position of the segment that holds the Raft index `index`: the last
/// one that starts at or before it, or -1 where none does.
pub open spec fn spec_split_position(indexes: Seq<(u64, u64)>, index: u64) -> int
    decreases indexes.len(),
{
    if indexes.len() == 0 {
        -1
    } else if indexes.last().1 <= index {
        indexes.len() - 1
    } else {
        spec_split_position(indexes.drop_last(), index)
    }
}

/// Whether each sequence number is one more than the one before it.
pub open spec fn spec_contiguous(indexes: Seq<(u64, u64)>) -> bool {
    forall|i: int| 0 <= i < indexes.len() - 1 ==> (#[trigger] indexes[i + 1]).0 == indexes[i].0 + 1
}

/// The split position lies in the list, holds a segment that starts at or
/// before `index`, and every later segment starts behind `index`.
pub proof fn lemma_split_position(indexes: Seq<(u64, u64)>, index: u64)
    ensures
        -1 <= spec_split_position(indexes, index) < indexes.len(),
        spec_split_position(indexes, index) >= 0 ==> indexes[spec_split_position(
            indexes,
            index,
        )].1 <= index,
        forall|i: int|
            spec_split_position(indexes, index) < i < indexes.len() ==> (#[trigger] indexes[i]).1
                > index,
    decreases indexes.len(),
{
    if indexes.len() > 0 && indexes.last().1 > index {
        lemma_split_position(indexes.drop_last(), index);
        assert forall|i: int|
            spec_split_position(indexes, index) < i < indexes.len() implies (
        #[trigger] indexes[i]).1 > index by {
            if i < indexes.len() - 1 {
                assert(indexes.drop_last()[i] == indexes[i]);
            }
        }
    }
}

/// The position from which segments are kept for the Raft index `index`.
pub fn split_at_index(indexes: &Vec<(u64, u64)>, index: u64) -> (pos: Option<usize>)
    ensures
        match pos {
            Some(p) => p == spec_split_position(indexes@, index) && p < indexes@.len(),
            None => spec_split_position(indexes@, index) == -1,
        },
{
    let mut i: usize = indexes.len();
    assert(indexes@.subrange(0, i as int) =~= indexes@);
    while i > 0
        invariant
            i <= indexes@.len(),
            spec_split_position(indexes@, index) == spec_split_position(
                indexes@.subrange(0, i as int),
                index,
            ),
        decreases i,
    {
        let ghost upto = indexes@.subrange(0, i as int);
        assert(upto.last() == indexes@[i - 1]);
        assert(upto.drop_last() =~= indexes@.subrange(0, i - 1));
        i = i - 1;
        if indexes[i].1 <= index {
            return Some(i);
        }
    }
    assert(indexes@.subrange(0, 0).len() == 0);
    None
}

/// Whether the sequence numbers of `indexes` are contiguous.
pub fn valid_seq(indexes: &Vec<(u64, u64)>) -> (ok: bool)
    ensures
        ok == spec_contiguous(indexes@),
{
    let mut i: usize = 1;
    while i < indexes.len()
        invariant
            1 <= i,
            forall|k: int| 0 <= k < i - 1 && k < indexes@.len() - 1 ==> (#[trigger] indexes@[k + 1]).0
                == indexes@[k].0 + 1,
        decreases indexes@.len() - i,
    {
        let prev = indexes[i - 1].0;
        if prev == u64::MAX || indexes[i].0 != prev + 1 {
            assert(indexes@[(i - 1) + 1].0 != indexes@[i - 1].0 + 1);
            return false;
        }
        i = i + 1;
    }
    true
}

/// The paths of a listing.
pub open spec fn spec_listing_paths(listing: Seq<SegmentFile>) -> Seq<Seq<u8>> {
    listing.map_values(|f: SegmentFile| f.path@)
}

/// The sequence number and starting index in the name of each path, for the
/// paths up to the first one whose name holds none.
pub open spec fn spec_named_prefix(paths: Seq<Seq<u8>>) -> Seq<(u64, u64)>
    decreases paths.len(),
{
    if paths.len() == 0 {
        Seq::empty()
    } else {
        let head = spec_named_prefix(paths.drop_last());
        if head.len() == paths.len() - 1 && spec_index_from_path(paths.last()) is Some {
            head.push(spec_index_from_path(paths.last())->0)
        } else {
            head
        }
    }
}

/// The named prefix is no longer than the list; it holds the numbers of the
/// paths it covers, and the path behind it, if any, has no numbers in its name.
pub proof fn lemma_named_prefix(paths: Seq<Seq<u8>>)
    ensures
        spec_named_prefix(paths).len() <= paths.len(),
        forall|i: int|
            0 <= i < spec_named_prefix(paths).len() ==> spec_index_from_path(paths[i]) == Some(
                #[trigger] spec_named_prefix(paths)[i],
            ),
        spec_named_prefix(paths).len() < paths.len() ==> spec_index_from_path(
            paths[spec_named_prefix(paths).len() as int],
        ) is None,
    decreases paths.len(),
{
    if paths.len() > 0 {
        lemma_named_prefix(paths.drop_last());
        let head = spec_named_prefix(paths.drop_last());
        assert forall|i: int| 0 <= i < spec_named_prefix(paths).len() implies spec_index_from_path(
            paths[i],
        ) == Some(#[trigger] spec_named_prefix(paths)[i]) by {
            if i < head.len() {
                assert(paths.drop_last()[i] == paths[i]);
            }
        }
        if head.len() < paths.len() - 1 {
            assert(paths.drop_last()[head.len() as int] == paths[head.len() as int]);
        }
    }
}

/// The sequence number and starting index in the name of each file of
/// `listing`. Fails with `Error::BadSegmentName` and the first path whose
/// name holds none.
pub fn listing_indexes(listing: &Vec<SegmentFile>) -> (out: Result<Vec<(u64, u64)>, Error>)
    ensures
        ({
            let paths = spec_listing_paths(listing@);
            let named = spec_named_prefix(paths);
            match out {
                Ok(idxs) => idxs@ == named && named.len() == paths.len(),
                Err(e) => {
                    &&& named.len() < paths.len()
                    &&& e matches Error::BadSegmentName(p)
                    &&& p@ == paths[named.len() as int]
                },
            }
        }),
{
    let ghost paths = spec_listing_paths(listing@);
    let mut idxs: Vec<(u64, u64)> = Vec::new();
    let mut i: usize = 0;
    while i < listing.len()
        invariant
            i <= listing@.len(),
            paths == spec_listing_paths(listing@),
            idxs@ == spec_named_prefix(paths.subrange(0, i as int)),
            idxs@.len() == i,
        decreases listing@.len() - i,
    {
        let ghost next = paths.subrange(0, i + 1);
        assert(next.drop_last() =~= paths.subrange(0, i as int));
        assert(next.last() == listing@[i as int].path@);
        match index_from_path(listing[i].path.as_slice()) {
            Some(idx) => {
                idxs.push(idx);
            },
            None => {
                proof {
                    lemma_named_prefix_stops(paths, i as int);
                }
                return Err(Error::BadSegmentName(slice_to_vec(listing[i].path.as_slice())));
            },
        }
        i = i + 1;
    }
    assert(paths.subrange(0, i as int) =~= paths);
    Ok(idxs)
}

/// Where the name of the path at `k` holds no numbers and the names before
/// it all do, the named prefix of the whole list ends at `k`.
pub proof fn lemma_named_prefix_stops(paths: Seq<Seq<u8>>, k: int)
    requires
        0 <= k < paths.len(),
        spec_named_prefix(paths.subrange(0, k)).len() == k,
        spec_index_from_path(paths[k]) is None,
    ensures
        spec_named_prefix(paths) == spec_named_prefix(paths.subrange(0, k)),
    decreases paths.len() - k,
{
    let upto = paths.subrange(0, k + 1);
    assert(upto.drop_last() =~= paths.subrange(0, k));
    assert(upto.last() == paths[k]);
    lemma_named_prefix_frozen(paths, k + 1);
}

/// A named prefix that has stopped short stays as it is when paths follow.
pub proof fn lemma_named_prefix_frozen(paths: Seq<Seq<u8>>, k: int)
    requires
        0 <= k <= paths.len(),
        spec_named_prefix(paths.subrange(0, k)).len() < k,
    ensures
        spec_named_prefix(paths) == spec_named_prefix(paths.subrange(0, k)),
    decreases paths.len() - k,
{
    if k == paths.len() {
        assert(paths.subrange(0, k) =~= paths);
    } else {
        let upto = paths.subrange(0, k + 1);
        assert(upto.drop_last() =~= paths.subrange(0, k));
        lemma_named_prefix_frozen(paths, k + 1);
    }
}

impl Wal {
    /// What `open_at` ensures of what it was given and of what it returns.
    pub open spec fn spec_open_at_post(
        dir: Seq<u8>,
        listing: Option<Vec<SegmentFile>>,
        raft_index: (u64, u64),
        out: Result<Wal, Error>,
    ) -> bool {
        match listing {
                None => out matches Err(Error::MissFilePath(d)) && d@ == dir,
                Some(files) => {
                    let paths = spec_listing_paths(files@);
                    let named = spec_named_prefix(paths);
                    let pos = spec_split_position(named, raft_index.1);
                    if named.len() < paths.len() {
                        out matches Err(Error::BadSegmentName(p)) && p@ == paths[named.len() as int]
                    } else if pos < 0 {
                        out matches Err(Error::NoSegment)
                    } else if !spec_contiguous(named.skip(pos)) {
                        out matches Err(Error::SeqGap)
                    } else {
                        &&& out matches Ok(wal)
                        &&& wal.wf()
                        &&& wal.spec_dir() == dir
                        &&& wal.spec_state() == spec_no_state()
                        &&& wal.spec_start() == raft_index
                        &&& wal.spec_enti() == 0
                        &&& wal.spec_indexes() == named.skip(pos)
                        &&& wal.spec_last_wal_index() == named.last()
                        &&& wal.spec_segments().len() == paths.len() - pos
                        &&& forall|k: int|
                            0 <= k < paths.len() - pos ==> {
                                &&& (#[trigger] wal.spec_segments()[k]).spec_path() == paths[pos + k]
                                &&& wal.spec_segments()[k].spec_size() == files@[pos + k].len
                                &&& wal.spec_segments()[k].spec_pending() == Seq::<u8>::empty()
                            }
                    }
                },
            }
    }

    /// Opens the log in the directory `dir` at the snapshot with the term and
    /// index `raft_index`. `listing` holds the segment files of the
    /// directory in ascending order of their names, or `None` where the
    /// directory does not exist.
    ///
    /// The log keeps the segment that holds the index and every newer one;
    /// the caller opens and locks their files. The call fails with
    /// `Error::MissFilePath` where the directory does not exist, with
    /// `Error::BadSegmentName` where a name is not that of a segment, with
    /// `Error::NoSegment` where no segment starts at or before the index, and
    /// with `Error::SeqGap` where the kept sequence numbers leave a gap.
    pub fn open_at(dir: Vec<u8>, listing: Option<Vec<SegmentFile>>, raft_index: (u64, u64)) -> (out:
        Result<Wal, Error>)
        ensures
            Wal::spec_open_at_post(dir@, listing, raft_index, out),
    {
        let files = match listing {
            Some(files) => files,
            None => {
                return Err(Error::MissFilePath(dir));
            },
        };
        let ghost paths = spec_listing_paths(files@);
        let all = listing_indexes(&files)?;
        let pos = match split_at_index(&all, raft_index.1) {
            Some(p) => p,
            None => {
                return Err(Error::NoSegment);
            },
        };
        let mut indexes: Vec<(u64, u64)> = Vec::new();
        let mut segments: Vec<WalFile> = Vec::new();
        let mut k: usize = pos;
        while k < files.len()
            invariant
                pos <= k <= files@.len(),
                all@.len() == files@.len(),
                paths == spec_listing_paths(files@),
                indexes@ == all@.subrange(pos as int, k as int),
                segments@.len() == k - pos,
                forall|j: int|
                    0 <= j < k - pos ==> {
                        &&& (#[trigger] segments@[j]).wf()
                        &&& segments@[j].spec_path() == paths[pos + j]
                        &&& segments@[j].spec_size() == files@[pos + j].len
                        &&& segments@[j].spec_pending() == Seq::<u8>::empty()
                    },
            decreases files@.len() - k,
        {
            indexes.push(all[k]);
            segments.push(WalFile::open(slice_to_vec(files[k].path.as_slice()), files[k].len));
            assert(indexes@ =~= all@.subrange(pos as int, k + 1));
            k = k + 1;
        }
        assert(indexes@ =~= all@.skip(pos as int));
        if !valid_seq(&indexes) {
            return Err(Error::SeqGap);
        }
        let last_wal_index = indexes[indexes.len() - 1];
        Ok(
            Wal {
                dir,
                state: HardState { term: 0, vote: 0, commit: 0 },
                last_wal_index,
                start: raft_index,
                segments,
                indexes,
                enti: 0,
            },
        )
    }

    /// Gives up the segments that lie before the one that holds the Raft
    /// index `index`, and returns their paths, oldest first; the caller
    /// releases their locks. Where no segment starts at or before `index`,
    /// every segment stays.
    pub fn release_lock_to(&mut self, index: u64) -> (released: Vec<Vec<u8>>)
        requires
            old(self).wf(),
        ensures
            final(self).wf(),
            ({
                let pos = spec_split_position(old(self).spec_indexes(), index);
                let keep = if pos < 0 {
                    0
                } else {
                    pos
                };
                &&& final(self).spec_segments() == old(self).spec_segments().skip(keep)
                &&& final(self).spec_indexes() == old(self).spec_indexes().skip(keep)
                &&& released@.len() == keep
                &&& forall|k: int|
                    0 <= k < keep ==> (#[trigger] released@[k])@ == old(self).spec_segments()[k].spec_path()
            }),
            final(self).spec_dir() == old(self).spec_dir(),
            final(self).spec_state() == old(self).spec_state(),
            final(self).spec_start() == old(self).spec_start(),
            final(self).spec_enti() == old(self).spec_enti(),
            final(self).spec_last_wal_index() == old(self).spec_last_wal_index(),
    {
        let mut released: Vec<Vec<u8>> = Vec::new();
        let keep = match split_at_index(&self.indexes, index) {
            Some(p) => p,
            None => {
                assert(self.segments@.skip(0) =~= self.segments@);
                assert(self.indexes@.skip(0) =~= self.indexes@);
                return released;
            },
        };
        let mut k: usize = 0;
        while k < keep
            invariant
                k <= keep < old(self).segments@.len(),
                old(self).wf(),
                self.segments@ == old(self).segments@.skip(k as int),
                self.indexes@ == old(self).indexes@.skip(k as int),
                self.dir == old(self).dir,
                self.state == old(self).state,
                self.start == old(self).start,
                self.enti == old(self).enti,
                self.last_wal_index == old(self).last_wal_index,
                released@.len() == k,
                forall|j: int|
                    0 <= j < k ==> (#[trigger] released@[j])@ == old(self).segments@[j].spec_path(),
            decreases keep - k,
        {
            let gone = self.segments.remove(0);
            let _ = self.indexes.remove(0);
            released.push(slice_to_vec(gone.path().as_slice()));
            assert(self.segments@ =~= old(self).segments@.skip(k + 1));
            assert(self.indexes@ =~= old(self).indexes@.skip(k + 1));
            k = k + 1;
        }
        assert(self.indexes@.last() == old(self).indexes@.last());
        assert forall|i: int| 0 <= i < self.segments@.len() implies (#[trigger] self.segments@[i]).wf() by {
            assert(self.segments@[i] == old(self).segments@[keep + i]);
        }
        released
    }

    /// Replays the log from the bytes of its segment files, `contents`,
    /// oldest segment first: returns the latest hard state and the entries
    /// behind the index that the log was opened at, and remembers the index
    /// of the last entry read. Where a record fails, the call fails with the
    /// error of the first such record and changes nothing.
    pub fn read_all(&mut self, contents: &Vec<Vec<u8>>) -> (out: Result<(HardState, Vec<Entry>), Error>)
        requires
            old(self).wf(),
        ensures
            final(self).wf(),
            match spec_replay(spec_all_records(contents@), old(self).spec_start(), old(self).spec_enti()) {
                Ok(rep) => {
                    &&& out matches Ok(got)
                    &&& got.0 == rep.state
                    &&& spec_entry_models(got.1@) == rep.entries
                    &&& final(self).spec_enti() == rep.enti
                },
                Err(e) => out matches Err(err) && err == e && final(self).spec_enti() == old(
                    self,
                ).spec_enti(),
            },
            final(self).spec_dir() == old(self).spec_dir(),
            final(self).spec_state() == old(self).spec_state(),
            final(self).spec_start() == old(self).spec_start(),
            final(self).spec_segments() == old(self).spec_segments(),
            final(self).spec_indexes() == old(self).spec_indexes(),
            final(self).spec_last_wal_index() == old(self).spec_last_wal_index(),
    {
        let g = replay(contents, self.start, self.enti)?;
        self.enti = g.enti;
        Ok((g.state, g.entries))
    }
}

} // verus!
