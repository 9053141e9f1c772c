//! One segment of the write-ahead log: records behind their lengths.
//!
//! The segment keeps what has been appended since the last sync; the caller
//! owns the locked file and writes the bytes that `sync` hands out.

use crate::errors::Error;
use crate::layout::{
    append_bytes, lemma_blob_round_trip, put_blob, spec_announced, spec_blob, spec_first_blob,
    spec_starts_with_blob, take_blob,
};
use crate::wal::record::{
    lemma_record_len, lemma_record_round_trip, spec_decode_record, spec_encode_record, Record,
    RecordModel,
};
use vstd::bytes::lemma_auto_spec_u64_to_from_le_bytes;
use vstd::prelude::*;
use vstd::slice::slice_subrange;

verus! {

/// The write offset from which a segment is full and the log moves on to a
/// new one: 32 MiB.
pub const SEGMENT_SIZE: u64 = 33_554_432;

/// A record as a segment stores it: the length of its encoding as eight
/// little-endian bytes, then the encoding.
pub open spec fn spec_frame(r: RecordModel) -> Seq<u8> {
    spec_blob(spec_encode_record(r))
}

/// The bytes of a segment that holds `records` in order.
pub open spec fn spec_frames(records: Seq<RecordModel>) -> Seq<u8>
    decreases records.len(),
{
    if records.len() == 0 {
        Seq::empty()
    } else {
        spec_frames(records.drop_last()) + spec_frame(records.last())
    }
}

/// The records that a segment with the bytes `b` yields: reading stops at the
/// end, at an incomplete record, or at one that does not decode.
pub open spec fn spec_parse_frames(b: Seq<u8>) -> Seq<RecordModel>
    decreases b.len(),
{
    if spec_starts_with_blob(b) && spec_decode_record(spec_first_blob(b)) is Some {
        seq![spec_decode_record(spec_first_blob(b))->0] + spec_parse_frames(
            b.skip(8 + spec_announced(b)),
        )
    } else {
        Seq::empty()
    }
}

/// Whether the encoding of every record has a length that eight bytes hold.
pub open spec fn spec_all_fit(records: Seq<RecordModel>) -> bool {
    forall|i: int| 0 <= i < records.len() ==> 13 + (#[trigger] records[i]).data.len() <= u64::MAX
}

/// Reading a stored record and what follows it gives the record, then what
/// reading the rest gives.
pub proof fn lemma_parse_frame(r: RecordModel, rest: Seq<u8>)
    requires
        13 + r.data.len() <= u64::MAX,
    ensures
        spec_parse_frames(spec_frame(r) + rest) == seq![r] + spec_parse_frames(rest),
{
    let enc = spec_encode_record(r);
    let b = spec_frame(r) + rest;
    lemma_record_len(r);
    lemma_blob_round_trip(enc, rest);
    lemma_record_round_trip(r, Seq::empty());
    assert(enc + Seq::<u8>::empty() =~= enc);
    lemma_auto_spec_u64_to_from_le_bytes();
    assert(b.skip(8 + spec_announced(b)) =~= rest);
}

/// Reading what was stored, with more stored behind it, gives the records
/// that were stored and then those behind them.
pub proof fn lemma_parse_frames_concat(records: Seq<RecordModel>, rest: Seq<u8>)
    requires
        spec_all_fit(records),
    ensures
        spec_parse_frames(spec_frames(records) + rest) == records + spec_parse_frames(rest),
    decreases records.len(),
{
    if records.len() == 0 {
        assert(spec_frames(records) + rest =~= rest);
        assert(records + spec_parse_frames(rest) =~= spec_parse_frames(rest));
    } else {
        let head = records.drop_last();
        let last = records.last();
        let tail = spec_frame(last) + rest;
        assert(spec_all_fit(head)) by {
            assert forall|i: int| 0 <= i < head.len() implies 13 + (#[trigger] head[i]).data.len()
                <= u64::MAX by {
                assert(head[i] == records[i]);
            }
        }
        assert(13 + last.data.len() <= u64::MAX) by {
            assert(records[records.len() - 1] == last);
        }
        lemma_parse_frames_concat(head, tail);
        lemma_parse_frame(last, rest);
        assert(spec_frames(records) + rest == spec_frames(head) + tail) by {
            assert(spec_frames(records) == spec_frames(head) + spec_frame(last));
            assert((spec_frames(head) + spec_frame(last)) + rest =~= spec_frames(head) + (
            spec_frame(last) + rest));
        }
        assert(records + spec_parse_frames(rest) == head + (seq![last] + spec_parse_frames(rest)))
            by {
            assert(records =~= head + seq![last]);
            assert((head + seq![last]) + spec_parse_frames(rest) =~= head + (seq![last]
                + spec_parse_frames(rest)));
        }
    }
}

/// A segment that holds exactly the stored records reads back as those
/// records, in the order in which they were stored.
pub proof fn lemma_frames_round_trip(records: Seq<RecordModel>)
    requires
        spec_all_fit(records),
    ensures
        spec_parse_frames(spec_frames(records)) == records,
{
    lemma_parse_frames_concat(records, Seq::empty());
    assert(spec_frames(records) + Seq::<u8>::empty() =~= spec_frames(records));
    assert(spec_parse_frames(Seq::<u8>::empty()) =~= Seq::<RecordModel>::empty());
    assert(records + Seq::<RecordModel>::empty() =~= records);
}

/// The views of a vector of records.
pub open spec fn spec_models(records: Seq<Record>) -> Seq<RecordModel> {
    records.map_values(|r: Record| r@)
}

/// Appends `r` to `out` as a segment stores it.
pub fn put_frame(out: &mut Vec<u8>, r: &Record)
    ensures
        final(out)@ == old(out)@ + spec_frame(r@),
{
    let enc = r.encode();
    put_blob(out, enc.as_slice());
}

/// One segment file of the log.
#[derive(Debug)]
pub struct WalFile {
    path: Vec<u8>,
    size: u64,
    pending: Vec<u8>,
}

impl WalFile {
    /// The path of the segment file.
    pub closed spec fn spec_path(&self) -> Seq<u8> {
        self.path@
    }

    /// The write offset: the length of the file once everything appended is
    /// written.
    pub closed spec fn spec_size(&self) -> u64 {
        self.size
    }

    /// The bytes appended since the last sync.
    pub closed spec fn spec_pending(&self) -> Seq<u8> {
        self.pending@
    }

    /// What holds of every segment: no more is pending than the offset counts.
    pub closed spec fn wf(&self) -> bool {
        self.pending@.len() <= self.size
    }

    /// A segment for a new, empty file at `path`.
    pub fn create(path: Vec<u8>) -> (f: WalFile)
        ensures
            f.wf(),
            f.spec_path() == path@,
            f.spec_size() == 0,
            f.spec_pending() == Seq::<u8>::empty(),
    {
        WalFile { path, size: 0, pending: Vec::new() }
    }

    /// A segment for the file at `path` that already holds `len` bytes;
    /// appending continues behind them.
    pub fn open(path: Vec<u8>, len: u64) -> (f: WalFile)
        ensures
            f.wf(),
            f.spec_path() == path@,
            f.spec_size() == len,
            f.spec_pending() == Seq::<u8>::empty(),
    {
        WalFile { path, size: len, pending: Vec::new() }
    }

    /// The path of the segment file.
    pub fn path(&self) -> (p: &Vec<u8>)
        ensures
            p@ == self.spec_path(),
    {
        &self.path
    }

    /// Appends `bytes`, which hold whole stored records, to what is pending.
    /// Fails with `Error::Io`, and changes nothing, exactly where the write
    /// offset would leave the range of `u64`.
    pub fn append(&mut self, bytes: &[u8]) -> (out: Result<(), Error>)
        requires
            old(self).wf(),
        ensures
            final(self).wf(),
            final(self).spec_path() == old(self).spec_path(),
            match out {
                Ok(()) => {
                    &&& final(self).spec_pending() == old(self).spec_pending() + bytes@
                    &&& final(self).spec_size() == old(self).spec_size() + bytes@.len()
                },
                Err(e) => {
                    &&& e is Io
                    &&& old(self).spec_size() + bytes@.len() > u64::MAX
                    &&& final(self).spec_pending() == old(self).spec_pending()
                    &&& final(self).spec_size() == old(self).spec_size()
                },
            },
    {
        let n = bytes.len();
        if n as u64 > u64::MAX - self.size {
            return Err(Error::Io);
        }
        append_bytes(&mut self.pending, bytes);
        self.size = self.size + n as u64;
        Ok(())
    }

    /// Appends `r` behind the length of its encoding. Nothing is handed to
    /// the file before the next `sync`. Fails with `Error::Io`, and changes
    /// nothing, exactly where the write offset would leave the range of `u64`.
    pub fn insert_record(&mut self, r: Record) -> (out: Result<(), Error>)
        requires
            old(self).wf(),
        ensures
            final(self).wf(),
            final(self).spec_path() == old(self).spec_path(),
            match out {
                Ok(()) => {
                    &&& final(self).spec_pending() == old(self).spec_pending() + spec_frame(r@)
                    &&& final(self).spec_size() == old(self).spec_size() + spec_frame(r@).len()
                },
                Err(e) => {
                    &&& e is Io
                    &&& old(self).spec_size() + spec_frame(r@).len() > u64::MAX
                    &&& final(self).spec_pending() == old(self).spec_pending()
                    &&& final(self).spec_size() == old(self).spec_size()
                },
            },
    {
        let mut frame: Vec<u8> = Vec::new();
        put_frame(&mut frame, &r);
        assert(frame@ =~= spec_frame(r@));
        self.append(frame.as_slice())
    }

    /// Hands out what was appended since the last sync. The caller writes
    /// these bytes to the end of the file and makes the file durable.
    pub fn sync(&mut self) -> (bytes: Vec<u8>)
        requires
            old(self).wf(),
        ensures
            final(self).wf(),
            bytes@ == old(self).spec_pending(),
            final(self).spec_pending() == Seq::<u8>::empty(),
            final(self).spec_size() == old(self).spec_size(),
            final(self).spec_path() == old(self).spec_path(),
    {
        let mut bytes: Vec<u8> = Vec::new();
        core::mem::swap(&mut bytes, &mut self.pending);
        bytes
    }

    /// The write offset.
    pub fn size(&self) -> (n: u64)
        ensures
            n == self.spec_size(),
    {
        self.size
    }

    /// Whether the segment is full: its write offset has reached
    /// `SEGMENT_SIZE`.
    pub fn check_cut(&self) -> (full: bool)
        ensures
            full == (self.spec_size() >= SEGMENT_SIZE),
    {
        self.size >= SEGMENT_SIZE
    }

    /// The length of the file as it stands: the write offset without what is
    /// still pending.
    pub fn file_size(&self) -> (n: u64)
        requires
            self.wf(),
        ensures
            n == self.spec_size() - self.spec_pending().len(),
    {
        self.size - self.pending.len() as u64
    }
}

/// Reads the records of a segment from its bytes, front to back.
#[derive(Debug)]
pub struct WalFileIterator {
    content: Vec<u8>,
    pos: usize,
}

impl WalFileIterator {
    /// The bytes that are still to be read.
    pub closed spec fn spec_rest(&self) -> Seq<u8> {
        self.content@.skip(self.pos as int)
    }

    /// What holds of every iterator: its position lies within the bytes.
    pub closed spec fn wf(&self) -> bool {
        self.pos <= self.content@.len()
    }

    /// An iterator over the records in `content`, the bytes of a segment.
    pub fn new(content: Vec<u8>) -> (it: WalFileIterator)
        ensures
            it.wf(),
            it.spec_rest() == content@,
    {
        assert(content@.skip(0) =~= content@);
        WalFileIterator { content, pos: 0 }
    }

    /// The next record, or `None` at the end of the bytes, at an incomplete
    /// record or at one that does not decode. After `None` the iterator is
    /// unchanged; after a record it stands behind that record.
    pub fn next(&mut self) -> (out: Option<Record>)
        requires
            old(self).wf(),
        ensures
            final(self).wf(),
            match out {
                Some(r) => {
                    &&& spec_starts_with_blob(old(self).spec_rest())
                    &&& spec_decode_record(spec_first_blob(old(self).spec_rest())) == Some(r@)
                    &&& final(self).spec_rest() == old(self).spec_rest().skip(
                        8 + spec_announced(old(self).spec_rest()),
                    )
                    &&& spec_parse_frames(old(self).spec_rest()) == seq![r@] + spec_parse_frames(
                        final(self).spec_rest(),
                    )
                },
                None => {
                    &&& spec_parse_frames(old(self).spec_rest()) == Seq::<RecordModel>::empty()
                    &&& final(self).spec_rest() == old(self).spec_rest()
                },
            },
    {
        let n = self.content.len();
        let rest = slice_subrange(self.content.as_slice(), self.pos, n);
        assert(rest@ =~= self.spec_rest());
        let payload = match take_blob(rest) {
            Some(p) => p,
            None => {
                return None;
            },
        };
        match Record::decode(payload.as_slice()) {
            Ok(r) => {
                let ghost before = self.spec_rest();
                self.pos = self.pos + 8 + payload.len();
                assert(self.spec_rest() =~= before.skip(8 + spec_announced(before)));
                Some(r)
            },
            Err(_) => None,
        }
    }
}

/// All records of a segment with the bytes `content`, in order.
pub fn read_records(content: Vec<u8>) -> (records: Vec<Record>)
    ensures
        spec_models(records@) == spec_parse_frames(content@),
{
    let mut it = WalFileIterator::new(content);
    let mut records: Vec<Record> = Vec::new();
    loop
        invariant
            it.wf(),
            spec_parse_frames(content@) == spec_models(records@) + spec_parse_frames(
                it.spec_rest(),
            ),
        decreases it.spec_rest().len(),
    {
        let ghost before = spec_models(records@);
        let ghost rest_before = it.spec_rest();
        match it.next() {
            Some(r) => {
                records.push(r);
                assert(spec_models(records@) =~= before.push(r@));
                assert(before + (seq![r@] + spec_parse_frames(it.spec_rest())) =~= before.push(r@)
                    + spec_parse_frames(it.spec_rest()));
                assert(it.spec_rest().len() < rest_before.len());
            },
            None => {
                assert(before + Seq::<RecordModel>::empty() =~= before);
                return records;
            },
        }
    }
}

} // verus!
