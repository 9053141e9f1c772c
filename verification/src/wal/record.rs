//! Records: the typed, checksummed unit that a log segment stores.

use crate::checksum::{crc32c, spec_crc32c};
use crate::errors::Error;
use crate::layout::{
    lemma_blob_round_trip, put_blob, put_u32, spec_blob, spec_first_blob, spec_starts_with_blob,
    take_blob,
};
use vstd::bytes::*;
use vstd::prelude::*;
use vstd::slice::*;

verus! {

/// What a record carries. The order of the variants is the order of their tags.
#[derive(Clone, Copy, Debug, PartialEq, Eq, Structural)]
pub enum RecordType {
    /// An encoded Raft log entry.
    EntryType,
    /// An encoded hard state; on replay the latest one wins.
    StateType,
    /// An integrity marker over its own payload.
    CrcType,
    /// A segment boundary marker: file sequence number and Raft index.
    IndexType,
}

/// A record as contracts see it.
pub struct RecordModel {
    pub ty: RecordType,
    pub crc: u32,
    pub data: Seq<u8>,
}

/// A record: its type, the CRC-32C of its payload, and the payload.
#[derive(Clone, Debug, PartialEq)]
pub struct Record {
    pub ty: RecordType,
    pub crc: u32,
    pub data: Vec<u8>,
}

impl View for Record {
    type V = RecordModel;

    open spec fn view(&self) -> RecordModel {
        RecordModel { ty: self.ty, crc: self.crc, data: self.data@ }
    }
}

/// The tag byte of a record type.
pub open spec fn spec_tag(ty: RecordType) -> u8 {
    match ty {
        RecordType::EntryType => 0,
        RecordType::StateType => 1,
        RecordType::CrcType => 2,
        RecordType::IndexType => 3,
    }
}

/// The record type that a tag byte stands for.
pub open spec fn spec_type_of_tag(tag: u8) -> Option<RecordType> {
    if tag == 0 {
        Some(RecordType::EntryType)
    } else if tag == 1 {
        Some(RecordType::StateType)
    } else if tag == 2 {
        Some(RecordType::CrcType)
    } else if tag == 3 {
        Some(RecordType::IndexType)
    } else {
        None
    }
}

/// The encoding of a record: tag byte, checksum as four little-endian bytes,
/// then the payload behind its eight-byte little-endian length.
pub open spec fn spec_encode_record(r: RecordModel) -> Seq<u8> {
    seq![spec_tag(r.ty)] + spec_u32_to_le_bytes(r.crc) + spec_blob(r.data)
}

/// The record that `b` starts with, if `b` starts with the encoding of one.
/// Bytes behind the record are ignored.
pub open spec fn spec_decode_record(b: Seq<u8>) -> Option<RecordModel> {
    if b.len() >= 5 && spec_type_of_tag(b[0]) is Some && spec_starts_with_blob(b.skip(5)) {
        Some(
            RecordModel {
                ty: spec_type_of_tag(b[0])->0,
                crc: spec_u32_from_le_bytes(b.subrange(1, 5)),
                data: spec_first_blob(b.skip(5)),
            },
        )
    } else {
        None
    }
}

/// Whether the stored checksum of a record is the checksum of its payload.
pub open spec fn spec_crc_ok(r: RecordModel) -> bool {
    r.crc == spec_crc32c(r.data)
}

/// Decoding the encoding of a record gives the record back, whatever bytes
/// follow the encoding.
pub proof fn lemma_record_round_trip(r: RecordModel, rest: Seq<u8>)
    requires
        r.data.len() <= u64::MAX,
    ensures
        spec_decode_record(spec_encode_record(r) + rest) == Some(r),
{
    let b = spec_encode_record(r) + rest;
    lemma_auto_spec_u32_to_from_le_bytes();
    assert(spec_u32_to_le_bytes(r.crc).len() == 4);
    assert(b[0] == spec_tag(r.ty));
    assert(b.subrange(1, 5) =~= spec_u32_to_le_bytes(r.crc));
    assert(b.skip(5) =~= spec_blob(r.data) + rest);
    lemma_blob_round_trip(r.data, rest);
}

/// The encoding of a record is thirteen bytes longer than its payload.
pub proof fn lemma_record_len(r: RecordModel)
    ensures
        spec_encode_record(r).len() == 13 + r.data.len(),
{
    lemma_auto_spec_u32_to_from_le_bytes();
    lemma_auto_spec_u64_to_from_le_bytes();
}

impl RecordType {
    /// The tag byte of this type.
    pub fn tag(self) -> (t: u8)
        ensures
            t == spec_tag(self),
    {
        match self {
            RecordType::EntryType => 0,
            RecordType::StateType => 1,
            RecordType::CrcType => 2,
            RecordType::IndexType => 3,
        }
    }

    /// The type that `tag` stands for, if it stands for one.
    pub fn from_tag(tag: u8) -> (ty: Option<RecordType>)
        ensures
            ty == spec_type_of_tag(tag),
    {
        if tag == 0 {
            Some(RecordType::EntryType)
        } else if tag == 1 {
            Some(RecordType::StateType)
        } else if tag == 2 {
            Some(RecordType::CrcType)
        } else if tag == 3 {
            Some(RecordType::IndexType)
        } else {
            None
        }
    }
}

impl Record {
    /// A record of type `ty` over `data`, with the checksum of `data` stored
    /// in it.
    pub fn new(ty: RecordType, data: Vec<u8>) -> (r: Record)
        ensures
            r@ == (RecordModel { ty, crc: spec_crc32c(data@), data: data@ }),
            spec_crc_ok(r@),
    {
        let crc = crc32c(data.as_slice());
        Record { ty, crc, data }
    }

    /// Whether the stored checksum matches the payload.
    pub fn crc_ok(&self) -> (ok: bool)
        ensures
            ok == spec_crc_ok(self@),
    {
        self.crc == crc32c(self.data.as_slice())
    }

    /// The encoding of this record.
    pub fn encode(&self) -> (out: Vec<u8>)
        ensures
            out@ == spec_encode_record(self@),
    {
        let mut out: Vec<u8> = Vec::new();
        out.push(self.ty.tag());
        put_u32(&mut out, self.crc);
        put_blob(&mut out, self.data.as_slice());
        assert(out@ =~= spec_encode_record(self@));
        out
    }

    /// The record that `b` starts with. Fails with `Error::Bincode` where
    /// `b` does not start with the encoding of a record.
    pub fn decode(b: &[u8]) -> (out: Result<Record, Error>)
        ensures
            match out {
                Ok(r) => spec_decode_record(b@) == Some(r@),
                Err(e) => e is Bincode && spec_decode_record(b@) is None,
            },
    {
        if b.len() < 5 {
            return Err(Error::Bincode);
        }
        let ty = match RecordType::from_tag(b[0]) {
            Some(ty) => ty,
            None => {
                return Err(Error::Bincode);
            },
        };
        let crc = u32_from_le_bytes(slice_subrange(b, 1, 5));
        let rest = slice_subrange(b, 5, b.len());
        assert(rest@ =~= b@.skip(5));
        match take_blob(rest) {
            Some(data) => Ok(Record { ty, crc, data }),
            None => Err(Error::Bincode),
        }
    }
}

} // verus!
