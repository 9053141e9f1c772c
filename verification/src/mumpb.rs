//! The messages of the three remote procedures, and their protobuf encoding.
//!
//! Field numbers follow the order of the fields. A decoder takes fields in
//! any order, lets the last occurrence of a field win, and skips fields and
//! enum values that it does not know.

use crate::errors::Error;
use crate::pbwire::{
    copy_range, lemma_bytes_field_round_trip, lemma_varint_field_round_trip, put_bytes_field,
    put_varint_field, spec_bytes_field, spec_parse_field, spec_varint_field, take_field, Field,
    FieldValue, Got,
};
use crate::raftpb::{ConfChange, ConfChangeModel, ConfChangeType, MAX_PAYLOAD};
use crate::wire::{
    decode_conf_change, encode_conf_change, spec_conf_change_bytes, spec_conf_change_of_bytes,
};
use vstd::prelude::*;

verus! {

/// The kind of a client operation.
#[derive(Clone, Copy, Debug, PartialEq, Eq, Structural)]
pub enum Op {
    /// Set a key to a value.
    Put,
    /// Read the value of a key.
    Get,
    /// Delete a key.
    Del,
    /// Read the pairs from a key on.
    Scan,
}

/// The number that stands for an operation on the wire.
pub open spec fn spec_op_number(op: Op) -> u64 {
    match op {
        Op::Put => 0,
        Op::Get => 1,
        Op::Del => 2,
        Op::Scan => 3,
    }
}

/// The operation that a number stands for, if it stands for one.
pub open spec fn spec_op_of_number(n: u64) -> Option<Op> {
    if n == 0 {
        Some(Op::Put)
    } else if n == 1 {
        Some(Op::Get)
    } else if n == 2 {
        Some(Op::Del)
    } else if n == 3 {
        Some(Op::Scan)
    } else {
        None
    }
}

impl Op {
    /// The number that stands for the operation on the wire.
    pub fn number(self) -> (n: u64)
        ensures
            n == spec_op_number(self),
    {
        match self {
            Op::Put => 0,
            Op::Get => 1,
            Op::Del => 2,
            Op::Scan => 3,
        }
    }

    /// The operation that `n` stands for.
    pub fn from_number(n: u64) -> (op: Option<Op>)
        ensures
            op == spec_op_of_number(n),
    {
        if n == 0 {
            Some(Op::Put)
        } else if n == 1 {
            Some(Op::Get)
        } else if n == 2 {
            Some(Op::Del)
        } else if n == 3 {
            Some(Op::Scan)
        } else {
            None
        }
    }
}

/// A client operation as contracts see it.
pub struct OpRequestModel {
    pub field_type: Op,
    pub key: Seq<u8>,
    pub value: Seq<u8>,
    pub limit: u32,
}

/// A client operation.
#[derive(Clone, Debug, PartialEq)]
pub struct OpRequest {
    pub field_type: Op,
    pub key: Vec<u8>,
    pub value: Vec<u8>,
    pub limit: u32,
}

impl View for OpRequest {
    type V = OpRequestModel;

    open spec fn view(&self) -> OpRequestModel {
        OpRequestModel {
            field_type: self.field_type,
            key: self.key@,
            value: self.value@,
            limit: self.limit,
        }
    }
}

/// A key and its value, as a response carries them.
#[derive(Clone, Debug, PartialEq)]
pub struct KvPair {
    pub key: Vec<u8>,
    pub value: Vec<u8>,
}

/// The answer to a client operation: the pairs found.
#[derive(Clone, Debug, PartialEq)]
pub struct OpResponse {
    pub kvs: Vec<KvPair>,
}

/// The pairs of a response as contracts see them.
pub open spec fn spec_kvs(kvs: Seq<KvPair>) -> Seq<(Seq<u8>, Seq<u8>)> {
    kvs.map_values(|p: KvPair| (p.key@, p.value@))
}

/// A request to change the membership.
#[derive(Clone, Debug, PartialEq)]
pub struct ConfRequest {
    pub change: ConfChange,
}

/// The answer to a membership request.
#[derive(Clone, Copy, Debug, PartialEq, Eq, Structural)]
pub struct ConfResponse {}

/// A consensus message on its way to a peer, in its protobuf encoding.
#[derive(Clone, Debug, PartialEq)]
pub struct RaftMessage {
    pub message: Vec<u8>,
}

/// The answer to a consensus message.
#[derive(Clone, Copy, Debug, PartialEq, Eq, Structural)]
pub struct Done {}

/// The request that nothing has been read into yet.
pub open spec fn spec_empty_request() -> OpRequestModel {
    OpRequestModel { field_type: Op::Put, key: Seq::empty(), value: Seq::empty(), limit: 0 }
}

/// The encoding of a client operation: each field that differs from its
/// default, in the order of the field numbers.
pub open spec fn spec_encode_op_request(r: OpRequestModel) -> Seq<u8> {
    (if r.field_type != Op::Put {
        spec_varint_field(1, spec_op_number(r.field_type))
    } else {
        Seq::empty()
    }) + (if r.key.len() > 0 {
        spec_bytes_field(2, r.key)
    } else {
        Seq::empty()
    }) + (if r.value.len() > 0 {
        spec_bytes_field(3, r.value)
    } else {
        Seq::empty()
    }) + (if r.limit != 0 {
        spec_varint_field(4, r.limit as u64)
    } else {
        Seq::empty()
    })
}

/// A request after one more field is read into it, or `None` where a known
/// field has the wrong wire type or the field number is 0.
pub open spec fn spec_op_request_field(acc: OpRequestModel, f: Field) -> Option<OpRequestModel> {
    if f.number == 0 {
        None
    } else if f.number == 1 {
        match f.value {
            FieldValue::Varint(v) => match spec_op_of_number(v) {
                Some(op) => Some(OpRequestModel { field_type: op, ..acc }),
                None => Some(acc),
            },
            _ => None,
        }
    } else if f.number == 2 {
        match f.value {
            FieldValue::Bytes(d) => Some(OpRequestModel { key: d, ..acc }),
            _ => None,
        }
    } else if f.number == 3 {
        match f.value {
            FieldValue::Bytes(d) => Some(OpRequestModel { value: d, ..acc }),
            _ => None,
        }
    } else if f.number == 4 {
        match f.value {
            FieldValue::Varint(v) => Some(OpRequestModel { limit: (v % 0x1_0000_0000) as u32, ..acc }),
            _ => None,
        }
    } else {
        Some(acc)
    }
}

/// The request that reading the fields of `b` into `acc` gives.
pub open spec fn spec_op_request_from(b: Seq<u8>, acc: OpRequestModel) -> Option<OpRequestModel>
    decreases b.len(),
{
    if b.len() == 0 {
        Some(acc)
    } else {
        match spec_parse_field(b) {
            Some((f, len)) => if 0 < len <= b.len() {
                match spec_op_request_field(acc, f) {
                    Some(next) => spec_op_request_from(b.skip(len as int), next),
                    None => None,
                }
            } else {
                None
            },
            None => None,
        }
    }
}

/// The client operation that `b` encodes, if it encodes one.
pub open spec fn spec_decode_op_request(b: Seq<u8>) -> Option<OpRequestModel> {
    spec_op_request_from(b, spec_empty_request())
}

/// Reading bytes that start with a whole field reads the field into the
/// request and goes on behind it.
pub proof fn lemma_op_request_step(b: Seq<u8>, acc: OpRequestModel, f: Field, len: nat)
    requires
        spec_parse_field(b) == Some((f, len)),
        0 < len <= b.len(),
    ensures
        spec_op_request_from(b, acc) == match spec_op_request_field(acc, f) {
            Some(next) => spec_op_request_from(b.skip(len as int), next),
            None => None,
        },
{
}

/// Reading a varint field and what follows it reads the field into the
/// request and then what follows.
pub proof fn lemma_op_request_varint(
    number: u64,
    v: u64,
    rest: Seq<u8>,
    acc: OpRequestModel,
    next: OpRequestModel,
)
    requires
        0 < number < 0x1000_0000,
        spec_op_request_field(acc, Field { number, value: FieldValue::Varint(v) }) == Some(next),
    ensures
        spec_op_request_from(spec_varint_field(number, v) + rest, acc) == spec_op_request_from(
            rest,
            next,
        ),
{
    let f = spec_varint_field(number, v);
    lemma_varint_field_round_trip(number, v, rest);
    lemma_op_request_step(f + rest, acc, Field { number, value: FieldValue::Varint(v) }, f.len());
    assert((f + rest).skip(f.len() as int) =~= rest);
}

/// Reading a bytes field and what follows it reads the field into the
/// request and then what follows.
pub proof fn lemma_op_request_bytes(
    number: u64,
    data: Seq<u8>,
    rest: Seq<u8>,
    acc: OpRequestModel,
    next: OpRequestModel,
)
    requires
        0 < number < 0x1000_0000,
        data.len() <= u64::MAX,
        spec_op_request_field(acc, Field { number, value: FieldValue::Bytes(data) }) == Some(next),
    ensures
        spec_op_request_from(spec_bytes_field(number, data) + rest, acc) == spec_op_request_from(
            rest,
            next,
        ),
{
    let f = spec_bytes_field(number, data);
    lemma_bytes_field_round_trip(number, data, rest);
    lemma_op_request_step(f + rest, acc, Field { number, value: FieldValue::Bytes(data) }, f.len());
    assert((f + rest).skip(f.len() as int) =~= rest);
}

/// The encoding of the fields of a request from the key on.
pub open spec fn spec_encode_from_key(r: OpRequestModel) -> Seq<u8> {
    (if r.key.len() > 0 {
        spec_bytes_field(2, r.key)
    } else {
        Seq::empty()
    }) + spec_encode_from_value(r)
}

/// The encoding of the fields of a request from the value on.
pub open spec fn spec_encode_from_value(r: OpRequestModel) -> Seq<u8> {
    (if r.value.len() > 0 {
        spec_bytes_field(3, r.value)
    } else {
        Seq::empty()
    }) + spec_encode_limit(r)
}

/// The encoding of the limit of a request.
pub open spec fn spec_encode_limit(r: OpRequestModel) -> Seq<u8> {
    if r.limit != 0 {
        spec_varint_field(4, r.limit as u64)
    } else {
        Seq::empty()
    }
}

/// Reading the encoded limit into a request that has the rest already.
pub proof fn lemma_read_limit(r: OpRequestModel)
    ensures
        spec_op_request_from(spec_encode_limit(r), OpRequestModel { limit: 0, ..r }) == Some(r),
{
    let acc = OpRequestModel { limit: 0, ..r };
    let empty = Seq::<u8>::empty();
    assert(spec_op_request_from(empty, r) == Some(r));
    if r.limit != 0 {
        assert(((r.limit as u64) % 0x1_0000_0000) as u32 == r.limit);
        lemma_op_request_varint(4, r.limit as u64, empty, acc, r);
        assert(spec_varint_field(4, r.limit as u64) + empty =~= spec_encode_limit(r));
    } else {
        assert(acc == r);
    }
}

/// Reading the encoded value and limit into a request that has the rest.
pub proof fn lemma_read_from_value(r: OpRequestModel)
    requires
        r.value.len() <= u64::MAX,
    ensures
        spec_op_request_from(
            spec_encode_from_value(r),
            OpRequestModel { value: Seq::empty(), limit: 0, ..r },
        ) == Some(r),
{
    let acc = OpRequestModel { value: Seq::empty(), limit: 0, ..r };
    let next = OpRequestModel { limit: 0, ..r };
    lemma_read_limit(r);
    if r.value.len() > 0 {
        lemma_op_request_bytes(3, r.value, spec_encode_limit(r), acc, next);
    } else {
        assert(acc.value =~= next.value);
        assert(spec_encode_from_value(r) =~= spec_encode_limit(r));
    }
}

/// Reading the encoded key, value and limit into a request that has the
/// type.
pub proof fn lemma_read_from_key(r: OpRequestModel)
    requires
        r.key.len() <= u64::MAX,
        r.value.len() <= u64::MAX,
    ensures
        spec_op_request_from(
            spec_encode_from_key(r),
            OpRequestModel { key: Seq::empty(), value: Seq::empty(), limit: 0, ..r },
        ) == Some(r),
{
    let acc = OpRequestModel { key: Seq::empty(), value: Seq::empty(), limit: 0, ..r };
    let next = OpRequestModel { value: Seq::empty(), limit: 0, ..r };
    lemma_read_from_value(r);
    if r.key.len() > 0 {
        lemma_op_request_bytes(2, r.key, spec_encode_from_value(r), acc, next);
    } else {
        assert(acc.key =~= next.key);
        assert(spec_encode_from_key(r) =~= spec_encode_from_value(r));
    }
}

/// Client operations round trip. Decoding the encoding of a request gives
/// the request back.
pub proof fn lemma_op_request_round_trip(r: OpRequestModel)
    requires
        r.key.len() <= u64::MAX,
        r.value.len() <= u64::MAX,
    ensures
        spec_decode_op_request(spec_encode_op_request(r)) == Some(r),
{
    let acc = spec_empty_request();
    let next = OpRequestModel { key: Seq::empty(), value: Seq::empty(), limit: 0, ..r };
    lemma_read_from_key(r);
    let tail = spec_encode_from_key(r);
    if r.field_type != Op::Put {
        lemma_op_request_varint(1, spec_op_number(r.field_type), tail, acc, next);
        assert(spec_encode_op_request(r) =~= spec_varint_field(1, spec_op_number(r.field_type))
            + tail);
    } else {
        assert(acc == next);
        assert(spec_encode_op_request(r) =~= tail);
    }
}

impl OpRequest {
    /// The protobuf encoding of the request.
    pub fn write_to_bytes(&self) -> (out: Vec<u8>)
        ensures
            out@ == spec_encode_op_request(self@),
    {
        let mut out: Vec<u8> = Vec::new();
        if self.field_type.number() != 0 {
            put_varint_field(&mut out, 1, self.field_type.number());
        }
        if self.key.len() > 0 {
            put_bytes_field(&mut out, 2, self.key.as_slice());
        }
        if self.value.len() > 0 {
            put_bytes_field(&mut out, 3, self.value.as_slice());
        }
        if self.limit != 0 {
            put_varint_field(&mut out, 4, self.limit as u64);
        }
        assert(out@ =~= spec_encode_op_request(self@));
        out
    }

    /// The request that `b` encodes. Fails with `Error::Protbuf` exactly
    /// where `b` encodes none.
    pub fn parse_from_bytes(b: &[u8]) -> (out: Result<OpRequest, Error>)
        ensures
            match out {
                Ok(r) => spec_decode_op_request(b@) == Some(r@),
                Err(e) => e is Protbuf && spec_decode_op_request(b@) is None,
            },
    {
        let mut acc = OpRequest { field_type: Op::Put, key: Vec::new(), value: Vec::new(), limit: 0 };
        let mut pos: usize = 0;
        assert(b@.skip(0) =~= b@);
        while pos < b.len()
            invariant
                pos <= b@.len(),
                spec_decode_op_request(b@) == spec_op_request_from(b@.skip(pos as int), acc@),
            decreases b@.len() - pos,
        {
            let (number, got, next) = match take_field(b, pos) {
                Some(x) => x,
                None => {
                    return Err(Error::Protbuf);
                },
            };
            assert(b@.skip(pos as int).skip(next - pos) =~= b@.skip(next as int));
            if number == 0 {
                return Err(Error::Protbuf);
            } else if number == 1 {
                match got {
                    Got::Varint(v) => match Op::from_number(v) {
                        Some(op) => {
                            acc.field_type = op;
                        },
                        None => {},
                    },
                    _ => {
                        return Err(Error::Protbuf);
                    },
                }
            } else if number == 2 || number == 3 {
                match got {
                    Got::Range(from, to) => {
                        if b[pos] % 8 != 2 {
                            return Err(Error::Protbuf);
                        }
                        if number == 2 {
                            acc.key = copy_range(b, from, to);
                        } else {
                            acc.value = copy_range(b, from, to);
                        }
                    },
                    _ => {
                        return Err(Error::Protbuf);
                    },
                }
            } else if number == 4 {
                match got {
                    Got::Varint(v) => {
                        acc.limit = (v % 0x1_0000_0000) as u32;
                    },
                    _ => {
                        return Err(Error::Protbuf);
                    },
                }
            }
            pos = next;
        }
        assert(b@.skip(pos as int).len() == 0);
        Ok(acc)
    }
}

/// A pair as contracts see it.
pub type PairModel = (Seq<u8>, Seq<u8>);

/// The encoding of a pair.
pub open spec fn spec_encode_kv(p: PairModel) -> Seq<u8> {
    (if p.0.len() > 0 {
        spec_bytes_field(1, p.0)
    } else {
        Seq::empty()
    }) + (if p.1.len() > 0 {
        spec_bytes_field(2, p.1)
    } else {
        Seq::empty()
    })
}

/// A pair after one more field is read into it.
pub open spec fn spec_kv_field(acc: PairModel, f: Field) -> Option<PairModel> {
    if f.number == 0 {
        None
    } else if f.number == 1 {
        match f.value {
            FieldValue::Bytes(d) => Some((d, acc.1)),
            _ => None,
        }
    } else if f.number == 2 {
        match f.value {
            FieldValue::Bytes(d) => Some((acc.0, d)),
            _ => None,
        }
    } else {
        Some(acc)
    }
}

/// The pair that reading the fields of `b` into `acc` gives.
pub open spec fn spec_kv_from(b: Seq<u8>, acc: PairModel) -> Option<PairModel>
    decreases b.len(),
{
    if b.len() == 0 {
        Some(acc)
    } else {
        match spec_parse_field(b) {
            Some((f, len)) => if 0 < len <= b.len() {
                match spec_kv_field(acc, f) {
                    Some(next) => spec_kv_from(b.skip(len as int), next),
                    None => None,
                }
            } else {
                None
            },
            None => None,
        }
    }
}

/// The pair that `b` encodes, if it encodes one.
pub open spec fn spec_decode_kv(b: Seq<u8>) -> Option<PairModel> {
    spec_kv_from(b, (Seq::empty(), Seq::empty()))
}

impl KvPair {
    /// The protobuf encoding of the pair.
    pub fn write_to_bytes(&self) -> (out: Vec<u8>)
        ensures
            out@ == spec_encode_kv((self.key@, self.value@)),
    {
        let mut out: Vec<u8> = Vec::new();
        if self.key.len() > 0 {
            put_bytes_field(&mut out, 1, self.key.as_slice());
        }
        if self.value.len() > 0 {
            put_bytes_field(&mut out, 2, self.value.as_slice());
        }
        assert(out@ =~= spec_encode_kv((self.key@, self.value@)));
        out
    }

    /// The pair that `b` encodes. Fails with `Error::Protbuf` exactly where
    /// `b` encodes none.
    pub fn parse_from_bytes(b: &[u8]) -> (out: Result<KvPair, Error>)
        ensures
            match out {
                Ok(p) => spec_decode_kv(b@) == Some((p.key@, p.value@)),
                Err(e) => e is Protbuf && spec_decode_kv(b@) is None,
            },
    {
        let mut acc = KvPair { key: Vec::new(), value: Vec::new() };
        let mut pos: usize = 0;
        assert(b@.skip(0) =~= b@);
        while pos < b.len()
            invariant
                pos <= b@.len(),
                spec_decode_kv(b@) == spec_kv_from(b@.skip(pos as int), (acc.key@, acc.value@)),
            decreases b@.len() - pos,
        {
            let (number, got, next) = match take_field(b, pos) {
                Some(x) => x,
                None => {
                    return Err(Error::Protbuf);
                },
            };
            assert(b@.skip(pos as int).skip(next - pos) =~= b@.skip(next as int));
            if number == 0 {
                return Err(Error::Protbuf);
            } else if number == 1 || number == 2 {
                match got {
                    Got::Range(from, to) => {
                        if b[pos] % 8 != 2 {
                            return Err(Error::Protbuf);
                        }
                        if number == 1 {
                            acc.key = copy_range(b, from, to);
                        } else {
                            acc.value = copy_range(b, from, to);
                        }
                    },
                    _ => {
                        return Err(Error::Protbuf);
                    },
                }
            }
            pos = next;
        }
        assert(b@.skip(pos as int).len() == 0);
        Ok(acc)
    }
}

/// The encoding of a response: one field for each pair, in order.
pub open spec fn spec_encode_op_response(kvs: Seq<PairModel>) -> Seq<u8>
    decreases kvs.len(),
{
    if kvs.len() == 0 {
        Seq::empty()
    } else {
        spec_encode_op_response(kvs.drop_last()) + spec_bytes_field(1, spec_encode_kv(kvs.last()))
    }
}

/// The pairs of a response after one more field is read.
pub open spec fn spec_op_response_field(acc: Seq<PairModel>, f: Field) -> Option<Seq<PairModel>> {
    if f.number == 0 {
        None
    } else if f.number == 1 {
        match f.value {
            FieldValue::Bytes(d) => match spec_decode_kv(d) {
                Some(p) => Some(acc.push(p)),
                None => None,
            },
            _ => None,
        }
    } else {
        Some(acc)
    }
}

/// The pairs that reading the fields of `b` behind `acc` gives.
pub open spec fn spec_op_response_from(b: Seq<u8>, acc: Seq<PairModel>) -> Option<Seq<PairModel>>
    decreases b.len(),
{
    if b.len() == 0 {
        Some(acc)
    } else {
        match spec_parse_field(b) {
            Some((f, len)) => if 0 < len <= b.len() {
                match spec_op_response_field(acc, f) {
                    Some(next) => spec_op_response_from(b.skip(len as int), next),
                    None => None,
                }
            } else {
                None
            },
            None => None,
        }
    }
}

/// The pairs of the response that `b` encodes, if it encodes one.
pub open spec fn spec_decode_op_response(b: Seq<u8>) -> Option<Seq<PairModel>> {
    spec_op_response_from(b, Seq::empty())
}

impl OpResponse {
    /// The protobuf encoding of the response.
    pub fn write_to_bytes(&self) -> (out: Vec<u8>)
        ensures
            out@ == spec_encode_op_response(spec_kvs(self.kvs@)),
    {
        let mut out: Vec<u8> = Vec::new();
        let ghost all = spec_kvs(self.kvs@);
        let mut i: usize = 0;
        while i < self.kvs.len()
            invariant
                i <= self.kvs@.len(),
                all == spec_kvs(self.kvs@),
                out@ == spec_encode_op_response(all.subrange(0, i as int)),
            decreases self.kvs@.len() - i,
        {
            let inner = self.kvs[i].write_to_bytes();
            put_bytes_field(&mut out, 1, inner.as_slice());
            proof {
                let next = all.subrange(0, i + 1);
                assert(next.drop_last() =~= all.subrange(0, i as int));
                assert(next.last() == (self.kvs@[i as int].key@, self.kvs@[i as int].value@));
            }
            i = i + 1;
        }
        assert(all.subrange(0, i as int) =~= all);
        out
    }

    /// The response that `b` encodes. Fails with `Error::Protbuf` exactly
    /// where `b` encodes none.
    pub fn parse_from_bytes(b: &[u8]) -> (out: Result<OpResponse, Error>)
        ensures
            match out {
                Ok(r) => spec_decode_op_response(b@) == Some(spec_kvs(r.kvs@)),
                Err(e) => e is Protbuf && spec_decode_op_response(b@) is None,
            },
    {
        let mut kvs: Vec<KvPair> = Vec::new();
        let mut pos: usize = 0;
        assert(b@.skip(0) =~= b@);
        assert(spec_kvs(kvs@) =~= Seq::<PairModel>::empty());
        while pos < b.len()
            invariant
                pos <= b@.len(),
                spec_decode_op_response(b@) == spec_op_response_from(
                    b@.skip(pos as int),
                    spec_kvs(kvs@),
                ),
            decreases b@.len() - pos,
        {
            let (number, got, next) = match take_field(b, pos) {
                Some(x) => x,
                None => {
                    return Err(Error::Protbuf);
                },
            };
            assert(b@.skip(pos as int).skip(next - pos) =~= b@.skip(next as int));
            if number == 0 {
                return Err(Error::Protbuf);
            } else if number == 1 {
                match got {
                    Got::Range(from, to) => {
                        if b[pos] % 8 != 2 {
                            return Err(Error::Protbuf);
                        }
                        let inner = copy_range(b, from, to);
                        let p = KvPair::parse_from_bytes(inner.as_slice())?;
                        let ghost before = spec_kvs(kvs@);
                        kvs.push(p);
                        assert(spec_kvs(kvs@) =~= before.push((p.key@, p.value@)));
                    },
                    _ => {
                        return Err(Error::Protbuf);
                    },
                }
            }
            pos = next;
        }
        assert(b@.skip(pos as int).len() == 0);
        Ok(OpResponse { kvs })
    }
}

/// The membership change that nothing has been read into yet.
pub open spec fn spec_empty_change() -> ConfChangeModel {
    ConfChangeModel { id: 0, change_type: ConfChangeType::AddNode, node_id: 0, context: Seq::empty() }
}

/// The one field of a message that wraps `inner`.
pub open spec fn spec_wrap(inner: Seq<u8>) -> Seq<u8> {
    spec_bytes_field(1, inner)
}

/// The wrapped bytes after one more field is read: the last occurrence of
/// field 1 wins.
pub open spec fn spec_wrapped_field(acc: Option<Seq<u8>>, f: Field) -> Option<Option<Seq<u8>>> {
    if f.number == 0 {
        None
    } else if f.number == 1 {
        match f.value {
            FieldValue::Bytes(d) => Some(Some(d)),
            _ => None,
        }
    } else {
        Some(acc)
    }
}

/// What reading the fields of `b` leaves of the wrapped bytes.
pub open spec fn spec_wrapped_from(b: Seq<u8>, acc: Option<Seq<u8>>) -> Option<Option<Seq<u8>>>
    decreases b.len(),
{
    if b.len() == 0 {
        Some(acc)
    } else {
        match spec_parse_field(b) {
            Some((f, len)) => if 0 < len <= b.len() {
                match spec_wrapped_field(acc, f) {
                    Some(next) => spec_wrapped_from(b.skip(len as int), next),
                    None => None,
                }
            } else {
                None
            },
            None => None,
        }
    }
}

/// The bytes that field 1 of the message `b` wraps: `None` where `b` is no
/// message, `Some(None)` where it has no field 1.
pub open spec fn spec_unwrap(b: Seq<u8>) -> Option<Option<Seq<u8>>> {
    spec_wrapped_from(b, None)
}

/// The bytes that field 1 of the message `b` wraps.
pub fn unwrap_field(b: &[u8]) -> (out: Result<Option<Vec<u8>>, Error>)
    ensures
        match out {
            Ok(Some(d)) => spec_unwrap(b@) == Some(Some(d@)),
            Ok(None) => spec_unwrap(b@) == Some(None::<Seq<u8>>),
            Err(e) => e is Protbuf && spec_unwrap(b@) is None,
        },
{
    let mut acc: Option<Vec<u8>> = None;
    let ghost mut model: Option<Seq<u8>> = None;
    let mut pos: usize = 0;
    assert(b@.skip(0) =~= b@);
    while pos < b.len()
        invariant
            pos <= b@.len(),
            spec_unwrap(b@) == spec_wrapped_from(b@.skip(pos as int), model),
            match acc {
                Some(d) => model == Some(d@),
                None => model is None,
            },
        decreases b@.len() - pos,
    {
        let (number, got, next) = match take_field(b, pos) {
            Some(x) => x,
            None => {
                return Err(Error::Protbuf);
            },
        };
        assert(b@.skip(pos as int).skip(next - pos) =~= b@.skip(next as int));
        if number == 0 {
            return Err(Error::Protbuf);
        } else if number == 1 {
            match got {
                Got::Range(from, to) => {
                    if b[pos] % 8 != 2 {
                        return Err(Error::Protbuf);
                    }
                    let d = copy_range(b, from, to);
                    proof {
                        model = Some(d@);
                    }
                    acc = Some(d);
                },
                _ => {
                    return Err(Error::Protbuf);
                },
            }
        }
        pos = next;
    }
    assert(b@.skip(pos as int).len() == 0);
    Ok(acc)
}

/// The membership request that `b` encodes, if it encodes one: the change
/// in field 1, or the empty change where the field is absent.
pub open spec fn spec_decode_conf_request(b: Seq<u8>) -> Option<ConfChangeModel> {
    match spec_unwrap(b) {
        Some(Some(d)) => spec_conf_change_of_bytes(d),
        Some(None) => Some(spec_empty_change()),
        None => None,
    }
}

impl ConfRequest {
    /// The protobuf encoding of the request. Fails with `Error::Protbuf`
    /// exactly where the context of the change is too large to be encoded.
    pub fn write_to_bytes(&self) -> (out: Result<Vec<u8>, Error>)
        ensures
            match out {
                Ok(b) => b@ == spec_wrap(spec_conf_change_bytes(self.change@)),
                Err(e) => e is Protbuf && self.change.context@.len() > MAX_PAYLOAD,
            },
    {
        let inner = encode_conf_change(&self.change)?;
        let mut out: Vec<u8> = Vec::new();
        put_bytes_field(&mut out, 1, inner.as_slice());
        assert(out@ =~= spec_wrap(inner@));
        Ok(out)
    }

    /// The request that `b` encodes. Fails with `Error::Protbuf` exactly
    /// where `b` encodes none.
    pub fn parse_from_bytes(b: &[u8]) -> (out: Result<ConfRequest, Error>)
        ensures
            match out {
                Ok(r) => spec_decode_conf_request(b@) == Some(r.change@),
                Err(e) => e is Protbuf && spec_decode_conf_request(b@) is None,
            },
    {
        match unwrap_field(b)? {
            Some(d) => {
                let change = decode_conf_change(d.as_slice())?;
                Ok(ConfRequest { change })
            },
            None => Ok(
                ConfRequest {
                    change: ConfChange {
                        id: 0,
                        change_type: ConfChangeType::AddNode,
                        node_id: 0,
                        context: Vec::new(),
                    },
                },
            ),
        }
    }
}

/// The consensus message that `b` wraps, if `b` is a message: empty where
/// field 1 is absent.
pub open spec fn spec_decode_raft_message(b: Seq<u8>) -> Option<Seq<u8>> {
    match spec_unwrap(b) {
        Some(Some(d)) => Some(d),
        Some(None) => Some(Seq::empty()),
        None => None,
    }
}

impl RaftMessage {
    /// The protobuf encoding of the message.
    pub fn write_to_bytes(&self) -> (out: Vec<u8>)
        ensures
            out@ == spec_wrap(self.message@),
    {
        let mut out: Vec<u8> = Vec::new();
        put_bytes_field(&mut out, 1, self.message.as_slice());
        assert(out@ =~= spec_wrap(self.message@));
        out
    }

    /// The message that `b` encodes. Fails with `Error::Protbuf` exactly
    /// where `b` encodes none.
    pub fn parse_from_bytes(b: &[u8]) -> (out: Result<RaftMessage, Error>)
        ensures
            match out {
                Ok(m) => spec_decode_raft_message(b@) == Some(m.message@),
                Err(e) => e is Protbuf && spec_decode_raft_message(b@) is None,
            },
    {
        match unwrap_field(b)? {
            Some(d) => Ok(RaftMessage { message: d }),
            None => Ok(RaftMessage { message: Vec::new() }),
        }
    }
}

/// Whether `b` is a message at all: a run of whole fields, none with the
/// number 0. A message without fields of its own, such as `Done` and
/// `ConfResponse`, is read from any such bytes.
pub open spec fn spec_is_message(b: Seq<u8>) -> bool
    decreases b.len(),
{
    if b.len() == 0 {
        true
    } else {
        match spec_parse_field(b) {
            Some((f, len)) => 0 < len <= b.len() && f.number != 0 && spec_is_message(
                b.skip(len as int),
            ),
            None => false,
        }
    }
}

/// Whether `b` is a message at all.
pub fn is_message(b: &[u8]) -> (yes: bool)
    ensures
        yes == spec_is_message(b@),
{
    let mut pos: usize = 0;
    assert(b@.skip(0) =~= b@);
    while pos < b.len()
        invariant
            pos <= b@.len(),
            spec_is_message(b@) == spec_is_message(b@.skip(pos as int)),
        decreases b@.len() - pos,
    {
        let (number, got, next) = match take_field(b, pos) {
            Some(x) => x,
            None => {
                return false;
            },
        };
        assert(b@.skip(pos as int).skip(next - pos) =~= b@.skip(next as int));
        if number == 0 {
            return false;
        }
        pos = next;
    }
    assert(b@.skip(pos as int).len() == 0);
    true
}

} // verus!
