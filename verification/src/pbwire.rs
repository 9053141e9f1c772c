//! The protobuf wire format, as far as the messages of this crate need it:
//! base-128 varints and the fields of a message.

use crate::layout::append_bytes;
use vstd::prelude::*;
use vstd::slice::{slice_subrange, slice_to_vec};

verus! {

/// `n` as a base-128 varint: seven bits a byte, least significant first,
/// the top bit set on every byte but the last.
pub open spec fn spec_varint(n: nat) -> Seq<u8>
    decreases n,
{
    if n < 128 {
        seq![n as u8]
    } else {
        seq![(n % 128 + 128) as u8] + spec_varint(n / 128)
    }
}

/// The varint at the start of `b`, read as the byte number `depth` of at
/// most ten: its value and its length.
pub open spec fn spec_parse_varint_from(b: Seq<u8>, depth: nat) -> Option<(nat, nat)>
    decreases b.len(),
{
    if b.len() == 0 || depth >= 10 {
        None
    } else if b[0] < 128 {
        Some((b[0] as nat, 1))
    } else {
        match spec_parse_varint_from(b.skip(1), depth + 1) {
            Some((v, len)) => Some((((b[0] - 128) + 128 * v) as nat, len + 1)),
            None => None,
        }
    }
}

/// The varint at the start of `b`: its value, which fits in 64 bits, and
/// its length.
pub open spec fn spec_parse_varint(b: Seq<u8>) -> Option<(u64, nat)> {
    match spec_parse_varint_from(b, 0) {
        Some((v, len)) => if v <= u64::MAX {
            Some((v as u64, len))
        } else {
            None
        },
        None => None,
    }
}

/// 128 to the power `k`.
pub open spec fn spec_pow128(k: nat) -> nat
    decreases k,
{
    if k == 0 {
        1
    } else {
        128 * spec_pow128((k - 1) as nat)
    }
}

/// A varint is read back as it was written, whatever follows it, as long
/// as it ends within ten bytes.
pub proof fn lemma_varint_round_trip_from(n: nat, rest: Seq<u8>, depth: nat)
    requires
        depth < 10,
        n < spec_pow128((10 - depth) as nat),
    ensures
        spec_parse_varint_from(spec_varint(n) + rest, depth) == Some((n, spec_varint(n).len())),
        1 <= spec_varint(n).len() <= 10 - depth,
    decreases n,
{
    let b = spec_varint(n) + rest;
    if n < 128 {
        assert(b[0] == n as u8);
    } else {
        assert(b[0] == (n % 128 + 128) as u8);
        assert(b.skip(1) =~= spec_varint(n / 128) + rest);
        assert(spec_pow128((10 - depth) as nat) == 128 * spec_pow128((10 - depth - 1) as nat));
        if depth == 9 {
            assert(spec_pow128(1) == 128 * spec_pow128(0));
            assert(false);
        }
        lemma_varint_round_trip_from(n / 128, rest, depth + 1);
    }
}

/// 128 to the power ten is more than any `u64`.
pub proof fn lemma_pow128_10()
    ensures
        spec_pow128(10) == 0x40_0000_0000_0000_0000,
{
    reveal_with_fuel(spec_pow128, 11);
}

/// The varint of a `u64` is read back as it was written, whatever follows.
pub proof fn lemma_varint_round_trip(n: u64, rest: Seq<u8>)
    ensures
        spec_parse_varint(spec_varint(n as nat) + rest) == Some(
            (n, spec_varint(n as nat).len()),
        ),
        1 <= spec_varint(n as nat).len() <= 10,
{
    lemma_pow128_10();
    lemma_varint_round_trip_from(n as nat, rest, 0);
}

/// A varint that is read is at least one byte and lies within the bytes.
pub proof fn lemma_parse_varint_len(b: Seq<u8>, depth: nat)
    ensures
        spec_parse_varint_from(b, depth) matches Some((v, len)) ==> 1 <= len <= b.len() && len
            <= 10 && v < spec_pow128(len),
    decreases b.len(),
{
    if b.len() > 0 && depth < 10 && b[0] >= 128 {
        lemma_parse_varint_len(b.skip(1), depth + 1);
        match spec_parse_varint_from(b.skip(1), depth + 1) {
            Some((v, len)) => {
                lemma_parse_depth(b.skip(1), depth + 1);
                assert(spec_pow128(len + 1) == 128 * spec_pow128(len));
            },
            None => {},
        }
    } else if b.len() > 0 && depth < 10 {
        assert(spec_pow128(1) == 128 * spec_pow128(0));
    }
}

/// A varint read as byte number `depth` ends within ten bytes.
pub proof fn lemma_parse_depth(b: Seq<u8>, depth: nat)
    ensures
        spec_parse_varint_from(b, depth) matches Some((v, len)) ==> depth + len <= 10,
    decreases b.len(),
{
    if b.len() > 0 && depth < 10 && b[0] >= 128 {
        lemma_parse_depth(b.skip(1), depth + 1);
    }
}

/// Appends `n` as a varint.
pub fn put_varint(out: &mut Vec<u8>, n: u64)
    ensures
        final(out)@ == old(out)@ + spec_varint(n as nat),
    decreases n,
{
    if n < 128 {
        out.push(n as u8);
        assert(out@ =~= old(out)@ + spec_varint(n as nat));
    } else {
        out.push((n % 128 + 128) as u8);
        put_varint(out, n / 128);
        assert(out@ =~= old(out)@ + spec_varint(n as nat));
    }
}

/// Reads the varint that starts at `pos`, as the byte number `depth`.
fn take_varint_from(b: &[u8], pos: usize, depth: u8) -> (out: Option<(u128, usize)>)
    requires
        pos <= b@.len(),
        depth <= 10,
    ensures
        match out {
            Some((v, len)) => spec_parse_varint_from(b@.skip(pos as int), depth as nat) == Some(
                (v as nat, len as nat),
            ) && pos + len <= b@.len(),
            None => spec_parse_varint_from(b@.skip(pos as int), depth as nat) is None,
        },
    decreases 10 - depth,
{
    if pos >= b.len() || depth >= 10 {
        return None;
    }
    let first = b[pos];
    assert(b@.skip(pos as int)[0] == first);
    if first < 128 {
        return Some((first as u128, 1));
    }
    assert(b@.skip(pos as int).skip(1) =~= b@.skip(pos + 1));
    proof {
        lemma_parse_varint_len(b@.skip(pos + 1), (depth + 1) as nat);
        lemma_pow128_10();
        lemma_pow128_mono();
    }
    match take_varint_from(b, pos + 1, depth + 1) {
        Some((v, len)) => {
            assert(v < spec_pow128(len as nat) <= spec_pow128(10));
            Some(((first - 128) as u128 + 128 * v, len + 1))
        },
        None => None,
    }
}

/// Powers of 128 up to the tenth do not exceed the tenth.
pub proof fn lemma_pow128_mono()
    ensures
        forall|k: nat| k <= 10 ==> #[trigger] spec_pow128(k) <= spec_pow128(10),
{
    reveal_with_fuel(spec_pow128, 11);
    assert forall|k: nat| k <= 10 implies #[trigger] spec_pow128(k) <= spec_pow128(10) by {
        if k == 0 {
        } else if k == 1 {
        } else if k == 2 {
        } else if k == 3 {
        } else if k == 4 {
        } else if k == 5 {
        } else if k == 6 {
        } else if k == 7 {
        } else if k == 8 {
        } else if k == 9 {
        } else {
        }
    }
}

/// Reads the varint that starts at `pos`: its value and its length.
pub fn take_varint(b: &[u8], pos: usize) -> (out: Option<(u64, usize)>)
    requires
        pos <= b@.len(),
    ensures
        match out {
            Some((v, len)) => spec_parse_varint(b@.skip(pos as int)) == Some((v, len as nat))
                && 1 <= len && pos + len <= b@.len(),
            None => spec_parse_varint(b@.skip(pos as int)) is None,
        },
{
    proof {
        lemma_parse_varint_len(b@.skip(pos as int), 0);
    }
    match take_varint_from(b, pos, 0) {
        Some((v, len)) => {
            if v <= u64::MAX as u128 {
                Some((v as u64, len))
            } else {
                None
            }
        },
        None => None,
    }
}

/// What a field holds, by its wire type.
pub enum FieldValue {
    /// Wire type 0: a varint.
    Varint(u64),
    /// Wire type 1: eight bytes.
    Fixed64(Seq<u8>),
    /// Wire type 2: bytes behind their length as a varint.
    Bytes(Seq<u8>),
    /// Wire type 5: four bytes.
    Fixed32(Seq<u8>),
}

/// A field of a message: its number and what it holds.
pub struct Field {
    pub number: u64,
    pub value: FieldValue,
}

/// The field at the start of `b` and its length, if a whole field of a
/// known wire type stands there.
pub open spec fn spec_parse_field(b: Seq<u8>) -> Option<(Field, nat)> {
    match spec_parse_varint(b) {
        None => None,
        Some((key, klen)) => {
            let number = key / 8;
            let wire = key % 8;
            let body = b.skip(klen as int);
            if wire == 0 {
                match spec_parse_varint(body) {
                    Some((v, vlen)) => Some((Field { number, value: FieldValue::Varint(v) }, klen + vlen)),
                    None => None,
                }
            } else if wire == 1 {
                if body.len() >= 8 {
                    Some(
                        (
                            Field { number, value: FieldValue::Fixed64(body.subrange(0, 8)) },
                            klen + 8,
                        ),
                    )
                } else {
                    None
                }
            } else if wire == 2 {
                match spec_parse_varint(body) {
                    Some((n, nlen)) => if nlen + n <= body.len() {
                        Some(
                            (
                                Field {
                                    number,
                                    value: FieldValue::Bytes(body.subrange(nlen as int, nlen + n)),
                                },
                                (klen + nlen + n) as nat,
                            ),
                        )
                    } else {
                        None
                    },
                    None => None,
                }
            } else if wire == 5 {
                if body.len() >= 4 {
                    Some(
                        (
                            Field { number, value: FieldValue::Fixed32(body.subrange(0, 4)) },
                            klen + 4,
                        ),
                    )
                } else {
                    None
                }
            } else {
                None
            }
        },
    }
}

/// The fields of the message `b`, in order, if `b` is a run of whole fields.
pub open spec fn spec_fields(b: Seq<u8>) -> Option<Seq<Field>>
    decreases b.len(),
{
    if b.len() == 0 {
        Some(Seq::empty())
    } else {
        match spec_parse_field(b) {
            Some((f, len)) => if 0 < len <= b.len() {
                match spec_fields(b.skip(len as int)) {
                    Some(rest) => Some(seq![f] + rest),
                    None => None,
                }
            } else {
                None
            },
            None => None,
        }
    }
}

/// The encoding of a varint field.
pub open spec fn spec_varint_field(number: u64, v: u64) -> Seq<u8> {
    spec_varint((number * 8) as nat) + spec_varint(v as nat)
}

/// The encoding of a bytes field.
pub open spec fn spec_bytes_field(number: u64, data: Seq<u8>) -> Seq<u8> {
    spec_varint((number * 8 + 2) as nat) + spec_varint(data.len()) + data
}

/// A field read in executable code: a varint, or the range of its bytes.
pub enum Got {
    Varint(u64),
    Range(usize, usize),
}

/// Reads the field that starts at `pos`: its number, its value (bytes as
/// their range in `b`), and the position behind it.
pub fn take_field(b: &[u8], pos: usize) -> (out: Option<(u64, Got, usize)>)
    requires
        pos <= b@.len(),
    ensures
        match out {
            Some((number, got, next)) => {
                &&& spec_parse_field(b@.skip(pos as int)) matches Some((f, len))
                &&& f.number == number
                &&& next == pos + len
                &&& pos < next <= b@.len()
                &&& match got {
                    Got::Varint(v) => f.value == FieldValue::Varint(v),
                    Got::Range(from, to) => {
                        &&& pos <= from <= to <= next
                        &&& (f.value == FieldValue::Bytes(b@.subrange(from as int, to as int))
                            || f.value == FieldValue::Fixed64(b@.subrange(from as int, to as int))
                            || f.value == FieldValue::Fixed32(b@.subrange(from as int, to as int)))
                        &&& (f.value is Bytes <==> b@.skip(pos as int)[0] % 8 == 2)
                        &&& (f.value is Fixed64 <==> b@.skip(pos as int)[0] % 8 == 1)
                        &&& (f.value is Fixed32 <==> b@.skip(pos as int)[0] % 8 == 5)
                    },
                }
            },
            None => spec_parse_field(b@.skip(pos as int)) is None,
        },
{
    let ghost all = b@.skip(pos as int);
    assert(b@.len() == b.len());
    let (key, klen) = match take_varint(b, pos) {
        Some(x) => x,
        None => {
            return None;
        },
    };
    let number = key / 8;
    let wire = key % 8;
    let at = pos + klen;
    let ghost body = all.skip(klen as int);
    assert(body =~= b@.skip(at as int));
    proof {
        lemma_first_byte_wire(all);
    }
    if wire == 0 {
        match take_varint(b, at) {
            Some((v, vlen)) => Some((number, Got::Varint(v), at + vlen)),
            None => None,
        }
    } else if wire == 1 {
        if b.len() - at >= 8 {
            assert(body.subrange(0, 8) =~= b@.subrange(at as int, at + 8));
            Some((number, Got::Range(at, at + 8), at + 8))
        } else {
            None
        }
    } else if wire == 2 {
        match take_varint(b, at) {
            Some((n, nlen)) => {
                let from = at + nlen;
                if n <= (b.len() - from) as u64 {
                    let to = from + n as usize;
                    assert(body.subrange(nlen as int, nlen + n) =~= b@.subrange(
                        from as int,
                        to as int,
                    ));
                    Some((number, Got::Range(from, to), to))
                } else {
                    None
                }
            },
            None => None,
        }
    } else if wire == 5 {
        if b.len() - at >= 4 {
            assert(body.subrange(0, 4) =~= b@.subrange(at as int, at + 4));
            Some((number, Got::Range(at, at + 4), at + 4))
        } else {
            None
        }
    } else {
        None
    }
}

/// The wire type of a field shows in the low three bits of its first byte.
pub proof fn lemma_first_byte_wire(b: Seq<u8>)
    ensures
        spec_parse_varint(b) matches Some((key, klen)) ==> b.len() > 0 && b[0] % 8 == key % 8,
{
    match spec_parse_varint_from(b, 0) {
        Some((v, len)) => {
            if b[0] >= 128 {
                let r = spec_parse_varint_from(b.skip(1), 1)->0;
                assert(v == (b[0] - 128) + 128 * r.0);
                assert(v % 8 == (b[0] - 128) % 8) by (nonlinear_arith)
                    requires
                        v == (b[0] - 128) + 128 * r.0,
                        r.0 >= 0,
                        b[0] >= 128,
                ;
            }
            if v <= u64::MAX {
                assert((v as u64) % 8 == v % 8);
            }
        },
        None => {},
    }
}

/// Appends a varint field.
pub fn put_varint_field(out: &mut Vec<u8>, number: u64, v: u64)
    requires
        number < 0x1000_0000,
    ensures
        final(out)@ == old(out)@ + spec_varint_field(number, v),
{
    put_varint(out, number * 8);
    put_varint(out, v);
    assert(out@ =~= old(out)@ + spec_varint_field(number, v));
}

/// Appends a bytes field.
pub fn put_bytes_field(out: &mut Vec<u8>, number: u64, data: &[u8])
    requires
        number < 0x1000_0000,
    ensures
        final(out)@ == old(out)@ + spec_bytes_field(number, data@),
{
    put_varint(out, number * 8 + 2);
    put_varint(out, data.len() as u64);
    append_bytes(out, data);
    assert(out@ =~= old(out)@ + spec_bytes_field(number, data@));
}

/// A copy of the bytes of `b` from `from` up to `to`.
pub fn copy_range(b: &[u8], from: usize, to: usize) -> (v: Vec<u8>)
    requires
        from <= to <= b@.len(),
    ensures
        v@ == b@.subrange(from as int, to as int),
{
    slice_to_vec(slice_subrange(b, from, to))
}

/// A varint field is read back as it was written, whatever follows it.
pub proof fn lemma_varint_field_round_trip(number: u64, v: u64, rest: Seq<u8>)
    requires
        0 < number < 0x1000_0000,
    ensures
        spec_parse_field(spec_varint_field(number, v) + rest) == Some(
            (Field { number, value: FieldValue::Varint(v) }, spec_varint_field(number, v).len()),
        ),
        spec_varint_field(number, v).len() > 0,
{
    let key = (number * 8) as u64;
    let b = spec_varint_field(number, v) + rest;
    let body = spec_varint(v as nat) + rest;
    assert(b =~= spec_varint(key as nat) + body);
    lemma_varint_round_trip(key, body);
    lemma_varint_round_trip(v, rest);
    let klen = spec_varint(key as nat).len();
    assert(b.skip(klen as int) =~= body);
    assert(key / 8 == number && key % 8 == 0);
}

/// A bytes field is read back as it was written, whatever follows it.
pub proof fn lemma_bytes_field_round_trip(number: u64, data: Seq<u8>, rest: Seq<u8>)
    requires
        0 < number < 0x1000_0000,
        data.len() <= u64::MAX,
    ensures
        spec_parse_field(spec_bytes_field(number, data) + rest) == Some(
            (Field { number, value: FieldValue::Bytes(data) }, spec_bytes_field(number, data).len()),
        ),
        spec_bytes_field(number, data).len() > 0,
{
    let key = (number * 8 + 2) as u64;
    let n = data.len() as u64;
    let b = spec_bytes_field(number, data) + rest;
    let body = spec_varint(n as nat) + (data + rest);
    assert(b =~= spec_varint(key as nat) + body);
    lemma_varint_round_trip(key, body);
    lemma_varint_round_trip(n, data + rest);
    let klen = spec_varint(key as nat).len();
    let nlen = spec_varint(n as nat).len();
    assert(b.skip(klen as int) =~= body);
    assert(key / 8 == number && key % 8 == 2);
    assert(body.subrange(nlen as int, nlen + n) =~= data);
}

} // verus!
