//! Little-endian integers and length-prefixed byte strings: the building
//! blocks of every on-disk layout in this crate.

use vstd::bytes::*;
use vstd::prelude::*;
use vstd::slice::*;

verus! {

/// A byte string behind its length, the length as eight little-endian bytes.
pub open spec fn spec_blob(data: Seq<u8>) -> Seq<u8> {
    spec_u64_to_le_bytes(data.len() as u64) + data
}

/// The length that the first eight bytes of `b` announce.
pub open spec fn spec_announced(b: Seq<u8>) -> int {
    spec_u64_from_le_bytes(b.subrange(0, 8)) as int
}

/// Whether `b` starts with a complete length-prefixed byte string.
pub open spec fn spec_starts_with_blob(b: Seq<u8>) -> bool {
    b.len() >= 8 && 8 + spec_announced(b) <= b.len()
}

/// The byte string that `b` starts with, without its length prefix.
pub open spec fn spec_first_blob(b: Seq<u8>) -> Seq<u8> {
    b.subrange(8, 8 + spec_announced(b))
}

/// A length-prefixed byte string is read back as it was written, whatever
/// follows it.
pub proof fn lemma_blob_round_trip(data: Seq<u8>, rest: Seq<u8>)
    requires
        data.len() <= u64::MAX,
    ensures
        spec_starts_with_blob(spec_blob(data) + rest),
        spec_announced(spec_blob(data) + rest) == data.len(),
        spec_first_blob(spec_blob(data) + rest) == data,
{
    let n = data.len() as u64;
    let b = spec_blob(data) + rest;
    lemma_auto_spec_u64_to_from_le_bytes();
    assert(spec_u64_to_le_bytes(n).len() == 8);
    assert(b.subrange(0, 8) =~= spec_u64_to_le_bytes(n));
    assert(b.subrange(8, 8 + data.len() as int) =~= data);
}

/// Calls `byteorder::LittleEndian::write_u64` on a fresh buffer of eight
/// bytes: the result holds `n` in little-endian order.
#[verifier::external_body]
pub(crate) fn u64_le(n: u64) -> (b: Vec<u8>)
    ensures
        b@ == spec_u64_to_le_bytes(n),
{
    let mut b = vec![0u8; 8];
    <byteorder::LittleEndian as byteorder::ByteOrder>::write_u64(&mut b, n);
    b
}

/// Calls `byteorder::LittleEndian::read_u64`, which decodes the first eight
/// bytes of the slice and panics on a shorter one.
#[verifier::external_body]
pub(crate) fn read_u64_le(b: &[u8]) -> (n: u64)
    requires
        b@.len() >= 8,
    ensures
        n == spec_u64_from_le_bytes(b@.subrange(0, 8)),
{
    <byteorder::LittleEndian as byteorder::ByteOrder>::read_u64(b)
}

/// A copy of `b`.
pub fn copy_of(b: &[u8]) -> (v: Vec<u8>)
    ensures
        v@ == b@,
{
    slice_to_vec(b)
}

/// Appends `src` to `out`.
pub fn append_bytes(out: &mut Vec<u8>, src: &[u8])
    ensures
        final(out)@ == old(out)@ + src@,
{
    let mut i: usize = 0;
    while i < src.len()
        invariant
            i <= src@.len(),
            out@ == old(out)@ + src@.subrange(0, i as int),
        decreases src@.len() - i,
    {
        out.push(src[i]);
        i = i + 1;
        assert(out@ =~= old(out)@ + src@.subrange(0, i as int));
    }
    assert(src@.subrange(0, i as int) =~= src@);
}

/// Appends `n` as eight little-endian bytes.
pub fn put_u64(out: &mut Vec<u8>, n: u64)
    ensures
        final(out)@ == old(out)@ + spec_u64_to_le_bytes(n),
{
    let b = u64_le(n);
    append_bytes(out, b.as_slice());
}

/// Appends `n` as four little-endian bytes.
pub fn put_u32(out: &mut Vec<u8>, n: u32)
    ensures
        final(out)@ == old(out)@ + spec_u32_to_le_bytes(n),
{
    let b = u32_to_le_bytes(n);
    append_bytes(out, b.as_slice());
}

/// Appends `data` behind its length.
pub fn put_blob(out: &mut Vec<u8>, data: &[u8])
    ensures
        final(out)@ == old(out)@ + spec_blob(data@),
{
    put_u64(out, data.len() as u64);
    append_bytes(out, data);
    assert(out@ =~= old(out)@ + spec_blob(data@));
}

/// Reads the length-prefixed byte string at the start of `b`, if a complete
/// one stands there.
pub fn take_blob(b: &[u8]) -> (out: Option<Vec<u8>>)
    ensures
        out is Some <==> spec_starts_with_blob(b@),
        out matches Some(d) ==> d@ == spec_first_blob(b@),
{
    if b.len() < 8 {
        return None;
    }
    let n = read_u64_le(b);
    if n > (b.len() - 8) as u64 {
        return None;
    }
    let end: usize = 8 + n as usize;
    Some(slice_to_vec(slice_subrange(b, 8, end)))
}

} // verus!
