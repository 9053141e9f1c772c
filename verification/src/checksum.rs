//! CRC-32C (Castagnoli) checksums.

use vstd::prelude::*;

verus! {

/// The CRC-32C checksum of `data`, as the `crc` crate computes it with its
/// Castagnoli table from the initial value 0.
pub uninterp spec fn spec_crc32c(data: Seq<u8>) -> u32;

/// Calls `crc::crc32::update` with the initial value 0 and the crate's
/// Castagnoli table. The result is a function of the bytes alone; the
/// contract gives it the name `spec_crc32c`.
#[verifier::external_body]
pub(crate) fn crc32c(data: &[u8]) -> (sum: u32)
    ensures
        sum == spec_crc32c(data@),
{
    crc::crc32::update(0, &crc::crc32::CASTAGNOLI_TABLE, data)
}

} // verus!
