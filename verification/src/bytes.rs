//! Conversions between fixed-width integers and little-endian byte
//! vectors, as used at the host boundary.

use crate::codec::{enc_u32, enc_u64};
use vstd::bytes::{spec_u32_from_le_bytes, spec_u64_from_le_bytes, u32_from_le_bytes,
    u32_to_le_bytes, u64_from_le_bytes, u64_to_le_bytes};
use vstd::bytes::{lemma_auto_spec_u32_to_from_le_bytes, lemma_auto_spec_u64_to_from_le_bytes};
use vstd::prelude::*;
use vstd::slice::slice_subrange;

verus! {

/// The 4 little-endian bytes of a 32-bit integer.
pub fn bytes_from_u32(value: u32) -> (r: Vec<u8>)
    ensures
        r@ == enc_u32(value),
        r@.len() == 4,
{
    u32_to_le_bytes(value)
}

/// The 32-bit integer the first 4 bytes hold, little-endian; fewer than 4
/// bytes give 0.
pub fn bytes_to_u32(value: Vec<u8>) -> (r: u32)
    ensures
        value@.len() >= 4 ==> r == spec_u32_from_le_bytes(value@.take(4)),
        value@.len() < 4 ==> r == 0,
{
    if value.len() >= 4 {
        let head = slice_subrange(value.as_slice(), 0, 4);
        proof {
            assert(head@ =~= value@.take(4));
        }
        u32_from_le_bytes(head)
    } else {
        0
    }
}

/// The 8 little-endian bytes of a 64-bit integer.
pub fn bytes_from_u64(value: u64) -> (r: Vec<u8>)
    ensures
        r@ == enc_u64(value),
        r@.len() == 8,
{
    u64_to_le_bytes(value)
}

/// The 64-bit integer the first 8 bytes hold, little-endian; fewer than 8
/// bytes give 0.
pub fn bytes_to_u64(value: Vec<u8>) -> (r: u64)
    ensures
        value@.len() >= 8 ==> r == spec_u64_from_le_bytes(value@.take(8)),
        value@.len() < 8 ==> r == 0,
{
    if value.len() >= 8 {
        let head = slice_subrange(value.as_slice(), 0, 8);
        proof {
            assert(head@ =~= value@.take(8));
        }
        u64_from_le_bytes(head)
    } else {
        0
    }
}

/// Reading back the bytes of a 32-bit integer yields the integer.
pub proof fn lemma_u32_bytes_round_trip(value: u32)
    ensures
        spec_u32_from_le_bytes(enc_u32(value).take(4)) == value,
{
    lemma_auto_spec_u32_to_from_le_bytes();
    assert(enc_u32(value).take(4) =~= enc_u32(value));
}

/// Reading back the bytes of a 64-bit integer yields the integer.
pub proof fn lemma_u64_bytes_round_trip(value: u64)
    ensures
        spec_u64_from_le_bytes(enc_u64(value).take(8)) == value,
{
    lemma_auto_spec_u64_to_from_le_bytes();
    assert(enc_u64(value).take(8) =~= enc_u64(value));
}

} // verus!
