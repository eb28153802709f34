//! The growable outgoing buffer and the primitive write functions.
//!
//! An [`Encoder`] collects return values: each pushed value is framed as
//! one length-prefixed slot, the same framing the call envelope gives its
//! parameter slots. The free functions append the primitive encodings
//! used by the composite codec.

use crate::abi::AbiType;
use crate::codec::{enc_bytes, enc_str, enc_u32, enc_u64};
use vstd::bytes::{u32_to_le_bytes, u64_to_le_bytes};
use vstd::prelude::*;
use vstd::slice::slice_to_vec;
use vstd::string::StrSliceExecFns;
use vstd::utf8::encode_utf8;

verus! {

/// Append the little-endian encoding of a 32-bit integer.
pub fn write_u32(out: &mut Vec<u8>, v: u32)
    ensures
        final(out)@ == old(out)@ + enc_u32(v),
{
    let mut b = u32_to_le_bytes(v);
    out.append(&mut b);
}

/// Append the little-endian encoding of a 64-bit integer.
pub fn write_u64(out: &mut Vec<u8>, v: u64)
    ensures
        final(out)@ == old(out)@ + enc_u64(v),
{
    let mut b = u64_to_le_bytes(v);
    out.append(&mut b);
}

/// Append one fixed-size array: its bytes themselves, no prefix.
pub fn write_fixed(out: &mut Vec<u8>, b: &[u8])
    ensures
        final(out)@ == old(out)@ + b@,
{
    let mut body = slice_to_vec(b);
    out.append(&mut body);
}

/// Append one length-prefixed byte blob.
pub fn write_bytes(out: &mut Vec<u8>, b: &[u8])
    requires
        b@.len() <= u32::MAX,
    ensures
        final(out)@ == old(out)@ + enc_bytes(b@),
{
    write_u32(out, b.len() as u32);
    let mut body = slice_to_vec(b);
    out.append(&mut body);
    proof {
        assert(final(out)@ =~= old(out)@ + enc_bytes(b@));
    }
}

/// Append one length-prefixed UTF-8 string.
pub fn write_str(out: &mut Vec<u8>, s: &str)
    requires
        encode_utf8(s@).len() <= u32::MAX,
    ensures
        final(out)@ == old(out)@ + enc_str(s@),
{
    let body = s.as_bytes_vec();
    write_bytes(out, body.as_slice());
}

/// Encoder for returning a number of values. Each pushed value becomes one
/// length-framed slot in the growing buffer.
pub struct Encoder {
    values: Vec<u8>,
}

impl Encoder {
    /// The bytes collected so far.
    pub closed spec fn buf(&self) -> Seq<u8> {
        self.values@
    }

    /// New encoder that grows as values are pushed.
    pub fn new() -> (r: Self)
        ensures
            r.buf() == Seq::<u8>::empty(),
    {
        Encoder { values: Vec::new() }
    }

    /// Consume `val` into the encoder as one length-framed slot.
    pub fn push<T: AbiType>(&mut self, val: T)
        requires
            val.abi_enc().len() <= u32::MAX,
        ensures
            final(self).buf() == old(self).buf() + enc_bytes(val.abi_enc()),
    {
        let ghost e = val.abi_enc();
        let bytes = val.encode();
        write_bytes(&mut self.values, bytes.as_slice());
    }

    /// Mutable access to the growing buffer.
    pub fn values_mut(&mut self) -> (r: &mut Vec<u8>)
        ensures
            (*r)@ == old(self).buf(),
            final(self).buf() == (*final(r))@,
    {
        &mut self.values
    }

    /// Hand the collected bytes off, consuming the encoder.
    pub fn values(self) -> (r: Vec<u8>)
        ensures
            r@ == self.buf(),
    {
        self.values
    }
}

impl Default for Encoder {
    /// An empty encoder.
    fn default() -> (r: Self)
        ensures
            r.buf() == Seq::<u8>::empty(),
    {
        Encoder::new()
    }
}

} // verus!
