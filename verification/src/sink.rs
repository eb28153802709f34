//! Sink for outgoing values.
//!
//! [`Sink`] is the historical name of the write buffer; it keeps the same
//! discipline as [`crate::encoder::Encoder`]: every pushed value becomes
//! one length-framed slot.

use crate::abi::AbiType;
use crate::codec::enc_bytes;
use crate::encoder::Encoder;
use vstd::prelude::*;

verus! {

/// Sink collecting encoded values as length-framed slots.
pub struct Sink {
    inner: Encoder,
}

impl Sink {
    /// The bytes collected so far.
    pub closed spec fn buf(&self) -> Seq<u8> {
        self.inner.buf()
    }

    /// New sink that grows as values are pushed.
    pub fn new() -> (r: Self)
        ensures
            r.buf() == Seq::<u8>::empty(),
    {
        Sink { inner: Encoder::new() }
    }

    /// Consume `val` into the sink as one length-framed slot.
    pub fn push<T: AbiType>(&mut self, val: T)
        requires
            val.abi_enc().len() <= u32::MAX,
        ensures
            final(self).buf() == old(self).buf() + enc_bytes(val.abi_enc()),
    {
        self.inner.push(val)
    }

    /// Mutable access to the growing buffer.
    pub fn values_mut(&mut self) -> (r: &mut Vec<u8>)
        ensures
            (*r)@ == old(self).buf(),
            final(self).buf() == (*final(r))@,
    {
        self.inner.values_mut()
    }

    /// Hand the collected bytes off, consuming the sink.
    pub fn values(self) -> (r: Vec<u8>)
        ensures
            r@ == self.buf(),
    {
        self.inner.values()
    }
}

} // verus!
