//! Stream interpretation of an incoming payload.
//!
//! [`Stream`] is the historical name of the read cursor; it keeps the same
//! discipline as [`crate::decoder::Decoder`]: one borrowed payload per
//! decode pass, a monotonically increasing position, and one length-framed
//! slot per popped value.

use crate::abi::{AbiError, AbiType};
use crate::codec::{dec_bytes, CodecError};
use crate::decoder::Decoder;
use vstd::prelude::*;

verus! {

/// Stream over a payload of bytes; values are decoded as they are popped.
pub struct Stream<'a> {
    inner: Decoder<'a>,
}

impl<'a> Stream<'a> {
    /// The whole borrowed payload.
    pub closed spec fn data(&self) -> Seq<u8> {
        self.inner.data()
    }

    /// The current read position.
    pub closed spec fn pos(&self) -> int {
        self.inner.pos()
    }

    /// The cursor never stands past the end of its payload.
    pub open spec fn wf(&self) -> bool {
        0 <= self.pos() <= self.data().len()
    }

    /// The bytes not yet consumed.
    pub open spec fn remaining(&self) -> Seq<u8> {
        self.data().skip(self.pos())
    }

    /// New stream for a known payload, positioned at its start.
    pub fn new(raw: &'a [u8]) -> (r: Self)
        ensures
            r.wf(),
            r.data() == raw@,
            r.pos() == 0,
    {
        Stream { inner: Decoder::new(raw) }
    }

    /// Current position of the stream.
    pub fn position(&self) -> (r: usize)
        ensures
            r == self.pos(),
    {
        self.inner.position()
    }

    /// The whole payload this stream reads from.
    pub fn payload(&self) -> (r: &'a [u8])
        ensures
            r@ == self.data(),
    {
        self.inner.payload()
    }

    /// Advance the position by `amount` bytes and return the old position;
    /// fail without moving when fewer than `amount` bytes remain.
    pub fn advance(&mut self, amount: usize) -> (r: Result<usize, CodecError>)
        requires
            old(self).wf(),
        ensures
            final(self).wf(),
            final(self).data() == old(self).data(),
            match r {
                Ok(p) => {
                    &&& old(self).pos() + amount <= old(self).data().len()
                    &&& p == old(self).pos()
                    &&& final(self).pos() == old(self).pos() + amount
                },
                Err(e) => {
                    &&& e == CodecError::UnexpectedEndOfInput
                    &&& old(self).pos() + amount > old(self).data().len()
                    &&& final(self).pos() == old(self).pos()
                },
            },
    {
        self.inner.advance(amount)
    }

    /// Pop the next value of a known type from its length-framed slot.
    pub fn pop<T: AbiType>(&mut self) -> (r: Result<T, AbiError>)
        requires
            old(self).wf(),
        ensures
            final(self).wf(),
            final(self).data() == old(self).data(),
            match dec_bytes(old(self).remaining(), u32::MAX as nat) {
                Ok((slot, n)) => match T::abi_err(slot) {
                    None => {
                        &&& r matches Ok(v) && T::abi_ok(slot, v)
                        &&& final(self).pos() == old(self).pos() + n
                    },
                    Some(e) => r == Err::<T, AbiError>(e) && final(self).pos() == old(self).pos(),
                },
                Err(_) => r == Err::<T, AbiError>(AbiError::UnexpectedEof) && final(self).pos()
                    == old(self).pos(),
            },
    {
        self.inner.pop()
    }
}

} // verus!
