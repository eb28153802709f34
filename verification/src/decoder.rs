//! The cursor over an incoming byte buffer.
//!
//! A [`Decoder`] borrows one payload for one decode pass and holds a
//! monotonically increasing read position; it never rewinds. Each primitive
//! read either returns the decoded value and advances by exactly the bytes
//! consumed, or returns the error the specification decode gives for the
//! remaining bytes and leaves the position where it was.

use crate::abi::{vec_to_string, AbiError, AbiType};
use crate::codec::{dec_bool, dec_bytes, dec_fixed, dec_str, dec_u32, dec_u64, CodecError};
use vstd::bytes::{u32_from_le_bytes, u64_from_le_bytes};
use vstd::prelude::*;
use vstd::slice::{slice_subrange, slice_to_vec};
use vstd::utf8::encode_utf8_decode_utf8;

verus! {

/// Decode a payload of bytes. Values are popped one at a time; the cursor
/// advances by exactly the bytes each value consumed.
pub struct Decoder<'a> {
    payload: &'a [u8],
    position: usize,
}

impl<'a> Decoder<'a> {
    /// The whole borrowed payload.
    pub closed spec fn data(&self) -> Seq<u8> {
        self.payload@
    }

    /// The current read position.
    pub closed spec fn pos(&self) -> int {
        self.position as int
    }

    /// The cursor never stands past the end of its payload.
    pub open spec fn wf(&self) -> bool {
        0 <= self.pos() <= self.data().len()
    }

    /// The bytes not yet consumed.
    pub open spec fn remaining(&self) -> Seq<u8> {
        self.data().skip(self.pos())
    }

    /// New decoder for a known payload, positioned at its start.
    pub fn new(raw: &'a [u8]) -> (r: Self)
        ensures
            r.wf(),
            r.data() == raw@,
            r.pos() == 0,
    {
        Decoder { payload: raw, position: 0 }
    }

    /// Current position of the decoder.
    pub fn position(&self) -> (r: usize)
        ensures
            r == self.pos(),
    {
        self.position
    }

    /// The whole payload this decoder reads from.
    pub fn payload(&self) -> (r: &'a [u8])
        ensures
            r@ == self.data(),
    {
        self.payload
    }

    /// Advance the position by `amount` bytes and return the old position;
    /// fail without moving when fewer than `amount` bytes remain.
    pub fn advance(&mut self, amount: usize) -> (r: Result<usize, CodecError>)
        requires
            old(self).wf(),
        ensures
            final(self).wf(),
            final(self).data() == old(self).data(),
            old(self).pos() <= final(self).pos(),
            match r {
                Ok(p) => {
                    &&& old(self).pos() + amount <= old(self).data().len()
                    &&& p == old(self).pos()
                    &&& final(self).pos() == old(self).pos() + amount
                },
                Err(e) => {
                    &&& e == CodecError::UnexpectedEndOfInput
                    &&& old(self).pos() + amount > old(self).data().len()
                    &&& final(self).pos() == old(self).pos()
                },
            },
    {
        if amount > self.payload.len() - self.position {
            return Err(CodecError::UnexpectedEndOfInput);
        }
        let old_position = self.position;
        self.position = self.position + amount;
        Ok(old_position)
    }

    /// Read one little-endian 32-bit integer.
    pub fn read_u32(&mut self) -> (r: Result<u32, CodecError>)
        requires
            old(self).wf(),
        ensures
            final(self).wf(),
            final(self).data() == old(self).data(),
            old(self).pos() <= final(self).pos(),
            match dec_u32(old(self).remaining()) {
                Ok((v, n)) => r == Ok::<u32, CodecError>(v) && final(self).pos() == old(
                    self,
                ).pos() + n,
                Err(e) => r == Err::<u32, CodecError>(e) && final(self).pos() == old(self).pos(),
            },
    {
        if self.payload.len() - self.position < 4 {
            return Err(CodecError::UnexpectedEndOfInput);
        }
        let head = slice_subrange(self.payload, self.position, self.position + 4);
        proof {
            assert(head@ =~= old(self).remaining().take(4));
        }
        let v = u32_from_le_bytes(head);
        self.position = self.position + 4;
        Ok(v)
    }

    /// Read one little-endian 64-bit integer.
    pub fn read_u64(&mut self) -> (r: Result<u64, CodecError>)
        requires
            old(self).wf(),
        ensures
            final(self).wf(),
            final(self).data() == old(self).data(),
            old(self).pos() <= final(self).pos(),
            match dec_u64(old(self).remaining()) {
                Ok((v, n)) => r == Ok::<u64, CodecError>(v) && final(self).pos() == old(
                    self,
                ).pos() + n,
                Err(e) => r == Err::<u64, CodecError>(e) && final(self).pos() == old(self).pos(),
            },
    {
        if self.payload.len() - self.position < 8 {
            return Err(CodecError::UnexpectedEndOfInput);
        }
        let head = slice_subrange(self.payload, self.position, self.position + 8);
        proof {
            assert(head@ =~= old(self).remaining().take(8));
        }
        let v = u64_from_le_bytes(head);
        self.position = self.position + 8;
        Ok(v)
    }

    /// Read one boolean, encoded as a 32-bit integer 0 or 1.
    pub fn read_bool(&mut self) -> (r: Result<bool, CodecError>)
        requires
            old(self).wf(),
        ensures
            final(self).wf(),
            final(self).data() == old(self).data(),
            old(self).pos() <= final(self).pos(),
            match dec_bool(old(self).remaining()) {
                Ok((v, n)) => r == Ok::<bool, CodecError>(v) && final(self).pos() == old(
                    self,
                ).pos() + n,
                Err(e) => r == Err::<bool, CodecError>(e) && final(self).pos() == old(self).pos(),
            },
    {
        let start = self.position;
        match self.read_u32() {
            Ok(0) => Ok(false),
            Ok(1) => Ok(true),
            Ok(_) => {
                self.position = start;
                Err(CodecError::InvalidEncoding)
            },
            Err(e) => Err(e),
        }
    }

    /// Read one fixed-size array of exactly `n` bytes, which carries no
    /// prefix.
    pub fn read_fixed(&mut self, n: usize) -> (r: Result<Vec<u8>, CodecError>)
        requires
            old(self).wf(),
        ensures
            final(self).wf(),
            final(self).data() == old(self).data(),
            old(self).pos() <= final(self).pos(),
            match dec_fixed(old(self).remaining(), n as nat) {
                Ok((b, m)) => {
                    &&& r matches Ok(v) && v@ == b
                    &&& final(self).pos() == old(self).pos() + m
                },
                Err(e) => r == Err::<Vec<u8>, CodecError>(e) && final(self).pos() == old(
                    self,
                ).pos(),
            },
    {
        if n > self.payload.len() - self.position {
            return Err(CodecError::UnexpectedEndOfInput);
        }
        let body = slice_subrange(self.payload, self.position, self.position + n);
        proof {
            assert(body@ =~= old(self).remaining().take(n as int));
        }
        self.position = self.position + n;
        Ok(slice_to_vec(body))
    }

    /// Read one length-prefixed byte blob, bounded by `max`.
    pub fn read_bytes(&mut self, max: u32) -> (r: Result<Vec<u8>, CodecError>)
        requires
            old(self).wf(),
        ensures
            final(self).wf(),
            final(self).data() == old(self).data(),
            old(self).pos() <= final(self).pos(),
            match dec_bytes(old(self).remaining(), max as nat) {
                Ok((b, n)) => {
                    &&& r matches Ok(v) && v@ == b
                    &&& final(self).pos() == old(self).pos() + n
                },
                Err(e) => r == Err::<Vec<u8>, CodecError>(e) && final(self).pos() == old(
                    self,
                ).pos(),
            },
    {
        let start = self.position;
        let len = match self.read_u32() {
            Ok(v) => v,
            Err(e) => {
                return Err(e);
            },
        };
        if len > max {
            self.position = start;
            return Err(CodecError::InvalidEncoding);
        }
        if (len as usize) > self.payload.len() - self.position {
            self.position = start;
            return Err(CodecError::UnexpectedEndOfInput);
        }
        let body = slice_subrange(self.payload, self.position, self.position + len as usize);
        proof {
            assert(body@ =~= old(self).remaining().subrange(4, 4 + len as int));
        }
        self.position = self.position + len as usize;
        Ok(slice_to_vec(body))
    }

    /// Read one length-prefixed UTF-8 string, bounded by `max` bytes.
    pub fn read_string(&mut self, max: u32) -> (r: Result<String, CodecError>)
        requires
            old(self).wf(),
        ensures
            final(self).wf(),
            final(self).data() == old(self).data(),
            old(self).pos() <= final(self).pos(),
            match dec_str(old(self).remaining(), max as nat) {
                Ok((t, n)) => {
                    &&& r matches Ok(v) && v@ == t
                    &&& final(self).pos() == old(self).pos() + n
                },
                Err(e) => r == Err::<String, CodecError>(e) && final(self).pos() == old(
                    self,
                ).pos(),
            },
    {
        let start = self.position;
        let body = match self.read_bytes(max) {
            Ok(v) => v,
            Err(e) => {
                return Err(e);
            },
        };
        match vec_to_string(body) {
            Some(s) => {
                proof {
                    encode_utf8_decode_utf8(s@);
                }
                Ok(s)
            },
            None => {
                self.position = start;
                Err(CodecError::InvalidEncoding)
            },
        }
    }

    /// Pop the next value of a known type: one length-framed slot holding
    /// one complete encoding. The cursor advances past the slot only when
    /// the value decodes.
    pub fn pop<T: AbiType>(&mut self) -> (r: Result<T, AbiError>)
        requires
            old(self).wf(),
        ensures
            final(self).wf(),
            final(self).data() == old(self).data(),
            old(self).pos() <= final(self).pos(),
            match dec_bytes(old(self).remaining(), u32::MAX as nat) {
                Ok((slot, n)) => match T::abi_err(slot) {
                    None => {
                        &&& r matches Ok(v) && T::abi_ok(slot, v)
                        &&& final(self).pos() == old(self).pos() + n
                    },
                    Some(e) => r == Err::<T, AbiError>(e) && final(self).pos() == old(self).pos(),
                },
                Err(_) => r == Err::<T, AbiError>(AbiError::UnexpectedEof) && final(self).pos()
                    == old(self).pos(),
            },
    {
        let start = self.position;
        let slot = match self.read_bytes(u32::MAX) {
            Ok(v) => v,
            Err(_) => {
                return Err(AbiError::UnexpectedEof);
            },
        };
        match T::decode(slot) {
            Ok(v) => Ok(v),
            Err(e) => {
                self.position = start;
                Err(e)
            },
        }
    }
}

} // verus!
