//! The slot codec for call arguments and return values.
//!
//! A call's payload is pre-segmented into one opaque slot per argument, and
//! each [`AbiType`] decodes a complete value from one slot; slot boundaries
//! are external, so no value carries its own framing here. Fixed-width
//! integers occupy the head of their slot; byte blobs and strings occupy
//! the whole slot.

use crate::codec::{enc_u32, enc_u64};
use vstd::bytes::{lemma_auto_spec_u32_to_from_le_bytes, lemma_auto_spec_u64_to_from_le_bytes,
    spec_u32_from_le_bytes, spec_u64_from_le_bytes, u32_from_le_bytes, u32_to_le_bytes,
    u64_from_le_bytes, u64_to_le_bytes};
use vstd::prelude::*;
use vstd::slice::{slice_index_get, slice_subrange, slice_to_vec};
use vstd::string::StrSliceExecFns;
use vstd::utf8::{decode_utf8, encode_utf8, encode_utf8_decode_utf8, encode_utf8_valid_utf8,
    valid_utf8};

verus! {

/// Error for decoding values from argument slots.
#[derive(Clone, Copy, Debug, PartialEq, Eq, Structural)]
pub enum AbiError {
    /// Unexpected end of the slot, or no slot left to pop.
    UnexpectedEof,
    /// The slot holds no encoding of the expected type.
    BadFormat,
}

/// A value that can cross the call boundary as one argument slot.
///
/// `abi_ok` relates a slot to the values that may decode from it, and
/// `abi_err` gives the error decoding reports when no value does; together
/// they pin `decode` down. `abi_enc` is the slot `encode` emits.
pub trait AbiType: View + Sized {
    /// The encoding of this value as one argument slot.
    spec fn abi_enc(&self) -> Seq<u8>;

    /// Which values may decode from the slot `bytes`.
    spec fn abi_ok(bytes: Seq<u8>, v: Self) -> bool;

    /// The error decoding of the slot `bytes` reports, if any.
    spec fn abi_err(bytes: Seq<u8>) -> Option<AbiError>;

    /// Decode one value from one slot.
    fn decode(bytes: Vec<u8>) -> (r: Result<Self, AbiError>)
        ensures
            match r {
                Ok(v) => Self::abi_err(bytes@) is None && Self::abi_ok(bytes@, v),
                Err(e) => Self::abi_err(bytes@) == Some(e),
            },
    ;

    /// Encode this value as one slot.
    fn encode(self) -> (r: Vec<u8>)
        ensures
            r@ == self.abi_enc(),
    ;

    /// Round trip: the encoding of a value decodes without error, and every
    /// value its encoding admits is the value itself, up to its view.
    proof fn lemma_round_trip(&self, other: Self)
        ensures
            Self::abi_err(self.abi_enc()) is None,
            Self::abi_ok(self.abi_enc(), other) ==> other@ == self@,
    ;
}

impl AbiType for u32 {
    open spec fn abi_enc(&self) -> Seq<u8> {
        enc_u32(*self)
    }

    open spec fn abi_ok(bytes: Seq<u8>, v: Self) -> bool {
        bytes.len() >= 4 && v == spec_u32_from_le_bytes(bytes.take(4))
    }

    open spec fn abi_err(bytes: Seq<u8>) -> Option<AbiError> {
        if bytes.len() < 4 {
            Some(AbiError::UnexpectedEof)
        } else {
            None
        }
    }

    fn decode(bytes: Vec<u8>) -> (r: Result<Self, AbiError>) {
        if bytes.len() < 4 {
            return Err(AbiError::UnexpectedEof);
        }
        let head = slice_subrange(bytes.as_slice(), 0, 4);
        proof {
            assert(head@ =~= bytes@.take(4));
        }
        Ok(u32_from_le_bytes(head))
    }

    fn encode(self) -> (r: Vec<u8>) {
        u32_to_le_bytes(self)
    }

    proof fn lemma_round_trip(&self, other: Self) {
        lemma_auto_spec_u32_to_from_le_bytes();
        assert(self.abi_enc().take(4) =~= enc_u32(*self));
    }
}

impl AbiType for u64 {
    open spec fn abi_enc(&self) -> Seq<u8> {
        enc_u64(*self)
    }

    open spec fn abi_ok(bytes: Seq<u8>, v: Self) -> bool {
        bytes.len() >= 8 && v == spec_u64_from_le_bytes(bytes.take(8))
    }

    open spec fn abi_err(bytes: Seq<u8>) -> Option<AbiError> {
        if bytes.len() < 8 {
            Some(AbiError::UnexpectedEof)
        } else {
            None
        }
    }

    fn decode(bytes: Vec<u8>) -> (r: Result<Self, AbiError>) {
        if bytes.len() < 8 {
            return Err(AbiError::UnexpectedEof);
        }
        let head = slice_subrange(bytes.as_slice(), 0, 8);
        proof {
            assert(head@ =~= bytes@.take(8));
        }
        Ok(u64_from_le_bytes(head))
    }

    fn encode(self) -> (r: Vec<u8>) {
        u64_to_le_bytes(self)
    }

    proof fn lemma_round_trip(&self, other: Self) {
        lemma_auto_spec_u64_to_from_le_bytes();
        assert(self.abi_enc().take(8) =~= enc_u64(*self));
    }
}

impl AbiType for Vec<u8> {
    open spec fn abi_enc(&self) -> Seq<u8> {
        self@
    }

    open spec fn abi_ok(bytes: Seq<u8>, v: Self) -> bool {
        v@ == bytes
    }

    open spec fn abi_err(bytes: Seq<u8>) -> Option<AbiError> {
        None
    }

    fn decode(bytes: Vec<u8>) -> (r: Result<Self, AbiError>) {
        Ok(bytes)
    }

    fn encode(self) -> (r: Vec<u8>) {
        self
    }

    proof fn lemma_round_trip(&self, other: Self) {
    }
}

impl AbiType for String {
    open spec fn abi_enc(&self) -> Seq<u8> {
        encode_utf8(self@)
    }

    open spec fn abi_ok(bytes: Seq<u8>, v: Self) -> bool {
        valid_utf8(bytes) && v@ == decode_utf8(bytes)
    }

    open spec fn abi_err(bytes: Seq<u8>) -> Option<AbiError> {
        if valid_utf8(bytes) {
            None
        } else {
            Some(AbiError::BadFormat)
        }
    }

    fn decode(bytes: Vec<u8>) -> (r: Result<Self, AbiError>) {
        match vec_to_string(bytes) {
            Some(s) => {
                proof {
                    encode_utf8_decode_utf8(s@);
                }
                Ok(s)
            },
            None => Err(AbiError::BadFormat),
        }
    }

    fn encode(self) -> (r: Vec<u8>) {
        self.as_str().as_bytes_vec()
    }

    proof fn lemma_round_trip(&self, other: Self) {
        encode_utf8_valid_utf8(self@);
        encode_utf8_decode_utf8(self@);
    }
}

/// One request handed to a handler: the raw body of the call.
pub struct Request {
    pub body: Vec<u8>,
}

impl View for Request {
    type V = Seq<u8>;

    open spec fn view(&self) -> Seq<u8> {
        self.body@
    }
}

impl AbiType for Request {
    open spec fn abi_enc(&self) -> Seq<u8> {
        self.body@
    }

    open spec fn abi_ok(bytes: Seq<u8>, v: Self) -> bool {
        v.body@ == bytes
    }

    open spec fn abi_err(bytes: Seq<u8>) -> Option<AbiError> {
        None
    }

    fn decode(bytes: Vec<u8>) -> (r: Result<Self, AbiError>) {
        Ok(Request { body: bytes })
    }

    fn encode(self) -> (r: Vec<u8>) {
        self.body
    }

    proof fn lemma_round_trip(&self, other: Self) {
    }
}

/// One response returned by a handler: the raw bytes to hand back.
pub struct Response {
    pub body: Vec<u8>,
}

impl View for Response {
    type V = Seq<u8>;

    open spec fn view(&self) -> Seq<u8> {
        self.body@
    }
}

impl AbiType for Response {
    open spec fn abi_enc(&self) -> Seq<u8> {
        self.body@
    }

    open spec fn abi_ok(bytes: Seq<u8>, v: Self) -> bool {
        v.body@ == bytes
    }

    open spec fn abi_err(bytes: Seq<u8>) -> Option<AbiError> {
        None
    }

    fn decode(bytes: Vec<u8>) -> (r: Result<Self, AbiError>) {
        Ok(Response { body: bytes })
    }

    fn encode(self) -> (r: Vec<u8>) {
        self.body
    }

    proof fn lemma_round_trip(&self, other: Self) {
    }
}

/// Decode a list of pre-segmented argument slots, one value per slot.
pub struct InputDecoder<'a> {
    payload: &'a [Vec<u8>],
    position: usize,
}

impl<'a> InputDecoder<'a> {
    /// The argument slots this decoder reads from.
    pub closed spec fn slots(&self) -> Seq<Vec<u8>> {
        self.payload@
    }

    /// The index of the next slot to pop.
    pub closed spec fn pos(&self) -> int {
        self.position as int
    }

    /// The cursor never stands past the end of the slot list.
    pub open spec fn wf(&self) -> bool {
        0 <= self.pos() <= self.slots().len()
    }

    /// New decoder for a known list of slots.
    pub fn new(raw: &'a [Vec<u8>]) -> (r: Self)
        ensures
            r.wf(),
            r.slots() == raw@,
            r.pos() == 0,
    {
        InputDecoder { payload: raw, position: 0 }
    }

    /// Pop the next argument slot and decode one value of the expected type
    /// from it. The cursor moves past the slot whether or not the slot
    /// decodes; popping with no slot left fails without moving.
    pub fn pop<T: AbiType>(&mut self) -> (r: Result<T, AbiError>)
        requires
            old(self).wf(),
        ensures
            final(self).wf(),
            final(self).slots() == old(self).slots(),
            if old(self).pos() < old(self).slots().len() {
                let slot = old(self).slots()[old(self).pos()]@;
                final(self).pos() == old(self).pos() + 1 && match r {
                    Ok(v) => T::abi_err(slot) is None && T::abi_ok(slot, v),
                    Err(e) => T::abi_err(slot) == Some(e),
                }
            } else {
                r == Err::<T, AbiError>(AbiError::UnexpectedEof) && final(self).pos() == old(
                    self,
                ).pos()
            },
    {
        if self.position >= self.payload.len() {
            return Err(AbiError::UnexpectedEof);
        }
        let slot = slice_index_get(self.payload, self.position);
        let bytes = slice_to_vec(slot.as_slice());
        self.position = self.position + 1;
        T::decode(bytes)
    }

    /// Current position of the decoder.
    pub fn position(&self) -> (r: usize)
        ensures
            r == self.pos(),
    {
        self.position
    }

    /// The slots this decoder reads from.
    pub fn payload(&self) -> (r: &'a [Vec<u8>])
        ensures
            r@ == self.slots(),
    {
        self.payload
    }
}

/// Relies on `String::from_utf8`: it returns the string holding exactly the
/// given bytes when they are valid UTF-8, and fails exactly when they are
/// not.
#[verifier::external_body]
pub(crate) fn vec_to_string(v: Vec<u8>) -> (r: Option<String>)
    ensures
        match r {
            Some(s) => valid_utf8(v@) && encode_utf8(s@) == v@,
            None => !valid_utf8(v@),
        },
{
    String::from_utf8(v).ok()
}

} // verus!
