//! The call router: envelope decode, handler dispatch, failure reporting.
//!
//! A call arrives as one encoded [`CallEnvelope`]: the function name and
//! one opaque slot per argument. [`Handler`] holds the registered handler
//! tables — one for mutating functions, one for read-only functions, and
//! at most one constructor reachable only at deployment.
//! [`Handler::execute`] decodes the envelope, looks the function up, and
//! hands the parameter slots to the matching handler. Every failure is
//! returned as a [`ContractError`] value — a malformed envelope, an unknown
//! function name and a failed argument decode each map to their own kind,
//! and no call may terminate the process on malformed input.

use crate::abi::InputDecoder;
use crate::codec::{dec_bytes, dec_str, dec_u32, enc_bytes, enc_str, enc_u32, lemma_bytes_round_trip,
    lemma_bytes_truncated, lemma_enc_u32_len, lemma_prefix_beyond, lemma_prefix_within,
    lemma_str_round_trip, lemma_str_truncated, lemma_u32_round_trip, spec_var_max, var_max,
    CodecError};
use crate::decoder::Decoder;
use crate::encoder::{write_bytes, write_str, write_u32};
use vstd::prelude::*;
use vstd::slice::slice_to_vec;
use vstd::utf8::encode_utf8;

verus! {

/// The kinds of call-level failure.
#[derive(Clone, Copy, Debug, PartialEq, Eq, Structural)]
pub enum ContractErrorKinds {
    /// The call envelope itself does not decode.
    DeserializeError(CodecError),
    /// The arguments of the called function do not decode.
    InvalidArguments,
    /// No function with the given name is registered.
    InvalidFunctionName,
}

/// A call-level failure, returned as a value from dispatch; the host
/// remains able to account for the call and serve the next one.
#[derive(Clone, Copy, Debug, PartialEq, Eq, Structural)]
pub struct ContractError {
    pub kind: ContractErrorKinds,
}

impl ContractError {
    /// The kind of this failure.
    pub open spec fn spec_kind(&self) -> ContractErrorKinds {
        self.kind
    }

    /// The kind of this failure.
    pub fn kind(&self) -> (r: &ContractErrorKinds)
        ensures
            *r == self.spec_kind(),
    {
        &self.kind
    }

    /// A failure: the arguments of the called function do not decode.
    pub fn invalid_arguments() -> (r: Self)
        ensures
            r.spec_kind() == ContractErrorKinds::InvalidArguments,
    {
        ContractError { kind: ContractErrorKinds::InvalidArguments }
    }

    /// A failure: no function with the given name is registered.
    pub fn invalid_function() -> (r: Self)
        ensures
            r.spec_kind() == ContractErrorKinds::InvalidFunctionName,
    {
        ContractError { kind: ContractErrorKinds::InvalidFunctionName }
    }

    /// A fixed description of this failure.
    pub fn message(&self) -> (r: &'static str)
        ensures
            self.spec_kind() matches ContractErrorKinds::DeserializeError(_) ==> r@
                == "could not deserialize the call envelope"@,
            self.spec_kind() == ContractErrorKinds::InvalidArguments ==> r@
                == "failed to parse arguments for function"@,
            self.spec_kind() == ContractErrorKinds::InvalidFunctionName ==> r@
                == "could not find function with given name"@,
    {
        match self.kind {
            ContractErrorKinds::DeserializeError(_) => "could not deserialize the call envelope",
            ContractErrorKinds::InvalidArguments => "failed to parse arguments for function",
            ContractErrorKinds::InvalidFunctionName => "could not find function with given name",
        }
    }
}

impl From<CodecError> for ContractError {
    /// A failure: the call envelope itself does not decode.
    fn from(e: CodecError) -> (r: Self) {
        ContractError { kind: ContractErrorKinds::DeserializeError(e) }
    }
}

impl vstd::std_specs::convert::FromSpecImpl<CodecError> for ContractError {
    open spec fn obeys_from_spec() -> bool {
        true
    }

    open spec fn from_spec(e: CodecError) -> ContractError {
        ContractError { kind: ContractErrorKinds::DeserializeError(e) }
    }
}

/// The decoded call envelope: the function to call and one opaque,
/// pre-segmented byte slot per expected argument.
#[derive(Clone, Debug, PartialEq)]
pub struct CallEnvelope {
    pub function: String,
    pub parameters: Vec<Vec<u8>>,
}

/// Mathematical model of a [`CallEnvelope`].
pub struct CallEnvelopeV {
    pub function: Seq<char>,
    pub parameters: Seq<Seq<u8>>,
}

/// The model of a list of argument slots.
pub open spec fn slots_view(s: Seq<Vec<u8>>) -> Seq<Seq<u8>> {
    s.map_values(|v: Vec<u8>| v@)
}

impl View for CallEnvelope {
    type V = CallEnvelopeV;

    open spec fn view(&self) -> CallEnvelopeV {
        CallEnvelopeV { function: self.function@, parameters: slots_view(self.parameters@) }
    }
}

/// An envelope within the declared field bounds.
pub open spec fn envelope_wf(e: CallEnvelopeV) -> bool {
    &&& encode_utf8(e.function).len() <= spec_var_max()
    &&& e.parameters.len() <= spec_var_max()
    &&& forall|i: int| 0 <= i < e.parameters.len() ==> (#[trigger] e.parameters[i]).len()
        <= spec_var_max()
}

/// The concatenated encodings of a list of argument slots, each one a
/// length-prefixed blob.
pub open spec fn enc_slot_list(s: Seq<Seq<u8>>) -> Seq<u8>
    decreases s,
{
    if s.len() == 0 {
        Seq::empty()
    } else {
        enc_bytes(s[0]) + enc_slot_list(s.skip(1))
    }
}

/// Encoding of a call envelope: the function name, then the slot count and
/// each slot in order.
pub open spec fn enc_envelope(e: CallEnvelopeV) -> Seq<u8> {
    enc_str(e.function) + enc_u32(e.parameters.len() as u32) + enc_slot_list(e.parameters)
}

/// Decode of `count` argument slots from the head of `s`.
pub open spec fn dec_slot_list(s: Seq<u8>, count: nat) -> Result<(Seq<Seq<u8>>, int), CodecError>
    decreases count,
{
    if count == 0 {
        Ok((Seq::empty(), 0))
    } else {
        match dec_bytes(s, spec_var_max()) {
            Ok((b, n)) => match dec_slot_list(s.skip(n), (count - 1) as nat) {
                Ok((bs, m)) => Ok((seq![b] + bs, n + m)),
                Err(e) => Err(e),
            },
            Err(e) => Err(e),
        }
    }
}

/// Decode of a call envelope.
pub open spec fn dec_envelope(s: Seq<u8>) -> Result<(CallEnvelopeV, int), CodecError> {
    match dec_str(s, spec_var_max()) {
        Ok((function, n1)) => match dec_u32(s.skip(n1)) {
            Ok((count, n2)) => if count > spec_var_max() {
                Err(CodecError::InvalidEncoding)
            } else {
                match dec_slot_list(s.skip(n1 + n2), count as nat) {
                    Ok((parameters, n3)) => Ok(
                        (CallEnvelopeV { function, parameters }, n1 + n2 + n3),
                    ),
                    Err(e) => Err(e),
                }
            },
            Err(e) => Err(e),
        },
        Err(e) => Err(e),
    }
}

impl CallEnvelope {
    /// Whether this envelope fits its field bounds.
    pub fn check_wf(&self) -> (b: bool)
        ensures
            b == envelope_wf(self@),
    {
        if self.function.as_str().as_bytes().len() > 0x7fffffff {
            return false;
        }
        if self.parameters.len() > 0x7fffffff {
            return false;
        }
        let mut i: usize = 0;
        while i < self.parameters.len()
            invariant
                i <= self.parameters@.len(),
                self.parameters@.len() <= 0x7fffffff,
                encode_utf8(self.function@).len() <= spec_var_max(),
                forall|j: int|
                    0 <= j < i ==> (#[trigger] slots_view(self.parameters@)[j]).len()
                        <= spec_var_max(),
            decreases self.parameters@.len() - i,
        {
            if self.parameters[i].len() > 0x7fffffff {
                proof {
                    assert(slots_view(self.parameters@)[i as int] == self.parameters@[i as int]@);
                }
                return false;
            }
            i = i + 1;
        }
        true
    }

    /// Append the encodings of the argument slots from `from` on.
    fn encode_slot_list(parameters: &Vec<Vec<u8>>, from: usize, out: &mut Vec<u8>)
        requires
            from <= parameters@.len(),
            forall|i: int|
                from <= i < parameters@.len() ==> (#[trigger] slots_view(parameters@)[i]).len()
                    <= spec_var_max(),
        ensures
            final(out)@ == old(out)@ + enc_slot_list(slots_view(parameters@).skip(from as int)),
        decreases parameters@.len() - from,
    {
        let ghost v = slots_view(parameters@);
        if from < parameters.len() {
            proof {
                assert(v[from as int].len() <= spec_var_max());
                assert(v[from as int] == parameters@[from as int]@);
            }
            write_bytes(out, parameters[from].as_slice());
            Self::encode_slot_list(parameters, from + 1, out);
            proof {
                assert(v.skip(from as int)[0] == v[from as int]);
                assert(v.skip(from as int).skip(1) =~= v.skip(from as int + 1));
                assert(enc_slot_list(v.skip(from as int)) == enc_bytes(v[from as int])
                    + enc_slot_list(v.skip(from as int + 1)));
                assert(final(out)@ =~= old(out)@ + enc_slot_list(v.skip(from as int)));
            }
        } else {
            proof {
                assert(v.skip(from as int) =~= Seq::<Seq<u8>>::empty());
            }
        }
    }

    /// Append the encoding of this envelope, or reject one outside its
    /// field bounds without writing anything.
    pub fn encode(&self, out: &mut Vec<u8>) -> (r: Result<(), CodecError>)
        ensures
            match r {
                Ok(_) => envelope_wf(self@) && final(out)@ == old(out)@ + enc_envelope(self@),
                Err(e) => {
                    &&& !envelope_wf(self@)
                    &&& e == CodecError::InvalidEncoding
                    &&& final(out)@ == old(out)@
                },
            },
    {
        if !self.check_wf() {
            return Err(CodecError::InvalidEncoding);
        }
        write_str(out, self.function.as_str());
        write_u32(out, self.parameters.len() as u32);
        Self::encode_slot_list(&self.parameters, 0, out);
        proof {
            assert(slots_view(self.parameters@).skip(0) =~= slots_view(self.parameters@));
            assert(final(out)@ =~= old(out)@ + enc_envelope(self@));
        }
        Ok(())
    }

    /// Decode `count` argument slots, appending them to `out`.
    fn decode_slot_list<'a>(dec: &mut Decoder<'a>, count: u32, out: &mut Vec<Vec<u8>>) -> (r:
        Result<(), CodecError>)
        requires
            old(dec).wf(),
        ensures
            final(dec).wf(),
            final(dec).data() == old(dec).data(),
            old(dec).pos() <= final(dec).pos(),
            match dec_slot_list(old(dec).remaining(), count as nat) {
                Ok((bs, n)) => {
                    &&& r is Ok
                    &&& slots_view(final(out)@) == slots_view(old(out)@) + bs
                    &&& final(dec).pos() == old(dec).pos() + n
                },
                Err(e) => {
                    &&& r == Err::<(), CodecError>(e)
                    &&& old(dec).pos() <= final(dec).pos()
                },
            },
        decreases count,
    {
        if count == 0 {
            proof {
                assert(slots_view(out@) =~= slots_view(out@) + Seq::<Seq<u8>>::empty());
            }
            return Ok(());
        }
        let ghost rem0 = old(dec).remaining();
        let b = match dec.read_bytes(var_max()) {
            Ok(v) => v,
            Err(e) => {
                return Err(e);
            },
        };
        let ghost n1 = dec.pos() - old(dec).pos();
        proof {
            assert(dec.remaining() =~= rem0.skip(n1));
        }
        out.push(b);
        let ghost mid = out@;
        match Self::decode_slot_list(dec, count - 1, out) {
            Ok(_) => {
                proof {
                    let bs2 = dec_slot_list(rem0.skip(n1), (count - 1) as nat)->Ok_0.0;
                    assert(slots_view(mid) =~= slots_view(old(out)@) + seq![mid.last()@]);
                    assert((slots_view(old(out)@) + seq![mid.last()@]) + bs2 =~= slots_view(
                        old(out)@,
                    ) + (seq![mid.last()@] + bs2));
                }
                Ok(())
            },
            Err(e) => Err(e),
        }
    }

    /// Decode one call envelope.
    pub fn decode<'a>(dec: &mut Decoder<'a>) -> (r: Result<CallEnvelope, CodecError>)
        requires
            old(dec).wf(),
        ensures
            final(dec).wf(),
            final(dec).data() == old(dec).data(),
            old(dec).pos() <= final(dec).pos(),
            match dec_envelope(old(dec).remaining()) {
                Ok((v, n)) => {
                    &&& r matches Ok(x) && x@ == v
                    &&& final(dec).pos() == old(dec).pos() + n
                },
                Err(e) => {
                    &&& r == Err::<CallEnvelope, CodecError>(e)
                    &&& old(dec).pos() <= final(dec).pos()
                },
            },
    {
        let ghost rem0 = old(dec).remaining();
        let function = match dec.read_string(var_max()) {
            Ok(v) => v,
            Err(e) => {
                return Err(e);
            },
        };
        let ghost n1 = dec.pos() - old(dec).pos();
        proof {
            assert(dec.remaining() =~= rem0.skip(n1));
        }
        let count = match dec.read_u32() {
            Ok(v) => v,
            Err(e) => {
                return Err(e);
            },
        };
        if count > var_max() {
            return Err(CodecError::InvalidEncoding);
        }
        proof {
            assert(dec.remaining() =~= rem0.skip(n1 + 4));
        }
        let mut parameters: Vec<Vec<u8>> = Vec::new();
        match Self::decode_slot_list(dec, count, &mut parameters) {
            Ok(_) => {
                proof {
                    assert(slots_view(Seq::<Vec<u8>>::empty()) =~= Seq::<Seq<u8>>::empty());
                    if dec_slot_list(rem0.skip(n1 + 4), count as nat) is Ok {
                        let bs = dec_slot_list(rem0.skip(n1 + 4), count as nat)->Ok_0.0;
                        assert(slots_view(parameters@) =~= bs);
                    }
                }
                Ok(CallEnvelope { function, parameters })
            },
            Err(e) => Err(e),
        }
    }
}

/// Round-trip law for lists of argument slots within their field bounds.
pub proof fn lemma_slot_list_round_trip(bs: Seq<Seq<u8>>, rest: Seq<u8>)
    requires
        forall|i: int| 0 <= i < bs.len() ==> (#[trigger] bs[i]).len() <= spec_var_max(),
    ensures
        dec_slot_list(enc_slot_list(bs) + rest, bs.len() as nat) == Ok::<
            (Seq<Seq<u8>>, int),
            CodecError,
        >((bs, enc_slot_list(bs).len() as int)),
    decreases bs,
{
    if bs.len() == 0 {
        assert(enc_slot_list(bs) + rest =~= rest);
        assert(bs =~= Seq::<Seq<u8>>::empty());
    } else {
        let h = bs[0];
        assert(bs[0].len() <= spec_var_max());
        assert(enc_slot_list(bs) == enc_bytes(h) + enc_slot_list(bs.skip(1)));
        assert(enc_slot_list(bs) + rest =~= enc_bytes(h) + (enc_slot_list(bs.skip(1)) + rest));
        lemma_bytes_round_trip(h, spec_var_max(), enc_slot_list(bs.skip(1)) + rest);
        assert forall|i: int| 0 <= i < bs.skip(1).len() implies (#[trigger] bs.skip(1)[i]).len()
            <= spec_var_max() by {
            assert(bs.skip(1)[i] == bs[i + 1]);
        }
        lemma_slot_list_round_trip(bs.skip(1), rest);
        assert(seq![h] + bs.skip(1) =~= bs);
    }
}

/// Round-trip law for call envelopes within their field bounds: decoding
/// the encoding of an envelope, with anything at all behind it, yields the
/// envelope itself.
pub proof fn lemma_envelope_round_trip(e: CallEnvelopeV, rest: Seq<u8>)
    requires
        envelope_wf(e),
    ensures
        dec_envelope(enc_envelope(e) + rest) == Ok::<(CallEnvelopeV, int), CodecError>(
            (e, enc_envelope(e).len() as int),
        ),
{
    let e1 = enc_str(e.function);
    let e2 = enc_u32(e.parameters.len() as u32);
    let e3 = enc_slot_list(e.parameters);
    let s = enc_envelope(e) + rest;
    assert(s =~= e1 + (e2 + (e3 + rest)));
    lemma_str_round_trip(e.function, spec_var_max(), e2 + (e3 + rest));
    assert(s.skip(e1.len() as int) =~= e2 + (e3 + rest));
    lemma_u32_round_trip(e.parameters.len() as u32, e3 + rest);
    assert(s.skip(e1.len() + e2.len() as int) =~= e3 + rest);
    lemma_slot_list_round_trip(e.parameters, rest);
    assert(e == (CallEnvelopeV { function: e.function, parameters: e.parameters }));
}

/// Truncation safety for lists of argument slots.
pub proof fn lemma_slot_list_truncated(bs: Seq<Seq<u8>>, s: Seq<u8>)
    requires
        forall|i: int| 0 <= i < bs.len() ==> (#[trigger] bs[i]).len() <= spec_var_max(),
        s.len() < enc_slot_list(bs).len(),
        s == enc_slot_list(bs).take(s.len() as int),
    ensures
        dec_slot_list(s, bs.len() as nat) == Err::<(Seq<Seq<u8>>, int), CodecError>(
            CodecError::UnexpectedEndOfInput,
        ),
    decreases bs,
{
    assert(bs.len() > 0);
    let h = bs[0];
    assert(bs[0].len() <= spec_var_max());
    assert(enc_slot_list(bs) == enc_bytes(h) + enc_slot_list(bs.skip(1)));
    assert forall|i: int| 0 <= i < bs.skip(1).len() implies (#[trigger] bs.skip(1)[i]).len()
        <= spec_var_max() by {
        assert(bs.skip(1)[i] == bs[i + 1]);
    }
    if s.len() < enc_bytes(h).len() {
        lemma_prefix_within(enc_bytes(h), enc_slot_list(bs.skip(1)), s);
        lemma_bytes_truncated(h, spec_var_max(), s);
    } else {
        lemma_prefix_beyond(enc_bytes(h), enc_slot_list(bs.skip(1)), s);
        let s2 = s.skip(enc_bytes(h).len() as int);
        lemma_bytes_round_trip(h, spec_var_max(), s2);
        lemma_slot_list_truncated(bs.skip(1), s2);
    }
}

/// Truncation safety for call envelopes: decoding any proper prefix of a
/// valid envelope encoding never aborts; it reports `UnexpectedEndOfInput`.
pub proof fn lemma_envelope_truncated(e: CallEnvelopeV, s: Seq<u8>)
    requires
        envelope_wf(e),
        s.len() < enc_envelope(e).len(),
        s == enc_envelope(e).take(s.len() as int),
    ensures
        dec_envelope(s) == Err::<(CallEnvelopeV, int), CodecError>(
            CodecError::UnexpectedEndOfInput,
        ),
{
    let e1 = enc_str(e.function);
    let e2 = enc_u32(e.parameters.len() as u32);
    let e3 = enc_slot_list(e.parameters);
    lemma_enc_u32_len(e.parameters.len() as u32);
    assert(enc_envelope(e) =~= e1 + (e2 + e3));
    if s.len() < e1.len() {
        lemma_prefix_within(e1, e2 + e3, s);
        lemma_str_truncated(e.function, spec_var_max(), s);
    } else {
        lemma_prefix_beyond(e1, e2 + e3, s);
        let s2 = s.skip(e1.len() as int);
        lemma_str_round_trip(e.function, spec_var_max(), s2);
        if s2.len() < 4 {
            // the slot count itself is cut short
        } else {
            lemma_prefix_beyond(e2, e3, s2);
            let s3 = s2.skip(4);
            assert(s.skip(e1.len() + 4int) =~= s3);
            lemma_u32_round_trip(e.parameters.len() as u32, s3);
            lemma_slot_list_truncated(e.parameters, s3);
        }
    }
}

/// One registered call handler: it receives the call's pre-segmented
/// parameter slots and returns the encoded return values, or a call-level
/// failure such as [`ContractError::invalid_arguments`]. A contract with
/// several functions registers one value of an implementing type per
/// function. An implementation should pop every expected argument before
/// touching any state, so that it never works on partially-invalid
/// arguments.
pub trait HandlerFn {
    /// Handle one call.
    fn call<'a>(&mut self, args: &mut InputDecoder<'a>) -> Result<Vec<u8>, ContractError>;
}

/// The parameters of one incoming call as the host hands them over: the
/// name of the handler to run and the raw payload.
pub struct HandlerParams {
    pub handler_id: String,
    pub payload: Vec<u8>,
}

/// A contract that can execute one encoded call and return the encoded
/// response or a call-level failure.
pub trait ContractInterface {
    /// Execute one call given its encoded envelope.
    fn execute(&mut self, payload: &[u8]) -> Result<Vec<u8>, ContractError>;
}

/// The names of a handler table, in registration order.
pub open spec fn table_names<F>(s: Seq<(String, F)>) -> Seq<Seq<char>> {
    s.map_values(|e: (String, F)| e.0@)
}

/// Whether a handler table has an entry under `name`.
pub open spec fn table_has<F>(s: Seq<(String, F)>, name: Seq<char>) -> bool {
    exists|i: int| 0 <= i < s.len() && table_names(s)[i] == name
}

/// The registered handler tables of one contract, and its dispatch.
///
/// Three call classes exist: mutating functions stand in the ordinary
/// table, read-only functions stand in a separate table served by the same
/// decode machinery, and the constructor — reachable only once, during
/// initial deployment — is present in neither table and has no name to
/// call it by.
pub struct Handler<F: HandlerFn> {
    function_map: Vec<(String, F)>,
    readonly_map: Vec<(String, F)>,
    constructor: Option<F>,
}

impl<F: HandlerFn> Handler<F> {
    /// The registered mutating entries, in registration order.
    pub closed spec fn spec_entries(&self) -> Seq<(String, F)> {
        self.function_map@
    }

    /// The registered read-only entries, in registration order.
    pub closed spec fn spec_readonly_entries(&self) -> Seq<(String, F)> {
        self.readonly_map@
    }

    /// The constructor, if one is registered.
    pub closed spec fn spec_constructor(&self) -> Option<F> {
        self.constructor
    }

    /// The registered mutating names, in registration order.
    pub open spec fn spec_names(&self) -> Seq<Seq<char>> {
        table_names(self.spec_entries())
    }

    /// The registered read-only names, in registration order.
    pub open spec fn spec_readonly_names(&self) -> Seq<Seq<char>> {
        table_names(self.spec_readonly_entries())
    }

    /// Whether a mutating handler is registered under `name`.
    pub open spec fn is_registered(&self, name: Seq<char>) -> bool {
        table_has(self.spec_entries(), name)
    }

    /// Whether a read-only handler is registered under `name`.
    pub open spec fn is_readonly_registered(&self, name: Seq<char>) -> bool {
        table_has(self.spec_readonly_entries(), name)
    }

    /// New handler tables with nothing registered.
    pub fn new() -> (r: Self)
        ensures
            r.spec_entries().len() == 0,
            r.spec_readonly_entries().len() == 0,
            r.spec_constructor() is None,
    {
        Handler { function_map: Vec::new(), readonly_map: Vec::new(), constructor: None }
    }

    /// Register one mutating handler under a function name.
    pub fn add(&mut self, handler_id: String, function: F)
        ensures
            final(self).spec_entries() == old(self).spec_entries().push((handler_id, function)),
            final(self).spec_readonly_entries() == old(self).spec_readonly_entries(),
            final(self).spec_constructor() == old(self).spec_constructor(),
    {
        self.function_map.push((handler_id, function));
    }

    /// Register one read-only handler under a function name. The host is
    /// expected to reject the call if it attempts to mutate state.
    pub fn add_readonly(&mut self, handler_id: String, function: F)
        ensures
            final(self).spec_readonly_entries() == old(self).spec_readonly_entries().push(
                (handler_id, function),
            ),
            final(self).spec_entries() == old(self).spec_entries(),
            final(self).spec_constructor() == old(self).spec_constructor(),
    {
        self.readonly_map.push((handler_id, function));
    }

    /// Register the constructor, replacing any registered before.
    pub fn set_constructor(&mut self, function: F)
        ensures
            final(self).spec_constructor() == Some(function),
            final(self).spec_entries() == old(self).spec_entries(),
            final(self).spec_readonly_entries() == old(self).spec_readonly_entries(),
    {
        self.constructor = Some(function);
    }

    /// The first entry of a table registered under `name`.
    fn find_in(table: &Vec<(String, F)>, name: &String) -> (r: Option<usize>)
        ensures
            match r {
                Some(i) => i < table@.len() && table@[i as int].0@ == name@,
                None => !table_has(table@, name@),
            },
    {
        let mut i: usize = 0;
        while i < table.len()
            invariant
                i <= table@.len(),
                forall|j: int| 0 <= j < i ==> (#[trigger] table@[j].0)@ != name@,
            decreases table@.len() - i,
        {
            if table[i].0 == *name {
                return Some(i);
            }
            i = i + 1;
        }
        proof {
            assert forall|j: int|
                0 <= j < table_names(table@).len() implies table_names(table@)[j] != name@ by {
                assert(table_names(table@)[j] == table@[j].0@);
            }
        }
        None
    }

    /// Look the function up in one table and hand the parameter slots to
    /// the matching handler.
    fn dispatch_in(table: &mut Vec<(String, F)>, env: &CallEnvelope) -> (r: Result<
        Vec<u8>,
        ContractError,
    >)
        ensures
            table_names(final(table)@) == table_names(old(table)@),
            final(table)@.len() == old(table)@.len(),
            !table_has(old(table)@, env.function@) ==> r == Err::<Vec<u8>, ContractError>(
                (ContractError { kind: ContractErrorKinds::InvalidFunctionName }),
            ) && final(table)@ == old(table)@,
            table_has(old(table)@, env.function@) ==> exists|i: int|
                {
                    &&& 0 <= i < old(table)@.len()
                    &&& (#[trigger] old(table)@[i]).0@ == env.function@
                    &&& forall|j: int|
                        0 <= j < old(table)@.len() && j != i ==> final(table)@[j] == old(
                            table,
                        )@[j]
                },
    {
        let idx = match Self::find_in(table, &env.function) {
            Some(i) => i,
            None => {
                return Err(ContractError::invalid_function());
            },
        };
        proof {
            assert(table_names(old(table)@)[idx as int] == env.function@);
        }
        let mut args = InputDecoder::new(env.parameters.as_slice());
        let pair = &mut table[idx];
        let r = pair.1.call(&mut args);
        proof {
            assert(table_names(table@) =~= table_names(old(table)@));
            assert((old(table)@[idx as int]).0@ == env.function@);
            assert(forall|j: int|
                0 <= j < old(table)@.len() && j != idx as int ==> table@[j] == old(table)@[j]);
        }
        r
    }

    /// Execute one mutating call: decode its envelope, look the function up
    /// in the ordinary table, and hand the parameter slots to the matching
    /// handler. A payload that is no envelope fails with the deserialize
    /// kind; an unregistered function name fails with the unknown-function
    /// kind; in either case no handler runs and the tables are left exactly
    /// as they were. On a hit the result is the bytes the handler already
    /// encoded — output encoding itself cannot fail — and the registered
    /// names are preserved.
    pub fn execute(&mut self, payload: &[u8]) -> (r: Result<Vec<u8>, ContractError>)
        ensures
            final(self).spec_names() == old(self).spec_names(),
            final(self).spec_entries().len() == old(self).spec_entries().len(),
            final(self).spec_readonly_entries() == old(self).spec_readonly_entries(),
            final(self).spec_constructor() == old(self).spec_constructor(),
            match dec_envelope(payload@) {
                Err(e) => {
                    &&& r == Err::<Vec<u8>, ContractError>(
                        (ContractError { kind: ContractErrorKinds::DeserializeError(e) }),
                    )
                    &&& final(self).spec_entries() == old(self).spec_entries()
                },
                Ok((env, n)) => if !old(self).is_registered(env.function) {
                    &&& r == Err::<Vec<u8>, ContractError>(
                        (ContractError { kind: ContractErrorKinds::InvalidFunctionName }),
                    )
                    &&& final(self).spec_entries() == old(self).spec_entries()
                } else {
                    exists|i: int|
                        {
                            &&& 0 <= i < old(self).spec_entries().len()
                            &&& (#[trigger] old(self).spec_entries()[i]).0@ == env.function
                            &&& forall|j: int|
                                0 <= j < old(self).spec_entries().len() && j != i
                                    ==> final(self).spec_entries()[j]
                                    == old(self).spec_entries()[j]
                        }
                },
            },
    {
        let mut d = Decoder::new(payload);
        proof {
            assert(d.remaining() =~= payload@);
        }
        let env = match CallEnvelope::decode(&mut d) {
            Ok(v) => v,
            Err(e) => {
                return Err(ContractError::from(e));
            },
        };
        Self::dispatch_in(&mut self.function_map, &env)
    }

    /// Execute one read-only call: the same machinery as
    /// [`execute`](Handler::execute), served from the read-only table.
    pub fn execute_readonly(&mut self, payload: &[u8]) -> (r: Result<Vec<u8>, ContractError>)
        ensures
            final(self).spec_readonly_names() == old(self).spec_readonly_names(),
            final(self).spec_readonly_entries().len() == old(self).spec_readonly_entries().len(),
            final(self).spec_entries() == old(self).spec_entries(),
            final(self).spec_constructor() == old(self).spec_constructor(),
            match dec_envelope(payload@) {
                Err(e) => {
                    &&& r == Err::<Vec<u8>, ContractError>(
                        (ContractError { kind: ContractErrorKinds::DeserializeError(e) }),
                    )
                    &&& final(self).spec_readonly_entries() == old(self).spec_readonly_entries()
                },
                Ok((env, n)) => if !old(self).is_readonly_registered(env.function) {
                    &&& r == Err::<Vec<u8>, ContractError>(
                        (ContractError { kind: ContractErrorKinds::InvalidFunctionName }),
                    )
                    &&& final(self).spec_readonly_entries() == old(self).spec_readonly_entries()
                } else {
                    exists|i: int|
                        {
                            &&& 0 <= i < old(self).spec_readonly_entries().len()
                            &&& (#[trigger] old(self).spec_readonly_entries()[i]).0@
                                == env.function
                            &&& forall|j: int|
                                0 <= j < old(self).spec_readonly_entries().len() && j != i
                                    ==> final(self).spec_readonly_entries()[j]
                                    == old(self).spec_readonly_entries()[j]
                        }
                },
            },
    {
        let mut d = Decoder::new(payload);
        proof {
            assert(d.remaining() =~= payload@);
        }
        let env = match CallEnvelope::decode(&mut d) {
            Ok(v) => v,
            Err(e) => {
                return Err(ContractError::from(e));
            },
        };
        Self::dispatch_in(&mut self.readonly_map, &env)
    }

    /// Run the constructor on one deployment call: the envelope's function
    /// name is ignored — the constructor has none — and its parameter slots
    /// are handed over. Deploying a contract without a constructor returns
    /// no bytes and does nothing. Neither dispatch table can reach the
    /// constructor, and this call leaves both exactly as they were.
    pub fn construct(&mut self, payload: &[u8]) -> (r: Result<Vec<u8>, ContractError>)
        ensures
            final(self).spec_entries() == old(self).spec_entries(),
            final(self).spec_readonly_entries() == old(self).spec_readonly_entries(),
            final(self).spec_constructor() is Some <==> old(self).spec_constructor() is Some,
            match dec_envelope(payload@) {
                Err(e) => r == Err::<Vec<u8>, ContractError>(
                    (ContractError { kind: ContractErrorKinds::DeserializeError(e) }),
                ),
                Ok(_) => old(self).spec_constructor() is None ==> (r matches Ok(v) && v@
                    == Seq::<u8>::empty()),
            },
    {
        let mut d = Decoder::new(payload);
        proof {
            assert(d.remaining() =~= payload@);
        }
        let env = match CallEnvelope::decode(&mut d) {
            Ok(v) => v,
            Err(e) => {
                return Err(ContractError::from(e));
            },
        };
        let mut args = InputDecoder::new(env.parameters.as_slice());
        match &mut self.constructor {
            Some(f) => f.call(&mut args),
            None => Ok(Vec::new()),
        }
    }

    /// Dispatch one call whose handler name and raw payload the host
    /// already separated: the named mutating handler receives the payload
    /// as its single argument slot. An unregistered name fails with the
    /// unknown-function kind, and no handler runs.
    pub fn handle(&mut self, params: &HandlerParams) -> (r: Result<Vec<u8>, ContractError>)
        ensures
            final(self).spec_names() == old(self).spec_names(),
            final(self).spec_entries().len() == old(self).spec_entries().len(),
            final(self).spec_readonly_entries() == old(self).spec_readonly_entries(),
            final(self).spec_constructor() == old(self).spec_constructor(),
            !old(self).is_registered(params.handler_id@) ==> r == Err::<Vec<u8>, ContractError>(
                (ContractError { kind: ContractErrorKinds::InvalidFunctionName }),
            ) && final(self).spec_entries() == old(self).spec_entries(),
    {
        let mut slots: Vec<Vec<u8>> = Vec::new();
        slots.push(slice_to_vec(params.payload.as_slice()));
        let env = CallEnvelope {
            function: params.handler_id.clone(),
            parameters: slots,
        };
        Self::dispatch_in(&mut self.function_map, &env)
    }
}

impl<F: HandlerFn> ContractInterface for Handler<F> {
    /// Execute one call given its encoded envelope.
    fn execute(&mut self, payload: &[u8]) -> Result<Vec<u8>, ContractError> {
        self.execute(payload)
    }
}

} // verus!
