use mazzaroth_rs::abi::{AbiError, AbiType, InputDecoder, Request, Response};
use mazzaroth_rs::bytes::{bytes_from_u32, bytes_from_u64, bytes_to_u32, bytes_to_u64};
use mazzaroth_rs::codec::CodecError;
use mazzaroth_rs::decoder::Decoder;
use mazzaroth_rs::encoder::{write_fixed, write_str, write_u32, write_u64, Encoder};
use mazzaroth_rs::interface::{Abi, AbiEntry, Argument, FunctionEntry};
use mazzaroth_rs::router::{CallEnvelope, ContractError, ContractErrorKinds, ContractInterface,
    Handler, HandlerFn, HandlerParams};
use mazzaroth_rs::sink::Sink;
use mazzaroth_rs::stream::Stream;

/// A handler that takes zero arguments and returns the 32-bit integer 14.
struct HelloHandler;

impl HandlerFn for HelloHandler {
    fn call<'a>(&mut self, _args: &mut InputDecoder<'a>) -> Result<Vec<u8>, ContractError> {
        let mut encoder = Encoder::new();
        encoder.push(14u32);
        Ok(encoder.values())
    }
}

/// A handler that doubles its one 64-bit argument.
struct DoubleHandler;

impl HandlerFn for DoubleHandler {
    fn call<'a>(&mut self, args: &mut InputDecoder<'a>) -> Result<Vec<u8>, ContractError> {
        let value: u64 = match args.pop() {
            Ok(v) => v,
            Err(_) => return Err(ContractError::invalid_arguments()),
        };
        let mut encoder = Encoder::new();
        encoder.push(value.wrapping_mul(2));
        Ok(encoder.values())
    }
}

fn encode_envelope(function: &str, parameters: Vec<Vec<u8>>) -> Vec<u8> {
    let envelope = CallEnvelope {
        function: function.to_string(),
        parameters,
    };
    let mut out = Vec::new();
    envelope.encode(&mut out).unwrap();
    out
}

#[test]
fn dispatch_hello_yields_encoding_of_fourteen() {
    let mut handler = Handler::new();
    handler.add("hello".to_string(), HelloHandler);
    let payload = encode_envelope("hello", vec![]);
    let response = handler.execute(payload.as_slice()).unwrap();
    // one return value, framed as one slot: length prefix then the integer
    assert_eq!(vec![4, 0, 0, 0, 14, 0, 0, 0], response);
}

#[test]
fn dispatch_unknown_function_fails() {
    let mut handler = Handler::new();
    handler.add("hello".to_string(), HelloHandler);
    let payload = encode_envelope("nope", vec![]);
    let result = handler.execute(payload.as_slice());
    assert_eq!(
        Err(ContractError {
            kind: ContractErrorKinds::InvalidFunctionName,
        }),
        result
    );
}

#[test]
fn dispatch_malformed_envelope_fails() {
    let mut handler = Handler::new();
    handler.add("hello".to_string(), HelloHandler);
    let result = handler.execute(&[1, 0, 0]);
    assert_eq!(
        Err(ContractError {
            kind: ContractErrorKinds::DeserializeError(CodecError::UnexpectedEndOfInput),
        }),
        result
    );
}

#[test]
fn dispatch_decodes_typed_arguments() {
    let mut handler = Handler::new();
    handler.add("double".to_string(), DoubleHandler);
    let payload = encode_envelope("double", vec![21u64.encode()]);
    let response = handler.execute(payload.as_slice()).unwrap();
    assert_eq!(vec![8, 0, 0, 0, 42, 0, 0, 0, 0, 0, 0, 0], response);
}

#[test]
fn dispatch_bad_argument_fails() {
    let mut handler = Handler::new();
    handler.add("double".to_string(), DoubleHandler);
    // the one argument slot is too short for a 64-bit integer
    let payload = encode_envelope("double", vec![vec![1, 2]]);
    let result = handler.execute(payload.as_slice());
    assert_eq!(
        Err(ContractError {
            kind: ContractErrorKinds::InvalidArguments,
        }),
        result
    );
}

#[test]
fn dispatch_through_contract_interface() {
    let mut handler = Handler::new();
    handler.add("hello".to_string(), HelloHandler);
    let contract: &mut dyn ContractInterface = &mut handler;
    let payload = encode_envelope("hello", vec![]);
    assert_eq!(
        vec![4, 0, 0, 0, 14, 0, 0, 0],
        contract.execute(payload.as_slice()).unwrap()
    );
}

#[test]
fn handle_runs_the_named_handler() {
    let mut handler = Handler::new();
    handler.add("hello".to_string(), HelloHandler);
    let params = HandlerParams {
        handler_id: "hello".to_string(),
        payload: vec![],
    };
    assert_eq!(
        vec![4, 0, 0, 0, 14, 0, 0, 0],
        handler.handle(&params).unwrap()
    );
    let missing = HandlerParams {
        handler_id: "nope".to_string(),
        payload: vec![],
    };
    assert_eq!(
        Err(ContractError {
            kind: ContractErrorKinds::InvalidFunctionName,
        }),
        handler.handle(&missing)
    );
}

#[test]
fn readonly_functions_live_in_their_own_table() {
    let mut handler = Handler::new();
    handler.add("hello".to_string(), HelloHandler);
    handler.add_readonly("peek".to_string(), HelloHandler);
    // a read-only call cannot reach a mutating function
    let hello = encode_envelope("hello", vec![]);
    assert_eq!(
        Err(ContractError {
            kind: ContractErrorKinds::InvalidFunctionName,
        }),
        handler.execute_readonly(hello.as_slice())
    );
    // nor a mutating call a read-only one
    let peek = encode_envelope("peek", vec![]);
    assert_eq!(
        Err(ContractError {
            kind: ContractErrorKinds::InvalidFunctionName,
        }),
        handler.execute(peek.as_slice())
    );
    // each class is served from its own table
    assert_eq!(
        vec![4, 0, 0, 0, 14, 0, 0, 0],
        handler.execute_readonly(peek.as_slice()).unwrap()
    );
    assert_eq!(
        vec![4, 0, 0, 0, 14, 0, 0, 0],
        handler.execute(hello.as_slice()).unwrap()
    );
}

#[test]
fn constructor_is_reachable_only_at_deployment() {
    let mut handler = Handler::new();
    handler.add("double".to_string(), DoubleHandler);
    // deployment without a constructor does nothing and returns no bytes
    let deploy = encode_envelope("", vec![]);
    assert_eq!(Vec::<u8>::new(), handler.construct(deploy.as_slice()).unwrap());
    handler.set_constructor(DoubleHandler);
    // the constructor has no name in either table
    let named = encode_envelope("constructor", vec![21u64.encode()]);
    assert_eq!(
        Err(ContractError {
            kind: ContractErrorKinds::InvalidFunctionName,
        }),
        handler.execute(named.as_slice())
    );
    // deployment hands it the parameter slots
    assert_eq!(
        vec![8, 0, 0, 0, 42, 0, 0, 0, 0, 0, 0, 0],
        handler.construct(named.as_slice()).unwrap()
    );
}

#[test]
fn envelope_round_trip() {
    let envelope = CallEnvelope {
        function: "transfer".to_string(),
        parameters: vec![vec![1, 2, 3], vec![], vec![255]],
    };
    let mut out = Vec::new();
    envelope.encode(&mut out).unwrap();
    let mut dec = Decoder::new(out.as_slice());
    assert_eq!(envelope, CallEnvelope::decode(&mut dec).unwrap());
    assert_eq!(out.len(), dec.position());
}

#[test]
fn truncated_envelope_reports_end_of_input() {
    let envelope = CallEnvelope {
        function: "f".to_string(),
        parameters: vec![vec![9, 9]],
    };
    let mut out = Vec::new();
    envelope.encode(&mut out).unwrap();
    for cut in 0..out.len() {
        let mut dec = Decoder::new(&out[..cut]);
        assert_eq!(
            Err(CodecError::UnexpectedEndOfInput),
            CallEnvelope::decode(&mut dec)
        );
    }
}

#[test]
fn contract_error_messages() {
    assert_eq!(
        "could not find function with given name",
        ContractError::invalid_function().message()
    );
    assert_eq!(
        "failed to parse arguments for function",
        ContractError::invalid_arguments().message()
    );
    assert_eq!(
        "could not deserialize the call envelope",
        ContractError::from(CodecError::InvalidEncoding).message()
    );
    assert_eq!(
        &ContractErrorKinds::InvalidArguments,
        ContractError::invalid_arguments().kind()
    );
}

#[test]
fn input_decoder_pops_one_value_per_slot() {
    let slots = vec![7u32.encode(), "hi".to_string().encode(), vec![1, 2, 3]];
    let mut args = InputDecoder::new(slots.as_slice());
    assert_eq!(0, args.position());
    let first: u32 = args.pop().unwrap();
    assert_eq!(7, first);
    let second: String = args.pop().unwrap();
    assert_eq!("hi".to_string(), second);
    let third: Vec<u8> = args.pop().unwrap();
    assert_eq!(vec![1, 2, 3], third);
    assert_eq!(3, args.position());
    let exhausted: Result<u32, AbiError> = args.pop();
    assert_eq!(Err(AbiError::UnexpectedEof), exhausted);
}

#[test]
fn slot_decode_errors() {
    let slots = vec![vec![1, 2], vec![0xff, 0xfe]];
    let mut args = InputDecoder::new(slots.as_slice());
    let short: Result<u32, AbiError> = args.pop();
    assert_eq!(Err(AbiError::UnexpectedEof), short);
    let invalid: Result<String, AbiError> = args.pop();
    assert_eq!(Err(AbiError::BadFormat), invalid);
}

#[test]
fn request_and_response_carry_their_body() {
    let request = Request::decode(vec![1, 2]).unwrap();
    assert_eq!(vec![1, 2], request.body);
    assert_eq!(vec![1, 2], request.encode());
    let response = Response::decode(vec![3]).unwrap();
    assert_eq!(vec![3], response.body);
    assert_eq!(vec![3], response.encode());
}

#[test]
fn encoder_frames_each_value_as_a_slot() {
    let mut encoder = Encoder::new();
    encoder.push(5u32);
    encoder.push("ab".to_string());
    let values = encoder.values();
    assert_eq!(vec![4, 0, 0, 0, 5, 0, 0, 0, 2, 0, 0, 0, 97, 98], values);
}

#[test]
fn encoder_default_is_empty() {
    let encoder = Encoder::default();
    assert!(encoder.values().is_empty());
}

#[test]
fn decoder_pops_framed_slots() {
    let mut encoder = Encoder::new();
    encoder.push(5u32);
    encoder.push(7u64);
    let bytes = encoder.values();
    let mut dec = Decoder::new(bytes.as_slice());
    let a: u32 = dec.pop().unwrap();
    let b: u64 = dec.pop().unwrap();
    assert_eq!((5, 7), (a, b));
    assert_eq!(bytes.len(), dec.position());
}

#[test]
fn decoder_advance_checks_bounds() {
    let payload = vec![1, 2, 3, 4];
    let mut dec = Decoder::new(payload.as_slice());
    assert_eq!(Ok(0), dec.advance(3));
    assert_eq!(3, dec.position());
    assert_eq!(Err(CodecError::UnexpectedEndOfInput), dec.advance(2));
    assert_eq!(3, dec.position());
    assert_eq!(payload.as_slice(), dec.payload());
}

#[test]
fn stream_and_sink_match_decoder_and_encoder() {
    let mut sink = Sink::new();
    sink.push(9u32);
    let bytes = sink.values();
    assert_eq!(vec![4, 0, 0, 0, 9, 0, 0, 0], bytes);
    let mut stream = Stream::new(bytes.as_slice());
    assert_eq!(0, stream.position());
    let v: u32 = stream.pop().unwrap();
    assert_eq!(9, v);
    assert_eq!(bytes.len(), stream.position());
    let mut stream2 = Stream::new(bytes.as_slice());
    assert_eq!(Ok(0), stream2.advance(8));
    assert_eq!(Err(CodecError::UnexpectedEndOfInput), stream2.advance(1));
    assert_eq!(bytes.as_slice(), stream2.payload());
}

#[test]
fn primitive_round_trips() {
    let mut out = Vec::new();
    write_u32(&mut out, 0x12345678);
    assert_eq!(vec![0x78, 0x56, 0x34, 0x12], out);
    write_u64(&mut out, 1);
    write_str(&mut out, "héllo");
    let mut dec = Decoder::new(out.as_slice());
    assert_eq!(0x12345678, dec.read_u32().unwrap());
    assert_eq!(1, dec.read_u64().unwrap());
    assert_eq!("héllo".to_string(), dec.read_string(64).unwrap());
}

#[test]
fn invalid_utf8_reports_invalid_encoding() {
    let bytes = vec![2, 0, 0, 0, 0xff, 0xfe];
    let mut dec = Decoder::new(bytes.as_slice());
    assert_eq!(
        Err(CodecError::InvalidEncoding),
        dec.read_string(0x7fffffff)
    );
}

#[test]
fn string_over_its_bound_reports_invalid_encoding() {
    let mut bytes = Vec::new();
    write_str(&mut bytes, "toolong");
    let mut dec = Decoder::new(bytes.as_slice());
    assert_eq!(Err(CodecError::InvalidEncoding), dec.read_string(3));
}

#[test]
fn truncated_primitives_report_end_of_input() {
    let mut out = Vec::new();
    write_str(&mut out, "hello");
    for cut in 0..out.len() {
        let mut dec = Decoder::new(&out[..cut]);
        assert_eq!(
            Err(CodecError::UnexpectedEndOfInput),
            dec.read_string(0x7fffffff)
        );
    }
    let mut dec = Decoder::new(&[1, 2, 3]);
    assert_eq!(Err(CodecError::UnexpectedEndOfInput), dec.read_u32());
    let mut dec = Decoder::new(&[1, 2, 3, 4, 5, 6, 7]);
    assert_eq!(Err(CodecError::UnexpectedEndOfInput), dec.read_u64());
}

#[test]
fn fixed_arrays_carry_no_prefix() {
    let mut out = Vec::new();
    write_fixed(&mut out, &[1, 2, 3, 4]);
    assert_eq!(vec![1, 2, 3, 4], out);
    let mut dec = Decoder::new(out.as_slice());
    assert_eq!(vec![1, 2], dec.read_fixed(2).unwrap());
    assert_eq!(vec![3, 4], dec.read_fixed(2).unwrap());
    assert_eq!(Err(CodecError::UnexpectedEndOfInput), dec.read_fixed(1));
}

#[test]
fn interface_description_model() {
    let entry = FunctionEntry {
        name: "hello".to_string(),
        arguments: vec![],
        outputs: vec![Argument::with_default_codec(
            "returnValue0".to_string(),
            "uint32".to_string(),
        )],
    };
    let mut abi = Abi::new();
    abi.push_function(entry.clone());
    assert_eq!(Abi(vec![AbiEntry::Function(entry)]), abi);
    assert_eq!("bytes", abi_output_codec(&abi));
}

fn abi_output_codec(abi: &Abi) -> String {
    match &abi.0[0] {
        AbiEntry::Function(f) => f.outputs[0].codec.clone(),
    }
}

#[test]
fn byte_vector_conversions() {
    assert_eq!(vec![0x78, 0x56, 0x34, 0x12], bytes_from_u32(0x12345678));
    assert_eq!(0x12345678, bytes_to_u32(vec![0x78, 0x56, 0x34, 0x12]));
    assert_eq!(0x12345678, bytes_to_u32(vec![0x78, 0x56, 0x34, 0x12, 0xaa]));
    assert_eq!(0, bytes_to_u32(vec![1, 2]));
    assert_eq!(
        vec![1, 0, 0, 0, 0, 0, 0, 0x80],
        bytes_from_u64(0x8000000000000001)
    );
    assert_eq!(
        0x8000000000000001,
        bytes_to_u64(vec![1, 0, 0, 0, 0, 0, 0, 0x80])
    );
    assert_eq!(0, bytes_to_u64(vec![1, 2, 3]));
    assert_eq!(7, bytes_to_u32(bytes_from_u32(7)));
    assert_eq!(u64::MAX, bytes_to_u64(bytes_from_u64(u64::MAX)));
}
