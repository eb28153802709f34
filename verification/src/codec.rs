//! The primitive wire codec.
//!
//! One canonical profile is used end-to-end: fixed-width integers are
//! little-endian with no prefix; byte blobs and strings carry a 4-byte
//! length prefix; strings are UTF-8 validated on decode. Variable-size
//! values are bounded by a per-field maximum declared by the schema.

use vstd::bytes::{spec_u32_from_le_bytes, spec_u32_to_le_bytes};
use vstd::bytes::{spec_u64_from_le_bytes, spec_u64_to_le_bytes};
use vstd::bytes::{lemma_auto_spec_u32_to_from_le_bytes, lemma_auto_spec_u64_to_from_le_bytes};
use vstd::prelude::*;
use vstd::utf8::{decode_utf8, encode_utf8, encode_utf8_decode_utf8, encode_utf8_valid_utf8,
    valid_utf8};

verus! {

/// The errors a decode pass can report. No codec operation aborts on
/// malformed input; every failure is returned as one of these values.
#[derive(Clone, Copy, Debug, PartialEq, Eq, Structural)]
pub enum CodecError {
    /// The buffer ended before the value it declares.
    UnexpectedEndOfInput,
    /// The bytes are no encoding of the expected value: bad UTF-8, a
    /// variable-size value over its declared maximum, or a malformed
    /// boolean.
    InvalidEncoding,
    /// A tagged union carries a discriminant that selects no variant.
    UnknownVariant,
}

/// The largest length a variable-size array or blob may declare unless a
/// field states a smaller maximum.
pub open spec fn spec_var_max() -> nat {
    0x7fffffff
}

/// Exec twin of [`spec_var_max`].
pub fn var_max() -> (r: u32)
    ensures
        r as nat == spec_var_max(),
{
    0x7fffffff
}

/// Encoding of a 32-bit integer: 4 bytes, little-endian.
pub open spec fn enc_u32(v: u32) -> Seq<u8> {
    spec_u32_to_le_bytes(v)
}

/// Encoding of a 64-bit integer: 8 bytes, little-endian.
pub open spec fn enc_u64(v: u64) -> Seq<u8> {
    spec_u64_to_le_bytes(v)
}

/// Encoding of a byte blob: a 4-byte length prefix followed by the bytes.
pub open spec fn enc_bytes(b: Seq<u8>) -> Seq<u8> {
    enc_u32(b.len() as u32) + b
}

/// Encoding of a string: its UTF-8 bytes, length-prefixed as a blob.
pub open spec fn enc_str(s: Seq<char>) -> Seq<u8> {
    enc_bytes(encode_utf8(s))
}

/// Encoding of a boolean: one 32-bit integer, 0 for false and 1 for true.
pub open spec fn enc_bool(b: bool) -> Seq<u8> {
    enc_u32(if b { 1 } else { 0 })
}

/// Decode of a boolean from the head of `s`: any value besides 0 and 1 is
/// no encoding of a boolean.
pub open spec fn dec_bool(s: Seq<u8>) -> Result<(bool, int), CodecError> {
    match dec_u32(s) {
        Ok((v, n)) => if v == 0 {
            Ok((false, n))
        } else if v == 1 {
            Ok((true, n))
        } else {
            Err(CodecError::InvalidEncoding)
        },
        Err(e) => Err(e),
    }
}

/// Decode of a 32-bit integer from the head of `s`: the value and the
/// number of bytes consumed, or the error.
pub open spec fn dec_u32(s: Seq<u8>) -> Result<(u32, int), CodecError> {
    if s.len() < 4 {
        Err(CodecError::UnexpectedEndOfInput)
    } else {
        Ok((spec_u32_from_le_bytes(s.take(4)), 4))
    }
}

/// Decode of a 64-bit integer from the head of `s`.
pub open spec fn dec_u64(s: Seq<u8>) -> Result<(u64, int), CodecError> {
    if s.len() < 8 {
        Err(CodecError::UnexpectedEndOfInput)
    } else {
        Ok((spec_u64_from_le_bytes(s.take(8)), 8))
    }
}

/// Decode of a byte blob bounded by `max` from the head of `s`.
pub open spec fn dec_bytes(s: Seq<u8>, max: nat) -> Result<(Seq<u8>, int), CodecError> {
    match dec_u32(s) {
        Ok((n, _)) => if n > max {
            Err(CodecError::InvalidEncoding)
        } else if s.len() - 4 < n {
            Err(CodecError::UnexpectedEndOfInput)
        } else {
            Ok((s.subrange(4, 4 + n as int), 4 + n as int))
        },
        Err(e) => Err(e),
    }
}

/// Decode of a fixed-size array of `n` bytes from the head of `s`: exactly
/// the `n` bytes, no prefix.
pub open spec fn dec_fixed(s: Seq<u8>, n: nat) -> Result<(Seq<u8>, int), CodecError> {
    if s.len() < n {
        Err(CodecError::UnexpectedEndOfInput)
    } else {
        Ok((s.take(n as int), n as int))
    }
}

/// Decode of a string bounded by `max` bytes from the head of `s`.
pub open spec fn dec_str(s: Seq<u8>, max: nat) -> Result<(Seq<char>, int), CodecError> {
    match dec_bytes(s, max) {
        Ok((b, n)) => if valid_utf8(b) {
            Ok((decode_utf8(b), n))
        } else {
            Err(CodecError::InvalidEncoding)
        },
        Err(e) => Err(e),
    }
}

/// The encoding of a 32-bit integer takes 4 bytes.
pub proof fn lemma_enc_u32_len(v: u32)
    ensures
        enc_u32(v).len() == 4,
{
    lemma_auto_spec_u32_to_from_le_bytes();
}

/// Round-trip law for 32-bit integers: decoding the encoding of `v`, with
/// anything at all behind it, yields `v` and consumes exactly its 4 bytes.
pub proof fn lemma_u32_round_trip(v: u32, rest: Seq<u8>)
    ensures
        dec_u32(enc_u32(v) + rest) == Ok::<(u32, int), CodecError>((v, 4)),
        enc_u32(v).len() == 4,
        (enc_u32(v) + rest).skip(4) == rest,
{
    lemma_auto_spec_u32_to_from_le_bytes();
    assert((enc_u32(v) + rest).take(4) =~= enc_u32(v));
    assert((enc_u32(v) + rest).skip(4) =~= rest);
}

/// Round-trip law for booleans.
pub proof fn lemma_bool_round_trip(b: bool, rest: Seq<u8>)
    ensures
        dec_bool(enc_bool(b) + rest) == Ok::<(bool, int), CodecError>((b, 4)),
        enc_bool(b).len() == 4,
        (enc_bool(b) + rest).skip(4) == rest,
{
    lemma_u32_round_trip(if b { 1 } else { 0 }, rest);
}

/// Round-trip law for 64-bit integers.
pub proof fn lemma_u64_round_trip(v: u64, rest: Seq<u8>)
    ensures
        dec_u64(enc_u64(v) + rest) == Ok::<(u64, int), CodecError>((v, 8)),
        enc_u64(v).len() == 8,
        (enc_u64(v) + rest).skip(8) == rest,
{
    lemma_auto_spec_u64_to_from_le_bytes();
    assert((enc_u64(v) + rest).take(8) =~= enc_u64(v));
    assert((enc_u64(v) + rest).skip(8) =~= rest);
}

/// Round-trip law for byte blobs within their declared maximum.
pub proof fn lemma_bytes_round_trip(b: Seq<u8>, max: nat, rest: Seq<u8>)
    requires
        b.len() <= max,
        max <= u32::MAX,
    ensures
        dec_bytes(enc_bytes(b) + rest, max) == Ok::<(Seq<u8>, int), CodecError>(
            (b, enc_bytes(b).len() as int),
        ),
        enc_bytes(b).len() == 4 + b.len(),
        (enc_bytes(b) + rest).skip(enc_bytes(b).len() as int) == rest,
{
    lemma_auto_spec_u32_to_from_le_bytes();
    let s = enc_bytes(b) + rest;
    assert(s.take(4) =~= enc_u32(b.len() as u32));
    assert(dec_u32(s) == Ok::<(u32, int), CodecError>((b.len() as u32, 4)));
    assert(s.subrange(4, 4 + b.len() as int) =~= b);
    assert(s.skip(enc_bytes(b).len() as int) =~= rest);
}

/// Round-trip law for strings within their declared maximum of bytes.
pub proof fn lemma_str_round_trip(t: Seq<char>, max: nat, rest: Seq<u8>)
    requires
        encode_utf8(t).len() <= max,
        max <= u32::MAX,
    ensures
        dec_str(enc_str(t) + rest, max) == Ok::<(Seq<char>, int), CodecError>(
            (t, enc_str(t).len() as int),
        ),
        enc_str(t).len() == 4 + encode_utf8(t).len(),
        (enc_str(t) + rest).skip(enc_str(t).len() as int) == rest,
{
    lemma_bytes_round_trip(encode_utf8(t), max, rest);
    encode_utf8_valid_utf8(t);
    encode_utf8_decode_utf8(t);
}

/// A prefix of a concatenation that ends inside the head is a prefix of
/// the head.
pub proof fn lemma_prefix_within(a: Seq<u8>, b: Seq<u8>, s: Seq<u8>)
    requires
        s.len() <= a.len(),
        s == (a + b).take(s.len() as int),
    ensures
        s == a.take(s.len() as int),
{
    assert(s =~= a.take(s.len() as int));
}

/// A prefix of a concatenation that covers the head whole splits into the
/// head and a prefix of the tail.
pub proof fn lemma_prefix_beyond(a: Seq<u8>, b: Seq<u8>, s: Seq<u8>)
    requires
        a.len() <= s.len() <= a.len() + b.len(),
        s == (a + b).take(s.len() as int),
    ensures
        s.take(a.len() as int) == a,
        s.skip(a.len() as int) == b.take(s.len() - a.len()),
        s == a + s.skip(a.len() as int),
{
    assert(s.take(a.len() as int) =~= a);
    assert(s.skip(a.len() as int) =~= b.take(s.len() - a.len()));
    assert(s =~= a + s.skip(a.len() as int));
}

/// Truncation safety for 32-bit integers: any proper prefix of a valid
/// encoding decodes to `UnexpectedEndOfInput`.
pub proof fn lemma_u32_truncated(v: u32, s: Seq<u8>)
    requires
        s.len() < enc_u32(v).len(),
        s == enc_u32(v).take(s.len() as int),
    ensures
        dec_u32(s) == Err::<(u32, int), CodecError>(CodecError::UnexpectedEndOfInput),
{
    lemma_auto_spec_u32_to_from_le_bytes();
}

/// Truncation safety for 64-bit integers.
pub proof fn lemma_u64_truncated(v: u64, s: Seq<u8>)
    requires
        s.len() < enc_u64(v).len(),
        s == enc_u64(v).take(s.len() as int),
    ensures
        dec_u64(s) == Err::<(u64, int), CodecError>(CodecError::UnexpectedEndOfInput),
{
    lemma_auto_spec_u64_to_from_le_bytes();
}

/// Round-trip law for fixed-size arrays: the encoding of a fixed array is
/// its bytes themselves, and decoding reads exactly them back.
pub proof fn lemma_fixed_round_trip(b: Seq<u8>, rest: Seq<u8>)
    ensures
        dec_fixed(b + rest, b.len()) == Ok::<(Seq<u8>, int), CodecError>((b, b.len() as int)),
{
    assert((b + rest).take(b.len() as int) =~= b);
}

/// Truncation safety for fixed-size arrays.
pub proof fn lemma_fixed_truncated(b: Seq<u8>, s: Seq<u8>)
    requires
        s.len() < b.len(),
        s == b.take(s.len() as int),
    ensures
        dec_fixed(s, b.len()) == Err::<(Seq<u8>, int), CodecError>(
            CodecError::UnexpectedEndOfInput,
        ),
{
}

/// Truncation safety for byte blobs.
pub proof fn lemma_bytes_truncated(b: Seq<u8>, max: nat, s: Seq<u8>)
    requires
        b.len() <= max,
        max <= u32::MAX,
        s.len() < enc_bytes(b).len(),
        s == enc_bytes(b).take(s.len() as int),
    ensures
        dec_bytes(s, max) == Err::<(Seq<u8>, int), CodecError>(CodecError::UnexpectedEndOfInput),
{
    lemma_auto_spec_u32_to_from_le_bytes();
    if s.len() >= 4 {
        assert(s.take(4) =~= enc_u32(b.len() as u32));
        assert(dec_u32(s) == Ok::<(u32, int), CodecError>((b.len() as u32, 4)));
    }
}

/// Truncation safety for strings.
pub proof fn lemma_str_truncated(t: Seq<char>, max: nat, s: Seq<u8>)
    requires
        encode_utf8(t).len() <= max,
        max <= u32::MAX,
        s.len() < enc_str(t).len(),
        s == enc_str(t).take(s.len() as int),
    ensures
        dec_str(s, max) == Err::<(Seq<char>, int), CodecError>(CodecError::UnexpectedEndOfInput),
{
    lemma_bytes_truncated(encode_utf8(t), max, s);
}

} // verus!
