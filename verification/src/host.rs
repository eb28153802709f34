//! The capability interface to the host runtime.
//!
//! The host offers a contract its transaction input, persistent storage,
//! account and cryptography services, logging, and the two-phase query
//! boundary. The core treats all of these as an injected capability — a
//! value implementing these traits — never as compiled-in globals: a
//! production adapter crosses the real sandbox boundary, and the in-memory
//! adapter of [`crate::mock`] serves tests. What the host returns is the
//! host's to decide; the functions here state what holds of every outcome.

use crate::codec::CodecError;
use crate::query::{insert_wf, query_wf, Insert, Query};
use vstd::prelude::*;

verus! {

/// The errors host-collaborator calls can report.
#[derive(Clone, Copy, Debug, PartialEq, Eq, Structural)]
pub enum ExternalError {
    /// A `get` or `delete` named a key that is not in state.
    MissingKeyError,
    /// Generating a key pair failed.
    KeyPairGenerateError,
    /// Signing was asked with a key of the wrong length.
    KeyLengthError,
    /// Signing a message failed.
    SignMessageError,
}

impl ExternalError {
    /// A fixed description of this error.
    pub fn message(&self) -> (r: &'static str)
        ensures
            *self == ExternalError::MissingKeyError ==> r@ == "could not find key in state"@,
            *self == ExternalError::KeyPairGenerateError ==> r@
                == "problem generating key pair"@,
            *self == ExternalError::KeyLengthError ==> r@ == "incorrect key length"@,
            *self == ExternalError::SignMessageError ==> r@ == "problem signing message"@,
    {
        match self {
            ExternalError::MissingKeyError => "could not find key in state",
            ExternalError::KeyPairGenerateError => "problem generating key pair",
            ExternalError::KeyLengthError => "incorrect key length",
            ExternalError::SignMessageError => "problem signing message",
        }
    }
}

/// Access to the transaction of the current call: the encoded input, the
/// sender's public key, and the way to hand the response back.
pub trait TransactionInfo {
    /// The encoded arguments the call was made with.
    fn arguments(&self) -> Vec<u8>;

    /// Hand the encoded response back to the host.
    fn ret(&self, values: &[u8]);

    /// The public key of the account the call came from.
    fn sender(&self) -> Vec<u8>;
}

/// The remaining host capability surface: persistent key/value state,
/// ownership and cryptography services, logging, and the two-phase query
/// boundary of [`run_query`](HostRuntime::run_query) and
/// [`fetch_query_result`](HostRuntime::fetch_query_result).
pub trait HostRuntime {
    /// The value stored under `key`, or the missing-key error.
    fn get(&self, key: &[u8]) -> Result<Vec<u8>, ExternalError>;

    /// Store `value` under `key`.
    fn store(&mut self, key: &[u8], value: &[u8]);

    /// Delete the value stored under `key`; deleting an absent key is the
    /// missing-key error.
    fn delete(&mut self, key: &[u8]) -> Result<(), ExternalError>;

    /// Whether the given account key owns this contract's channel.
    fn is_owner(&self, key: &[u8]) -> bool;

    /// Write a message to the host's log.
    fn log(&mut self, msg: String);

    /// The SHA-256 digest of `data`.
    fn sha256(&self, data: Vec<u8>) -> Vec<u8>;

    /// The SHA3-256 digest of `data`.
    fn sha3_256(&self, data: Vec<u8>) -> Vec<u8>;

    /// The SHA3-512 digest of `data`.
    fn sha3_512(&self, data: Vec<u8>) -> Vec<u8>;

    /// The Keccak-256 digest of `data`.
    fn keccak256(&self, data: Vec<u8>) -> Vec<u8>;

    /// The SHAKE-256 digest of `data`.
    fn shake256(&self, data: Vec<u8>) -> Vec<u8>;

    /// Whether `signature` signs `message` under the 32-byte public key:
    /// 1 when valid, 0 when not.
    fn validate_signature(&self, pub_key: Vec<u8>, message: Vec<u8>, signature: Vec<u8>) -> u32;

    /// Insert one encoded row into the host's ledger.
    fn kq_insert(&mut self, data: Vec<u8>);

    /// Run one encoded query: the host reports the byte length of the
    /// result and a 16-byte correlation handle to fetch it with. A length
    /// of zero means no matching rows.
    fn run_query(&mut self, query: Vec<u8>) -> (u32, Vec<u8>);

    /// Fetch the result of a previously run query by its correlation
    /// handle; `length` is the byte length the run reported.
    fn fetch_query_result(&mut self, handle: Vec<u8>, length: u32) -> Vec<u8>;
}

/// Insert a row into a table held by the host: encode the insert and hand
/// it across the boundary. An insert outside its field bounds is rejected
/// before anything crosses; exactly the inserts within bounds go through.
pub fn insert<H: HostRuntime>(host: &mut H, row: &Insert) -> (r: Result<(), CodecError>)
    ensures
        r is Ok <==> insert_wf(row@),
        r matches Err(e) ==> e == CodecError::InvalidEncoding,
{
    let mut bytes: Vec<u8> = Vec::new();
    match row.encode(&mut bytes) {
        Ok(_) => {
            host.kq_insert(bytes);
            Ok(())
        },
        Err(e) => Err(e),
    }
}

/// Execute a query against the host through its two-phase protocol: encode
/// the query, run it, and — unless the host reports an empty result — fetch
/// the result bytes by the correlation handle. A query outside its field
/// bounds is rejected before anything crosses; exactly the queries within
/// bounds run, and what the rows hold is the host's to decide.
pub fn query<H: HostRuntime>(host: &mut H, q: &Query) -> (r: Result<Option<Vec<u8>>, CodecError>)
    ensures
        r is Ok <==> query_wf(q@),
        r matches Err(e) ==> e == CodecError::InvalidEncoding,
{
    let mut bytes: Vec<u8> = Vec::new();
    match q.encode(&mut bytes) {
        Ok(_) => {
            let (len, handle) = host.run_query(bytes);
            if len == 0 {
                Ok(None)
            } else {
                Ok(Some(host.fetch_query_result(handle, len)))
            }
        },
        Err(e) => Err(e),
    }
}

} // verus!
