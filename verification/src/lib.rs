//! A verified implementation of the byte codec, call-dispatch protocol and
//! query expression model used by a sandboxed guest to exchange typed values
//! with a controlling host.
//!
//! The crate is organised bottom-up:
//! - [`codec`] holds the primitive wire codec (fixed-width integers,
//!   length-prefixed byte blobs and UTF-8 strings) as specification
//!   functions, together with the round-trip and truncation lemmas.
//! - [`decoder`] and [`encoder`] give the executable cursor over an incoming
//!   byte buffer and the growable outgoing buffer.
//! - [`abi`] defines the slot codec used for call arguments and return
//!   values.
//! - [`query`] holds the query expression model (boolean predicate trees,
//!   select/filter/insert operations and top-level queries) with its wire
//!   encoding.
//! - [`router`] decodes call envelopes and dispatches them to registered
//!   handlers.
//! - [`host`] declares the capability interface to the host runtime, and
//!   [`mock`] provides the verified in-memory adapter used by tests.
//! - [`bytes`] converts between integers and their little-endian byte
//!   vectors, and [`interface`] models the description of a deployed
//!   contract's callable functions.

pub mod abi;

pub mod bytes;

pub mod codec;

pub mod decoder;

pub mod encoder;

pub mod host;

pub mod interface;

pub mod mock;

pub mod query;

pub mod router;

pub mod sink;

pub mod stream;
