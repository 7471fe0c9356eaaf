//! A verified client-side engine for a line-delimited search/ingest protocol.
//!
//! The crate models the wire grammar of the protocol as specification
//! functions over character and byte sequences, and proves that the
//! executable encoder and decoder follow that grammar exactly: every
//! outbound command serializes to its one wire line, and every buffered
//! byte stream decodes to the same replies no matter how it was chunked
//! by the transport.

pub mod engine;
pub mod frame;
pub mod text;
