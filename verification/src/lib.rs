//! A JSON-RPC-over-HTTP client core.
//!
//! The library holds the verified logic of the client: the request/response
//! envelope codec, the monotonic request-id generator, the bounded response
//! accumulator, the settlement rule of the race between the network exchange
//! and a timeout, the error classifier, and an optional diagnostic recorder.
//! The asynchronous HTTP transport itself lives outside the library and feeds
//! these functions with plain byte values.

pub mod client;
pub mod codec;
pub mod error;
pub mod json;
pub mod limit;
pub mod race;
pub mod recorder;
