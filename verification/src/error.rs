//! The discriminated error space of the client.

use vstd::prelude::*;

verus! {

/// Every failure of a call is mapped into exactly one of these variants and
/// propagation stops there: no layer swallows an error silently.
///
/// Diagnostic strings (`EncodeError`, `TransportError`, `DecodeError`) carry
/// human-readable detail and are not pinned by any contract; the structured
/// payloads (`ResponseTooLarge`, `JsonRpcError`) are.
#[derive(Debug)]
pub enum Web3Error {
    /// The caller-supplied parameters were not a well-formed JSON value, so
    /// no request envelope could be built. No network exchange is attempted.
    EncodeError(String),
    /// The underlying HTTP/network exchange failed before a response body was
    /// obtained; carries the transport's own diagnostic text.
    TransportError(String),
    /// The timer fired before the network exchange completed; the in-flight
    /// work is abandoned and no partial result is returned.
    RequestTimedOut,
    /// The response advertised or accumulated more bytes than the configured
    /// ceiling; carries both the ceiling and the offending size.
    ResponseTooLarge { limit: usize, got: usize },
    /// The response bytes were not a valid JSON-RPC response envelope, or the
    /// envelope carried neither a `result` nor an `error` member.
    DecodeError(String),
    /// The remote peer reported an application-level error inside a valid
    /// envelope. `message` holds the UTF-8 bytes of the peer's message and
    /// `data` holds the raw JSON text of the `data` member (`null` if absent).
    JsonRpcError { code: i64, message: Vec<u8>, data: Vec<u8> },
}

} // verus!
