//! Settlement of the race between the network exchange and the timeout timer.

use vstd::prelude::*;
use crate::error::Web3Error;

verus! {

/// The observable state of the network exchange at the scheduling step in
/// which the race against the timer is settled.
pub enum NetOutcome {
    /// The exchange completed and produced the raw response body.
    Ready(Vec<u8>),
    /// The exchange failed with a transport-level diagnostic.
    Failed(String),
    /// The exchange had not completed yet.
    Pending,
}

/// Settles the race. The surrounding task polls the network exchange and the
/// timer concurrently and reports what it observed in the step that ended the
/// race; this function alone fixes the outcome of the call:
///
/// - a completed exchange wins even when the timer has fired in the same step
///   (the deterministic tie-break in favour of real work);
/// - a transport failure surfaces as `TransportError`;
/// - only an exchange that was still pending when the timer fired becomes
///   `RequestTimedOut`, so a timeout never carries a partial result.
pub fn settle(net: NetOutcome, timer_fired: bool) -> (r: Result<Vec<u8>, Web3Error>)
    requires
        !(net is Pending) || timer_fired,
    ensures
        net matches NetOutcome::Ready(b) ==> (r matches Ok(out) && out == b),
        net matches NetOutcome::Failed(e) ==> (r matches Err(w)
            && w matches Web3Error::TransportError(t) && t == e),
        net is Pending ==> r == Err::<Vec<u8>, Web3Error>(Web3Error::RequestTimedOut),
{
    match net {
        NetOutcome::Ready(b) => Ok(b),
        NetOutcome::Failed(e) => Err(Web3Error::TransportError(e)),
        NetOutcome::Pending => Err(Web3Error::RequestTimedOut),
    }
}

} // verus!
