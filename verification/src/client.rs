//! The client handle: endpoint address and the monotonic request-id counter.

use vstd::prelude::*;
use crate::codec::{encode_request, spec_request};
use crate::json::is_json_value;
use crate::error::Web3Error;

verus! {

/// The verified core of a client handle: the endpoint address and the
/// request-id counter. The counter is the only mutable state of the handle;
/// callers that share one handle across tasks serialise on it (a short-lived
/// exclusive lock around each call of `next_id`), so every interleaving of
/// concurrent callers is a run of successive calls on one `&mut` handle.
pub struct HttpClient {
    url: String,
    id_counter: u64,
}

impl HttpClient {
    /// The current value of the id counter: the last id handed out,
    /// or 0 if none has been.
    pub closed spec fn counter(self) -> u64 {
        self.id_counter
    }

    /// The endpoint address the handle was built with.
    pub closed spec fn url_spec(self) -> Seq<char> {
        self.url@
    }

    pub fn new(url: &str) -> (r: Self)
        ensures
            r.counter() == 0,
            r.url_spec() == url@,
    {
        HttpClient { url: url.to_owned(), id_counter: 0 }
    }

    pub fn url(&self) -> (r: &str)
        ensures
            r@ == self.url_spec(),
    {
        self.url.as_str()
    }

    /// The last id handed out (0 if none): lets a caller check that the id
    /// space is not exhausted before drawing the next id.
    pub fn current_id(&self) -> (r: u64)
        ensures
            r == self.counter(),
    {
        self.id_counter
    }

    /// Returns a fresh request id, strictly greater than every id this handle
    /// has returned before. Ids start at 1 and advance by exactly one per
    /// call, so a run of calls leaves no gaps.
    pub fn next_id(&mut self) -> (id: u64)
        requires
            old(self).counter() < u64::MAX,
        ensures
            id == old(self).counter() + 1,
            final(self).counter() == id,
            final(self).url_spec() == old(self).url_spec(),
    {
        self.id_counter = self.id_counter + 1;
        self.id_counter
    }

    /// Draws a fresh id and builds the serialized request envelope for it.
    /// The id is consumed even when the parameters are rejected, exactly as a
    /// failed serialization still consumes an id in the call path.
    pub fn start_call(&mut self, method: &[u8], params: &[u8]) -> (r: Result<(u64, Vec<u8>), Web3Error>)
        requires
            old(self).counter() < u64::MAX,
        ensures
            final(self).counter() == old(self).counter() + 1,
            final(self).url_spec() == old(self).url_spec(),
            is_json_value(params@) ==> (r matches Ok(p) && p.0 == old(self).counter() + 1
                && p.1@ == spec_request((old(self).counter() + 1) as u64, method@, params@)),
            !is_json_value(params@) ==> (r matches Err(e) && e is EncodeError),
    {
        let id = self.next_id();
        match encode_request(id, method, params) {
            Ok(payload) => Ok((id, payload)),
            Err(e) => Err(e),
        }
    }
}

/// The ids that `next_id` is forced by its contract to return: starting from
/// counter value `start`, the `k`-th of `n` successive calls returns
/// `start + k + 1`.
pub open spec fn ids_from(start: u64, n: nat) -> Seq<u64> {
    Seq::new(n, |k: int| (start + k + 1) as u64)
}

/// Id monotonicity. A run of `n` calls of `next_id` on one handle whose
/// counter starts at `start` returns exactly the sequence `ids_from(start, n)`
/// (by the contract of `next_id`): its values are pairwise distinct, strictly
/// increasing, and consecutive values differ by exactly one, so no gaps are
/// introduced. Concurrent callers serialise on the counter, so every
/// interleaving is such a run.
pub proof fn lemma_id_monotonicity(start: u64, n: nat)
    requires
        start + n <= u64::MAX,
    ensures
        ids_from(start, n).len() == n,
        forall|k: int| 0 <= k < n ==> ids_from(start, n)[k] == start + k + 1,
        forall|i: int, j: int| 0 <= i < j < n ==> ids_from(start, n)[i] < ids_from(start, n)[j],
        forall|k: int| 0 <= k < n - 1 ==> #[trigger] ids_from(start, n)[k] + 1 == ids_from(start, n)[k + 1],
{
}

} // verus!
