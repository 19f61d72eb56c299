//! Enforcement of the response-size ceiling.

use vstd::prelude::*;
use crate::error::Web3Error;

verus! {

/// The size, capped at `usize::MAX`, that a response claiming `have` bytes
/// plus `more` further bytes amounts to.
pub open spec fn saturating_sum(have: nat, more: nat) -> nat {
    if have + more > usize::MAX { usize::MAX as nat } else { have + more }
}

/// Fast-fail check of the transport's advertised lower-bound body size
/// against the configured ceiling: a response that already promises more
/// bytes than the ceiling is rejected before any of its body is read.
pub fn check_size_hint(hint: usize, limit: usize) -> (r: Result<(), Web3Error>)
    ensures
        hint <= limit <==> r is Ok,
        hint > limit ==> r == Err::<(), Web3Error>(Web3Error::ResponseTooLarge { limit, got: hint }),
{
    if hint > limit {
        Err(Web3Error::ResponseTooLarge { limit, got: hint })
    } else {
        Ok(())
    }
}

/// Accumulates streamed response chunks while enforcing the ceiling
/// incrementally: the buffer never holds more than `limit` bytes, so a server
/// that streams an oversized body without advertising it is still stopped at
/// the first chunk that would cross the ceiling.
pub struct BoundedBuf {
    limit: usize,
    data: Vec<u8>,
}

impl BoundedBuf {
    /// The ceiling this buffer was created with.
    pub closed spec fn limit_spec(self) -> usize {
        self.limit
    }

    /// The bytes accumulated so far.
    pub closed spec fn bytes(self) -> Seq<u8> {
        self.data@
    }

    /// Well-formedness: the accumulated bytes never exceed the ceiling.
    pub open spec fn wf(self) -> bool {
        self.bytes().len() <= self.limit_spec()
    }

    pub fn new(limit: usize) -> (r: Self)
        ensures
            r.wf(),
            r.limit_spec() == limit,
            r.bytes() == Seq::<u8>::empty(),
    {
        BoundedBuf { limit, data: Vec::new() }
    }

    /// Appends one streamed chunk, or rejects the whole response when the
    /// accumulated size would cross the ceiling. On rejection the buffer is
    /// left unchanged and the error reports the ceiling together with the
    /// size the response had reached.
    pub fn push_chunk(&mut self, chunk: &[u8]) -> (r: Result<(), Web3Error>)
        requires
            old(self).wf(),
        ensures
            final(self).wf(),
            final(self).limit_spec() == old(self).limit_spec(),
            old(self).bytes().len() + chunk@.len() <= old(self).limit_spec() ==> (
                r is Ok && final(self).bytes() == old(self).bytes() + chunk@
            ),
            old(self).bytes().len() + chunk@.len() > old(self).limit_spec() ==> (
                r == Err::<(), Web3Error>(Web3Error::ResponseTooLarge {
                    limit: old(self).limit_spec(),
                    got: saturating_sum(old(self).bytes().len(), chunk@.len()) as usize,
                }) && final(self).bytes() == old(self).bytes()
            ),
    {
        let room = self.limit - self.data.len();
        if chunk.len() > room {
            let got = if chunk.len() <= usize::MAX - self.data.len() {
                self.data.len() + chunk.len()
            } else {
                usize::MAX
            };
            Err(Web3Error::ResponseTooLarge { limit: self.limit, got })
        } else {
            let mut i: usize = 0;
            while i < chunk.len()
                invariant
                    i <= chunk@.len(),
                    chunk@.len() <= self.limit - old(self).bytes().len(),
                    self.limit == old(self).limit_spec(),
                    self.data@ == old(self).bytes() + chunk@.take(i as int),
                decreases chunk@.len() - i,
            {
                self.data.push(chunk[i]);
                proof {
                    assert(old(self).bytes() + chunk@.take(i as int) + seq![chunk@[i as int]]
                        =~= old(self).bytes() + chunk@.take(i as int + 1));
                }
                i = i + 1;
            }
            proof {
                assert(old(self).bytes() + chunk@.take(chunk@.len() as int) =~= old(self).bytes() + chunk@);
            }
            Ok(())
        }
    }

    /// Hands the accumulated body out for decoding.
    pub fn into_bytes(self) -> (r: Vec<u8>)
        ensures
            r@ == self.bytes(),
    {
        self.data
    }
}

} // verus!
