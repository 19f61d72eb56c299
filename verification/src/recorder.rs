//! The optional diagnostic recorder.
//!
//! When a client is built with recording enabled, every outbound request is
//! appended to one log and every raw response to another, both keyed by a
//! record-sequence number drawn just before dispatch (independent of the
//! request id). Recording is append-only and best-effort: a request whose
//! call failed or timed out before its response hook ran simply stays
//! unpaired, and a lookup reports the pair as incomplete rather than failing.

use vstd::prelude::*;

verus! {

/// One trailing newline byte is trimmed from a recorded response, for
/// readability of the log.
pub open spec fn trim_newline(b: Seq<u8>) -> Seq<u8> {
    if b.len() > 0 && b[b.len() - 1] == 10 {
        b.drop_last()
    } else {
        b
    }
}

/// The entry of `s` carrying the key `seq`, latest entry first.
pub open spec fn spec_lookup(s: Seq<(u64, Seq<u8>)>, seq: u64) -> Option<Seq<u8>>
    decreases s.len(),
{
    if s.len() == 0 {
        None
    } else if s.last().0 == seq {
        Some(s.last().1)
    } else {
        spec_lookup(s.drop_last(), seq)
    }
}

pub struct Recorder {
    next_seq: u64,
    requests: Vec<(u64, Vec<u8>)>,
    responses: Vec<(u64, Vec<u8>)>,
}

impl Recorder {
    /// The sequence number the next recorded request will receive.
    pub closed spec fn seq_counter(self) -> u64 {
        self.next_seq
    }

    /// The request log: (sequence number, raw request bytes), in recording
    /// order.
    pub closed spec fn requests_spec(self) -> Seq<(u64, Seq<u8>)> {
        self.requests@.map_values(|p: (u64, Vec<u8>)| (p.0, p.1@))
    }

    /// The response log: (sequence number, trimmed raw response bytes), in
    /// recording order.
    pub closed spec fn responses_spec(self) -> Seq<(u64, Seq<u8>)> {
        self.responses@.map_values(|p: (u64, Vec<u8>)| (p.0, p.1@))
    }

    /// Well-formedness: request sequence numbers are strictly increasing and
    /// all below the counter, so a fresh number never collides with a
    /// recorded one. Nothing is demanded of the response log: an unmatched
    /// entry on either side is a valid state.
    pub open spec fn wf(self) -> bool {
        &&& forall|i: int, j: int|
            0 <= i < j < self.requests_spec().len() ==> self.requests_spec()[i].0
                < self.requests_spec()[j].0
        &&& forall|i: int|
            0 <= i < self.requests_spec().len() ==> self.requests_spec()[i].0 < self.seq_counter()
    }

    pub fn new() -> (r: Self)
        ensures
            r.wf(),
            r.seq_counter() == 0,
            r.requests_spec() == Seq::<(u64, Seq<u8>)>::empty(),
            r.responses_spec() == Seq::<(u64, Seq<u8>)>::empty(),
    {
        let r = Recorder { next_seq: 0, requests: Vec::new(), responses: Vec::new() };
        proof {
            assert(r.requests_spec() =~= Seq::<(u64, Seq<u8>)>::empty());
            assert(r.responses_spec() =~= Seq::<(u64, Seq<u8>)>::empty());
        }
        r
    }

    /// The sequence number the next recorded request will receive: lets a
    /// caller check that the sequence space is not exhausted.
    pub fn next_sequence(&self) -> (r: u64)
        ensures
            r == self.seq_counter(),
    {
        self.next_seq
    }

    /// Records an outbound request before dispatch and returns the sequence
    /// number under which its response, if one ever arrives, will be filed.
    pub fn record_request(&mut self, payload: &[u8]) -> (seq: u64)
        requires
            old(self).wf(),
            old(self).seq_counter() < u64::MAX,
        ensures
            final(self).wf(),
            seq == old(self).seq_counter(),
            final(self).seq_counter() == seq + 1,
            final(self).requests_spec() == old(self).requests_spec().push((seq, payload@)),
            final(self).responses_spec() == old(self).responses_spec(),
    {
        let seq = self.next_seq;
        self.next_seq = self.next_seq + 1;
        self.requests.push((seq, vstd::slice::slice_to_vec(payload)));
        proof {
            assert(self.requests_spec() =~= old(self).requests_spec().push((seq, payload@)));
            assert(self.responses_spec() =~= old(self).responses_spec());
        }
        seq
    }

    /// Files a raw response under the sequence number of its request,
    /// trimming one trailing newline byte if present.
    pub fn record_response(&mut self, seq: u64, body: &[u8])
        requires
            old(self).wf(),
        ensures
            final(self).wf(),
            final(self).seq_counter() == old(self).seq_counter(),
            final(self).requests_spec() == old(self).requests_spec(),
            final(self).responses_spec() == old(self).responses_spec().push(
                (seq, trim_newline(body@)),
            ),
    {
        let mut trimmed = vstd::slice::slice_to_vec(body);
        if trimmed.len() > 0 && trimmed[trimmed.len() - 1] == 10 {
            trimmed.pop();
        }
        proof {
            assert(trimmed@ =~= trim_newline(body@));
        }
        self.responses.push((seq, trimmed));
        proof {
            assert(self.requests_spec() =~= old(self).requests_spec());
            assert(self.responses_spec() =~= old(self).responses_spec().push(
                (seq, trim_newline(body@)),
            ));
        }
    }

    /// The recorded request under `seq`, if any.
    pub fn request_for(&self, seq: u64) -> (r: Option<Vec<u8>>)
        ensures
            match r {
                Some(v) => spec_lookup(self.requests_spec(), seq) == Some(v@),
                None => spec_lookup(self.requests_spec(), seq) is None,
            },
    {
        lookup(&self.requests, seq, Ghost(self.requests_spec()))
    }

    /// The recorded response under `seq`, if any. `None` is the expected,
    /// valid answer for a request whose call failed or timed out before a
    /// response was received: an incomplete pair, not corruption.
    pub fn response_for(&self, seq: u64) -> (r: Option<Vec<u8>>)
        ensures
            match r {
                Some(v) => spec_lookup(self.responses_spec(), seq) == Some(v@),
                None => spec_lookup(self.responses_spec(), seq) is None,
            },
    {
        lookup(&self.responses, seq, Ghost(self.responses_spec()))
    }
}

fn lookup(entries: &Vec<(u64, Vec<u8>)>, seq: u64, Ghost(model): Ghost<Seq<(u64, Seq<u8>)>>) -> (r:
    Option<Vec<u8>>)
    requires
        model == entries@.map_values(|p: (u64, Vec<u8>)| (p.0, p.1@)),
    ensures
        match r {
            Some(v) => spec_lookup(model, seq) == Some(v@),
            None => spec_lookup(model, seq) is None,
        },
{
    let mut i = entries.len();
    proof {
        assert(model.take(entries@.len() as int) =~= model);
    }
    while i > 0
        invariant
            i <= entries@.len(),
            model == entries@.map_values(|p: (u64, Vec<u8>)| (p.0, p.1@)),
            spec_lookup(model, seq) == spec_lookup(model.take(i as int), seq),
        decreases i,
    {
        i = i - 1;
        if entries[i].0 == seq {
            proof {
                assert(model.take(i + 1).last() == model[i as int]);
                assert(model[i as int].1 == entries@[i as int].1@);
            }
            return Some(vstd::slice::slice_to_vec(entries[i].1.as_slice()));
        }
        proof {
            assert(model.take(i + 1).drop_last() =~= model.take(i as int));
        }
    }
    proof {
        assert(model.take(0) =~= Seq::<(u64, Seq<u8>)>::empty());
    }
    None
}

/// Recorder tolerance: when no response was ever filed under a sequence
/// number — the state a timeout or crash between the two recording hooks
/// leaves behind — a lookup of that number reports the pair as incomplete
/// (`None`); it is not an error, and the rest of the log is unaffected.
pub proof fn lemma_recorder_tolerates_unmatched(responses: Seq<(u64, Seq<u8>)>, seq: u64)
    requires
        forall|i: int| 0 <= i < responses.len() ==> responses[i].0 != seq,
    ensures
        spec_lookup(responses, seq) is None,
    decreases responses.len(),
{
    if responses.len() > 0 {
        lemma_recorder_tolerates_unmatched(responses.drop_last(), seq);
    }
}

} // verus!
