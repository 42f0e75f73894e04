//! The core supervisor: accumulates events into the current chunk,
//! seals and encodes once the threshold is reached or on shutdown, and
//! hands the archive bytes and the newly minted patterns back to the
//! transport loop to write and broadcast.

use vstd::prelude::*;
use crate::chunk::LogChunk;
use crate::chunk::SealRec;
use crate::chunk::max_tok;
use crate::chunk::rec_matches;
use crate::chunk::seal_upto;
use crate::event::SyslogMessage;
use crate::storage::StorageEngine;
use crate::storage::parse_chunk;

verus! {

/// What one sealed chunk hands to the transport loop: the patterns
/// newly minted by the seal, and the archive bytes to write.
pub struct SealOutput {
    pub new_patterns: Vec<String>,
    pub archive: Vec<u8>,
}

/// The sealed chunk the supervisor encodes, as mathematics: the seal
/// of the buffered events over empty tables.
pub open spec fn sealed_of(msgs: Seq<crate::event::MsgV>) -> (
    Seq<SealRec>,
    Seq<Seq<char>>,
    Seq<Seq<char>>,
) {
    seal_upto(msgs, max_tok(msgs) + 1int, Seq::empty(), Seq::empty())
}

/// A seal output is faithful to the buffered events: the patterns are
/// all the seal's templates, and the archive bytes parse back to the
/// seal's tables and records (timestamps the events lacked came from
/// the clock).
pub open spec fn seal_output_matches(msgs: Seq<crate::event::MsgV>, out: SealOutput) -> bool {
    let s = sealed_of(msgs);
    let pm = parse_chunk(out.archive@);
    &&& out.new_patterns.deep_view() == s.1
    &&& pm is Some
    &&& pm->0.templates == s.1
    &&& pm->0.string_pool == s.2
    &&& pm->0.records.len() == s.0.len()
    &&& s.0.len() == msgs.len()
    &&& (forall|q: int| 0 <= q < s.0.len() ==> rec_matches(#[trigger] pm->0.records[q], s.0[q]))
}

/// Accumulates events and seals every `threshold` of them.
pub struct Supervisor {
    pub chunk: LogChunk,
    pub count: usize,
    pub threshold: usize,
}

impl Supervisor {
    /// The supervisor's invariant: the chunk only buffers raw events —
    /// its tables fill at seal time, after which it is replaced — and
    /// the count mirrors the buffer.
    pub open spec fn wf(&self) -> bool {
        &&& self.chunk.wf()
        &&& self.chunk.templates@.len() == 0
        &&& self.chunk.string_pool@.len() == 0
        &&& self.chunk.records@.len() == 0
        &&& self.count == self.chunk.raw_messages@.len()
        &&& self.count < self.threshold
        &&& 1 <= self.threshold <= 300000000
    }

    /// A fresh supervisor that seals every `threshold` events.
    pub fn new(threshold: usize) -> (r: Self)
        requires
            1 <= threshold <= 300000000,
        ensures
            r.wf(),
            r.threshold == threshold,
            r.chunk.raw_messages@.len() == 0,
    {
        Supervisor { chunk: LogChunk::new(), count: 0, threshold }
    }

    /// Takes one event: buffers it, and once the threshold is reached
    /// seals the chunk, encodes it, and starts a fresh one.
    pub fn on_event(&mut self, msg: SyslogMessage) -> (r: Option<SealOutput>)
        requires
            old(self).wf(),
        ensures
            final(self).wf(),
            final(self).threshold == old(self).threshold,
            ({
                let buffered = old(self).chunk.raw_messages.deep_view().push(msg@);
                if buffered.len() < old(self).threshold {
                    &&& r is None
                    &&& final(self).chunk.raw_messages.deep_view() == buffered
                } else {
                    &&& r is Some
                    &&& seal_output_matches(buffered, r->0)
                    &&& final(self).chunk.raw_messages@.len() == 0
                }
            }),
    {
        let ghost buffered = old(self).chunk.raw_messages.deep_view().push(msg@);
        self.chunk.add_message(msg);
        proof {
            assert(self.chunk.raw_messages.deep_view() =~= buffered);
        }
        self.count = self.count + 1;
        if self.count >= self.threshold {
            let out = self.seal_now();
            self.chunk = LogChunk::new();
            self.count = 0;
            Some(out)
        } else {
            None
        }
    }

    /// Seals and encodes whatever is buffered on shutdown; an empty
    /// buffer is a no-op and produces no archive.
    pub fn on_shutdown(&mut self) -> (r: Option<SealOutput>)
        requires
            old(self).wf(),
        ensures
            final(self).wf(),
            final(self).threshold == old(self).threshold,
            ({
                let buffered = old(self).chunk.raw_messages.deep_view();
                if buffered.len() == 0 {
                    r is None
                } else {
                    &&& r is Some
                    &&& seal_output_matches(buffered, r->0)
                    &&& final(self).chunk.raw_messages@.len() == 0
                }
            }),
    {
        if self.count == 0 {
            proof {
                assert(old(self).chunk.raw_messages.deep_view().len() == 0);
            }
            return None;
        }
        let out = self.seal_now();
        self.chunk = LogChunk::new();
        self.count = 0;
        Some(out)
    }

    /// Seals the current chunk and encodes it.
    fn seal_now(&mut self) -> (out: SealOutput)
        requires
            old(self).chunk.wf(),
            old(self).chunk.templates@.len() == 0,
            old(self).chunk.string_pool@.len() == 0,
            old(self).chunk.records@.len() == 0,
            old(self).chunk.raw_messages@.len() <= 300000000,
        ensures
            seal_output_matches(old(self).chunk.raw_messages.deep_view(), out),
            final(self).count == old(self).count,
            final(self).threshold == old(self).threshold,
    {
        let ghost msgs = self.chunk.raw_messages.deep_view();
        proof {
            assert(self.chunk.templates.deep_view() =~= Seq::<Seq<char>>::empty());
            assert(self.chunk.string_pool.deep_view() =~= Seq::<Seq<char>>::empty());
        }
        let new_patterns = self.chunk.finish_and_process();
        proof {
            let s = sealed_of(msgs);
            assert(self.chunk.templates.deep_view() == s.1);
            assert(self.chunk.string_pool.deep_view() == s.2);
            assert(new_patterns.deep_view() =~= s.1);
            crate::chunk::lemma_seal_total(msgs, Seq::empty(), Seq::empty());
        }
        let archive = StorageEngine::encode_chunk(&self.chunk);
        proof {
            let s = sealed_of(msgs);
            {
                let pm = parse_chunk(archive@)->0;
                assert(pm.templates == s.1);
                assert(pm.string_pool == s.2);
                assert(pm.records.len() == s.0.len());
                let outF = seal_upto(
                    msgs,
                    max_tok(msgs) + 1int,
                    old(self).chunk.templates.deep_view(),
                    old(self).chunk.string_pool.deep_view(),
                );
                assert(outF == s);
                assert forall|q: int| 0 <= q < s.0.len() implies rec_matches(
                    #[trigger] pm.records[q],
                    s.0[q],
                ) by {
                    assert(pm.records[q] == self.chunk.records.deep_view()[q]);
                    assert(self.chunk.records.deep_view()[q] == self.chunk.records@[q]@);
                    assert(rec_matches(self.chunk.records@[0 + q]@, outF.0[q]));
                }
            }
        }
        SealOutput { new_patterns, archive }
    }
}

} // verus!
