//! The chunked streaming reader: a finite, non-restartable session that
//! turns successive reads of an open file into bounded byte chunks whose
//! total never exceeds the length declared when the session started.
//!
//! The session is a pure state machine. The transport layer performs the
//! actual reads, asks [`StreamSession::request_size`] how much to read,
//! and hands each read's bytes to [`StreamSession::accept_read`].

use vstd::math::min;
use vstd::prelude::*;

verus! {

/// Bound on the number of bytes handed out in one chunk.
pub const DEFAULT_CHUNK_SIZE: usize = 8192;

/// The size of the next read to attempt: the fixed default, bounded by
/// the number of bytes still owed.
pub open spec fn chunk_limit(remaining: nat) -> nat {
    if remaining < DEFAULT_CHUNK_SIZE as nat {
        remaining
    } else {
        DEFAULT_CHUNK_SIZE as nat
    }
}

/// How much of one read's bytes the session emits: all of them, bounded
/// by what is still owed.
pub open spec fn emit_len(remaining: nat, got: nat) -> nat {
    if got <= remaining {
        got
    } else {
        remaining
    }
}

/// One in-flight download: the bytes still owed out of the length
/// declared at session start, and whether the stream has ended early.
pub struct StreamSession {
    declared: u64,
    remaining: u64,
    stopped: bool,
}

impl StreamSession {
    /// The byte count advertised to the consumer, fixed for the session.
    pub closed spec fn declared_length(self) -> u64 {
        self.declared
    }

    /// Bytes not yet emitted.
    pub closed spec fn remaining(self) -> u64 {
        self.remaining
    }

    /// True once the sequence has ended: everything owed was emitted, or
    /// a read came back empty before that.
    pub closed spec fn done(self) -> bool {
        self.stopped || self.remaining == 0
    }

    /// The session never owes more than it declared.
    pub closed spec fn wf(self) -> bool {
        self.remaining <= self.declared
    }

    /// Opens a session owing exactly the declared length.
    pub fn new(declared_length: u64) -> (s: Self)
        ensures
            s.wf(),
            s.declared_length() == declared_length,
            s.remaining() == declared_length,
            s.done() <==> declared_length == 0,
    {
        StreamSession { declared: declared_length, remaining: declared_length, stopped: false }
    }

    /// How many bytes the next read should attempt, or None once the
    /// sequence has ended and no further read must be made.
    pub fn request_size(&self) -> (r: Option<usize>)
        ensures
            r is Some <==> !self.done(),
            r matches Some(n) ==> n == chunk_limit(self.remaining() as nat) && n > 0,
    {
        if self.stopped || self.remaining == 0 {
            None
        } else if self.remaining < DEFAULT_CHUNK_SIZE as u64 {
            Some(self.remaining as usize)
        } else {
            Some(DEFAULT_CHUNK_SIZE)
        }
    }

    /// Accepts the bytes one read returned and hands back the chunk to
    /// emit. An empty read ends the sequence early, without a chunk;
    /// otherwise the chunk is the read's bytes truncated to what was
    /// still owed, and the debt shrinks by exactly the chunk's length.
    pub fn accept_read(&mut self, data: Vec<u8>) -> (chunk: Option<Vec<u8>>)
        requires
            !old(self).done(),
            old(self).wf(),
        ensures
            final(self).wf(),
            final(self).declared_length() == old(self).declared_length(),
            chunk is Some <==> data@.len() > 0,
            data@.len() == 0 ==> final(self).done() && final(self).remaining() == old(
                self,
            ).remaining(),
            chunk matches Some(c) ==> {
                &&& c@ == data@.take(emit_len(old(self).remaining() as nat, data@.len()) as int)
                &&& final(self).remaining() == old(self).remaining() - c@.len()
                &&& final(self).done() <==> final(self).remaining() == 0
            },
    {
        if data.len() == 0 {
            self.stopped = true;
            return None;
        }
        if data.len() as u64 <= self.remaining {
            self.remaining = self.remaining - data.len() as u64;
            proof {
                assert(data@.take(data@.len() as int) =~= data@);
            }
            Some(data)
        } else {
            let keep = self.remaining as usize;
            let mut kept = data;
            kept.truncate(keep);
            self.remaining = 0;
            Some(kept)
        }
    }
}

/// The chunks a session owing `remaining` bytes emits when successive
/// reads return `reads`: each chunk is one read bounded by the debt, and
/// the sequence ends at an empty read, at the end of the reads, or when
/// nothing is owed.
pub open spec fn stream_output(remaining: nat, reads: Seq<Seq<u8>>) -> Seq<Seq<u8>>
    decreases reads.len(),
{
    if remaining == 0 || reads.len() == 0 || reads[0].len() == 0 {
        Seq::<Seq<u8>>::empty()
    } else {
        let t = emit_len(remaining, reads[0].len());
        seq![reads[0].take(t as int)] + stream_output((remaining - t) as nat, reads.skip(1))
    }
}

/// However the reads go, the emitted chunks never carry more bytes than
/// the session owed.
pub proof fn lemma_stream_bounded(remaining: nat, reads: Seq<Seq<u8>>)
    ensures
        stream_output(remaining, reads).flatten().len() <= remaining,
    decreases reads.len(),
{
    if remaining == 0 || reads.len() == 0 || reads[0].len() == 0 {
        assert(stream_output(remaining, reads).flatten() =~= Seq::<u8>::empty());
    } else {
        let t = emit_len(remaining, reads[0].len());
        let rest = stream_output((remaining - t) as nat, reads.skip(1));
        lemma_stream_bounded((remaining - t) as nat, reads.skip(1));
        let whole = seq![reads[0].take(t as int)] + rest;
        assert(whole.first() == reads[0].take(t as int));
        assert(whole.drop_first() =~= rest);
        assert(whole.flatten() == reads[0].take(t as int) + rest.flatten());
    }
}

/// When every read brings at least one byte, the emitted chunks
/// concatenate to exactly the first `remaining` bytes of what the reads
/// supply.
pub proof fn lemma_stream_exact(remaining: nat, reads: Seq<Seq<u8>>)
    requires
        forall|i: int| 0 <= i < reads.len() ==> (#[trigger] reads[i]).len() > 0,
    ensures
        stream_output(remaining, reads).flatten() == reads.flatten().take(
            min(remaining as int, reads.flatten().len() as int),
        ),
    decreases reads.len(),
{
    let flat = reads.flatten();
    if remaining == 0 || reads.len() == 0 {
        assert(stream_output(remaining, reads).flatten() =~= Seq::<u8>::empty());
        assert(flat.take(min(remaining as int, flat.len() as int)) =~= Seq::<u8>::empty());
    } else {
        let r0 = reads[0];
        let t = emit_len(remaining, r0.len());
        let tail = reads.skip(1);
        assert(forall|i: int| 0 <= i < tail.len() ==> (#[trigger] tail[i]).len() > 0) by {
            assert(forall|i: int| 0 <= i < tail.len() ==> tail[i] == reads[i + 1]);
        }
        lemma_stream_exact((remaining - t) as nat, tail);
        let whole = seq![r0.take(t as int)] + stream_output((remaining - t) as nat, tail);
        assert(whole.first() == r0.take(t as int));
        assert(whole.drop_first() =~= stream_output((remaining - t) as nat, tail));
        assert(whole.flatten() == r0.take(t as int) + stream_output(
            (remaining - t) as nat,
            tail,
        ).flatten());
        assert(reads.drop_first() =~= tail);
        assert(flat == r0 + tail.flatten());
        if r0.len() <= remaining {
            assert(r0.take(t as int) =~= r0);
            assert(whole.flatten() =~= flat.take(min(remaining as int, flat.len() as int)));
        } else {
            assert(stream_output(0, tail) =~= Seq::<Seq<u8>>::empty());
            assert(Seq::<Seq<u8>>::empty().flatten() =~= Seq::<u8>::empty());
            assert(whole.flatten() =~= flat.take(min(remaining as int, flat.len() as int)));
        }
    }
}

/// Streaming a file whose reads supply exactly the declared number of
/// bytes delivers that content, whole and in order.
pub proof fn lemma_stream_delivers_content(declared: nat, reads: Seq<Seq<u8>>, content: Seq<u8>)
    requires
        forall|i: int| 0 <= i < reads.len() ==> (#[trigger] reads[i]).len() > 0,
        reads.flatten() == content,
        content.len() == declared,
    ensures
        stream_output(declared, reads).flatten() == content,
{
    lemma_stream_exact(declared, reads);
    assert(content.take(declared as int) =~= content);
}

} // verus!
