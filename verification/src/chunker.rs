//! Reassembly buffer between the transport and the codec.
//!
//! The transport delivers bytes in chunks whose boundaries mean nothing:
//! one underlying read may carry half a frame or three frames. The chunker
//! queues those chunks and serves exact-length reads from the front. It
//! never interprets bytes, and everything handed out is a prefix of the
//! concatenation of everything pushed in — frame boundaries therefore
//! depend only on the byte stream, never on the chunking.
//!
//! The chunker itself is passive. The task that owns it awaits the next
//! transport chunk (with the liveness timeout) whenever a read comes up
//! short, pushes the chunk, and retries.

use vstd::prelude::*;

verus! {

/// Buffers transport chunks and serves exact-length reads.
pub struct Chunker {
    /// Bytes pushed but not yet handed out.
    residual: Vec<u8>,
    /// All bytes handed out so far, oldest first.
    taken: Ghost<Seq<u8>>,
}

impl Chunker {
    /// All bytes ever pushed, oldest first.
    pub closed spec fn stream(&self) -> Seq<u8> {
        self.taken@ + self.residual@
    }

    /// The prefix of `stream` already handed out by `read`.
    pub closed spec fn consumed(&self) -> Seq<u8> {
        self.taken@
    }

    /// The suffix of `stream` still waiting to be read.
    pub closed spec fn pending(&self) -> Seq<u8> {
        self.residual@
    }

    /// The pushed bytes split exactly into the consumed prefix and the
    /// pending suffix.
    pub proof fn lemma_stream_split(&self)
        ensures
            self.stream() == self.consumed() + self.pending(),
    {
    }

    /// Everything handed out by `read` is exactly a prefix of the
    /// concatenation of the bytes pushed in, in order.
    pub proof fn lemma_consumed_prefix_of_stream(&self)
        ensures
            self.consumed() == self.stream().take(self.consumed().len() as int),
    {
        assert(self.consumed() =~= self.stream().take(self.consumed().len() as int));
    }

    /// An empty buffer.
    pub fn new() -> (c: Chunker)
        ensures
            c.stream() == Seq::<u8>::empty(),
            c.consumed() == Seq::<u8>::empty(),
            c.pending() == Seq::<u8>::empty(),
    {
        let c = Chunker { residual: Vec::new(), taken: Ghost(Seq::empty()) };
        proof {
            assert(c.stream() =~= Seq::<u8>::empty());
        }
        c
    }

    /// Appends one transport chunk to the buffer.
    pub fn push_chunk(&mut self, chunk: Vec<u8>)
        ensures
            final(self).stream() == old(self).stream() + chunk@,
            final(self).consumed() == old(self).consumed(),
            final(self).pending() == old(self).pending() + chunk@,
    {
        let ghost pushed = chunk@;
        let mut chunk = chunk;
        self.residual.append(&mut chunk);
        proof {
            assert(final(self).stream() =~= old(self).stream() + pushed);
        }
    }

    /// How many bytes are pending.
    pub fn available(&self) -> (n: usize)
        ensures
            n == self.pending().len(),
    {
        self.residual.len()
    }

    /// The pending byte at position `i`, left in place.
    pub fn peek(&self, i: usize) -> (b: u8)
        requires
            i < self.pending().len(),
        ensures
            b == self.pending()[i as int],
    {
        self.residual[i]
    }

    /// Takes exactly `n` bytes off the front of the pending bytes, or
    /// nothing at all when fewer than `n` are buffered. What comes out is
    /// spliced from the front, so consecutive reads see the pushed bytes
    /// in order, whatever the chunk boundaries were.
    pub fn read(&mut self, n: usize) -> (r: Option<Vec<u8>>)
        ensures
            final(self).stream() == old(self).stream(),
            old(self).pending().len() < n ==> r is None && *final(self) == *old(self),
            old(self).pending().len() >= n ==> (r matches Some(bytes)
                && bytes@ == old(self).pending().take(n as int)
                && final(self).pending() == old(self).pending().skip(n as int)
                && final(self).consumed() == old(self).consumed() + bytes@),
    {
        if self.residual.len() < n {
            return None;
        }
        let mut tail = self.residual.split_off(n);
        core::mem::swap(&mut self.residual, &mut tail);
        proof {
            self.taken@ = self.taken@ + tail@;
        }
        proof {
            assert(final(self).stream() =~= old(self).stream());
            assert(tail@ =~= old(self).pending().take(n as int));
            assert(final(self).pending() =~= old(self).pending().skip(n as int));
        }
        Some(tail)
    }
}

} // verus!
