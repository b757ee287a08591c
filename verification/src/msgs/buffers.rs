//! The buffers between the connection and its caller.

use std::collections::VecDeque;
use vstd::prelude::*;

use crate::msgs::message::copy_at;

verus! {

/// The views of the chunks.
pub open spec fn chunk_views(chunks: Seq<Vec<u8>>) -> Seq<Seq<u8>> {
    chunks.map_values(|chunk: Vec<u8>| chunk@)
}

/// How many bytes the chunks hold.
pub open spec fn total_len(chunks: Seq<Seq<u8>>) -> nat
    decreases chunks.len(),
{
    if chunks.len() == 0 {
        0
    } else {
        total_len(chunks.drop_last()) + chunks.last().len()
    }
}

/// The chunks one behind the other.
pub open spec fn flat(chunks: Seq<Seq<u8>>) -> Seq<u8>
    decreases chunks.len(),
{
    if chunks.len() == 0 {
        Seq::empty()
    } else {
        flat(chunks.drop_last()) + chunks.last()
    }
}

/// Joining chunks loses no byte.
pub proof fn lemma_flat_len(chunks: Seq<Seq<u8>>)
    ensures
        flat(chunks).len() == total_len(chunks),
    decreases chunks.len(),
{
    if chunks.len() > 0 {
        lemma_flat_len(chunks.drop_last());
    }
}

/// What is at the front of the queue is at the front of its bytes.
pub proof fn lemma_flat_take(chunks: Seq<Seq<u8>>, i: int)
    requires
        0 <= i < chunks.len(),
    ensures
        flat(chunks.take(i + 1)) == flat(chunks.take(i)) + chunks[i],
        total_len(chunks.take(i + 1)) <= total_len(chunks),
    decreases chunks.len(),
{
    assert(chunks.take(i + 1).drop_last() =~= chunks.take(i));
    if i + 1 < chunks.len() {
        lemma_flat_take(chunks.drop_last(), i);
        assert(chunks.drop_last().take(i + 1) =~= chunks.take(i + 1));
    } else {
        assert(chunks.take(i + 1) =~= chunks);
    }
}

/// The queue after `chunk` was appended to it: an empty chunk is not kept.
pub open spec fn queued(chunks: Seq<Seq<u8>>, chunk: Seq<u8>) -> Seq<Seq<u8>> {
    if chunk.len() == 0 {
        chunks
    } else {
        chunks.push(chunk)
    }
}

/// `n`, or the largest number that there is where `n` is larger.
pub open spec fn clamped(n: nat) -> usize {
    if n <= usize::MAX {
        n as usize
    } else {
        usize::MAX
    }
}

/// A queue of chunks of bytes, none of them empty.
pub struct ChunkVecBuffer {
    pub chunks: VecDeque<Vec<u8>>,
}

impl View for ChunkVecBuffer {
    type V = Seq<Seq<u8>>;

    open spec fn view(&self) -> Seq<Seq<u8>> {
        chunk_views(self.chunks@)
    }
}

impl ChunkVecBuffer {
    /// No chunk is empty.
    pub open spec fn wf(&self) -> bool {
        forall|i: int| 0 <= i < self@.len() ==> (#[trigger] self@[i]).len() > 0
    }

    /// An empty queue.
    pub fn new() -> (r: Self)
        ensures
            r.wf(),
            r@ == Seq::<Seq<u8>>::empty(),
    {
        let r = ChunkVecBuffer { chunks: VecDeque::new() };
        assert(r@ =~= Seq::<Seq<u8>>::empty());
        r
    }

    /// Is there nothing in the queue?
    pub fn is_empty(&self) -> (r: bool)
        ensures
            r == (self@.len() == 0),
    {
        self.chunks.len() == 0
    }

    /// How many bytes the queue holds.
    pub fn len(&self) -> (r: usize)
        ensures
            r == clamped(total_len(self@)),
    {
        let mut total: usize = 0;
        let mut i: usize = 0;
        while i < self.chunks.len()
            invariant
                i <= self@.len(),
                total == clamped(total_len(self@.take(i as int))),
            decreases self@.len() - i,
        {
            assert(self@.take(i + 1).drop_last() =~= self@.take(i as int));
            total = total.saturating_add(self.chunks[i].len());
            i += 1;
        }
        assert(self@.take(i as int) =~= self@);
        total
    }

    /// Appends a chunk; an empty one is not kept.
    pub fn append(&mut self, bytes: Vec<u8>)
        requires
            old(self).wf(),
        ensures
            final(self).wf(),
            final(self)@ == queued(old(self)@, bytes@),
    {
        if bytes.len() > 0 {
            self.chunks.push_back(bytes);
            assert(self@ =~= old(self)@.push(bytes@));
        }
    }

    /// Takes the chunk at the front.
    pub fn pop(&mut self) -> (r: Option<Vec<u8>>)
        requires
            old(self).wf(),
        ensures
            final(self).wf(),
            match r {
                Some(chunk) => {
                    &&& old(self)@.len() > 0
                    &&& chunk@ == old(self)@[0]
                    &&& final(self)@ == old(self)@.skip(1)
                },
                None => old(self)@.len() == 0 && final(self)@ == old(self)@,
            },
    {
        let r = self.chunks.pop_front();
        proof {
            if r is Some {
                assert(self@ =~= old(self)@.skip(1));
                assert(chunk_views(old(self).chunks@)[0] == r->0@);
                assert forall|i: int| 0 <= i < self@.len() implies (#[trigger] self@[i]).len()
                    > 0 by {
                    assert(self@[i] == old(self)@[i + 1]);
                }
            } else {
                assert(self@ =~= old(self)@);
            }
        }
        r
    }

    /// Writes all chunks to the front of `out`, in their order, and empties the queue.
    pub fn drain_to(&mut self, out: &mut [u8]) -> (r: usize)
        requires
            total_len(old(self)@) <= old(out)@.len(),
        ensures
            final(self).wf(),
            final(self)@ == Seq::<Seq<u8>>::empty(),
            r == total_len(old(self)@),
            final(out)@ == flat(old(self)@) + old(out)@.skip(r as int),
    {
        let mut written: usize = 0;
        let mut i: usize = 0;
        let room: usize = out.len();
        let ghost before = out@;
        assert(out@ =~= flat(self@.take(0)) + before.skip(0));
        while i < self.chunks.len()
            invariant
                i <= self@.len(),
                self@ == old(self)@,
                room == before.len(),
                total_len(self@) <= before.len(),
                written == total_len(self@.take(i as int)),
                written <= before.len(),
                out@ == flat(self@.take(i as int)) + before.skip(written as int),
            decreases self@.len() - i,
        {
            proof {
                lemma_flat_take(self@, i as int);
                lemma_flat_len(self@.take(i as int));
                lemma_flat_len(self@.take(i + 1));
            }
            let chunk = self.chunks[i].as_slice();
            assert(chunk@ == self@[i as int]);
            copy_at(out, written, chunk);
            assert(out@ =~= flat(self@.take(i + 1)) + before.skip(written + chunk@.len()));
            written += chunk.len();
            i += 1;
        }
        assert(self@.take(i as int) =~= self@);
        self.chunks = VecDeque::new();
        assert(self@ =~= Seq::<Seq<u8>>::empty());
        written
    }

    /// Length of the chunk at the front.
    pub fn peek_len(&self) -> (r: Option<usize>)
        requires
            self.wf(),
        ensures
            match r {
                Some(n) => self@.len() > 0 && n == self@[0].len() && n > 0,
                None => self@.len() == 0,
            },
    {
        if self.chunks.len() == 0 {
            None
        } else {
            let chunk = &self.chunks[0];
            assert(self@[0] == chunk@);
            Some(chunk.len())
        }
    }
}

/// How far a buffer was processed, and how much of its front can be removed.
///
/// Bytes that were processed stay as long as they belong to a message that is incomplete.
#[derive(Clone, Copy, Debug)]
pub struct BufferProgress {
    pub processed: usize,
    pub discard: usize,
}

impl BufferProgress {
    /// Starts behind the first `processed` bytes.
    pub fn new(processed: usize) -> (r: Self)
        ensures
            r.processed == processed,
            r.discard == 0,
    {
        Self { processed, discard: 0 }
    }

    /// How many bytes were processed.
    pub fn processed(&self) -> (r: usize)
        ensures
            r == self.processed,
    {
        self.processed
    }

    /// Notes that `bytes` more bytes were processed.
    pub fn add_processed(&mut self, bytes: usize)
        requires
            old(self).processed + bytes <= usize::MAX,
        ensures
            final(self).processed == old(self).processed + bytes,
            final(self).discard == old(self).discard,
    {
        self.processed += bytes;
    }

    /// Notes that `bytes` more bytes can be removed.
    pub fn add_discard(&mut self, bytes: usize)
        requires
            old(self).discard + bytes <= usize::MAX,
        ensures
            final(self).discard == old(self).discard + bytes,
            final(self).processed == old(self).processed,
    {
        self.discard += bytes;
    }

    /// Gives the number of bytes that can be removed, and counts as if they were.
    pub fn take_discard(&mut self) -> (r: usize)
        ensures
            r == old(self).discard,
            final(self).discard == 0,
            final(self).processed == (if old(self).processed >= old(self).discard {
                (old(self).processed - old(self).discard) as usize
            } else {
                0
            }),
    {
        self.processed = self.processed.saturating_sub(self.discard);
        let discard: usize = self.discard;
        self.discard = 0;
        discard
    }
}

/// A buffer of the caller, with the number of bytes that it will remove from its front.
#[derive(Clone, Copy, Debug)]
pub struct DeframerSliceBuffer {
    pub len: usize,
    pub discard: usize,
}

impl DeframerSliceBuffer {
    /// No more is removed than there is.
    pub open spec fn wf(&self) -> bool {
        self.discard <= self.len
    }

    /// A buffer of which nothing is removed.
    pub fn new(buf: &[u8]) -> (r: Self)
        ensures
            r.wf(),
            r.len == buf@.len(),
            r.discard == 0,
    {
        Self { len: buf.len(), discard: 0 }
    }

    /// Notes that `num_bytes` more bytes will be removed.
    pub fn queue_discard(&mut self, num_bytes: usize)
        requires
            old(self).discard + num_bytes <= old(self).len,
        ensures
            final(self).wf(),
            final(self).len == old(self).len,
            final(self).discard == old(self).discard + num_bytes,
    {
        self.discard += num_bytes;
    }

    /// How many bytes will be removed.
    pub fn pending_discard(&self) -> (r: usize)
        ensures
            r == self.discard,
    {
        self.discard
    }
}

/// The bytes of a queue are those of its chunks, in their order: another chunk comes behind all
/// that were there, and an empty queue holds none. The length of a queue counts its bytes.
pub proof fn law_chunks_come_one_behind_the_other(chunks: Seq<Seq<u8>>, chunk: Seq<u8>)
    ensures
        flat(Seq::empty()) == Seq::<u8>::empty(),
        flat(chunks.push(chunk)) == flat(chunks) + chunk,
        flat(queued(chunks, chunk)) == flat(chunks) + chunk,
        total_len(chunks) == flat(chunks).len(),
        chunk.len() > 0 ==> queued(chunks, chunk).drop_last() == chunks && queued(
            chunks,
            chunk,
        ).last() == chunk,
        chunk.len() == 0 ==> queued(chunks, chunk) == chunks,
{
    lemma_flat_len(chunks);
    assert(chunks.push(chunk).drop_last() =~= chunks);
    assert(flat(chunks) + Seq::<u8>::empty() =~= flat(chunks));
    if chunk.len() == 0 {
        assert(chunk =~= Seq::<u8>::empty());
    }
}

/// A number that a machine can hold is given as it is, and no smaller one for a larger number.
pub proof fn law_sizes_are_clamped_at_the_top(n: nat)
    ensures
        n <= usize::MAX ==> clamped(n) == n,
        n > usize::MAX ==> clamped(n) == usize::MAX,
{
}

} // verus!
