//! An iterator over contiguous chunks of a discontiguous buffer: each
//! call hands out the next chunk, and an empty chunk once they are
//! exhausted.

use vstd::prelude::*;

verus! {

pub struct MultiBuf {
    chunks: Vec<Vec<u8>>,
    pos: usize,
}

impl MultiBuf {
    /// The chunks, as byte sequences.
    pub closed spec fn spec_chunks(&self) -> Seq<Seq<u8>> {
        self.chunks.deep_view()
    }

    /// How many chunks have been handed out.
    pub closed spec fn spec_pos(&self) -> nat {
        self.pos as nat
    }

    /// A buffer over the given chunks, positioned at the first.
    pub fn new(chunks: Vec<Vec<u8>>) -> (r: MultiBuf)
        ensures
            r.spec_chunks() == chunks.deep_view(),
            r.spec_pos() == 0,
    {
        MultiBuf { chunks, pos: 0 }
    }
}

/// The next chunk of the buffer, or an empty chunk at the end; the
/// position advances either way.
pub fn next_chunk(buf: &mut MultiBuf) -> (r: Vec<u8>)
    requires
        old(buf).spec_pos() < usize::MAX,
    ensures
        final(buf).spec_chunks() == old(buf).spec_chunks(),
        final(buf).spec_pos() == old(buf).spec_pos() + 1,
        r@ == (if old(buf).spec_pos() < old(buf).spec_chunks().len() {
            old(buf).spec_chunks()[old(buf).spec_pos() as int]
        } else {
            Seq::<u8>::empty()
        }),
{
    let mut next: Vec<u8> = Vec::new();
    if buf.pos < buf.chunks.len() {
        let chunk = &buf.chunks[buf.pos];
        let mut i: usize = 0;
        while i < chunk.len()
            invariant
                0 <= i <= chunk@.len(),
                next@ == chunk@.subrange(0, i as int),
                chunk == &old(buf).chunks[old(buf).pos as int],
                buf == old(buf),
            decreases chunk@.len() - i,
        {
            let b = chunk[i];
            next.push(b);
            proof {
                assert(next@ =~= chunk@.subrange(0, i + 1));
            }
            i = i + 1;
        }
        proof {
            assert(next@ =~= buf.chunks@[buf.pos as int]@);
            assert(buf.spec_chunks()[buf.spec_pos() as int] == buf.chunks@[buf.pos as int]@);
        }
    }
    buf.pos = buf.pos + 1;
    next
}

} // verus!
