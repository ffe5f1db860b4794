//! The underlying byte source that a reader pulls from.
//!
//! The reader is generic over where its bytes come from: a file, a socket,
//! or an in-memory slice. A source is forward-only and blocking; it hands
//! back chunks of at most a requested size, and an empty chunk means the
//! stream has ended.

use vstd::prelude::*;

verus! {

/// A failure reported by an underlying byte source.
#[derive(Debug)]
pub struct ReadFailure {
    /// What the source said went wrong.
    pub message: String,
}

/// A blocking, forward-only source of bytes.
///
/// `read_chunk` blocks until some bytes arrive or the stream ends; an
/// `Ok` chunk holds at most `max` bytes, and an empty one signals the end
/// of the stream. Callers own the policy of how much to ask for at once.
/// Nothing more is promised of an arbitrary source - a file's contents
/// are whatever they are - so every source a real program brings can
/// honour this contract truthfully.
pub trait ByteSource {
    fn read_chunk(&mut self, max: usize) -> (r: Result<Vec<u8>, ReadFailure>)
        requires
            max >= 1,
        ensures
            r matches Ok(v) ==> v@.len() <= max,
    ;
}

/// An in-memory byte source: a vector served front to back.
pub struct SliceSource {
    /// The whole underlying byte sequence.
    pub data: Vec<u8>,
    /// How many leading bytes have been served already.
    pub pos: usize,
}

impl SliceSource {
    /// The served prefix never runs past the end of the data.
    pub open spec fn wf(&self) -> bool {
        self.pos <= self.data@.len()
    }

    /// The bytes not yet served.
    pub open spec fn remaining(&self) -> Seq<u8> {
        self.data@.skip(self.pos as int)
    }

    /// A source over the given bytes, none of them served yet.
    pub fn new(data: Vec<u8>) -> (r: SliceSource)
        ensures
            r.wf(),
            r.data@ == data@,
            r.pos == 0,
            r.remaining() == data@,
    {
        let r = SliceSource { data, pos: 0 };
        proof {
            assert(r.remaining() =~= r.data@);
        }
        r
    }

    /// Serves the next `min(max, remaining)` bytes, in order.
    pub fn take_bytes(&mut self, max: usize) -> (r: Vec<u8>)
        requires
            old(self).wf(),
        ensures
            final(self).wf(),
            final(self).data@ == old(self).data@,
            r@.len() <= max,
            r@.len() <= old(self).remaining().len(),
            r@ == old(self).remaining().take(r@.len() as int),
            final(self).remaining() == old(self).remaining().skip(r@.len() as int),
    {
        let rem = self.data.len() - self.pos;
        let n = if max <= rem {
            max
        } else {
            rem
        };
        let mut out: Vec<u8> = Vec::new();
        let mut i: usize = 0;
        while i < n
            invariant
                old(self).wf(),
                self.data@ == old(self).data@,
                self.pos == old(self).pos,
                i <= n,
                n <= self.data@.len() - self.pos,
                self.data@.len() <= usize::MAX,
                out@.len() == i,
                out@ == old(self).remaining().take(i as int),
            decreases n - i,
        {
            out.push(self.data[self.pos + i]);
            proof {
                assert(out@ =~= old(self).remaining().take(i + 1));
            }
            i += 1;
        }
        self.pos = self.pos + n;
        proof {
            assert(self.remaining() =~= old(self).remaining().skip(n as int));
        }
        out
    }
}

impl ByteSource for SliceSource {
    fn read_chunk(&mut self, max: usize) -> (r: Result<Vec<u8>, ReadFailure>) {
        if self.pos >= self.data.len() {
            return Ok(Vec::new());
        }
        Ok(self.take_bytes(max))
    }
}

} // verus!
