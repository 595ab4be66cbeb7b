//! Bounded scrollback: a byte ring that keeps only the most recent bytes.
//!
//! When full, the oldest byte is dropped for each new byte appended, so the
//! ring always holds a suffix of everything ever appended.

use vstd::prelude::*;
use std::collections::VecDeque;

verus! {

/// Greatest number of bytes the scrollback retains (64 KiB).
pub const SCROLLBACK_LIMIT: usize = 65536;

/// The suffix of `s` that a ring of capacity `SCROLLBACK_LIMIT` retains.
pub open spec fn ring_tail(s: Seq<u8>) -> Seq<u8> {
    if s.len() <= SCROLLBACK_LIMIT {
        s
    } else {
        s.skip(s.len() - SCROLLBACK_LIMIT as int)
    }
}

/// A bounded first-in-first-out byte ring.
pub struct Scrollback {
    buf: VecDeque<u8>,
}

impl View for Scrollback {
    type V = Seq<u8>;

    closed spec fn view(&self) -> Seq<u8> {
        self.buf@
    }
}

/// Appending one byte to a ring at or over capacity drops the oldest byte;
/// under capacity it only appends.
proof fn lemma_ring_push(s: Seq<u8>, b: u8)
    ensures
        ring_tail(s.push(b)) == if s.len() < SCROLLBACK_LIMIT {
            ring_tail(s).push(b)
        } else {
            ring_tail(s).subrange(1, SCROLLBACK_LIMIT as int).push(b)
        },
{
    if s.len() < SCROLLBACK_LIMIT {
        assert(ring_tail(s.push(b)) =~= ring_tail(s).push(b));
    } else {
        assert(ring_tail(s.push(b)) =~= ring_tail(s).subrange(
            1,
            SCROLLBACK_LIMIT as int,
        ).push(b));
    }
}

impl Scrollback {
    /// The ring never holds more than `SCROLLBACK_LIMIT` bytes.
    pub open spec fn wf(&self) -> bool {
        self@.len() <= SCROLLBACK_LIMIT
    }

    /// An empty ring.
    pub fn new() -> (r: Self)
        ensures
            r.wf(),
            r@ == Seq::<u8>::empty(),
    {
        Scrollback { buf: VecDeque::with_capacity(SCROLLBACK_LIMIT) }
    }

    /// Appends a chunk, evicting the oldest bytes beyond the capacity.
    pub fn append(&mut self, data: &[u8])
        requires
            old(self).wf(),
        ensures
            final(self).wf(),
            final(self)@ == ring_tail(old(self)@ + data@),
    {
        let ghost base = self@;
        let n: usize = data.len();
        for i in 0..n
            invariant
                self.wf(),
                self@ == ring_tail(base + data@.take(i as int)),
                n == data@.len(),
        {
            let ghost combined = base + data@.take(i as int);
            if self.buf.len() >= SCROLLBACK_LIMIT {
                self.buf.pop_front();
            }
            self.buf.push_back(data[i]);
            proof {
                lemma_ring_push(combined, data@[i as int]);
                assert(combined.push(data@[i as int]) =~= base + data@.take(i as int + 1));
            }
        }
        proof {
            assert(data@.take(n as int) =~= data@);
        }
    }

    /// Copies the retained bytes, oldest first.
    pub fn snapshot(&self) -> (r: Vec<u8>)
        ensures
            r@ == self@,
    {
        let mut out: Vec<u8> = Vec::new();
        let n: usize = self.buf.len();
        for i in 0..n
            invariant
                out@ == self@.take(i as int),
                n == self@.len(),
        {
            out.push(self.buf[i]);
            proof {
                assert(out@ =~= self@.take(i as int + 1));
            }
        }
        proof {
            assert(self@.take(n as int) =~= self@);
        }
        out
    }

    /// Number of retained bytes.
    pub fn len(&self) -> (r: usize)
        ensures
            r == self@.len(),
    {
        self.buf.len()
    }
}

} // verus!
