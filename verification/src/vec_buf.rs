//! In-memory byte pipe: stores pushed chunks and hands the bytes back out
//! in arrival order.  Implements the byte-source and byte-sink surface, so
//! it can stand in for a transport.

use vstd::prelude::*;

use crate::io::{ByteRead, ByteWrite};
use crate::wire::sub_bytes;

verus! {

/// FIFO byte buffer.
pub struct VecBuf {
    buf: Vec<u8>,
    taken: Ghost<Seq<u8>>,
}

impl VecBuf {
    /// The bytes pushed and not yet read.
    pub closed spec fn spec_readable(&self) -> Seq<u8> {
        self.buf@
    }

    /// All bytes ever pushed, in order.
    pub closed spec fn spec_written(&self) -> Seq<u8> {
        self.taken@ + self.buf@
    }

    /// The bytes already read off the front.
    pub closed spec fn spec_taken(&self) -> Seq<u8> {
        self.taken@
    }

    /// Law (pipe): the readable bytes are exactly the written bytes beyond
    /// the consumed prefix.  With this a verified writer and a verified
    /// reader connect over one buffer: what one side's contract says of
    /// `written` and `consumed`, the other side reads off `readable`.
    pub proof fn lemma_pipe(v: VecBuf)
        ensures
            v.consumed().len() <= v.written().len(),
            v.readable() == v.written().skip(v.consumed().len() as int),
    {
        assert(v.readable() =~= v.written().skip(v.consumed().len() as int));
    }

    /// Create an empty buffer.
    pub fn new() -> (r: VecBuf)
        ensures
            r.readable() == Seq::<u8>::empty(),
            r.written() == Seq::<u8>::empty(),
            r.consumed() == Seq::<u8>::empty(),
    {
        let r = VecBuf { buf: Vec::new(), taken: Ghost(Seq::empty()) };
        proof {
            assert(r.readable() =~= Seq::<u8>::empty());
            assert(r.written() =~= Seq::<u8>::empty());
        }
        r
    }

    /// Push one chunk of bytes to the back.
    pub fn push(&mut self, chunk: Vec<u8>)
        ensures
            final(self).readable() == old(self).readable() + chunk@,
            final(self).written() == old(self).written() + chunk@,
            final(self).consumed() == old(self).consumed(),
    {
        let mut b = sub_bytes(self.buf.as_slice(), 0, self.buf.len());
        let mut c = chunk;
        b.append(&mut c);
        self.buf = b;
        proof {
            assert(self.readable() =~= old(self).readable() + chunk@);
            assert(self.written() =~= old(self).written() + chunk@);
        }
    }

    /// True when no byte is left to read.
    pub fn is_empty(&self) -> (r: bool)
        ensures
            r == (self.readable().len() == 0),
    {
        self.buf.len() == 0
    }
}

impl ByteRead for VecBuf {
    /// The bytes pushed and not yet read.
    open spec fn readable(&self) -> Seq<u8> {
        self.spec_readable()
    }

    fn available(&self) -> (r: usize) {
        self.buf.len()
    }

    /// Reading does not change the write history; it claims the bytes it
    /// returns as consumed.
    fn read_exact(&mut self, n: usize) -> (r: Vec<u8>)
        ensures
            final(self).spec_written() == old(self).spec_written(),
            final(self).spec_taken() == old(self).spec_taken() + r@,
    {
        let r = sub_bytes(self.buf.as_slice(), 0, n);
        let rest = sub_bytes(self.buf.as_slice(), n, self.buf.len() - n);
        self.buf = rest;
        proof {
            self.taken = Ghost(old(self).taken@ + r@);
            assert(r@ =~= old(self).readable().take(n as int));
            assert(self.readable() =~= old(self).readable().skip(n as int));
            assert(self.written() =~= old(self).written());
        }
        r
    }
}

impl ByteWrite for VecBuf {
    /// All bytes ever pushed, in order.
    open spec fn written(&self) -> Seq<u8> {
        self.spec_written()
    }

    /// The bytes already read off the front.
    open spec fn consumed(&self) -> Seq<u8> {
        self.spec_taken()
    }

    /// Written bytes become readable: the buffer is a pipe.
    fn write_bytes(&mut self, data: &[u8])
        ensures
            final(self).spec_readable() == old(self).spec_readable() + data@,
    {
        let mut b = sub_bytes(self.buf.as_slice(), 0, self.buf.len());
        let mut d = sub_bytes(data, 0, data.len());
        b.append(&mut d);
        self.buf = b;
        proof {
            assert(self.written() =~= old(self).written() + data@);
        }
    }
}

} // verus!
