//! IO-free command sink and stream.
//!
//! The sink appends serialized commands to its write buffer; the stream
//! incrementally parses commands out of its read buffer, resuming across
//! arbitrarily fragmented input.

use std::collections::VecDeque;
use vstd::bytes::*;
use vstd::prelude::*;

use crate::command::{
    decode_header, encode_header, frame_bytes, frame_complete, header_bytes, method_prefix_ok,
    Command, Header,
};
use crate::wire::{pop_bytes, push_bytes, sub_bytes};

verus! {

/// IO-free command sink.
#[derive(Debug)]
pub struct LocoSink {
    /// Write buffer: the caller drains it to the transport.
    pub write_buffer: VecDeque<u8>,
}

impl LocoSink {
    /// Create a new [`LocoSink`] with an empty write buffer.
    pub fn new() -> (r: LocoSink)
        ensures
            r.write_buffer@.len() == 0,
    {
        LocoSink { write_buffer: VecDeque::new() }
    }

    /// Serialize one command and append its whole frame to the write buffer.
    pub fn send(&mut self, command: Command)
        requires
            command.data@.len() <= u32::MAX,
        ensures
            final(self).write_buffer@ == old(self).write_buffer@ + frame_bytes(
                command.header,
                command.data@,
            ),
    {
        let head = encode_header(&command.header);
        push_bytes(&mut self.write_buffer, head.as_slice());
        let size = u32_to_le_bytes(command.data.len() as u32);
        push_bytes(&mut self.write_buffer, size.as_slice());
        push_bytes(&mut self.write_buffer, command.data.as_slice());
        proof {
            assert(self.write_buffer@ =~= old(self).write_buffer@ + frame_bytes(
                command.header,
                command.data@,
            ));
        }
    }
}

/// Decoded head of a frame: the fixed header and the announced payload size.
#[derive(Debug, Clone, Copy, PartialEq)]
pub struct RawHeader {
    /// Packet header.
    pub header: Header,
    /// Payload size in bytes.
    pub data_size: u32,
}

/// Parser state of a [`LocoStream`].
#[derive(Debug, Clone, Copy, PartialEq)]
pub enum StreamState {
    /// Waiting for a 22-byte head.
    Pending,
    /// Head decoded; waiting for the payload.
    Header(RawHeader),
    /// Decoding failed; the stream must be discarded.
    Corrupted,
}

/// IO-free command stream.
#[derive(Debug)]
pub struct LocoStream {
    /// Parser state.
    pub state: StreamState,
    /// Read buffer: the caller fills it from the transport.
    pub read_buffer: VecDeque<u8>,
}

impl LocoStream {
    /// All bytes not yet turned into a command: the bytes of an already
    /// decoded head, then the read buffer.
    pub open spec fn pending(self) -> Seq<u8> {
        match self.state {
            StreamState::Pending => self.read_buffer@,
            StreamState::Header(rh) => header_bytes(rh.header) + spec_u32_to_le_bytes(
                rh.data_size,
            ) + self.read_buffer@,
            StreamState::Corrupted => Seq::empty(),
        }
    }

    pub open spec fn wf(self) -> bool {
        match self.state {
            StreamState::Header(rh) => rh.header.method.wf() && method_prefix_ok(
                rh.header.method@,
            ),
            _ => true,
        }
    }

    pub open spec fn corrupted(self) -> bool {
        self.state is Corrupted
    }

    /// Create a new [`LocoStream`] with an empty read buffer.
    pub fn new() -> (r: LocoStream)
        ensures
            r.wf(),
            r.pending() == Seq::<u8>::empty(),
            r.state is Pending,
    {
        let r = LocoStream { state: StreamState::Pending, read_buffer: VecDeque::new() };
        proof {
            assert(r.pending() =~= Seq::<u8>::empty());
        }
        r
    }

    /// Current parser state.
    pub fn state(&self) -> (r: &StreamState)
        ensures
            *r == self.state,
    {
        &self.state
    }

    /// Law (fragmentation independence): however the transport fragments
    /// its bytes, appending a chunk to the read buffer appends it to the
    /// pending byte sequence; the parser's progress depends only on the
    /// concatenation of everything fed so far.
    pub proof fn lemma_pending_append(s1: LocoStream, s2: LocoStream, chunk: Seq<u8>)
        requires
            !(s1.state is Corrupted),
            s2.state == s1.state,
            s2.read_buffer@ == s1.read_buffer@ + chunk,
        ensures
            s2.pending() == s1.pending() + chunk,
    {
        assert(s2.pending() =~= s1.pending() + chunk);
    }

    /// Try to read a single command from the read buffer.
    ///
    /// Returns the next fully buffered command, or `None` when the buffered
    /// bytes hold less than a complete frame; in that case nothing is
    /// consumed and a later call resumes where this one stopped.  A head
    /// whose method field has an invalid-UTF-8 logical prefix cannot be
    /// decoded: the stream moves to `Corrupted` and must be discarded.
    pub fn read(&mut self) -> (r: Option<Command>)
        requires
            old(self).wf(),
            !old(self).corrupted(),
        ensures
            final(self).wf(),
            match r {
                Some(cmd) => {
                    &&& cmd.header.method.wf()
                    &&& method_prefix_ok(cmd.header.method@)
                    &&& cmd.data@.len() <= u32::MAX
                    &&& old(self).pending() == frame_bytes(cmd.header, cmd.data@)
                        + final(self).pending()
                    &&& final(self).state is Pending
                },
                None => {
                    if final(self).corrupted() {
                        &&& old(self).pending().len() >= 22
                        &&& !method_prefix_ok(old(self).pending().subrange(6, 17))
                    } else {
                        &&& final(self).pending() == old(self).pending()
                        &&& !frame_complete(old(self).pending())
                        &&& if old(self).pending().len() < 22 {
                            final(self).state == old(self).state
                        } else {
                            final(self).state is Header
                        }
                    }
                },
            },
    {
        proof {
            lemma_auto_spec_u32_to_from_le_bytes();
        }
        if let StreamState::Pending = self.state {
            if self.read_buffer.len() < 22 {
                return None;
            }
            let head = pop_bytes(&mut self.read_buffer, 22);
            let head_slice = sub_bytes(head.as_slice(), 0, 18);
            let header = match decode_header(head_slice.as_slice()) {
                Some(h) => h,
                None => {
                    self.state = StreamState::Corrupted;
                    proof {
                        assert(head_slice@.subrange(6, 17) =~= old(self).pending().subrange(
                            6,
                            17,
                        ));
                    }
                    return None;
                },
            };
            let size_bytes = sub_bytes(head.as_slice(), 18, 4);
            let data_size = u32_from_le_bytes(size_bytes.as_slice());
            self.state = StreamState::Header(RawHeader { header, data_size });
            proof {
                assert(head@.subrange(0, 18) + head@.subrange(18, 22) =~= head@);
                assert(self.pending() =~= old(self).pending());
            }
        }
        let ghost mid = *self;

        if let StreamState::Header(rh) = self.state {
            if self.read_buffer.len() < rh.data_size as usize {
                proof {
                    crate::command::lemma_header_bytes_len(rh.header);
                    let p = mid.pending();
                    assert(p.len() == 22 + mid.read_buffer@.len());
                    assert(p.subrange(18, 22) =~= spec_u32_to_le_bytes(rh.data_size));
                    assert(!frame_complete(p));
                }
                return None;
            }
            let data = pop_bytes(&mut self.read_buffer, rh.data_size as usize);
            self.state = StreamState::Pending;
            let cmd = Command { header: rh.header, data };
            proof {
                crate::command::lemma_header_bytes_len(rh.header);
                assert(cmd.data@.len() == rh.data_size);
                assert(mid.pending() =~= frame_bytes(cmd.header, cmd.data@) + self.pending());
            }
            return Some(cmd);
        }

        proof {
            assert(false);
        }
        None
    }
}

impl Default for LocoSink {
    /// An empty sink, as [`LocoSink::new`] builds it.
    fn default() -> (r: LocoSink)
        ensures
            r.write_buffer@.len() == 0,
    {
        LocoSink::new()
    }
}

impl Default for LocoStream {
    /// An empty stream, as [`LocoStream::new`] builds it.
    fn default() -> (r: LocoStream)
        ensures
            r.wf(),
            r.pending() == Seq::<u8>::empty(),
            r.state is Pending,
    {
        LocoStream::new()
    }
}

} // verus!
