//! Command read/write over a byte stream.
//!
//! [`CommandCodec`] frames commands onto any byte sink and parses them from
//! any byte source, resuming a partially arrived frame across calls.

use vstd::bytes::*;
use vstd::prelude::*;

use crate::command::client::RawHeader;
use crate::command::{
    decode_header, encode_header, frame_bytes, frame_complete, header_bytes, method_prefix_ok,
    Command,
};
use crate::io::{ByteRead, ByteWrite};
use crate::wire::sub_bytes;

verus! {

/// Error of command stream operations.
#[derive(Debug, Clone, Copy, PartialEq, Eq)]
pub enum StreamError {
    /// The source ended before a whole frame was available.
    ShortRead,
    /// A 22-byte head held a method whose logical prefix is not valid
    /// UTF-8; the stream is desynchronized.
    Malformed,
}

/// Encode the 22-byte head of a command: header then payload length.
pub fn encode_head(command: &Command) -> (r: Vec<u8>)
    requires
        command.data@.len() <= u32::MAX,
    ensures
        r@ == header_bytes(command.header) + spec_u32_to_le_bytes(command.data@.len() as u32),
        r@.len() == 22,
{
    proof {
        lemma_auto_spec_u32_to_from_le_bytes();
    }
    let mut r = encode_header(&command.header);
    let mut size = u32_to_le_bytes(command.data.len() as u32);
    r.append(&mut size);
    r
}

/// Decode a 22-byte head into a command whose payload is zeroed to the
/// announced size, ready to be filled.  Fails exactly when the method
/// field's logical prefix is not valid UTF-8.
pub fn decode_head(buf: &[u8]) -> (r: Result<Command, StreamError>)
    requires
        buf@.len() == 22,
    ensures
        r is Ok <==> method_prefix_ok(buf@.subrange(6, 17)),
        r matches Ok(c) ==> {
            &&& header_bytes(c.header) == buf@.subrange(0, 18)
            &&& c.header.method.wf()
            &&& c.data@.len() == spec_u32_from_le_bytes(buf@.subrange(18, 22))
            &&& forall|i: int| 0 <= i < c.data@.len() ==> c.data@[i] == 0
        },
{
    let head_slice = sub_bytes(buf, 0, 18);
    proof {
        assert(head_slice@.subrange(6, 17) =~= buf@.subrange(6, 17));
    }
    let header = match decode_header(head_slice.as_slice()) {
        Some(h) => h,
        None => {
            return Err(StreamError::Malformed);
        },
    };
    let size_bytes = sub_bytes(buf, 18, 4);
    let data_size = u32_from_le_bytes(size_bytes.as_slice());
    let data = vec![0u8; data_size as usize];
    Ok(Command { header, data })
}

/// Provides command read and write operations over a byte stream.
pub struct CommandCodec<S> {
    /// Underlying stream.
    pub stream: S,
    /// Decoded head of a frame whose payload has not fully arrived.
    pub current_header: Option<RawHeader>,
}

impl<S> CommandCodec<S> {
    pub open spec fn wf(&self) -> bool {
        match self.current_header {
            Some(rh) => rh.header.method.wf() && method_prefix_ok(rh.header.method@),
            None => true,
        }
    }

    /// Create a codec over a stream.
    pub fn new(stream: S) -> (r: CommandCodec<S>)
        ensures
            r.stream == stream,
            r.current_header is None,
            r.wf(),
    {
        CommandCodec { stream, current_header: None }
    }

    /// The underlying stream.
    pub fn stream(&self) -> (r: &S)
        ensures
            *r == self.stream,
    {
        &self.stream
    }

    /// The underlying stream, for filling and draining.
    pub fn stream_mut(&mut self) -> (r: &mut S)
        ensures
            *r == old(self).stream,
            final(self).stream == *final(r),
            final(self).current_header == old(self).current_header,
    {
        &mut self.stream
    }

    /// Consume the codec and return the stream.
    pub fn unwrap(self) -> (r: S)
        ensures
            r == self.stream,
    {
        self.stream
    }

    /// Consume the codec and return the stream.
    pub fn into_inner(self) -> (r: S)
        ensures
            r == self.stream,
    {
        self.stream
    }
}

impl<S: ByteRead> CommandCodec<S> {
    /// All bytes not yet turned into a command: the bytes of an already
    /// decoded head, then what the source holds.
    pub open spec fn pending(&self) -> Seq<u8> {
        match self.current_header {
            Some(rh) => header_bytes(rh.header) + spec_u32_to_le_bytes(rh.data_size)
                + self.stream.readable(),
            None => self.stream.readable(),
        }
    }

    /// Read one command from the stream; returns the consumed byte count
    /// and the command.
    ///
    /// Fails with `ShortRead` when less than a whole frame is available (a
    /// decoded head is kept, and a later call resumes after it), and with
    /// `Malformed` when a head's method field cannot be decoded; the 22
    /// head bytes are then consumed and the stream is desynchronized.
    pub fn read(&mut self) -> (r: Result<(usize, Command), StreamError>)
        requires
            old(self).wf(),
            old(self).pending().len() <= usize::MAX,
        ensures
            final(self).wf(),
            match r {
                Ok((n, cmd)) => {
                    &&& cmd.header.method.wf()
                    &&& method_prefix_ok(cmd.header.method@)
                    &&& cmd.data@.len() <= u32::MAX
                    &&& n == 22 + cmd.data@.len()
                    &&& old(self).pending() == frame_bytes(cmd.header, cmd.data@)
                        + final(self).pending()
                    &&& final(self).current_header is None
                },
                Err(StreamError::ShortRead) => {
                    &&& final(self).pending() == old(self).pending()
                    &&& !frame_complete(old(self).pending())
                },
                Err(StreamError::Malformed) => {
                    &&& old(self).current_header is None
                    &&& old(self).pending().len() >= 22
                    &&& !method_prefix_ok(old(self).pending().subrange(6, 17))
                    &&& final(self).current_header is None
                    &&& final(self).pending() == old(self).pending().skip(22)
                },
            },
    {
        proof {
            lemma_auto_spec_u32_to_from_le_bytes();
        }
        if self.current_header.is_none() {
            if self.stream.available() < 22 {
                return Err(StreamError::ShortRead);
            }
            let head = self.stream.read_exact(22);
            let head_slice = sub_bytes(head.as_slice(), 0, 18);
            let header = match decode_header(head_slice.as_slice()) {
                Some(h) => h,
                None => {
                    proof {
                        assert(head_slice@.subrange(6, 17) =~= old(self).pending().subrange(
                            6,
                            17,
                        ));
                        assert(self.stream.readable() =~= old(self).pending().skip(22));
                    }
                    return Err(StreamError::Malformed);
                },
            };
            let size_bytes = sub_bytes(head.as_slice(), 18, 4);
            let data_size = u32_from_le_bytes(size_bytes.as_slice());
            self.current_header = Some(RawHeader { header, data_size });
            proof {
                assert(head@.subrange(0, 18) + head@.subrange(18, 22) =~= head@);
                assert(self.pending() =~= old(self).pending());
            }
        }
        let ghost mid = *self;

        if let Some(rh) = self.current_header {
            proof {
                crate::command::lemma_header_bytes_len(rh.header);
            }
            let avail = self.stream.available();
            if avail < rh.data_size as usize {
                proof {
                    let p = mid.pending();
                    assert(p.len() == 22 + mid.stream.readable().len());
                    assert(p.subrange(18, 22) =~= spec_u32_to_le_bytes(rh.data_size));
                    assert(!frame_complete(p));
                }
                return Err(StreamError::ShortRead);
            }
            let data = self.stream.read_exact(rh.data_size as usize);
            self.current_header = None;
            let cmd = Command { header: rh.header, data };
            proof {
                assert(mid.pending().len() == 22 + mid.stream.readable().len());
                assert(22 + cmd.data@.len() <= mid.pending().len());
            }
            let n = 22 + cmd.data.len();
            proof {
                assert(mid.pending() =~= frame_bytes(cmd.header, cmd.data@) + self.pending());
            }
            return Ok((n, cmd));
        }

        proof {
            assert(false);
        }
        Err(StreamError::ShortRead)
    }
}

impl<S: ByteWrite> CommandCodec<S> {
    /// Write one whole command frame to the stream; returns the byte count.
    pub fn write(&mut self, command: &Command) -> (r: Result<usize, StreamError>)
        requires
            command.data@.len() <= u32::MAX,
            command.data@.len() + 22 <= usize::MAX,
        ensures
            final(self).current_header == old(self).current_header,
            final(self).stream.consumed() == old(self).stream.consumed(),
            r is Ok,
            r matches Ok(n) ==> {
                &&& n == 22 + command.data@.len()
                &&& final(self).stream.written() == old(self).stream.written() + frame_bytes(
                    command.header,
                    command.data@,
                )
            },
    {
        let head = encode_head(command);
        self.stream.write_bytes(head.as_slice());
        self.stream.write_bytes(command.data.as_slice());
        proof {
            assert(self.stream.written() =~= old(self).stream.written() + frame_bytes(
                command.header,
                command.data@,
            ));
        }
        Ok(22 + command.data.len())
    }
}

} // verus!
