//! Buffered command read/write over a byte stream.
//!
//! Like a buffered reader and writer in one: parses commands out of an
//! internal buffer first, and pulls from the stream only when the buffer
//! holds less than a whole frame.

use std::collections::VecDeque;
use vstd::bytes::*;
use vstd::prelude::*;

use crate::command::client::RawHeader;
use crate::command::codec::encode_head;
use crate::command::{
    decode_header, frame_bytes, frame_complete, frames_bytes, header_bytes,
    lemma_frames_bytes_push, method_prefix_ok, Command, Error,
};
use crate::io::{ByteRead, ByteWrite};
use crate::wire::{pop_bytes, push_bytes, sub_bytes};

verus! {

/// Buffered command processor over a byte stream.
pub struct CommandProcessor<S> {
    /// Underlying stream.
    pub stream: S,
    /// Decoded head of a frame whose payload has not fully arrived.
    pub current: Option<RawHeader>,
    /// Bytes pulled from the stream and not yet parsed.
    pub read_buffer: VecDeque<u8>,
}

impl<S> CommandProcessor<S> {
    pub open spec fn wf(&self) -> bool {
        match self.current {
            Some(rh) => rh.header.method.wf() && method_prefix_ok(rh.header.method@),
            None => true,
        }
    }

    /// All bytes pulled off the stream and not yet turned into a command.
    pub open spec fn buffered(&self) -> Seq<u8> {
        match self.current {
            Some(rh) => header_bytes(rh.header) + spec_u32_to_le_bytes(rh.data_size)
                + self.read_buffer@,
            None => self.read_buffer@,
        }
    }

    /// Create a processor over a stream.
    pub fn new(stream: S) -> (r: CommandProcessor<S>)
        ensures
            r.stream == stream,
            r.current is None,
            r.buffered() == Seq::<u8>::empty(),
            r.wf(),
    {
        let r = CommandProcessor { stream, current: None, read_buffer: VecDeque::new() };
        proof {
            assert(r.buffered() =~= Seq::<u8>::empty());
        }
        r
    }

    /// The underlying stream.
    pub fn stream(&self) -> (r: &S)
        ensures
            *r == self.stream,
    {
        &self.stream
    }

    /// The underlying stream, for filling and draining.
    pub fn stream_mut(&mut self) -> (r: &mut S)
        ensures
            *r == old(self).stream,
            final(self).stream == *final(r),
            final(self).current == old(self).current,
            final(self).read_buffer == old(self).read_buffer,
    {
        &mut self.stream
    }

    /// The decoded head currently waited on, if any.
    pub fn current_header(&self) -> (r: Option<RawHeader>)
        ensures
            r == self.current,
    {
        self.current
    }

    /// Consume the processor and return the stream.
    pub fn into_inner(self) -> (r: S)
        ensures
            r == self.stream,
    {
        self.stream
    }
}

impl<S: ByteRead> CommandProcessor<S> {
    /// All unparsed bytes: the internal buffer, then what the stream holds.
    pub open spec fn pending(&self) -> Seq<u8> {
        self.buffered() + self.stream.readable()
    }

    /// Parse one command out of the internal buffer alone.
    fn try_read_command(&mut self) -> (r: Result<Option<Command>, Error>)
        requires
            old(self).wf(),
            old(self).buffered().len() <= usize::MAX,
        ensures
            final(self).wf(),
            final(self).stream == old(self).stream,
            final(self).buffered().len() <= old(self).buffered().len(),
            match r {
                Ok(Some(cmd)) => {
                    &&& cmd.header.method.wf()
                    &&& method_prefix_ok(cmd.header.method@)
                    &&& cmd.data@.len() <= u32::MAX
                    &&& old(self).buffered() == frame_bytes(cmd.header, cmd.data@)
                        + final(self).buffered()
                    &&& final(self).current is None
                },
                Ok(None) => {
                    &&& final(self).buffered() == old(self).buffered()
                    &&& !frame_complete(old(self).buffered())
                },
                Err(Error::Malformed) => {
                    &&& old(self).current is None
                    &&& old(self).buffered().len() >= 22
                    &&& !method_prefix_ok(old(self).buffered().subrange(6, 17))
                    &&& final(self).current is None
                    &&& final(self).buffered() == old(self).buffered().skip(22)
                },
                Err(_) => false,
            },
    {
        proof {
            lemma_auto_spec_u32_to_from_le_bytes();
        }
        if self.current.is_none() {
            if self.read_buffer.len() < 22 {
                return Ok(None);
            }
            let head = pop_bytes(&mut self.read_buffer, 22);
            let head_slice = sub_bytes(head.as_slice(), 0, 18);
            let header = match decode_header(head_slice.as_slice()) {
                Some(h) => h,
                None => {
                    proof {
                        assert(head_slice@.subrange(6, 17) =~= old(self).buffered().subrange(
                            6,
                            17,
                        ));
                        assert(self.read_buffer@ =~= old(self).buffered().skip(22));
                    }
                    return Err(Error::Malformed);
                },
            };
            let size_bytes = sub_bytes(head.as_slice(), 18, 4);
            let data_size = u32_from_le_bytes(size_bytes.as_slice());
            self.current = Some(RawHeader { header, data_size });
            proof {
                assert(head@.subrange(0, 18) + head@.subrange(18, 22) =~= head@);
                assert(self.buffered() =~= old(self).buffered());
            }
        }
        let ghost mid = *self;

        if let Some(rh) = self.current {
            proof {
                crate::command::lemma_header_bytes_len(rh.header);
                assert(mid.buffered().len() == 22 + mid.read_buffer@.len());
                assert(mid.buffered().subrange(18, 22) =~= spec_u32_to_le_bytes(rh.data_size));
            }
            if self.read_buffer.len() < rh.data_size as usize {
                proof {
                    assert(!frame_complete(mid.buffered()));
                }
                return Ok(None);
            }
            let data = pop_bytes(&mut self.read_buffer, rh.data_size as usize);
            self.current = None;
            let cmd = Command { header: rh.header, data };
            proof {
                assert(mid.buffered() =~= frame_bytes(cmd.header, cmd.data@) + self.buffered());
            }
            return Ok(Some(cmd));
        }

        proof {
            assert(false);
        }
        Ok(None)
    }

    /// Try to read one command.
    ///
    /// The internal buffer is parsed first; the stream is pulled (up to
    /// 2048 bytes) only when the buffer holds less than a whole frame.
    /// `Ok(None)` means everything buffered so far is still short of a
    /// frame.  `Malformed` means a 22-byte head held an undecodable method;
    /// the head is consumed and the stream is desynchronized.
    pub fn read_command(&mut self) -> (r: Result<Option<Command>, Error>)
        requires
            old(self).wf(),
            old(self).pending().len() <= usize::MAX,
        ensures
            final(self).wf(),
            match r {
                Ok(Some(cmd)) => {
                    &&& cmd.header.method.wf()
                    &&& method_prefix_ok(cmd.header.method@)
                    &&& cmd.data@.len() <= u32::MAX
                    &&& old(self).pending() == frame_bytes(cmd.header, cmd.data@)
                        + final(self).pending()
                },
                Ok(None) => {
                    &&& final(self).pending() == old(self).pending()
                    &&& !frame_complete(final(self).buffered())
                    &&& final(self).stream.readable() == old(self).stream.readable().skip(
                        if old(self).stream.readable().len() < 2048 {
                            old(self).stream.readable().len() as int
                        } else {
                            2048
                        },
                    )
                },
                Err(Error::Malformed) => {
                    &&& old(self).pending().len() >= 22
                    &&& !method_prefix_ok(old(self).pending().subrange(6, 17))
                    &&& final(self).current is None
                    &&& final(self).pending() == old(self).pending().skip(22)
                },
                Err(_) => false,
            },
    {
        match self.try_read_command() {
            Ok(Some(command)) => {
                proof {
                    assert(old(self).pending() =~= frame_bytes(
                        command.header,
                        command.data@,
                    ) + self.pending());
                }
                Ok(Some(command))
            },
            Ok(None) => {
                let avail = self.stream.available();
                let pull = if avail < 2048 {
                    avail
                } else {
                    2048
                };
                let chunk = self.stream.read_exact(pull);
                push_bytes(&mut self.read_buffer, chunk.as_slice());
                let ghost mid = *self;
                proof {
                    assert(mid.pending() =~= old(self).pending());
                    assert(mid.buffered().len() <= old(self).pending().len());
                }
                match self.try_read_command() {
                    Ok(Some(command)) => {
                        proof {
                            assert(old(self).pending() =~= frame_bytes(
                                command.header,
                                command.data@,
                            ) + self.pending());
                        }
                        Ok(Some(command))
                    },
                    Ok(None) => {
                        proof {
                            assert(self.pending() =~= old(self).pending());
                        }
                        Ok(None)
                    },
                    Err(e) => {
                        proof {
                            assert(mid.pending() =~= old(self).pending());
                            assert(mid.pending().subrange(6, 17) =~= mid.buffered().subrange(
                                6,
                                17,
                            ));
                            assert(self.pending() =~= old(self).pending().skip(22));
                        }
                        Err(e)
                    },
                }
            },
            Err(e) => {
                proof {
                    assert(old(self).pending().subrange(6, 17) =~= old(self).buffered().subrange(
                        6,
                        17,
                    ));
                    assert(self.pending() =~= old(self).pending().skip(22));
                }
                Err(e)
            },
        }
    }
}

impl<S: ByteWrite> CommandProcessor<S> {
    /// Write one whole command frame to the stream; returns the byte count.
    pub fn write_commmand(&mut self, command: Command) -> (r: Result<usize, Error>)
        requires
            command.data@.len() <= u32::MAX,
            command.data@.len() + 22 <= usize::MAX,
        ensures
            final(self).current == old(self).current,
            final(self).read_buffer == old(self).read_buffer,
            final(self).stream.consumed() == old(self).stream.consumed(),
            r is Ok,
            r matches Ok(n) ==> {
                &&& n == 22 + command.data@.len()
                &&& final(self).stream.written() == old(self).stream.written() + frame_bytes(
                    command.header,
                    command.data@,
                )
            },
    {
        let head = encode_head(&command);
        self.stream.write_bytes(head.as_slice());
        self.stream.write_bytes(command.data.as_slice());
        proof {
            assert(self.stream.written() =~= old(self).stream.written() + frame_bytes(
                command.header,
                command.data@,
            ));
        }
        Ok(22 + command.data.len())
    }

    /// Write every command of the batch to the stream, in order; returns
    /// the total byte count.
    pub fn write_all_command(&mut self, list: Vec<Command>) -> (r: Result<usize, Error>)
        requires
            forall|i: int|
                0 <= i < list@.len() ==> (#[trigger] list@[i]).data@.len() <= u32::MAX,
            frames_bytes(list@).len() <= usize::MAX,
        ensures
            final(self).current == old(self).current,
            final(self).read_buffer == old(self).read_buffer,
            final(self).stream.consumed() == old(self).stream.consumed(),
            r is Ok,
            r matches Ok(n) ==> {
                &&& n == frames_bytes(list@).len()
                &&& final(self).stream.written() == old(self).stream.written() + frames_bytes(
                    list@,
                )
            },
    {
        let mut written: usize = 0;
        let mut i: usize = 0;
        proof {
            assert(list@.take(0) =~= Seq::<Command>::empty());
            assert(frames_bytes(list@.take(0)) =~= Seq::<u8>::empty());
        }
        while i < list.len()
            invariant
                i <= list@.len(),
                forall|k: int|
                    0 <= k < list@.len() ==> (#[trigger] list@[k]).data@.len() <= u32::MAX,
                frames_bytes(list@).len() <= usize::MAX,
                written == frames_bytes(list@.take(i as int)).len(),
                self.current == old(self).current,
                self.read_buffer == old(self).read_buffer,
                self.stream.consumed() == old(self).stream.consumed(),
                self.stream.written() == old(self).stream.written() + frames_bytes(
                    list@.take(i as int),
                ),
            decreases list@.len() - i,
        {
            let command = &list[i];
            proof {
                lemma_auto_spec_u32_to_from_le_bytes();
                lemma_frames_bytes_push(list@.take(i as int), list@[i as int]);
                assert(list@.take(i + 1) =~= list@.take(i as int).push(list@[i as int]));
                lemma_frames_bytes_prefix_len(list@, i + 1);
                crate::command::lemma_header_bytes_len(command.header);
            }
            let head = encode_head(command);
            self.stream.write_bytes(head.as_slice());
            self.stream.write_bytes(command.data.as_slice());
            written = written + 22 + command.data.len();
            i = i + 1;
            proof {
                assert(self.stream.written() =~= old(self).stream.written() + frames_bytes(
                    list@.take(i as int),
                ));
            }
        }
        proof {
            assert(list@.take(list@.len() as int) =~= list@);
        }
        Ok(written)
    }
}

/// The bytes of a batch prefix are a prefix of the batch's bytes.
pub proof fn lemma_frames_bytes_prefix_len(cmds: Seq<Command>, n: int)
    requires
        0 <= n <= cmds.len(),
    ensures
        frames_bytes(cmds.take(n)).len() <= frames_bytes(cmds).len(),
{
    lemma_frames_bytes_suffix_ge(cmds, n);
}

/// Helper: the whole batch's bytes are at least any prefix's bytes.
proof fn lemma_frames_bytes_suffix_ge(cmds: Seq<Command>, n: int)
    requires
        0 <= n <= cmds.len(),
    ensures
        frames_bytes(cmds).len() >= frames_bytes(cmds.take(n)).len(),
    decreases cmds.len() - n,
{
    if n < cmds.len() {
        lemma_frames_bytes_push(cmds.take(n), cmds[n]);
        assert(cmds.take(n + 1) =~= cmds.take(n).push(cmds[n]));
        lemma_frames_bytes_suffix_ge(cmds, n + 1);
    } else {
        assert(cmds.take(n) =~= cmds);
    }
}

} // verus!
