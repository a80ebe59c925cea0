//! Command data model and its wire format.
//!
//! A command frame is, little-endian throughout: a 4-byte `id`, a 2-byte
//! `status`, an 11-byte NUL-padded `method`, a 1-byte `data_type`, a 4-byte
//! `data_size`, and exactly `data_size` payload bytes.

use vstd::bytes::*;
use vstd::prelude::*;
use vstd::string::StringSliceAdditionalSpecFns;

use crate::wire::sub_bytes;

pub mod builder;
pub mod client;
pub mod codec;
pub mod construct;
pub mod processor;

verus! {

/// Byte length of the fixed header (id, status, method, data_type).
pub const HEADER_SIZE: usize = 18;

/// Byte length of the fixed header followed by the 4-byte payload length.
pub const HEAD_SIZE: usize = 22;

/// True when `n` is the index of the first NUL byte of `s`, or `s.len()`
/// when `s` holds none.
pub open spec fn is_first_nul(s: Seq<u8>, n: int) -> bool {
    &&& 0 <= n <= s.len()
    &&& forall|j: int| 0 <= j < n ==> s[j] != 0
    &&& n < s.len() ==> s[n] == 0
}

/// The first NUL index of a byte sequence is unique.
pub proof fn lemma_first_nul_unique(s: Seq<u8>, n1: int, n2: int)
    requires
        is_first_nul(s, n1),
        is_first_nul(s, n2),
    ensures
        n1 == n2,
{
    if n1 < n2 {
        assert(s[n1] != 0);
    }
    if n2 < n1 {
        assert(s[n2] != 0);
    }
}

/// The index of the first NUL byte of `s`, or `s.len()` when none.
pub open spec fn first_nul(s: Seq<u8>) -> int
    decreases s.len(),
{
    if s.len() == 0 {
        0
    } else if s[0] == 0 {
        0
    } else {
        1 + first_nul(s.skip(1))
    }
}

pub proof fn lemma_first_nul(s: Seq<u8>)
    ensures
        is_first_nul(s, first_nul(s)),
    decreases s.len(),
{
    if s.len() != 0 && s[0] != 0 {
        lemma_first_nul(s.skip(1));
        assert forall|j: int| 0 <= j < first_nul(s) implies s[j] != 0 by {
            if j > 0 {
                assert(s.skip(1)[j - 1] != 0);
            }
        }
        if first_nul(s) < s.len() {
            assert(s.skip(1)[first_nul(s) - 1] == 0);
        }
    }
}

/// True when the logical prefix (the bytes before the first NUL) is valid
/// UTF-8: the condition for an 11-byte method buffer to decode.
pub open spec fn method_prefix_ok(mb: Seq<u8>) -> bool {
    vstd::utf8::valid_utf8(mb.take(first_nul(mb)))
}

/// 11-byte method identifier, right-padded with NUL bytes.
#[derive(Debug, Clone, Copy, PartialEq, Eq)]
pub struct Method {
    len: usize,
    buf: [u8; 11],
}

impl View for Method {
    type V = Seq<u8>;

    closed spec fn view(&self) -> Seq<u8> {
        self.buf@
    }
}

impl Method {
    /// Logical length: the offset of the first NUL byte, or 11 when none.
    pub closed spec fn spec_len(self) -> int {
        self.len as int
    }

    pub open spec fn wf(self) -> bool {
        &&& self@.len() == 11
        &&& is_first_nul(self@, self.spec_len())
    }

    /// Create a new [`Method`] from a string.
    ///
    /// Returns `None` when the UTF-8 byte length exceeds 11 or the string
    /// holds an interior NUL byte (which would break the round trip).
    pub fn new(string: &str) -> (r: Option<Method>)
        ensures
            match r {
                Some(m) => {
                    &&& m.wf()
                    &&& method_prefix_ok(m@)
                    &&& string.spec_bytes().len() <= 11
                    &&& m.spec_len() == string.spec_bytes().len()
                    &&& m@ == string.spec_bytes() + Seq::new(
                        (11 - string.spec_bytes().len()) as nat,
                        |i: int| 0u8,
                    )
                    &&& forall|j: int|
                        0 <= j < string.spec_bytes().len() ==> string.spec_bytes()[j] != 0
                },
                None => string.spec_bytes().len() > 11 || exists|j: int|
                    0 <= j < string.spec_bytes().len() && string.spec_bytes()[j] == 0,
            },
    {
        let bytes = string.as_bytes();
        let len = bytes.len();
        if len > 11 {
            return None;
        }

        let mut buf = [0u8; 11];
        let mut i: usize = 0;
        while i < len
            invariant
                i <= len,
                len <= 11,
                len == bytes@.len(),
                bytes@ == string.spec_bytes(),
                buf@.len() == 11,
                forall|j: int| 0 <= j < i ==> buf@[j] == bytes@[j] && buf@[j] != 0,
                forall|j: int| i <= j < 11 ==> buf@[j] == 0,
            decreases len - i,
        {
            if bytes[i] == 0 {
                return None;
            }
            buf[i] = bytes[i];
            i = i + 1;
        }

        let m = Method { len, buf };
        proof {
            assert(m@ =~= string.spec_bytes() + Seq::new(
                (11 - string.spec_bytes().len()) as nat,
                |i: int| 0u8,
            ));
            lemma_first_nul(m@);
            lemma_first_nul_unique(m@, first_nul(m@), len as int);
            assert(m@.take(first_nul(m@)) =~= string.spec_bytes());
            vstd::utf8::encode_utf8_valid_utf8(string@);
        }
        Some(m)
    }

    pub fn is_empty(&self) -> (r: bool)
        ensures
            r == (self.spec_len() == 0),
    {
        self.len == 0
    }

    pub fn len(&self) -> (r: usize)
        ensures
            r == self.spec_len(),
    {
        self.len
    }

    /// Canonical serialization: the full 11-byte buffer.
    pub fn serialize(&self) -> (r: [u8; 11])
        ensures
            r@ == self@,
    {
        self.buf
    }

    /// The logical string: the bytes before the first NUL, decoded as
    /// UTF-8.  Returns `None` when those bytes are not valid UTF-8, which
    /// can only happen to a [`Method`] deserialized from raw bytes.
    pub fn as_string(&self) -> (r: Option<String>)
        requires
            self.wf(),
        ensures
            r is Some <==> vstd::utf8::valid_utf8(self@.take(self.spec_len())),
            r matches Some(s) ==> vstd::utf8::encode_utf8(s@) == self@.take(self.spec_len()),
    {
        let bytes = crate::wire::sub_bytes(self.buf.as_slice(), 0, self.len);
        proof {
            vstd::array::axiom_spec_array_as_slice(&self.buf);
            assert(bytes@ =~= self@.take(self.spec_len()));
        }
        string_from_utf8(bytes)
    }

    /// Reconstruct a [`Method`] from 11 bytes; the logical length is the
    /// offset of the first NUL byte, or 11 when none.  Fails when the
    /// logical prefix is not valid UTF-8.
    pub fn deserialize(buf: [u8; 11]) -> (r: Option<Method>)
        ensures
            r is Some <==> method_prefix_ok(buf@),
            r matches Some(m) ==> {
                &&& m@ == buf@
                &&& m.wf()
                &&& m.spec_len() == first_nul(buf@)
                &&& method_prefix_ok(m@)
            },
    {
        let mut i: usize = 0;
        while i < 11 && buf[i] != 0
            invariant
                i <= 11,
                forall|j: int| 0 <= j < i ==> buf@[j] != 0,
            decreases 11 - i,
        {
            i = i + 1;
        }
        proof {
            lemma_first_nul(buf@);
            lemma_first_nul_unique(buf@, first_nul(buf@), i as int);
        }
        let prefix = crate::wire::sub_bytes(buf.as_slice(), 0, i);
        proof {
            assert(prefix@ =~= buf@.take(first_nul(buf@)));
        }
        if string_from_utf8(prefix).is_none() {
            return None;
        }
        Some(Method { len: i, buf })
    }
}

/// Relies on `String::from_utf8`: it succeeds exactly on valid UTF-8 input
/// and the returned string's UTF-8 encoding is the input bytes.
#[verifier::external_body]
fn string_from_utf8(bytes: Vec<u8>) -> (r: Option<String>)
    ensures
        r is Some <==> vstd::utf8::valid_utf8(bytes@),
        r matches Some(s) ==> vstd::utf8::encode_utf8(s@) == bytes@,
{
    String::from_utf8(bytes).ok()
}

/// Fixed 18-byte command header.
#[derive(Debug, Clone, Copy, PartialEq, Eq)]
pub struct Header {
    /// Caller-chosen correlation identifier.
    pub id: u32,
    /// Caller-chosen status code.
    pub status: u16,
    /// Method identifier.
    pub method: Method,
    /// Caller-chosen payload discriminator.
    pub data_type: u8,
}

/// A framed protocol message: header and variable payload.
#[derive(Debug, Clone, PartialEq, Eq)]
pub struct Command {
    pub header: Header,
    pub data: Vec<u8>,
}

/// Error of command construction and payload codecs.
#[derive(Debug, Clone, Copy, PartialEq, Eq)]
pub enum Error {
    /// A user-supplied payload encoder or decoder rejected its input.
    Codec,
    /// A payload is longer than the 32-bit length field can announce.
    Oversize,
    /// A 22-byte head held a method whose logical prefix is not valid
    /// UTF-8.
    Malformed,
}

/// The 18 bytes of a header on the wire.
pub open spec fn header_bytes(h: Header) -> Seq<u8> {
    spec_u32_to_le_bytes(h.id) + spec_u16_to_le_bytes(h.status) + h.method@ + seq![h.data_type]
}

/// The full frame of a command: header, 4-byte payload length, payload.
pub open spec fn frame_bytes(h: Header, data: Seq<u8>) -> Seq<u8> {
    header_bytes(h) + spec_u32_to_le_bytes(data.len() as u32) + data
}

/// The payload length announced by the first 22 bytes of `b`.
pub open spec fn frame_data_size(b: Seq<u8>) -> int
    recommends
        b.len() >= 22,
{
    spec_u32_from_le_bytes(b.subrange(18, 22)) as int
}

/// True when `b` starts with one whole command frame.
pub open spec fn frame_complete(b: Seq<u8>) -> bool {
    b.len() >= 22 && b.len() - 22 >= frame_data_size(b)
}

pub proof fn lemma_header_bytes_len(h: Header)
    ensures
        header_bytes(h).len() == 18,
{
    lemma_auto_spec_u32_to_from_le_bytes();
    lemma_auto_spec_u16_to_from_le_bytes();
    vstd::array::array_len_matches_n::<u8, 11>(&h.method.buf);
}

/// Law: serializing a command always yields a complete frame, whatever bytes
/// follow it, and the frame occupies exactly `22 + data.len()` bytes.
pub proof fn lemma_frame_bytes_complete(h: Header, data: Seq<u8>, rest: Seq<u8>)
    requires
        h.method.wf(),
        data.len() <= u32::MAX,
    ensures
        frame_bytes(h, data).len() == 22 + data.len(),
        frame_complete(frame_bytes(h, data) + rest),
        frame_data_size(frame_bytes(h, data) + rest) == data.len(),
{
    lemma_auto_spec_u32_to_from_le_bytes();
    lemma_auto_spec_u16_to_from_le_bytes();
    lemma_header_bytes_len(h);
    let b = frame_bytes(h, data) + rest;
    assert(b.subrange(18, 22) =~= spec_u32_to_le_bytes(data.len() as u32));
    assert(spec_u32_from_le_bytes(spec_u32_to_le_bytes(data.len() as u32)) == data.len() as u32);
}

/// Law: a byte sequence determines at most one framed command.  Two framings
/// that agree as prefixes of one byte sequence agree on the header, the
/// payload, and the remainder.  Together with the contracts of the sink and
/// the stream this gives the round trip: parsing a serialized command yields
/// that command, under any fragmentation of the input.
pub proof fn lemma_frame_bytes_unique(
    h1: Header,
    d1: Seq<u8>,
    r1: Seq<u8>,
    h2: Header,
    d2: Seq<u8>,
    r2: Seq<u8>,
)
    requires
        h1.method.wf(),
        h2.method.wf(),
        d1.len() <= u32::MAX,
        d2.len() <= u32::MAX,
        frame_bytes(h1, d1) + r1 == frame_bytes(h2, d2) + r2,
    ensures
        h1 == h2,
        d1 == d2,
        r1 == r2,
{
    lemma_auto_spec_u32_to_from_le_bytes();
    lemma_auto_spec_u16_to_from_le_bytes();
    lemma_header_bytes_len(h1);
    lemma_header_bytes_len(h2);
    let b = frame_bytes(h1, d1) + r1;

    assert(b.subrange(0, 4) =~= spec_u32_to_le_bytes(h1.id));
    assert(b.subrange(0, 4) =~= spec_u32_to_le_bytes(h2.id));
    assert(h1.id == h2.id) by {
        assert(spec_u32_from_le_bytes(spec_u32_to_le_bytes(h1.id)) == h1.id);
        assert(spec_u32_from_le_bytes(spec_u32_to_le_bytes(h2.id)) == h2.id);
    }

    assert(b.subrange(4, 6) =~= spec_u16_to_le_bytes(h1.status));
    assert(b.subrange(4, 6) =~= spec_u16_to_le_bytes(h2.status));
    assert(h1.status == h2.status) by {
        assert(spec_u16_from_le_bytes(spec_u16_to_le_bytes(h1.status)) == h1.status);
        assert(spec_u16_from_le_bytes(spec_u16_to_le_bytes(h2.status)) == h2.status);
    }

    assert(b.subrange(6, 17) =~= h1.method@);
    assert(b.subrange(6, 17) =~= h2.method@);
    assert(h1.method == h2.method) by {
        vstd::array::axiom_array_ext_equal::<u8, 11>(h1.method.buf, h2.method.buf);
        assert(forall|i: int| 0 <= i < 11 ==> h1.method.buf[i] == h2.method.buf[i]);
        assert(h1.method.buf =~= h2.method.buf);
        lemma_first_nul_unique(h1.method@, h1.method.spec_len(), h2.method.spec_len());
    }

    assert(h1.data_type == h2.data_type) by {
        assert(b[17] == h1.data_type);
        assert(b[17] == h2.data_type);
    }

    assert(b.subrange(18, 22) =~= spec_u32_to_le_bytes(d1.len() as u32));
    assert(b.subrange(18, 22) =~= spec_u32_to_le_bytes(d2.len() as u32));
    assert(d1.len() == d2.len()) by {
        assert(spec_u32_from_le_bytes(spec_u32_to_le_bytes(d1.len() as u32)) == d1.len() as u32);
        assert(spec_u32_from_le_bytes(spec_u32_to_le_bytes(d2.len() as u32)) == d2.len() as u32);
    }

    assert(d1 =~= b.subrange(22, 22 + d1.len() as int));
    assert(d2 =~= b.subrange(22, 22 + d2.len() as int));
    assert(d1 =~= d2);
    assert(r1 =~= b.subrange(22 + d1.len() as int, b.len() as int));
    assert(r2 =~= b.subrange(22 + d2.len() as int, b.len() as int));
    assert(r1 =~= r2);
}

/// Law (command round trip): a serialized command parses back to itself.
/// The serialization of any well-formed command is one complete frame, and
/// whenever a framed command is read off exactly those bytes, the header
/// and payload recovered are the ones serialized, with nothing left over.
pub proof fn lemma_command_round_trip(
    h: Header,
    data: Seq<u8>,
    h2: Header,
    d2: Seq<u8>,
    rest2: Seq<u8>,
)
    requires
        h.method.wf(),
        h2.method.wf(),
        data.len() <= u32::MAX,
        d2.len() <= u32::MAX,
        frame_bytes(h, data) == frame_bytes(h2, d2) + rest2,
    ensures
        h2 == h,
        d2 == data,
        rest2 == Seq::<u8>::empty(),
        frame_complete(frame_bytes(h, data)),
{
    assert(frame_bytes(h, data) + Seq::<u8>::empty() =~= frame_bytes(h, data));
    lemma_frame_bytes_unique(h, data, Seq::empty(), h2, d2, rest2);
    lemma_frame_bytes_complete(h, data, Seq::empty());
}

/// The concatenated frames of a sequence of commands.
pub open spec fn frames_bytes(cmds: Seq<Command>) -> Seq<u8>
    decreases cmds.len(),
{
    if cmds.len() == 0 {
        Seq::empty()
    } else {
        frame_bytes(cmds.first().header, cmds.first().data@) + frames_bytes(cmds.drop_first())
    }
}

/// Appending one command to a batch appends its frame to the batch's bytes.
pub proof fn lemma_frames_bytes_push(cmds: Seq<Command>, c: Command)
    ensures
        frames_bytes(cmds.push(c)) == frames_bytes(cmds) + frame_bytes(c.header, c.data@),
    decreases cmds.len(),
{
    if cmds.len() == 0 {
        assert(cmds =~= Seq::<Command>::empty());
        assert(cmds.push(c).first() == c);
        assert(cmds.push(c).drop_first() =~= Seq::<Command>::empty());
        assert(frames_bytes(Seq::<Command>::empty()) =~= Seq::<u8>::empty());
        assert(frames_bytes(cmds.push(c)) =~= frames_bytes(cmds) + frame_bytes(
            c.header,
            c.data@,
        ));
    } else {
        lemma_frames_bytes_push(cmds.drop_first(), c);
        assert(cmds.push(c).first() == cmds.first());
        assert(cmds.push(c).drop_first() =~= cmds.drop_first().push(c));
        assert(frames_bytes(cmds.push(c)) == frame_bytes(cmds.first().header, cmds.first().data@)
            + frames_bytes(cmds.drop_first().push(c)));
        assert(frames_bytes(cmds.push(c)) =~= frames_bytes(cmds) + frame_bytes(
            c.header,
            c.data@,
        ));
    }
}

/// Encode the 18 header bytes.
pub fn encode_header(h: &Header) -> (r: Vec<u8>)
    ensures
        r@ == header_bytes(*h),
        r@.len() == 18,
{
    proof {
        lemma_auto_spec_u32_to_from_le_bytes();
        lemma_auto_spec_u16_to_from_le_bytes();
    }
    let mut r = u32_to_le_bytes(h.id);
    let mut st = u16_to_le_bytes(h.status);
    r.append(&mut st);
    let mb = h.method.serialize();
    let mut i: usize = 0;
    while i < 11
        invariant
            i <= 11,
            mb@.len() == 11,
            mb@ == h.method@,
            r@ == spec_u32_to_le_bytes(h.id) + spec_u16_to_le_bytes(h.status) + mb@.take(i as int),
        decreases 11 - i,
    {
        r.push(mb[i]);
        i = i + 1;
        proof {
            assert(r@ =~= spec_u32_to_le_bytes(h.id) + spec_u16_to_le_bytes(h.status)
                + mb@.take(i as int));
        }
    }
    r.push(h.data_type);
    proof {
        assert(r@ =~= header_bytes(*h));
    }
    r
}

/// Decode 18 bytes into a header.  Fails exactly when the method field's
/// logical prefix is not valid UTF-8; otherwise the result is the unique
/// header whose serialization is the input.
pub fn decode_header(b: &[u8]) -> (r: Option<Header>)
    requires
        b@.len() == 18,
    ensures
        r is Some <==> method_prefix_ok(b@.subrange(6, 17)),
        r matches Some(h) ==> {
            &&& header_bytes(h) == b@
            &&& h.method.wf()
            &&& method_prefix_ok(h.method@)
        },
{
    proof {
        lemma_auto_spec_u32_to_from_le_bytes();
        lemma_auto_spec_u16_to_from_le_bytes();
    }
    let id_bytes = sub_bytes(b, 0, 4);
    let id = u32_from_le_bytes(id_bytes.as_slice());
    let st_bytes = sub_bytes(b, 4, 2);
    let status = u16_from_le_bytes(st_bytes.as_slice());

    let mut mb = [0u8; 11];
    let mut i: usize = 0;
    while i < 11
        invariant
            i <= 11,
            b@.len() == 18,
            mb@.len() == 11,
            forall|j: int| 0 <= j < i ==> mb@[j] == b@[6 + j],
        decreases 11 - i,
    {
        mb[i] = b[6 + i];
        i = i + 1;
    }
    proof {
        assert(mb@ =~= b@.subrange(6, 17));
    }
    let method = match Method::deserialize(mb) {
        Some(m) => m,
        None => {
            return None;
        },
    };
    let data_type = b[17];

    let h = Header { id, status, method, data_type };
    proof {
        assert(spec_u32_to_le_bytes(h.id) =~= b@.subrange(0, 4));
        assert(spec_u16_to_le_bytes(h.status) =~= b@.subrange(4, 6));
        assert(header_bytes(h) =~= b@);
    }
    Some(h)
}

} // verus!
