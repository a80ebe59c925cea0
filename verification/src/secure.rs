//! Secure layer: data model and wire format of the encryption envelope.
//!
//! A secure packet is, little-endian: a 4-byte `size` (at least 16), a
//! 16-byte IV, and `size - 16` bytes of AES-128-CFB128 ciphertext.  The
//! handshake preamble is a 4-byte wrapped-key length, a 4-byte key-wrap
//! algorithm identifier, a 4-byte bulk-cipher identifier, and the RSA-OAEP
//! wrapped session key.

use vstd::bytes::*;
use vstd::prelude::*;

use crate::secure::crypto::{cfb_decrypt_of, cfb_encrypt_of};

pub mod client;
pub mod codec;
pub mod crypto;
pub mod layer;
pub mod session;
pub mod stream;

verus! {

/// Byte length of a secure packet's preamble: `size` and IV.
pub const SECURE_HEADER_SIZE: usize = 20;

/// Byte length of the handshake preamble before the wrapped key.
pub const SECURE_HANDSHAKE_HEADER_SIZE: usize = 12;

/// Key-wrap algorithm identifier emitted on handshake: RSA-OAEP with SHA-1
/// digest and MGF1-SHA-1 mask.
pub const KEY_ENCRYPT_TYPE_OAEP: u32 = 15;

/// Legacy key-wrap algorithm identifier accepted on decode (same algorithm,
/// historical numbering).
pub const KEY_ENCRYPT_TYPE_OAEP_OLD: u32 = 12;

/// Bulk cipher identifier emitted on handshake: AES-CFB128 without padding.
pub const ENCRYPT_TYPE_AES_CFB128: u32 = 2;

/// One unit of the encryption envelope, in the clear: per-packet IV and
/// plaintext payload.
#[derive(Debug, Clone, PartialEq, Eq)]
pub struct SecurePacket {
    pub iv: [u8; 16],
    pub data: Vec<u8>,
}

/// Decoded secure packet preamble.
#[derive(Debug, Clone, Copy, PartialEq, Eq)]
pub struct SecureHeader {
    /// Length of IV plus ciphertext; at least 16.
    pub data_size: u32,
    /// Per-packet initialization vector.
    pub iv: [u8; 16],
}

/// Decoded handshake preamble fields.
#[derive(Debug, Clone, Copy, PartialEq, Eq)]
pub struct SecureHandshakeHeader {
    pub encrypted_key_len: u32,
    pub key_encrypt_type: u32,
    pub encrypt_type: u32,
}

/// A decoded handshake: algorithm identifiers and the wrapped session key.
#[derive(Debug, Clone, PartialEq, Eq)]
pub struct HandshakePacket {
    pub key_type: u32,
    pub encrypt_type: u32,
    pub encrypted_key: Vec<u8>,
}

/// A secure header paired with a command carried inside the envelope.
#[derive(Debug, Clone, PartialEq)]
pub struct SecureCommand {
    pub header: SecureHeader,
    pub command: crate::command::Command,
}

/// The bytes of one secure packet on the wire: size, IV, ciphertext.
pub open spec fn secure_frame_bytes(key: Seq<u8>, iv: Seq<u8>, data: Seq<u8>) -> Seq<u8> {
    spec_u32_to_le_bytes((data.len() + 16) as u32) + iv + cfb_encrypt_of(key, iv, data)
}

/// The `size` field announced by the first 4 bytes of `b`.
pub open spec fn sec_size_of(b: Seq<u8>) -> int
    recommends
        b.len() >= 4,
{
    spec_u32_from_le_bytes(b.subrange(0, 4)) as int
}

/// True when `b` starts with one whole, well-formed secure packet.
pub open spec fn sec_frame_complete(b: Seq<u8>) -> bool {
    &&& b.len() >= 20
    &&& sec_size_of(b) >= 16
    &&& b.len() - 20 >= sec_size_of(b) - 16
}

/// True when `b` starts with a header whose `size` field is structurally
/// impossible (smaller than the IV it must cover).
pub open spec fn sec_frame_malformed(b: Seq<u8>) -> bool {
    b.len() >= 20 && sec_size_of(b) < 16
}

/// The bytes of the handshake preamble for a given wrapped key.
pub open spec fn handshake_bytes(wrapped: Seq<u8>) -> Seq<u8> {
    spec_u32_to_le_bytes(wrapped.len() as u32) + spec_u32_to_le_bytes(KEY_ENCRYPT_TYPE_OAEP)
        + spec_u32_to_le_bytes(ENCRYPT_TYPE_AES_CFB128) + wrapped
}

/// The plaintext of the first packet at the front of `b` that decodes to
/// any bytes, skipping whole packets with empty payloads: what one
/// byte-level read of the envelope can hand out at most.
pub open spec fn first_plain_chunk(key: Seq<u8>, b: Seq<u8>) -> Seq<u8>
    decreases b.len(),
{
    if sec_frame_complete(b) {
        let d = cfb_decrypt_of(key, b.subrange(4, 20), b.subrange(20, sec_size_of(b) + 4));
        if d.len() > 0 {
            d
        } else {
            first_plain_chunk(key, b.skip(sec_size_of(b) + 4))
        }
    } else {
        Seq::empty()
    }
}

/// The cipher bytes left after the packets one byte-level read of the
/// envelope consumes: everything up to and including the first packet that
/// decodes to any bytes.
pub open spec fn after_first_chunk(key: Seq<u8>, b: Seq<u8>) -> Seq<u8>
    decreases b.len(),
{
    if sec_frame_complete(b) {
        let d = cfb_decrypt_of(key, b.subrange(4, 20), b.subrange(20, sec_size_of(b) + 4));
        let rest = b.skip(sec_size_of(b) + 4);
        if d.len() > 0 {
            rest
        } else {
            after_first_chunk(key, rest)
        }
    } else {
        b
    }
}

/// Concatenated plaintext of every whole secure packet at the front of `b`,
/// under `key`.
pub open spec fn plain_of(key: Seq<u8>, b: Seq<u8>) -> Seq<u8>
    decreases b.len(),
{
    if sec_frame_complete(b) {
        cfb_decrypt_of(key, b.subrange(4, 20), b.subrange(20, sec_size_of(b) + 4)) + plain_of(
            key,
            b.skip(sec_size_of(b) + 4),
        )
    } else {
        Seq::empty()
    }
}

/// Law: framing a packet always yields a complete frame, whatever bytes
/// follow, and the frame occupies exactly `20 + data.len()` bytes.  The
/// ciphertext-length hypothesis is discharged by the cipher's contract at
/// every call site.
pub proof fn lemma_secure_frame_complete(key: Seq<u8>, iv: Seq<u8>, data: Seq<u8>, rest: Seq<u8>)
    requires
        iv.len() == 16,
        data.len() + 16 <= u32::MAX,
        cfb_encrypt_of(key, iv, data).len() == data.len(),
    ensures
        secure_frame_bytes(key, iv, data).len() == 20 + data.len(),
        sec_frame_complete(secure_frame_bytes(key, iv, data) + rest),
        sec_size_of(secure_frame_bytes(key, iv, data) + rest) == data.len() + 16,
        !sec_frame_malformed(secure_frame_bytes(key, iv, data) + rest),
{
    lemma_auto_spec_u32_to_from_le_bytes();
    let b = secure_frame_bytes(key, iv, data) + rest;
    assert(b.subrange(0, 4) =~= spec_u32_to_le_bytes((data.len() + 16) as u32));
}

/// Law (secure packet round trip): if the bytes of one framed packet are
/// parsed back under the same key, the IV, the payload, and the remainder
/// are recovered exactly.  The two cipher hypotheses are discharged by the
/// contracts of the cipher wrappers at every call site.
pub proof fn lemma_secure_packet_round_trip(
    key: Seq<u8>,
    iv1: Seq<u8>,
    d1: Seq<u8>,
    r1: Seq<u8>,
    iv2: Seq<u8>,
    d2: Seq<u8>,
    r2: Seq<u8>,
)
    requires
        iv1.len() == 16,
        iv2.len() == 16,
        d1.len() + 16 <= u32::MAX,
        d2.len() + 16 <= u32::MAX,
        cfb_encrypt_of(key, iv1, d1).len() == d1.len(),
        cfb_encrypt_of(key, iv2, d2).len() == d2.len(),
        secure_frame_bytes(key, iv1, d1) + r1 == secure_frame_bytes(key, iv2, d2) + r2,
        forall|p: Seq<u8>|
            cfb_encrypt_of(key, iv2, p) == cfb_encrypt_of(key, iv2, d2) ==> p == d2,
    ensures
        iv1 == iv2,
        d1 == d2,
        r1 == r2,
{
    lemma_auto_spec_u32_to_from_le_bytes();
    let b = secure_frame_bytes(key, iv1, d1) + r1;

    assert(b.subrange(0, 4) =~= spec_u32_to_le_bytes((d1.len() + 16) as u32));
    assert(b.subrange(0, 4) =~= spec_u32_to_le_bytes((d2.len() + 16) as u32));
    assert(d1.len() == d2.len()) by {
        assert(spec_u32_from_le_bytes(spec_u32_to_le_bytes((d1.len() + 16) as u32)) == (d1.len()
            + 16) as u32);
        assert(spec_u32_from_le_bytes(spec_u32_to_le_bytes((d2.len() + 16) as u32)) == (d2.len()
            + 16) as u32);
    }
    assert(iv1 =~= b.subrange(4, 20));
    assert(iv2 =~= b.subrange(4, 20));
    assert(cfb_encrypt_of(key, iv1, d1) =~= b.subrange(20, 20 + d1.len() as int));
    assert(cfb_encrypt_of(key, iv2, d2) =~= b.subrange(20, 20 + d2.len() as int));
    assert(d1 == d2);
    assert(r1 =~= b.subrange(20 + d1.len() as int, b.len() as int));
    assert(r2 =~= b.subrange(20 + d2.len() as int, b.len() as int));
    assert(r1 =~= r2);
}

/// Law (byte-pipe conservation): one framed packet at the front of a
/// cipher stream contributes exactly its plaintext, in order, to the
/// decoded byte stream.  The cipher hypotheses are discharged by the
/// contracts of the cipher wrappers at every call site.
pub proof fn lemma_plain_of_frame(key: Seq<u8>, iv: Seq<u8>, data: Seq<u8>, rest: Seq<u8>)
    requires
        iv.len() == 16,
        data.len() + 16 <= u32::MAX,
        cfb_encrypt_of(key, iv, data).len() == data.len(),
        cfb_decrypt_of(key, iv, cfb_encrypt_of(key, iv, data)) == data,
    ensures
        plain_of(key, secure_frame_bytes(key, iv, data) + rest) == data + plain_of(key, rest),
{
    lemma_secure_frame_complete(key, iv, data, rest);
    let b = secure_frame_bytes(key, iv, data) + rest;
    assert(b.subrange(4, 20) =~= iv);
    assert(b.subrange(20, sec_size_of(b) + 4) =~= cfb_encrypt_of(key, iv, data));
    assert(b.skip(sec_size_of(b) + 4) =~= rest);
}

/// Law (handshake length): the handshake preamble is exactly 12 bytes plus
/// the wrapped key.
pub proof fn lemma_handshake_bytes_len(wrapped: Seq<u8>)
    ensures
        handshake_bytes(wrapped).len() == 12 + wrapped.len(),
{
    lemma_auto_spec_u32_to_from_le_bytes();
}

/// Error of reading one secure frame from a byte source.
#[derive(Debug, Clone, Copy, PartialEq, Eq)]
pub enum SecureFrameError {
    /// The source ended before a whole frame was available.
    ShortRead,
    /// A head announced a size below 16, which no frame can have.
    MalformedFrame,
}

/// All bytes of a packet parser not yet turned into a packet: the bytes of
/// an already decoded head, then what the source holds.
pub open spec fn sec_pending(current: Option<SecureHeader>, readable: Seq<u8>) -> Seq<u8> {
    match current {
        Some(h) => spec_u32_to_le_bytes(h.data_size) + h.iv@ + readable,
        None => readable,
    }
}

/// Read and decrypt one whole secure packet from a byte source, resuming
/// across short reads: a decoded head is parked in `current` until its
/// ciphertext has arrived, so nothing is lost on a would-block outcome.
pub fn read_secure_frame<S: crate::io::ByteRead>(
    crypto: &crypto::CryptoStore,
    current: &mut Option<SecureHeader>,
    stream: &mut S,
) -> (r: Result<SecurePacket, SecureFrameError>)
    ensures
        match r {
            Ok(p) => {
                &&& p.data@.len() + 16 <= u32::MAX
                &&& sec_frame_complete(sec_pending(*old(current), old(stream).readable()))
                &&& sec_size_of(sec_pending(*old(current), old(stream).readable())) == p.data@.len()
                    + 16
                &&& p.iv@ == sec_pending(*old(current), old(stream).readable()).subrange(4, 20)
                &&& sec_pending(*old(current), old(stream).readable()) == secure_frame_bytes(
                    crypto.key(),
                    p.iv@,
                    p.data@,
                ) + sec_pending(*final(current), final(stream).readable())
                &&& *final(current) is None
                &&& cfb_encrypt_of(crypto.key(), p.iv@, p.data@).len() == p.data@.len()
                &&& forall|q: Seq<u8>|
                    #[trigger] cfb_encrypt_of(crypto.key(), p.iv@, q) == cfb_encrypt_of(
                        crypto.key(),
                        p.iv@,
                        p.data@,
                    ) ==> q == p.data@
            },
            Err(SecureFrameError::ShortRead) => {
                &&& sec_pending(*final(current), final(stream).readable()) == sec_pending(
                    *old(current),
                    old(stream).readable(),
                )
                &&& !sec_frame_complete(sec_pending(*old(current), old(stream).readable()))
                &&& !sec_frame_malformed(sec_pending(*old(current), old(stream).readable()))
            },
            Err(SecureFrameError::MalformedFrame) => {
                &&& sec_pending(*final(current), final(stream).readable()) == sec_pending(
                    *old(current),
                    old(stream).readable(),
                )
                &&& sec_frame_malformed(sec_pending(*old(current), old(stream).readable()))
            },
        },
{
    proof {
        lemma_auto_spec_u32_to_from_le_bytes();
    }
    if current.is_none() {
        if stream.available() < 20 {
            return Err(SecureFrameError::ShortRead);
        }
        let head = stream.read_exact(20);
        let size_bytes = crate::wire::sub_bytes(head.as_slice(), 0, 4);
        let data_size = u32_from_le_bytes(size_bytes.as_slice());
        let iv_vec = crate::wire::sub_bytes(head.as_slice(), 4, 16);
        let iv = crate::wire::to_array_16(iv_vec.as_slice());
        *current = Some(SecureHeader { data_size, iv });
        proof {
            assert(head@.subrange(0, 4) + head@.subrange(4, 20) =~= head@);
            assert(sec_pending(*current, stream.readable()) =~= sec_pending(
                *old(current),
                old(stream).readable(),
            ));
        }
    }
    let ghost mid_current = *current;
    let ghost mid_readable = stream.readable();
    let ghost pending = sec_pending(mid_current, mid_readable);

    if let Some(h) = *current {
        proof {
            assert(pending.subrange(0, 4) =~= spec_u32_to_le_bytes(h.data_size));
            assert(sec_size_of(pending) == h.data_size);
            assert(pending.len() == 20 + mid_readable.len());
        }
        if h.data_size < 16 {
            proof {
                assert(sec_frame_malformed(pending));
            }
            return Err(SecureFrameError::MalformedFrame);
        }
        let body_len = (h.data_size - 16) as usize;
        if stream.available() < body_len {
            proof {
                assert(!sec_frame_complete(pending));
            }
            return Err(SecureFrameError::ShortRead);
        }
        let ciphertext = stream.read_exact(body_len);
        let data = match crypto.decrypt_aes(ciphertext.as_slice(), &h.iv) {
            Ok(v) => v,
            Err(_) => {
                proof {
                    assert(false);
                }
                return Err(SecureFrameError::MalformedFrame);
            },
        };
        *current = None;
        let p = SecurePacket { iv: h.iv, data };
        proof {
            assert(cfb_encrypt_of(crypto.key(), p.iv@, p.data@) =~= ciphertext@);
            assert(p.iv@ =~= pending.subrange(4, 20));
            assert(pending =~= secure_frame_bytes(crypto.key(), p.iv@, p.data@)
                + stream.readable());
        }
        return Ok(p);
    }

    proof {
        assert(false);
    }
    Err(SecureFrameError::ShortRead)
}

/// Reading the 20-byte secure packet preamble off a byte source.
pub trait SecureHeaderRead: crate::io::ByteRead {
    /// Read and decode one secure header: `size`, then the 16-byte IV.
    fn read_secure_header(&mut self) -> (r: Result<SecureHeader, SecureFrameError>)
        ensures
            match r {
                Ok(h) => {
                    &&& old(self).readable().len() >= 20
                    &&& spec_u32_to_le_bytes(h.data_size) + h.iv@ == old(self).readable().take(20)
                    &&& final(self).readable() == old(self).readable().skip(20)
                },
                Err(_) => {
                    &&& old(self).readable().len() < 20
                    &&& final(self).readable() == old(self).readable()
                },
            },
    ;
}

impl<T: crate::io::ByteRead> SecureHeaderRead for T {
    fn read_secure_header(&mut self) -> (r: Result<SecureHeader, SecureFrameError>) {
        proof {
            lemma_auto_spec_u32_to_from_le_bytes();
        }
        if self.available() < 20 {
            return Err(SecureFrameError::ShortRead);
        }
        let head = self.read_exact(20);
        let size_bytes = crate::wire::sub_bytes(head.as_slice(), 0, 4);
        let data_size = u32_from_le_bytes(size_bytes.as_slice());
        let iv_vec = crate::wire::sub_bytes(head.as_slice(), 4, 16);
        let iv = crate::wire::to_array_16(iv_vec.as_slice());
        let h = SecureHeader { data_size, iv };
        proof {
            assert(spec_u32_to_le_bytes(h.data_size) + h.iv@ =~= head@);
        }
        Ok(h)
    }
}

/// Writing the 20-byte secure packet preamble to a byte sink.
pub trait SecureHeaderWrite: crate::io::ByteWrite {
    /// Encode one secure header and hand its 20 bytes to the sink.
    fn write_encrypt_header(&mut self, header: SecureHeader) -> (r: Result<
        usize,
        SecureFrameError,
    >)
        ensures
            r is Ok,
            final(self).consumed() == old(self).consumed(),
            r matches Ok(n) ==> {
                &&& n == 20
                &&& final(self).written() == old(self).written() + spec_u32_to_le_bytes(
                    header.data_size,
                ) + header.iv@
            },
    ;
}

impl<T: crate::io::ByteWrite> SecureHeaderWrite for T {
    fn write_encrypt_header(&mut self, header: SecureHeader) -> (r: Result<
        usize,
        SecureFrameError,
    >) {
        let mut bytes = u32_to_le_bytes(header.data_size);
        let mut i: usize = 0;
        while i < 16
            invariant
                i <= 16,
                bytes@ == spec_u32_to_le_bytes(header.data_size) + header.iv@.take(i as int),
            decreases 16 - i,
        {
            bytes.push(header.iv[i]);
            i = i + 1;
            proof {
                assert(bytes@ =~= spec_u32_to_le_bytes(header.data_size) + header.iv@.take(
                    i as int,
                ));
            }
        }
        self.write_bytes(bytes.as_slice());
        proof {
            assert(header.iv@.take(16) =~= header.iv@);
            assert(self.written() =~= old(self).written() + spec_u32_to_le_bytes(
                header.data_size,
            ) + header.iv@);
        }
        Ok(20)
    }
}

/// Encrypt `data` under a fresh random IV and build the bytes of one
/// secure packet, returning the frame and the IV that was drawn.
pub(crate) fn to_encrypted_packet_iv(crypto: &crypto::CryptoStore, data: &[u8]) -> (r: (
    Vec<u8>,
    [u8; 16],
))
    requires
        data@.len() + 16 <= u32::MAX,
    ensures
        r.0@ == secure_frame_bytes(crypto.key(), r.1@, data@),
        r.0@.len() == 20 + data@.len(),
        r.1@.len() == 16,
        cfb_encrypt_of(crypto.key(), r.1@, data@).len() == data@.len(),
        cfb_decrypt_of(crypto.key(), r.1@, cfb_encrypt_of(crypto.key(), r.1@, data@)) == data@,
{
    let iv = crate::secure::crypto::random_16();
    let encrypted = match crypto.encrypt_aes(data, &iv) {
        Ok(v) => v,
        Err(_) => {
            proof {
                assert(false);
            }
            Vec::new()
        },
    };
    proof {
        lemma_auto_spec_u32_to_from_le_bytes();
    }
    let mut r = u32_to_le_bytes(16u32 + encrypted.len() as u32);
    let mut i: usize = 0;
    while i < 16
        invariant
            i <= 16,
            r@ == spec_u32_to_le_bytes((data@.len() + 16) as u32) + iv@.take(i as int),
        decreases 16 - i,
    {
        r.push(iv[i]);
        i = i + 1;
        proof {
            assert(r@ =~= spec_u32_to_le_bytes((data@.len() + 16) as u32) + iv@.take(i as int));
        }
    }
    let mut enc = encrypted;
    r.append(&mut enc);
    proof {
        assert(iv@.take(16) =~= iv@);
        assert(r@ =~= secure_frame_bytes(crypto.key(), iv@, data@));
    }
    (r, iv)
}

/// Encrypt `data` under a fresh random IV and build the bytes of one secure
/// packet: size, IV, ciphertext.  The ciphertext has `data`'s length and
/// decrypts back to `data` under the drawn IV.
pub fn to_encrypted_packet(crypto: &crypto::CryptoStore, data: &[u8]) -> (r: Vec<u8>)
    requires
        data@.len() + 16 <= u32::MAX,
    ensures
        r@.len() == 20 + data@.len(),
        exists|iv: Seq<u8>|
            #![trigger secure_frame_bytes(crypto.key(), iv, data@)]
            {
                &&& iv.len() == 16
                &&& r@ == secure_frame_bytes(crypto.key(), iv, data@)
                &&& cfb_encrypt_of(crypto.key(), iv, data@).len() == data@.len()
                &&& cfb_decrypt_of(
                    crypto.key(),
                    iv,
                    cfb_encrypt_of(crypto.key(), iv, data@),
                ) == data@
            },
{
    let (frame, iv) = to_encrypted_packet_iv(crypto, data);
    proof {
        assert(frame@ == secure_frame_bytes(crypto.key(), iv@, data@));
    }
    frame
}

} // verus!
