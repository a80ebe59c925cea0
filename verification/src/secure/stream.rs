//! Secure packet stream over a byte stream, with head decoding helpers.

use vstd::bytes::*;
use vstd::prelude::*;

pub use crate::secure::to_encrypted_packet;

use crate::io::{ByteRead, ByteWrite};
use crate::secure::crypto::{cfb_decrypt_of, cfb_encrypt_of, CryptoStore};
use crate::secure::{
    read_secure_frame, sec_frame_complete, sec_frame_malformed, sec_pending, sec_size_of,
    secure_frame_bytes, SecureFrameError, SecureHeader, SecurePacket,
};
use crate::wire::sub_bytes;

verus! {

/// Error of secure stream operations.
#[derive(Debug, Clone, Copy, PartialEq, Eq)]
pub enum SecureError {
    /// The source ended before a whole frame was available.
    ShortRead,
    /// A head announced a size below 16, which no frame can have.
    MalformedFrame,
}

/// Decode a 20-byte secure packet head into a packet whose payload is
/// zeroed to the announced ciphertext size, ready to be filled.
pub fn decode_secure_head(buf: &[u8]) -> (r: Result<SecurePacket, SecureError>)
    requires
        buf@.len() == 20,
    ensures
        match r {
            Ok(p) => {
                &&& sec_size_of(buf@) >= 16
                &&& p.iv@ == buf@.subrange(4, 20)
                &&& p.data@.len() == sec_size_of(buf@) - 16
                &&& forall|i: int| 0 <= i < p.data@.len() ==> p.data@[i] == 0
            },
            Err(_) => sec_frame_malformed(buf@),
        },
{
    proof {
        lemma_auto_spec_u32_to_from_le_bytes();
    }
    let size_bytes = sub_bytes(buf, 0, 4);
    let size = u32_from_le_bytes(size_bytes.as_slice());
    proof {
        assert(buf@.subrange(0, 4) =~= size_bytes@);
    }
    if size < 16 {
        return Err(SecureError::MalformedFrame);
    }
    let iv_vec = sub_bytes(buf, 4, 16);
    let iv = crate::wire::to_array_16(iv_vec.as_slice());
    let data = vec![0u8; (size - 16) as usize];
    Ok(SecurePacket { iv, data })
}

/// Secure packet stream over a byte stream.
pub struct SecureStream<S> {
    /// Session key store.
    pub crypto: CryptoStore,
    /// Underlying stream.
    pub stream: S,
    /// Decoded head of a packet whose ciphertext has not fully arrived.
    pub current_packet: Option<SecureHeader>,
}

impl<S> SecureStream<S> {
    /// The session key bytes.
    pub open spec fn key(&self) -> Seq<u8> {
        self.crypto.key()
    }

    /// Create a stream over a crypto store and a transport.
    pub fn new(crypto: CryptoStore, stream: S) -> (r: SecureStream<S>)
        ensures
            r.crypto == crypto,
            r.stream == stream,
            r.current_packet is None,
    {
        SecureStream { crypto, stream, current_packet: None }
    }

    /// The underlying stream.
    pub fn stream(&self) -> (r: &S)
        ensures
            *r == self.stream,
    {
        &self.stream
    }

    /// The underlying stream, for filling and draining.
    pub fn stream_mut(&mut self) -> (r: &mut S)
        ensures
            *r == old(self).stream,
            final(self).stream == *final(r),
            final(self).crypto == old(self).crypto,
            final(self).current_packet == old(self).current_packet,
    {
        &mut self.stream
    }

    /// The crypto store.
    pub fn crypto(&self) -> (r: &CryptoStore)
        ensures
            *r == self.crypto,
    {
        &self.crypto
    }

    /// Consume the stream and return the crypto store and the transport.
    pub fn unwrap(self) -> (r: (CryptoStore, S))
        ensures
            r.0 == self.crypto,
            r.1 == self.stream,
    {
        (self.crypto, self.stream)
    }

    /// Consume the stream and return the crypto store and the transport.
    pub fn into_inner(self) -> (r: (CryptoStore, S))
        ensures
            r.0 == self.crypto,
            r.1 == self.stream,
    {
        (self.crypto, self.stream)
    }
}

impl<S: ByteRead> SecureStream<S> {
    /// All bytes not yet turned into a packet: the bytes of an already
    /// decoded head, then what the source holds.
    pub open spec fn pending(&self) -> Seq<u8> {
        sec_pending(self.current_packet, self.stream.readable())
    }

    /// Read and decrypt one whole secure packet from the stream.
    ///
    /// On `ShortRead` a decoded head is retained in `current_packet` and a
    /// later call resumes with it, so a partially arrived packet is never
    /// lost.
    pub fn read_packet(&mut self) -> (r: Result<SecurePacket, SecureError>)
        ensures
            final(self).crypto == old(self).crypto,
            match r {
                Ok(p) => {
                    &&& p.data@.len() + 16 <= u32::MAX
                    &&& old(self).pending() == secure_frame_bytes(
                        old(self).key(),
                        p.iv@,
                        p.data@,
                    ) + final(self).pending()
                    &&& final(self).current_packet is None
                    &&& cfb_encrypt_of(old(self).key(), p.iv@, p.data@).len() == p.data@.len()
                    &&& forall|q: Seq<u8>|
                        #[trigger] cfb_encrypt_of(old(self).key(), p.iv@, q) == cfb_encrypt_of(
                            old(self).key(),
                            p.iv@,
                            p.data@,
                        ) ==> q == p.data@
                },
                Err(SecureError::ShortRead) => {
                    &&& final(self).pending() == old(self).pending()
                    &&& !sec_frame_complete(old(self).pending())
                    &&& !sec_frame_malformed(old(self).pending())
                },
                Err(SecureError::MalformedFrame) => {
                    &&& final(self).pending() == old(self).pending()
                    &&& sec_frame_malformed(old(self).pending())
                },
            },
    {
        match read_secure_frame(&self.crypto, &mut self.current_packet, &mut self.stream) {
            Ok(p) => Ok(p),
            Err(SecureFrameError::ShortRead) => Err(SecureError::ShortRead),
            Err(SecureFrameError::MalformedFrame) => Err(SecureError::MalformedFrame),
        }
    }
}

impl<S: ByteWrite> SecureStream<S> {
    /// Encrypt `buf` as one secure packet under a fresh random IV and hand
    /// the whole frame to the stream; returns the frame's byte count.
    pub fn write_data(&mut self, buf: &[u8]) -> (r: Result<usize, SecureError>)
        requires
            buf@.len() + 16 <= u32::MAX,
        ensures
            final(self).crypto == old(self).crypto,
            final(self).current_packet == old(self).current_packet,
            final(self).stream.consumed() == old(self).stream.consumed(),
            r is Ok,
            r matches Ok(n) ==> {
                &&& n == 20 + buf@.len()
                &&& exists|iv: Seq<u8>|
                    #![trigger secure_frame_bytes(old(self).key(), iv, buf@)]
                    {
                        &&& iv.len() == 16
                        &&& final(self).stream.written() == old(self).stream.written()
                            + secure_frame_bytes(old(self).key(), iv, buf@)
                        &&& cfb_encrypt_of(old(self).key(), iv, buf@).len() == buf@.len()
                        &&& cfb_decrypt_of(
                            old(self).key(),
                            iv,
                            cfb_encrypt_of(old(self).key(), iv, buf@),
                        ) == buf@
                    }
            },
    {
        let (frame, iv) = crate::secure::to_encrypted_packet_iv(&self.crypto, buf);
        self.stream.write_bytes(frame.as_slice());
        proof {
            assert(self.stream.written() =~= old(self).stream.written() + secure_frame_bytes(
                old(self).key(),
                iv@,
                buf@,
            ));
        }
        Ok(frame.len())
    }
}

} // verus!
