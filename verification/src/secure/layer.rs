//! Secure layer: whole-packet encryption and decryption over a byte stream.

use vstd::prelude::*;

use crate::io::{ByteRead, ByteWrite};
use crate::secure::crypto::{cfb_decrypt_of, cfb_encrypt_of, CryptoStore};
use crate::secure::{
    read_secure_frame, sec_frame_complete, sec_frame_malformed, sec_pending, secure_frame_bytes,
    to_encrypted_packet, SecureFrameError, SecureHeader,
};

verus! {

/// Error of secure layer operations.
#[derive(Debug, Clone, Copy, PartialEq, Eq)]
pub enum SecureLayerError {
    /// The source ended before a whole frame was available.
    ShortRead,
    /// A head announced a size below 16, which no frame can have.
    MalformedFrame,
}

/// Common secure layer used in client and server.
pub struct SecureLayer<S> {
    /// Session key store.
    pub crypto: CryptoStore,
    /// Underlying stream.
    pub stream: S,
    /// Decoded head of a packet whose ciphertext has not fully arrived.
    pub current: Option<SecureHeader>,
}

impl<S> SecureLayer<S> {
    /// The session key bytes.
    pub open spec fn key(&self) -> Seq<u8> {
        self.crypto.key()
    }

    /// Create a layer over a crypto store and a stream.
    pub fn new(crypto: CryptoStore, stream: S) -> (r: SecureLayer<S>)
        ensures
            r.crypto == crypto,
            r.stream == stream,
            r.current is None,
    {
        SecureLayer { crypto, stream, current: None }
    }

    /// The underlying stream.
    pub fn stream(&self) -> (r: &S)
        ensures
            *r == self.stream,
    {
        &self.stream
    }

    /// The underlying stream, for filling and draining.
    pub fn stream_mut(&mut self) -> (r: &mut S)
        ensures
            *r == old(self).stream,
            final(self).stream == *final(r),
            final(self).crypto == old(self).crypto,
            final(self).current == old(self).current,
    {
        &mut self.stream
    }

    /// The crypto store.
    pub fn crypto(&self) -> (r: &CryptoStore)
        ensures
            *r == self.crypto,
    {
        &self.crypto
    }

    /// Consume the layer and return the crypto store and the stream.
    pub fn unwrap(self) -> (r: (CryptoStore, S))
        ensures
            r.0 == self.crypto,
            r.1 == self.stream,
    {
        (self.crypto, self.stream)
    }
}

impl<S: ByteRead> SecureLayer<S> {
    /// All bytes not yet turned into a packet: the bytes of an already
    /// decoded head, then what the source holds.
    pub open spec fn pending(&self) -> Seq<u8> {
        sec_pending(self.current, self.stream.readable())
    }

    /// Read one whole secure packet from the stream and return its
    /// decrypted payload.
    ///
    /// On `ShortRead` a decoded head is retained and a later call resumes
    /// with it, so a partially arrived packet is never lost.
    pub fn read(&mut self) -> (r: Result<Vec<u8>, SecureLayerError>)
        ensures
            final(self).crypto == old(self).crypto,
            match r {
                Ok(d) => {
                    &&& d@.len() + 16 <= u32::MAX
                    &&& sec_frame_complete(old(self).pending())
                    &&& old(self).pending() == secure_frame_bytes(
                        old(self).key(),
                        old(self).pending().subrange(4, 20),
                        d@,
                    ) + final(self).pending()
                    &&& final(self).current is None
                    &&& cfb_encrypt_of(
                        old(self).key(),
                        old(self).pending().subrange(4, 20),
                        d@,
                    ).len() == d@.len()
                },
                Err(SecureLayerError::ShortRead) => {
                    &&& final(self).pending() == old(self).pending()
                    &&& !sec_frame_complete(old(self).pending())
                    &&& !sec_frame_malformed(old(self).pending())
                },
                Err(SecureLayerError::MalformedFrame) => {
                    &&& final(self).pending() == old(self).pending()
                    &&& sec_frame_malformed(old(self).pending())
                },
            },
    {
        match read_secure_frame(&self.crypto, &mut self.current, &mut self.stream) {
            Ok(p) => {
                proof {
                    assert(p.iv@ == old(self).pending().subrange(4, 20));
                }
                Ok(p.data)
            },
            Err(SecureFrameError::ShortRead) => Err(SecureLayerError::ShortRead),
            Err(SecureFrameError::MalformedFrame) => Err(SecureLayerError::MalformedFrame),
        }
    }
}

impl<S: ByteWrite> SecureLayer<S> {
    /// Encrypt `buf` as one secure packet under a fresh random IV and hand
    /// the whole frame to the stream; returns the payload's byte count.
    pub fn write(&mut self, buf: &[u8]) -> (r: Result<usize, SecureLayerError>)
        requires
            buf@.len() + 16 <= u32::MAX,
        ensures
            final(self).crypto == old(self).crypto,
            final(self).current == old(self).current,
            final(self).stream.consumed() == old(self).stream.consumed(),
            r is Ok,
            r matches Ok(n) ==> {
                &&& n == buf@.len()
                &&& exists|iv: Seq<u8>|
                    #![trigger secure_frame_bytes(old(self).key(), iv, buf@)]
                    {
                        &&& iv.len() == 16
                        &&& final(self).stream.written() == old(self).stream.written()
                            + secure_frame_bytes(old(self).key(), iv, buf@)
                        &&& cfb_encrypt_of(old(self).key(), iv, buf@).len() == buf@.len()
                        &&& cfb_decrypt_of(
                            old(self).key(),
                            iv,
                            cfb_encrypt_of(old(self).key(), iv, buf@),
                        ) == buf@
                    }
            },
    {
        let (frame, iv) = crate::secure::to_encrypted_packet_iv(&self.crypto, buf);
        self.stream.write_bytes(frame.as_slice());
        proof {
            assert(self.stream.written() =~= old(self).stream.written() + secure_frame_bytes(
                old(self).key(),
                iv@,
                buf@,
            ));
        }
        Ok(frame.len() - 20)
    }
}

} // verus!
