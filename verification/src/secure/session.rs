//! One-shot handshake: the client wraps the session key under the server's
//! RSA public key and sends the preamble; the server reads it back and
//! unwraps the key.

use vstd::bytes::*;
use vstd::prelude::*;

use crate::io::{ByteRead, ByteWrite};
use crate::secure::crypto::{CryptoError, CryptoStore, PrivateKey, PublicKey};
use crate::secure::stream::SecureStream;
use crate::secure::{handshake_bytes, HandshakePacket};
use crate::wire::sub_bytes;

verus! {

/// Error of the handshake exchange.
#[derive(Debug, Clone, Copy, PartialEq, Eq)]
pub enum SecureHandshakeError {
    /// The source ended before the whole preamble was available.
    ShortRead,
    /// The key wrap or unwrap primitive rejected its input.
    CorruptedData,
    /// The unwrapped session key does not have exactly 16 bytes.
    InvalidKey,
}

/// Wrap the crypto store's session key under `key` and build the handshake
/// preamble: wrapped-key length, key-wrap identifier, bulk-cipher
/// identifier, wrapped key.
pub fn to_handshake_packet(crypto: &CryptoStore, key: &PublicKey) -> (r: Result<
    Vec<u8>,
    SecureHandshakeError,
>)
    requires
        key.wf(),
    ensures
        r matches Ok(v) ==> {
            &&& v@.len() == 12 + key.modulus_len()
            &&& exists|w: Seq<u8>| w.len() == key.modulus_len() && v@ == handshake_bytes(w)
        },
{
    let wrapped = match crypto.encrypt_key(key) {
        Ok(w) => w,
        Err(_) => {
            return Err(SecureHandshakeError::CorruptedData);
        },
    };
    proof {
        lemma_auto_spec_u32_to_from_le_bytes();
    }
    let mut r = u32_to_le_bytes(wrapped.len() as u32);
    let mut key_type = u32_to_le_bytes(15u32);
    r.append(&mut key_type);
    let mut encrypt_type = u32_to_le_bytes(2u32);
    r.append(&mut encrypt_type);
    let ghost wrapped_view = wrapped@;
    let mut w = wrapped;
    r.append(&mut w);
    proof {
        assert(r@ =~= handshake_bytes(wrapped_view));
    }
    Ok(r)
}

/// Decode the 12-byte handshake head into a packet whose wrapped key is
/// zeroed to the announced size, ready to be filled.
pub fn decode_handshake_head(buf: &[u8]) -> (r: Result<HandshakePacket, SecureHandshakeError>)
    requires
        buf@.len() == 12,
    ensures
        r is Ok,
        r matches Ok(hp) ==> {
            &&& hp.encrypted_key@.len() == spec_u32_from_le_bytes(buf@.subrange(0, 4))
            &&& hp.key_type == spec_u32_from_le_bytes(buf@.subrange(4, 8))
            &&& hp.encrypt_type == spec_u32_from_le_bytes(buf@.subrange(8, 12))
            &&& forall|i: int| 0 <= i < hp.encrypted_key@.len() ==> hp.encrypted_key@[i] == 0
        },
{
    let key_size = u32_from_le_bytes(sub_bytes(buf, 0, 4).as_slice());
    let key_type = u32_from_le_bytes(sub_bytes(buf, 4, 4).as_slice());
    let encrypt_type = u32_from_le_bytes(sub_bytes(buf, 8, 4).as_slice());
    let encrypted_key = vec![0u8; key_size as usize];
    Ok(HandshakePacket { key_type, encrypt_type, encrypted_key })
}

/// Client side of the handshake: holds the server's RSA public key.
pub struct SecureClientSession {
    key: PublicKey,
}

impl SecureClientSession {
    pub closed spec fn spec_key(&self) -> PublicKey {
        self.key
    }

    pub open spec fn wf(&self) -> bool {
        self.spec_key().wf()
    }

    /// Create a client session around the server's public key.
    pub fn new(key: PublicKey) -> (r: SecureClientSession)
        ensures
            r.spec_key() == key,
    {
        SecureClientSession { key }
    }

    /// Wrap the stream's session key and hand the handshake preamble to
    /// the stream's transport, in the clear.  On success the transport
    /// receives exactly `12 + modulus_len` bytes.
    pub fn handshake<S: ByteWrite>(&self, secure_stream: &mut SecureStream<S>) -> (r: Result<
        (),
        SecureHandshakeError,
    >)
        requires
            self.wf(),
        ensures
            final(secure_stream).crypto == old(secure_stream).crypto,
            final(secure_stream).stream.consumed() == old(secure_stream).stream.consumed(),
            match r {
                Ok(()) => {
                    &&& exists|w: Seq<u8>|
                        w.len() == self.spec_key().modulus_len()
                            && final(secure_stream).stream.written() == old(
                            secure_stream,
                        ).stream.written() + handshake_bytes(w)
                    &&& final(secure_stream).stream.written().len() == old(
                        secure_stream,
                    ).stream.written().len() + 12 + self.spec_key().modulus_len()
                },
                Err(_) => final(secure_stream).stream.written() == old(
                    secure_stream,
                ).stream.written(),
            },
    {
        let packet = match to_handshake_packet(secure_stream.crypto(), &self.key) {
            Ok(p) => p,
            Err(e) => {
                return Err(e);
            },
        };
        secure_stream.stream_mut().write_bytes(packet.as_slice());
        Ok(())
    }
}

/// Server side of the handshake: holds the RSA private key.
pub struct SecureServerSession {
    key: PrivateKey,
}

impl SecureServerSession {
    pub closed spec fn spec_key(&self) -> PrivateKey {
        self.key
    }

    pub open spec fn wf(&self) -> bool {
        self.spec_key().wf()
    }

    /// Create a server session around the private key.
    pub fn new(key: PrivateKey) -> (r: SecureServerSession)
        ensures
            r.spec_key() == key,
    {
        SecureServerSession { key }
    }

    /// The wrapped-key bytes announced and carried by a preamble at the
    /// front of `b`: the bytes after the 12-byte head, as many as its
    /// length field announces.
    pub open spec fn wrapped_key_of(b: Seq<u8>) -> Seq<u8>
        recommends
            b.len() >= 12,
    {
        b.subrange(12, 12 + spec_u32_from_le_bytes(b.subrange(0, 4)) as int)
    }

    /// Read the handshake preamble from the stream, unwrap the session key
    /// and return a crypto store holding it.
    ///
    /// Succeeds exactly when the whole preamble is readable and the OAEP
    /// unwrap of the wrapped bytes under the session's private key yields a
    /// 16-byte plaintext; the returned store then holds that plaintext as
    /// its session key.  Fails with `ShortRead` before enough bytes,
    /// `CorruptedData` when the unwrap rejects the wrapped bytes, and
    /// `InvalidKey` when the unwrapped plaintext is not exactly 16 bytes.
    pub fn handshake<S: ByteRead>(&mut self, stream: &mut S) -> (r: Result<
        CryptoStore,
        SecureHandshakeError,
    >)
        requires
            old(self).wf(),
        ensures
            *final(self) == *old(self),
            match r {
                Ok(cs) => {
                    &&& old(stream).readable().len() >= 12
                    &&& old(self).spec_key().unwrap_of(
                        Self::wrapped_key_of(old(stream).readable()),
                    ) matches Some(v) && v.len() == 16 && cs.key() == v
                    &&& final(stream).readable() == old(stream).readable().skip(
                        12 + spec_u32_from_le_bytes(old(stream).readable().subrange(0, 4)) as int,
                    )
                },
                Err(SecureHandshakeError::ShortRead) => {
                    if old(stream).readable().len() < 12 {
                        final(stream).readable() == old(stream).readable()
                    } else {
                        &&& old(stream).readable().len() < 12 + spec_u32_from_le_bytes(
                            old(stream).readable().subrange(0, 4),
                        )
                        &&& final(stream).readable() == old(stream).readable().skip(12)
                    }
                },
                Err(SecureHandshakeError::CorruptedData) => {
                    &&& old(stream).readable().len() >= 12
                    &&& old(self).spec_key().unwrap_of(
                        Self::wrapped_key_of(old(stream).readable()),
                    ) is None
                    &&& final(stream).readable() == old(stream).readable().skip(
                        12 + spec_u32_from_le_bytes(old(stream).readable().subrange(0, 4)) as int,
                    )
                },
                Err(SecureHandshakeError::InvalidKey) => {
                    &&& old(stream).readable().len() >= 12
                    &&& (old(self).spec_key().unwrap_of(
                        Self::wrapped_key_of(old(stream).readable()),
                    ) matches Some(v) && v.len() != 16)
                    &&& final(stream).readable() == old(stream).readable().skip(
                        12 + spec_u32_from_le_bytes(old(stream).readable().subrange(0, 4)) as int,
                    )
                },
            },
    {
        if stream.available() < 12 {
            return Err(SecureHandshakeError::ShortRead);
        }
        let head = stream.read_exact(12);
        let key_size = u32_from_le_bytes(sub_bytes(head.as_slice(), 0, 4).as_slice());
        proof {
            assert(head@.subrange(0, 4) =~= old(stream).readable().subrange(0, 4));
        }
        if stream.available() < key_size as usize {
            return Err(SecureHandshakeError::ShortRead);
        }
        let wrapped = stream.read_exact(key_size as usize);
        proof {
            assert(stream.readable() =~= old(stream).readable().skip(12 + key_size as int));
            assert(wrapped@ =~= Self::wrapped_key_of(old(stream).readable()));
        }
        let mut crypto = CryptoStore::new_with_key([0u8; 16]);
        match crypto.apply_encrypted_key(wrapped.as_slice(), &self.key) {
            Ok(()) => Ok(crypto),
            Err(CryptoError::CorruptedData) => Err(SecureHandshakeError::CorruptedData),
            Err(CryptoError::InvalidKey) => Err(SecureHandshakeError::InvalidKey),
        }
    }
}

} // verus!
