//! IO-free client secure layer.
//!
//! Sends the RSA-wrapped handshake, encrypts outgoing packets and decrypts
//! incoming ones, over two caller-visible byte queues.

use std::collections::VecDeque;
use vstd::bytes::*;
use vstd::prelude::*;

use crate::secure::crypto::{
    cfb_decrypt_of, cfb_encrypt_of, CryptoError, CryptoStore, PublicKey,
};
use crate::secure::{
    handshake_bytes, sec_frame_complete, sec_frame_malformed, secure_frame_bytes, SecurePacket,
};
use crate::wire::{pop_bytes, push_bytes, sub_bytes};

verus! {

/// Decoded secure packet preamble.
#[derive(Debug, Clone, Copy, PartialEq, Eq)]
pub struct RawHeader {
    /// Length of the remainder: IV plus ciphertext.
    pub size: u32,
    /// Per-packet initialization vector.
    pub iv: [u8; 16],
}

/// Parser state of the layer's read side.
#[derive(Debug, Clone, Copy, PartialEq, Eq)]
pub enum ReadState {
    /// Waiting for a 20-byte packet head.
    Pending,
    /// Head decoded; waiting for the ciphertext.
    Header(RawHeader),
    /// A head announced a size below 16; the layer must be discarded.
    Corrupted,
}

/// IO-free client secure layer.
#[derive(Debug)]
pub struct LocoClientSecureLayer {
    /// Session key store.  [`CryptoStore`] never exposes the key bytes.
    pub crypto: CryptoStore,
    /// Parser state of the read side.
    pub read_state: ReadState,
    /// Read buffer: the caller fills it from the transport.
    pub read_buffer: VecDeque<u8>,
    /// Write buffer: the caller drains it to the transport.
    pub write_buffer: VecDeque<u8>,
}

impl LocoClientSecureLayer {
    /// The session key bytes.
    pub open spec fn key(&self) -> Seq<u8> {
        self.crypto.key()
    }

    /// All bytes of the read side not yet turned into a packet: the bytes
    /// of an already decoded head, then the read buffer.
    pub open spec fn pending(&self) -> Seq<u8> {
        match self.read_state {
            ReadState::Pending => self.read_buffer@,
            ReadState::Header(rh) => spec_u32_to_le_bytes(rh.size) + rh.iv@ + self.read_buffer@,
            ReadState::Corrupted => Seq::empty(),
        }
    }

    pub open spec fn corrupted(&self) -> bool {
        self.read_state is Corrupted
    }

    /// Create a new layer over a given 16-byte session key.
    pub fn new(encrypt_key: [u8; 16]) -> (r: LocoClientSecureLayer)
        ensures
            r.key() == encrypt_key@,
            r.read_state is Pending,
            !r.corrupted(),
            r.pending() == Seq::<u8>::empty(),
            r.write_buffer@.len() == 0,
    {
        let r = LocoClientSecureLayer {
            crypto: CryptoStore::new_with_key(encrypt_key),
            read_state: ReadState::Pending,
            read_buffer: VecDeque::new(),
            write_buffer: VecDeque::new(),
        };
        proof {
            assert(r.pending() =~= Seq::<u8>::empty());
        }
        r
    }

    /// Current parser state of the read side.
    pub fn read_state(&self) -> (r: &ReadState)
        ensures
            *r == self.read_state,
    {
        &self.read_state
    }

    /// Wrap the session key under the peer's RSA public key and append the
    /// handshake preamble to the write buffer: wrapped-key length, key-wrap
    /// identifier, bulk-cipher identifier, wrapped key.  On success the
    /// write buffer grows by exactly `12 + modulus_len` bytes.
    pub fn handshake(&mut self, key: &PublicKey) -> (r: Result<(), CryptoError>)
        requires
            key.wf(),
        ensures
            final(self).key() == old(self).key(),
            final(self).read_state == old(self).read_state,
            final(self).read_buffer == old(self).read_buffer,
            match r {
                Ok(()) => {
                    &&& exists|w: Seq<u8>|
                        w.len() == key.modulus_len() && final(self).write_buffer@ == old(
                            self,
                        ).write_buffer@ + handshake_bytes(w)
                    &&& final(self).write_buffer@.len() == old(self).write_buffer@.len() + 12
                        + key.modulus_len()
                },
                Err(_) => final(self).write_buffer == old(self).write_buffer,
            },
    {
        let wrapped = match self.crypto.encrypt_key(key) {
            Ok(w) => w,
            Err(e) => {
                return Err(e);
            },
        };
        proof {
            lemma_auto_spec_u32_to_from_le_bytes();
        }
        let size = u32_to_le_bytes(wrapped.len() as u32);
        push_bytes(&mut self.write_buffer, size.as_slice());
        let key_type = u32_to_le_bytes(15u32);
        push_bytes(&mut self.write_buffer, key_type.as_slice());
        let encrypt_type = u32_to_le_bytes(2u32);
        push_bytes(&mut self.write_buffer, encrypt_type.as_slice());
        push_bytes(&mut self.write_buffer, wrapped.as_slice());
        proof {
            assert(self.write_buffer@ =~= old(self).write_buffer@ + handshake_bytes(wrapped@));
        }
        Ok(())
    }

    /// Encrypt one packet under the session key and the packet's IV and
    /// append its whole frame to the write buffer.
    pub fn send(&mut self, packet: SecurePacket)
        requires
            packet.data@.len() + 16 <= u32::MAX,
        ensures
            final(self).key() == old(self).key(),
            final(self).read_state == old(self).read_state,
            final(self).read_buffer == old(self).read_buffer,
            final(self).write_buffer@ == old(self).write_buffer@ + secure_frame_bytes(
                old(self).key(),
                packet.iv@,
                packet.data@,
            ),
            cfb_encrypt_of(old(self).key(), packet.iv@, packet.data@).len() == packet.data@.len(),
            cfb_decrypt_of(
                old(self).key(),
                packet.iv@,
                cfb_encrypt_of(old(self).key(), packet.iv@, packet.data@),
            ) == packet.data@,
    {
        let encrypted = match self.crypto.encrypt_aes(packet.data.as_slice(), &packet.iv) {
            Ok(v) => v,
            Err(_) => {
                proof {
                    assert(false);
                }
                return ;
            },
        };
        proof {
            lemma_auto_spec_u32_to_from_le_bytes();
        }
        let size = u32_to_le_bytes(16u32 + encrypted.len() as u32);
        push_bytes(&mut self.write_buffer, size.as_slice());
        push_bytes(&mut self.write_buffer, &packet.iv);
        push_bytes(&mut self.write_buffer, encrypted.as_slice());
        proof {
            assert(self.write_buffer@ =~= old(self).write_buffer@ + secure_frame_bytes(
                old(self).key(),
                packet.iv@,
                packet.data@,
            ));
        }
    }

    /// Law (fragmentation independence): however the transport fragments
    /// its bytes, appending a chunk to the read buffer appends it to the
    /// pending byte sequence; the parser's progress depends only on the
    /// concatenation of everything fed so far.
    pub proof fn lemma_pending_append(
        s1: LocoClientSecureLayer,
        s2: LocoClientSecureLayer,
        chunk: Seq<u8>,
    )
        requires
            !s1.corrupted(),
            s2.read_state == s1.read_state,
            s2.read_buffer@ == s1.read_buffer@ + chunk,
        ensures
            s2.pending() == s1.pending() + chunk,
    {
        assert(s2.pending() =~= s1.pending() + chunk);
    }

    /// Try to read a single packet from the read buffer.
    ///
    /// Returns the next fully buffered packet decrypted, or `None` when the
    /// buffered bytes hold less than a complete frame; then nothing is
    /// consumed and a later call resumes here.  A head whose size field is
    /// below 16 is malformed: the layer moves to `Corrupted` and must be
    /// discarded.
    pub fn read(&mut self) -> (r: Option<SecurePacket>)
        requires
            !old(self).corrupted(),
        ensures
            final(self).key() == old(self).key(),
            final(self).write_buffer == old(self).write_buffer,
            match r {
                Some(p) => {
                    &&& !final(self).corrupted()
                    &&& final(self).read_state is Pending
                    &&& p.data@.len() + 16 <= u32::MAX
                    &&& old(self).pending() == secure_frame_bytes(old(self).key(), p.iv@, p.data@)
                        + final(self).pending()
                    &&& cfb_encrypt_of(old(self).key(), p.iv@, p.data@).len() == p.data@.len()
                    &&& forall|q: Seq<u8>|
                        #[trigger] cfb_encrypt_of(old(self).key(), p.iv@, q) == cfb_encrypt_of(
                            old(self).key(),
                            p.iv@,
                            p.data@,
                        ) ==> q == p.data@
                },
                None => {
                    if final(self).corrupted() {
                        sec_frame_malformed(old(self).pending())
                    } else {
                        &&& final(self).pending() == old(self).pending()
                        &&& !sec_frame_complete(old(self).pending())
                        &&& !sec_frame_malformed(old(self).pending())
                    }
                },
            },
    {
        proof {
            lemma_auto_spec_u32_to_from_le_bytes();
        }
        if let ReadState::Pending = self.read_state {
            if self.read_buffer.len() < 20 {
                return None;
            }
            let head = pop_bytes(&mut self.read_buffer, 20);
            let size_bytes = sub_bytes(head.as_slice(), 0, 4);
            let size = u32_from_le_bytes(size_bytes.as_slice());
            let iv_vec = sub_bytes(head.as_slice(), 4, 16);
            let iv = crate::wire::to_array_16(iv_vec.as_slice());
            self.read_state = ReadState::Header(RawHeader { size, iv });
            proof {
                assert(head@.subrange(0, 4) + head@.subrange(4, 20) =~= head@);
                assert(self.pending() =~= old(self).pending());
            }
        }
        let ghost mid = *self;

        if let ReadState::Header(rh) = self.read_state {
            if rh.size < 16 {
                self.read_state = ReadState::Corrupted;
                proof {
                    let p = mid.pending();
                    assert(p.subrange(0, 4) =~= spec_u32_to_le_bytes(rh.size));
                    assert(sec_frame_malformed(p));
                }
                return None;
            }
            let body_len = (rh.size - 16) as usize;
            if self.read_buffer.len() < body_len {
                proof {
                    let p = mid.pending();
                    assert(p.len() == 20 + mid.read_buffer@.len());
                    assert(p.subrange(0, 4) =~= spec_u32_to_le_bytes(rh.size));
                    assert(!sec_frame_complete(p));
                    assert(!sec_frame_malformed(p));
                }
                return None;
            }
            let ciphertext = pop_bytes(&mut self.read_buffer, body_len);
            let data = match self.crypto.decrypt_aes(ciphertext.as_slice(), &rh.iv) {
                Ok(v) => v,
                Err(_) => {
                    proof {
                        assert(false);
                    }
                    return None;
                },
            };
            self.read_state = ReadState::Pending;
            let p = SecurePacket { iv: rh.iv, data };
            proof {
                assert(cfb_encrypt_of(self.key(), p.iv@, p.data@) =~= ciphertext@);
                assert(mid.pending() =~= secure_frame_bytes(mid.key(), p.iv@, p.data@)
                    + self.pending());
            }
            return Some(p);
        }

        proof {
            assert(false);
        }
        None
    }
}

} // verus!
