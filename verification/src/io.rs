//! Byte-source and byte-sink abstractions, and the byte-stream adapter over
//! the secure layer.
//!
//! The traits stand for the transport surface: a source hands out the bytes
//! it holds in arrival order, a sink accepts bytes in call order.  The
//! library ships [`crate::vec_buf::VecBuf`] as an in-memory pipe; callers
//! may implement them over any transport.

use vstd::prelude::*;

use crate::secure::crypto::{cfb_decrypt_of, cfb_encrypt_of, CryptoError, CryptoStore};
use crate::secure::{
    after_first_chunk, first_plain_chunk, plain_of, sec_frame_complete, sec_frame_malformed,
    sec_size_of, secure_frame_bytes, SecureHeader,
};
use crate::wire::sub_bytes;
use vstd::bytes::*;

verus! {

/// A source of bytes, consumed from the front in arrival order.
pub trait ByteRead {
    /// The bytes ready to be read, in order.
    spec fn readable(&self) -> Seq<u8>;

    /// Number of bytes ready to be read.
    fn available(&self) -> (r: usize)
        ensures
            r == self.readable().len(),
    ;

    /// Remove and return the first `n` readable bytes.
    fn read_exact(&mut self, n: usize) -> (r: Vec<u8>)
        requires
            n <= old(self).readable().len(),
        ensures
            r@ == old(self).readable().take(n as int),
            final(self).readable() == old(self).readable().skip(n as int),
    ;
}

/// A sink of bytes, appended in call order.
pub trait ByteWrite {
    /// All bytes accepted so far, in order.
    spec fn written(&self) -> Seq<u8>;

    /// The prefix of `written` that the endpoint's own reading side has
    /// already taken, for endpoints that read back what was written (an
    /// in-memory pipe).  Writing appends fresh bytes and never touches it.
    spec fn consumed(&self) -> Seq<u8>;

    /// Append all of `data`.
    fn write_bytes(&mut self, data: &[u8])
        ensures
            final(self).written() == old(self).written() + data@,
            final(self).consumed() == old(self).consumed(),
    ;
}

/// Common secure byte-stream adapter: presents a plain byte surface over the
/// packet-oriented secure envelope.
///
/// Written bytes are wrapped one call per packet under a fresh random IV;
/// read bytes come from decrypted packets, with a residual buffer carrying
/// plaintext left over from a packet across calls.
pub struct SecureStream<S> {
    /// Session key store.
    pub crypto: CryptoStore,
    /// Underlying transport.
    pub stream: S,
    /// Decoded head of a packet whose ciphertext has not fully arrived.
    pub current: Option<SecureHeader>,
    /// Residual plaintext of the last decrypted packet.
    pub decrypted_buffer: Vec<u8>,
    /// History of the plaintext bytes handed to the write side.
    pub sent: Ghost<Seq<u8>>,
}

impl<S> SecureStream<S> {
    /// The session key bytes.
    pub open spec fn key(&self) -> Seq<u8> {
        self.crypto.key()
    }

    /// The not-yet-decrypted byte stream: the bytes of an already decoded
    /// head, then what the transport holds.
    pub open spec fn cipher_pending(&self) -> Seq<u8>
        where
            S: ByteRead,
    {
        match self.current {
            Some(h) => spec_u32_to_le_bytes(h.data_size) + h.iv@ + self.stream.readable(),
            None => self.stream.readable(),
        }
    }

    /// The residual plaintext available before touching the transport.
    pub open spec fn residual(&self) -> Seq<u8> {
        self.decrypted_buffer@
    }

    /// Create a new adapter over a crypto store and a transport.
    pub fn new(crypto: CryptoStore, stream: S) -> (r: SecureStream<S>)
        ensures
            r.crypto == crypto,
            r.stream == stream,
            r.current is None,
            r.residual() == Seq::<u8>::empty(),
            r.sent@ == Seq::<u8>::empty(),
    {
        let r = SecureStream {
            crypto,
            stream,
            current: None,
            decrypted_buffer: Vec::new(),
            sent: Ghost(Seq::empty()),
        };
        proof {
            assert(r.residual() =~= Seq::<u8>::empty());
        }
        r
    }

    /// The underlying transport.
    pub fn stream(&self) -> (r: &S)
        ensures
            *r == self.stream,
    {
        &self.stream
    }

    /// The underlying transport, for filling and draining.
    pub fn stream_mut(&mut self) -> (r: &mut S)
        ensures
            *r == old(self).stream,
            final(self).stream == *final(r),
            final(self).crypto == old(self).crypto,
            final(self).current == old(self).current,
            final(self).decrypted_buffer == old(self).decrypted_buffer,
    {
        &mut self.stream
    }

    /// The crypto store.
    pub fn crypto(&self) -> (r: &CryptoStore)
        ensures
            *r == self.crypto,
    {
        &self.crypto
    }

    /// The crypto store, for key replacement.
    pub fn crypto_mut(&mut self) -> (r: &mut CryptoStore)
        ensures
            *r == old(self).crypto,
            final(self).crypto == *final(r),
            final(self).stream == old(self).stream,
            final(self).current == old(self).current,
            final(self).decrypted_buffer == old(self).decrypted_buffer,
    {
        &mut self.crypto
    }
}

impl<S: ByteRead> SecureStream<S> {
    /// Drain up to `max` bytes from the residual plaintext buffer.
    fn try_read_decrypted(&mut self, max: usize) -> (r: Vec<u8>)
        ensures
            final(self).crypto == old(self).crypto,
            final(self).stream == old(self).stream,
            final(self).current == old(self).current,
            final(self).sent == old(self).sent,
            r@.len() <= max,
            old(self).residual() == r@ + final(self).residual(),
            r@.len() < max ==> final(self).residual().len() == 0,
    {
        let take = if max < self.decrypted_buffer.len() {
            max
        } else {
            self.decrypted_buffer.len()
        };
        let r = sub_bytes(self.decrypted_buffer.as_slice(), 0, take);
        let rest = sub_bytes(
            self.decrypted_buffer.as_slice(),
            take,
            self.decrypted_buffer.len() - take,
        );
        self.decrypted_buffer = rest;
        proof {
            assert(old(self).residual() =~= r@ + self.residual());
        }
        r
    }

    /// Decrypt one whole packet from the transport into the residual
    /// buffer, when one has fully arrived.  Returns `Err` when a head
    /// announces a size below 16, which desynchronizes the stream.
    fn try_decrypt_encrypted(&mut self) -> (r: Result<bool, CryptoError>)
        ensures
            final(self).crypto == old(self).crypto,
            final(self).sent == old(self).sent,
            match r {
                Ok(true) => {
                    &&& sec_frame_complete(old(self).cipher_pending())
                    &&& final(self).residual() == old(self).residual() + cfb_decrypt_of(
                        old(self).key(),
                        old(self).cipher_pending().subrange(4, 20),
                        old(self).cipher_pending().subrange(
                            20,
                            sec_size_of(old(self).cipher_pending()) + 4,
                        ),
                    )
                    &&& final(self).cipher_pending() == old(self).cipher_pending().skip(
                        sec_size_of(old(self).cipher_pending()) + 4,
                    )
                    &&& final(self).cipher_pending().len() < old(self).cipher_pending().len()
                },
                Ok(false) => {
                    &&& final(self).residual() == old(self).residual()
                    &&& final(self).cipher_pending() == old(self).cipher_pending()
                    &&& !sec_frame_complete(final(self).cipher_pending())
                },
                Err(_) => {
                    &&& final(self).residual() == old(self).residual()
                    &&& final(self).cipher_pending() == old(self).cipher_pending()
                    &&& sec_frame_malformed(old(self).cipher_pending())
                },
            },
    {
        if self.current.is_none() {
            if self.stream.available() < 20 {
                proof {
                    assert(!sec_frame_complete(self.cipher_pending()));
                }
                return Ok(false);
            }
            let head = self.stream.read_exact(20);
            let size_bytes = sub_bytes(head.as_slice(), 0, 4);
            let data_size = u32_from_le_bytes(size_bytes.as_slice());
            let iv_vec = sub_bytes(head.as_slice(), 4, 16);
            let iv = crate::wire::to_array_16(iv_vec.as_slice());
            self.current = Some(SecureHeader { data_size, iv });
            proof {
                lemma_auto_spec_u32_to_from_le_bytes();
                assert(head@.subrange(0, 4) + head@.subrange(4, 20) =~= head@);
                assert(self.cipher_pending() =~= old(self).cipher_pending());
            }
        }
        let ghost mid = *self;

        if let Some(h) = self.current {
            proof {
                lemma_auto_spec_u32_to_from_le_bytes();
                assert(mid.cipher_pending().subrange(0, 4) =~= spec_u32_to_le_bytes(h.data_size));
                assert(sec_size_of(mid.cipher_pending()) == h.data_size);
            }
            if h.data_size < 16 {
                proof {
                    assert(sec_frame_malformed(mid.cipher_pending()));
                }
                return Err(CryptoError::CorruptedData);
            }
            let body_len = (h.data_size - 16) as usize;
            if self.stream.available() < body_len {
                proof {
                    assert(mid.cipher_pending().len() == 20 + mid.stream.readable().len());
                    assert(!sec_frame_complete(mid.cipher_pending()));
                }
                return Ok(false);
            }
            let ciphertext = self.stream.read_exact(body_len);
            let plain = match self.crypto.decrypt_aes(ciphertext.as_slice(), &h.iv) {
                Ok(v) => v,
                Err(_) => {
                    proof {
                        assert(false);
                    }
                    return Err(CryptoError::CorruptedData);
                },
            };
            self.current = None;
            let mut plain_mut = plain;
            self.decrypted_buffer.append(&mut plain_mut);
            proof {
                let p = mid.cipher_pending();
                assert(p.subrange(4, 20) =~= h.iv@);
                assert(p.subrange(20, sec_size_of(p) + 4) =~= ciphertext@);
                assert(p.skip(sec_size_of(p) + 4) =~= self.cipher_pending());
                assert(sec_frame_complete(p));
                assert(self.residual() =~= old(self).residual() + cfb_decrypt_of(
                    old(self).key(),
                    p.subrange(4, 20),
                    p.subrange(20, sec_size_of(p) + 4),
                ));
            }
            return Ok(true);
        }

        proof {
            assert(false);
        }
        Ok(false)
    }

    /// Decrypt every whole packet the transport holds into the residual
    /// buffer.  On success all decodable plaintext has been moved, in
    /// order; the failure desynchronizes the stream as in
    /// [`SecureStream::read`].
    pub fn fill(&mut self) -> (r: Result<(), CryptoError>)
        ensures
            final(self).crypto == old(self).crypto,
            final(self).sent == old(self).sent,
            match r {
                Ok(()) => {
                    &&& final(self).residual() == old(self).residual() + plain_of(
                        old(self).key(),
                        old(self).cipher_pending(),
                    )
                    &&& plain_of(final(self).key(), final(self).cipher_pending())
                        == Seq::<u8>::empty()
                },
                Err(_) => {
                    &&& sec_frame_malformed(final(self).cipher_pending())
                    &&& old(self).residual() + plain_of(old(self).key(), old(
                        self,
                    ).cipher_pending()) == final(self).residual() + plain_of(
                        final(self).key(),
                        final(self).cipher_pending(),
                    )
                },
            },
    {
        loop
            invariant
                self.crypto == old(self).crypto,
                self.sent == old(self).sent,
                old(self).residual() + plain_of(old(self).key(), old(self).cipher_pending())
                    == self.residual() + plain_of(self.key(), self.cipher_pending()),
            decreases self.cipher_pending().len(),
        {
            let ghost before = *self;
            match self.try_decrypt_encrypted() {
                Ok(true) => {
                    proof {
                        let bc = before.cipher_pending();
                        assert(plain_of(before.key(), bc) == cfb_decrypt_of(
                            before.key(),
                            bc.subrange(4, 20),
                            bc.subrange(20, sec_size_of(bc) + 4),
                        ) + plain_of(before.key(), bc.skip(sec_size_of(bc) + 4)));
                        assert(before.residual() + plain_of(before.key(), bc)
                            =~= self.residual() + plain_of(self.key(), self.cipher_pending()));
                    }
                },
                Ok(false) => {
                    proof {
                        assert(plain_of(self.key(), self.cipher_pending())
                            =~= Seq::<u8>::empty());
                        assert(self.residual() =~= old(self).residual() + plain_of(
                            old(self).key(),
                            old(self).cipher_pending(),
                        ));
                    }
                    return Ok(());
                },
                Err(e) => {
                    return Err(e);
                },
            }
        }
    }

    /// Read up to `max` plaintext bytes.
    ///
    /// Drains the residual buffer first; otherwise decrypts packets until
    /// plaintext is available or no whole packet is buffered, and returns
    /// an empty vector in the latter case.  Fails only when a packet head
    /// is malformed (size below 16); the stream is then desynchronized and
    /// must be discarded.
    pub fn read(&mut self, max: usize) -> (r: Result<Vec<u8>, CryptoError>)
        ensures
            final(self).crypto == old(self).crypto,
            final(self).sent == old(self).sent,
            match r {
                Ok(v) => {
                    &&& v@.len() <= max
                    &&& old(self).residual() + plain_of(old(self).key(), old(
                        self,
                    ).cipher_pending()) == v@ + final(self).residual() + plain_of(
                        final(self).key(),
                        final(self).cipher_pending(),
                    )
                    &&& (old(self).residual().len() > 0 ==> {
                        &&& v@ == old(self).residual().take(v@.len() as int)
                        &&& v@.len() == if max <= old(self).residual().len() {
                            max as int
                        } else {
                            old(self).residual().len() as int
                        }
                        &&& final(self).residual() == old(self).residual().skip(v@.len() as int)
                        &&& final(self).cipher_pending() == old(self).cipher_pending()
                    })
                    &&& (old(self).residual().len() == 0 && max == 0 ==> {
                        &&& v@.len() == 0
                        &&& final(self).residual().len() == 0
                        &&& final(self).cipher_pending() == old(self).cipher_pending()
                    })
                    &&& (old(self).residual().len() == 0 && max > 0 ==> {
                        &&& v@ == plain_of(
                            old(self).key(),
                            old(self).cipher_pending(),
                        ).take(v@.len() as int)
                        &&& v@.len() == if max <= first_plain_chunk(
                            old(self).key(),
                            old(self).cipher_pending(),
                        ).len() {
                            max as int
                        } else {
                            first_plain_chunk(
                                old(self).key(),
                                old(self).cipher_pending(),
                            ).len() as int
                        }
                        &&& final(self).residual() == first_plain_chunk(
                            old(self).key(),
                            old(self).cipher_pending(),
                        ).skip(v@.len() as int)
                        &&& final(self).cipher_pending() == after_first_chunk(
                            old(self).key(),
                            old(self).cipher_pending(),
                        )
                    })
                    &&& (v@.len() < max ==> final(self).residual().len() == 0)
                    &&& (v@.len() == 0 && max > 0 ==> final(self).residual().len() == 0
                        && plain_of(final(self).key(), final(self).cipher_pending()).len() == 0)
                },
                Err(_) => {
                    &&& sec_frame_malformed(final(self).cipher_pending())
                    &&& old(self).residual().len() == 0
                    &&& max > 0
                    &&& first_plain_chunk(old(self).key(), old(self).cipher_pending())
                        == Seq::<u8>::empty()
                    &&& old(self).residual() + plain_of(old(self).key(), old(
                        self,
                    ).cipher_pending()) == final(self).residual() + plain_of(
                        final(self).key(),
                        final(self).cipher_pending(),
                    )
                },
            },
    {
        loop
            invariant
                self.crypto == old(self).crypto,
                self.sent == old(self).sent,
                old(self).residual() + plain_of(old(self).key(), old(self).cipher_pending())
                    == self.residual() + plain_of(self.key(), self.cipher_pending()),
                old(self).residual().len() > 0 ==> self == old(self),
                max == 0 ==> self == old(self),
                old(self).residual().len() == 0 && self.residual().len() == 0 ==> {
                    &&& first_plain_chunk(self.key(), self.cipher_pending()) == first_plain_chunk(
                        old(self).key(),
                        old(self).cipher_pending(),
                    )
                    &&& after_first_chunk(self.key(), self.cipher_pending()) == after_first_chunk(
                        old(self).key(),
                        old(self).cipher_pending(),
                    )
                },
                old(self).residual().len() == 0 && self.residual().len() > 0 ==> {
                    &&& self.residual() == first_plain_chunk(
                        old(self).key(),
                        old(self).cipher_pending(),
                    )
                    &&& self.cipher_pending() == after_first_chunk(
                        old(self).key(),
                        old(self).cipher_pending(),
                    )
                },
            decreases self.cipher_pending().len(),
        {
            if self.decrypted_buffer.len() > 0 || max == 0 {
                let ghost pre = *self;
                let r = self.try_read_decrypted(max);
                proof {
                    assert(old(self).residual() + plain_of(old(self).key(), old(
                        self,
                    ).cipher_pending()) =~= r@ + self.residual() + plain_of(
                        self.key(),
                        self.cipher_pending(),
                    ));
                    assert(r@ =~= pre.residual().take(r@.len() as int));
                    assert(self.residual() =~= pre.residual().skip(r@.len() as int));
                    if r@.len() < max && r@.len() < pre.residual().len() {
                        assert(self.residual().len() == 0);
                        assert(pre.residual().len() == r@.len() + self.residual().len());
                        assert(false);
                    }
                    if old(self).residual().len() == 0 {
                        assert(plain_of(old(self).key(), old(self).cipher_pending())
                            =~= pre.residual() + plain_of(pre.key(), pre.cipher_pending()));
                        assert(r@ =~= plain_of(old(self).key(), old(self).cipher_pending()).take(
                            r@.len() as int,
                        ));
                        if pre.residual().len() == 0 {
                            assert(max == 0);
                            assert(r@.len() == 0);
                        } else {
                            assert(pre.residual() == first_plain_chunk(
                                old(self).key(),
                                old(self).cipher_pending(),
                            ));
                            assert(self.cipher_pending() == after_first_chunk(
                                old(self).key(),
                                old(self).cipher_pending(),
                            ));
                            assert(self.residual() =~= first_plain_chunk(
                                old(self).key(),
                                old(self).cipher_pending(),
                            ).skip(r@.len() as int));
                        }
                    }
                }
                return Ok(r);
            }
            let ghost before = *self;
            match self.try_decrypt_encrypted() {
                Ok(true) => {
                    proof {
                        let bc = before.cipher_pending();
                        let d = cfb_decrypt_of(
                            before.key(),
                            bc.subrange(4, 20),
                            bc.subrange(20, sec_size_of(bc) + 4),
                        );
                        assert(plain_of(before.key(), bc) == d + plain_of(
                            before.key(),
                            bc.skip(sec_size_of(bc) + 4),
                        ));
                        assert(before.residual() + plain_of(before.key(), bc)
                            =~= self.residual() + plain_of(self.key(), self.cipher_pending()));
                        if old(self).residual().len() == 0 {
                            if d.len() == 0 {
                                assert(first_plain_chunk(before.key(), bc) == first_plain_chunk(
                                    before.key(),
                                    bc.skip(sec_size_of(bc) + 4),
                                ));
                                assert(after_first_chunk(before.key(), bc) == after_first_chunk(
                                    before.key(),
                                    bc.skip(sec_size_of(bc) + 4),
                                ));
                            } else {
                                assert(first_plain_chunk(before.key(), bc) == d);
                                assert(after_first_chunk(before.key(), bc) == bc.skip(
                                    sec_size_of(bc) + 4,
                                ));
                                assert(self.residual() =~= d);
                            }
                        }
                    }
                },
                Ok(false) => {
                    let r: Vec<u8> = Vec::new();
                    proof {
                        assert(self.residual().len() == 0);
                        assert(plain_of(self.key(), self.cipher_pending()).len() == 0);
                        assert(old(self).residual() + plain_of(old(self).key(), old(
                            self,
                        ).cipher_pending()) =~= r@ + self.residual() + plain_of(
                            self.key(),
                            self.cipher_pending(),
                        ));
                    }
                    return Ok(r);
                },
                Err(e) => {
                    return Err(e);
                },
            }
            proof {
                assert(self.cipher_pending().len() < before.cipher_pending().len());
            }
        }
    }
}

impl<S: ByteWrite> SecureStream<S> {
    /// Wrap `buf` as one secure packet under a fresh random IV and hand the
    /// whole frame to the transport.  Returns the payload length.
    pub fn write(&mut self, buf: &[u8]) -> (r: usize)
        requires
            buf@.len() + 16 <= u32::MAX,
        ensures
            final(self).crypto == old(self).crypto,
            final(self).current == old(self).current,
            final(self).decrypted_buffer == old(self).decrypted_buffer,
            r == buf@.len(),
            final(self).sent@ == old(self).sent@ + buf@,
            final(self).stream.consumed() == old(self).stream.consumed(),
            exists|iv: Seq<u8>|
                #![trigger secure_frame_bytes(old(self).key(), iv, buf@)]
                {
                    &&& iv.len() == 16
                    &&& final(self).stream.written() == old(self).stream.written()
                        + secure_frame_bytes(old(self).key(), iv, buf@)
                    &&& cfb_encrypt_of(old(self).key(), iv, buf@).len() == buf@.len()
                    &&& cfb_decrypt_of(
                        old(self).key(),
                        iv,
                        cfb_encrypt_of(old(self).key(), iv, buf@),
                    ) == buf@
                },
    {
        let (frame, iv) = crate::secure::to_encrypted_packet_iv(&self.crypto, buf);
        self.stream.write_bytes(frame.as_slice());
        proof {
            self.sent = Ghost(old(self).sent@ + buf@);
            assert(self.stream.written() =~= old(self).stream.written() + secure_frame_bytes(
                old(self).key(),
                iv@,
                buf@,
            ));
        }
        buf.len()
    }
}

impl<S: ByteRead> ByteRead for SecureStream<S> {
    /// The decrypted bytes already moved to the residual buffer; call
    /// [`SecureStream::fill`] to decrypt what the transport holds.
    open spec fn readable(&self) -> Seq<u8> {
        self.residual()
    }

    fn available(&self) -> (r: usize) {
        self.decrypted_buffer.len()
    }

    fn read_exact(&mut self, n: usize) -> (r: Vec<u8>) {
        let r = sub_bytes(self.decrypted_buffer.as_slice(), 0, n);
        let rest = sub_bytes(
            self.decrypted_buffer.as_slice(),
            n,
            self.decrypted_buffer.len() - n,
        );
        self.decrypted_buffer = rest;
        proof {
            assert(r@ =~= old(self).residual().take(n as int));
            assert(self.residual() =~= old(self).residual().skip(n as int));
        }
        r
    }
}

impl<S: ByteWrite> ByteWrite for SecureStream<S> {
    /// The plaintext byte stream fed into the envelope; each chunk leaves
    /// as one secure packet, per [`SecureStream::write`]'s contract.
    open spec fn written(&self) -> Seq<u8> {
        self.sent@
    }

    /// Nothing fed to the envelope stays readable on this endpoint: its
    /// read surface is the residual of packets arriving from the peer, so
    /// no prefix of the written plaintext is ever claimed by the reader.
    open spec fn consumed(&self) -> Seq<u8> {
        Seq::empty()
    }

    /// One secure packet per chunk, in order; a chunk is bounded by what
    /// the packet length field can announce.
    fn write_bytes(&mut self, data: &[u8]) {
        let dlen: usize = data.len();
        let mut off: usize = 0;
        proof {
            assert(data@.take(0) =~= Seq::<u8>::empty());
            assert(self.sent@ =~= old(self).sent@ + data@.take(0));
        }
        while off < dlen
            invariant
                off <= dlen,
                dlen == data@.len(),
                self.sent@ == old(self).sent@ + data@.take(off as int),
            decreases dlen - off,
        {
            let chunk_len = if dlen - off > 1000000000 {
                1000000000
            } else {
                dlen - off
            };
            let chunk = sub_bytes(data, off, chunk_len);
            self.write(chunk.as_slice());
            off = off + chunk_len;
            proof {
                assert(self.sent@ =~= old(self).sent@ + data@.take(off as int));
            }
        }
        proof {
            assert(data@.take(dlen as int) =~= data@);
        }
    }
}

} // verus!
