//! Cryptographic primitives of the secure layer.
//!
//! AES-128-CFB128 comes from the `libaes` crate, the RSA-OAEP key wrap from
//! the `rsa` crate, and random key and IV material from `rand`.  Each call
//! into those crates stands behind a trusted item whose contract names or
//! bounds its result; everything around the calls is verified.

use vstd::prelude::*;

verus! {

/// What `libaes`'s AES-128-CFB128 encryption returns for a key, an IV and a
/// plaintext.  The result is a function of the three arguments alone.
pub uninterp spec fn cfb_encrypt_of(key: Seq<u8>, iv: Seq<u8>, data: Seq<u8>) -> Seq<u8>;

/// What `libaes`'s AES-128-CFB128 decryption returns for a key, an IV and a
/// ciphertext.  The result is a function of the three arguments alone.
pub uninterp spec fn cfb_decrypt_of(key: Seq<u8>, iv: Seq<u8>, data: Seq<u8>) -> Seq<u8>;

/// What the `rsa` crate's OAEP-SHA1/MGF1-SHA1 unwrap yields for a private
/// key given by its big-endian components and a ciphertext: `Some` of the
/// recovered plaintext, or `None` when the components are rejected or OAEP
/// verification fails.  Decryption draws no randomness, so the result is a
/// function of these arguments alone.
pub uninterp spec fn oaep_unwrap_of(
    n: Seq<u8>,
    e: Seq<u8>,
    d: Seq<u8>,
    primes: Seq<Seq<u8>>,
    ciphertext: Seq<u8>,
) -> Option<Seq<u8>>;

/// Error kinds of the cryptographic primitives.
#[derive(Debug, Clone, Copy, PartialEq, Eq)]
pub enum CryptoError {
    /// A primitive rejected its input (OAEP unwrap failure, malformed key).
    CorruptedData,
    /// An unwrapped session key does not have exactly 16 bytes.
    InvalidKey,
}

/// Bulk cipher identifiers of the handshake.
#[derive(Debug, Clone, Copy, PartialEq, Eq)]
pub enum EncryptType {
    /// AES in CFB mode with 128-bit feedback, no padding.
    AesCfb128,
}

impl EncryptType {
    /// Wire code of the identifier.
    pub fn code(&self) -> (r: u32)
        ensures
            r == crate::secure::ENCRYPT_TYPE_AES_CFB128,
    {
        2
    }
}

/// Key-wrap algorithm identifiers of the handshake.
#[derive(Debug, Clone, Copy, PartialEq, Eq)]
pub enum KeyEncryptType {
    /// RSA-OAEP-SHA1/MGF1-SHA1 under its historical wire code.
    RsaOaepSha1Mgf1Sha1Old,
    /// RSA-OAEP-SHA1/MGF1-SHA1 under its current wire code.
    RsaOaepSha1Mgf1Sha1,
}

impl KeyEncryptType {
    /// Wire code of the identifier.
    pub fn code(&self) -> (r: u32)
        ensures
            r == match self {
                KeyEncryptType::RsaOaepSha1Mgf1Sha1Old => crate::secure::KEY_ENCRYPT_TYPE_OAEP_OLD,
                KeyEncryptType::RsaOaepSha1Mgf1Sha1 => crate::secure::KEY_ENCRYPT_TYPE_OAEP,
            },
    {
        match self {
            KeyEncryptType::RsaOaepSha1Mgf1Sha1Old => 12,
            KeyEncryptType::RsaOaepSha1Mgf1Sha1 => 15,
        }
    }
}

/// An RSA public key, held as the big-endian bytes of its modulus and
/// public exponent.  The modulus is kept in minimal form (no leading zero),
/// so its byte length is the key's ciphertext length.
#[derive(Debug, Clone, PartialEq, Eq)]
pub struct PublicKey {
    n: Vec<u8>,
    e: Vec<u8>,
}

impl PublicKey {
    pub closed spec fn spec_n(&self) -> Seq<u8> {
        self.n@
    }

    pub closed spec fn spec_e(&self) -> Seq<u8> {
        self.e@
    }

    pub open spec fn wf(&self) -> bool {
        self.spec_n().len() > 0 && self.spec_n()[0] != 0
    }

    /// Modulus size in bytes; raw ciphertexts for this key have this length.
    pub open spec fn modulus_len(&self) -> int {
        self.spec_n().len() as int
    }

    /// Create a public key from the big-endian bytes of modulus and
    /// exponent.  Returns `None` when the modulus is empty or carries a
    /// leading zero byte.
    pub fn new(n: Vec<u8>, e: Vec<u8>) -> (r: Option<PublicKey>)
        ensures
            match r {
                Some(k) => k.wf() && k.spec_n() == n@ && k.spec_e() == e@,
                None => n@.len() == 0 || n@[0] == 0,
            },
    {
        if n.len() == 0 || n[0] == 0 {
            return None;
        }
        Some(PublicKey { n, e })
    }

    /// Modulus size in bytes.
    pub fn modulus_size(&self) -> (r: usize)
        ensures
            r == self.modulus_len(),
    {
        self.n.len()
    }
}

/// An RSA private key, held as the big-endian bytes of its components.
#[derive(Debug, Clone, PartialEq, Eq)]
pub struct PrivateKey {
    n: Vec<u8>,
    e: Vec<u8>,
    d: Vec<u8>,
    primes: Vec<Vec<u8>>,
}

impl PrivateKey {
    pub closed spec fn spec_n(&self) -> Seq<u8> {
        self.n@
    }

    pub closed spec fn spec_e(&self) -> Seq<u8> {
        self.e@
    }

    pub closed spec fn spec_d(&self) -> Seq<u8> {
        self.d@
    }

    pub closed spec fn spec_primes(&self) -> Seq<Seq<u8>> {
        self.primes.deep_view()
    }

    /// A usable private key carries at least its two prime factors.  The
    /// key-unwrap primitive requires this: without the primes it would try
    /// to recover them, a computation that can abort on bad components
    /// instead of reporting an error.
    pub open spec fn wf(&self) -> bool {
        self.spec_primes().len() >= 2
    }

    /// What the OAEP unwrap under this key yields for a ciphertext.
    pub open spec fn unwrap_of(&self, ciphertext: Seq<u8>) -> Option<Seq<u8>> {
        oaep_unwrap_of(self.spec_n(), self.spec_e(), self.spec_d(), self.spec_primes(), ciphertext)
    }

    /// Create a private key from the big-endian bytes of its components,
    /// prime factors included.  The component values are validated by the
    /// key-unwrap primitive.
    pub fn new(n: Vec<u8>, e: Vec<u8>, d: Vec<u8>, primes: Vec<Vec<u8>>) -> (r: PrivateKey)
        ensures
            r.spec_n() == n@,
            r.spec_e() == e@,
            r.spec_d() == d@,
            r.spec_primes() == primes.deep_view(),
            r.wf() <==> primes.deep_view().len() >= 2,
    {
        PrivateKey { n, e, d, primes }
    }
}

/// Relies on `libaes::Cipher::new_128` and `Cipher::cfb128_encrypt`:
/// AES-128-CFB128 encryption is deterministic in key, IV and plaintext, the
/// ciphertext has the plaintext's length, and `cfb128_decrypt` recovers the
/// plaintext from it (CFB is a stream mode and these two are inverses).
#[verifier::external_body]
fn aes_cfb_encrypt(key: &[u8; 16], iv: &[u8; 16], data: &[u8]) -> (r: Vec<u8>)
    ensures
        r@ == cfb_encrypt_of(key@, iv@, data@),
        r@.len() == data@.len(),
        cfb_decrypt_of(key@, iv@, r@) == data@,
{
    libaes::Cipher::new_128(key).cfb128_encrypt(iv, data)
}

/// Relies on `libaes::Cipher::new_128` and `Cipher::cfb128_decrypt`:
/// AES-128-CFB128 decryption is deterministic in key, IV and ciphertext, the
/// plaintext has the ciphertext's length, and it inverts `cfb128_encrypt`
/// both ways: re-encrypting the result yields the input back, and when the
/// input is the encryption of some plaintext, that plaintext is returned.
#[verifier::external_body]
fn aes_cfb_decrypt(key: &[u8; 16], iv: &[u8; 16], data: &[u8]) -> (r: Vec<u8>)
    ensures
        r@ == cfb_decrypt_of(key@, iv@, data@),
        r@.len() == data@.len(),
        cfb_encrypt_of(key@, iv@, r@) == data@,
        forall|p: Seq<u8>| cfb_encrypt_of(key@, iv@, p) == data@ ==> r@ == p,
{
    libaes::Cipher::new_128(key).cfb128_decrypt(iv, data)
}

/// Relies on `rsa::RsaPublicKey::{new, encrypt}` with OAEP-SHA1/MGF1-SHA1
/// padding: on success the ciphertext has exactly the modulus byte length.
/// The result also depends on the thread RNG, so nothing else is promised.
#[verifier::external_body]
fn rsa_oaep_wrap(key: &PublicKey, msg: &[u8]) -> (r: Result<Vec<u8>, CryptoError>)
    requires
        key.wf(),
    ensures
        r matches Ok(v) ==> v@.len() == key.modulus_len(),
{
    let n = rsa::BigUint::from_bytes_be(&key.n);
    let e = rsa::BigUint::from_bytes_be(&key.e);
    let k = match rsa::RsaPublicKey::new(n, e) {
        Ok(k) => k,
        Err(_) => return Err(CryptoError::CorruptedData),
    };
    k.encrypt(
        &mut rand::thread_rng(),
        rsa::Oaep::new_with_mgf_hash::<sha1::Sha1, sha1::Sha1>(),
        msg,
    ).map_err(|_| CryptoError::CorruptedData)
}

/// Relies on `rsa::RsaPrivateKey::{from_components, decrypt}` with
/// OAEP-SHA1/MGF1-SHA1 padding: decryption draws no randomness, so its
/// outcome is the function [`oaep_unwrap_of`] of the key components and the
/// ciphertext — `Some` of the plaintext exactly when this call succeeds.
/// The key must carry at least two primes: `from_components` then skips
/// prime recovery (which can abort on bad components), rejects primes of
/// one or zero before any arithmetic on them, and reports every other bad
/// component as an error.
#[verifier::external_body]
fn rsa_oaep_unwrap(key: &PrivateKey, ciphertext: &[u8]) -> (r: Result<Vec<u8>, CryptoError>)
    requires
        key.wf(),
    ensures
        r matches Ok(v) ==> oaep_unwrap_of(
            key.spec_n(),
            key.spec_e(),
            key.spec_d(),
            key.spec_primes(),
            ciphertext@,
        ) == Some(v@),
        r is Err ==> oaep_unwrap_of(
            key.spec_n(),
            key.spec_e(),
            key.spec_d(),
            key.spec_primes(),
            ciphertext@,
        ) is None,
{
    let n = rsa::BigUint::from_bytes_be(&key.n);
    let e = rsa::BigUint::from_bytes_be(&key.e);
    let d = rsa::BigUint::from_bytes_be(&key.d);
    let primes: Vec<rsa::BigUint> =
        key.primes.iter().map(|p| rsa::BigUint::from_bytes_be(p)).collect();
    let k = match rsa::RsaPrivateKey::from_components(n, e, d, primes) {
        Ok(k) => k,
        Err(_) => return Err(CryptoError::CorruptedData),
    };
    k.decrypt(rsa::Oaep::new_with_mgf_hash::<sha1::Sha1, sha1::Sha1>(), ciphertext).map_err(|_| {
        CryptoError::CorruptedData
    })
}

/// Relies on `rand::thread_rng` and `RngCore::fill_bytes`: fills the vector
/// from a cryptographically secure RNG.  Nothing is promised of the values.
#[verifier::external_body]
fn random_vec(len: usize) -> (r: Vec<u8>)
    ensures
        r@.len() == len,
{
    let mut buf = vec![0u8; len];
    rand::RngCore::fill_bytes(&mut rand::thread_rng(), &mut buf);
    buf
}

/// Draw 16 random bytes, for session keys and per-packet IVs.
pub(crate) fn random_16() -> (r: [u8; 16]) {
    let v = random_vec(16);
    crate::wire::to_array_16(v.as_slice())
}

/// Stores the 16-byte AES session key and performs the bulk cipher and key
/// wrap operations with it.
#[derive(Debug, Clone)]
pub struct CryptoStore {
    aes_key: [u8; 16],
}

impl CryptoStore {
    /// The session key bytes.
    pub closed spec fn key(&self) -> Seq<u8> {
        self.aes_key@
    }

    /// Create a store with a fresh random session key.
    pub fn new() -> (r: CryptoStore)
        ensures
            r.key().len() == 16,
    {
        CryptoStore { aes_key: random_16() }
    }

    /// Create a store over a given 16-byte session key.
    pub fn new_with_key(aes_key: [u8; 16]) -> (r: CryptoStore)
        ensures
            r.key() == aes_key@,
    {
        CryptoStore { aes_key }
    }

    /// AES-128-CFB128 encryption under the session key; the ciphertext has
    /// the plaintext's length and decrypting it yields the plaintext back.
    pub fn encrypt_aes(&self, data: &[u8], iv: &[u8; 16]) -> (r: Result<Vec<u8>, CryptoError>)
        ensures
            r is Ok,
            r matches Ok(v) ==> {
                &&& v@ == cfb_encrypt_of(self.key(), iv@, data@)
                &&& v@.len() == data@.len()
                &&& cfb_decrypt_of(self.key(), iv@, v@) == data@
            },
    {
        Ok(aes_cfb_encrypt(&self.aes_key, iv, data))
    }

    /// AES-128-CFB128 decryption under the session key: the inverse of
    /// [`CryptoStore::encrypt_aes`] for the same key and IV.
    pub fn decrypt_aes(&self, data: &[u8], iv: &[u8; 16]) -> (r: Result<Vec<u8>, CryptoError>)
        ensures
            r is Ok,
            r matches Ok(v) ==> {
                &&& v@ == cfb_decrypt_of(self.key(), iv@, data@)
                &&& v@.len() == data@.len()
                &&& cfb_encrypt_of(self.key(), iv@, v@) == data@
                &&& forall|p: Seq<u8>| cfb_encrypt_of(self.key(), iv@, p) == data@ ==> v@ == p
            },
    {
        Ok(aes_cfb_decrypt(&self.aes_key, iv, data))
    }

    /// Wrap the session key under an RSA public key; on success the result
    /// has exactly the modulus byte length.
    pub fn encrypt_key(&self, key: &PublicKey) -> (r: Result<Vec<u8>, CryptoError>)
        requires
            key.wf(),
        ensures
            r matches Ok(v) ==> v@.len() == key.modulus_len(),
    {
        rsa_oaep_wrap(key, &self.aes_key)
    }

    /// Unwrap a session key with an RSA private key and install it.
    ///
    /// Succeeds exactly when the OAEP unwrap yields a 16-byte plaintext,
    /// and then the store holds that plaintext as its key.  Fails with
    /// `CorruptedData` when the unwrap rejects the ciphertext, and with
    /// `InvalidKey` when the unwrapped plaintext is not exactly 16 bytes;
    /// the key is then unchanged.
    pub fn apply_encrypted_key(
        &mut self,
        encrypted_aes_key: &[u8],
        key: &PrivateKey,
    ) -> (r: Result<(), CryptoError>)
        requires
            key.wf(),
        ensures
            match r {
                Ok(()) => key.unwrap_of(encrypted_aes_key@) matches Some(v) && v.len() == 16
                    && final(self).key() == v,
                Err(CryptoError::CorruptedData) => key.unwrap_of(encrypted_aes_key@) is None
                    && final(self).key() == old(self).key(),
                Err(CryptoError::InvalidKey) => (key.unwrap_of(encrypted_aes_key@) matches Some(v)
                    && v.len() != 16) && final(self).key() == old(self).key(),
            },
    {
        let unwrapped = match rsa_oaep_unwrap(key, encrypted_aes_key) {
            Ok(v) => v,
            Err(_) => {
                return Err(CryptoError::CorruptedData);
            },
        };
        if unwrapped.len() != 16 {
            return Err(CryptoError::InvalidKey);
        }
        let arr = crate::wire::to_array_16(unwrapped.as_slice());
        self.aes_key = arr;
        Ok(())
    }

    /// Draw cryptographically secure random bytes.
    pub fn gen_random(&self, len: usize) -> (r: Vec<u8>)
        ensures
            r@.len() == len,
    {
        random_vec(len)
    }
}

} // verus!
