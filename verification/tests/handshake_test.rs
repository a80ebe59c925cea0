use loco_protocol::secure::crypto::{CryptoStore, PrivateKey, PublicKey};
use loco_protocol::secure::session::{
    SecureClientSession, SecureHandshakeError, SecureServerSession,
};
use loco_protocol::secure::stream::SecureStream;
use loco_protocol::vec_buf::VecBuf;
use rsa::traits::{PrivateKeyParts, PublicKeyParts};
use rsa::{RsaPrivateKey, RsaPublicKey};

fn to_public_key(key: &RsaPublicKey) -> PublicKey {
    PublicKey::new(key.n().to_bytes_be(), key.e().to_bytes_be()).unwrap()
}

fn to_private_key(key: &RsaPrivateKey) -> PrivateKey {
    PrivateKey::new(
        key.n().to_bytes_be(),
        key.e().to_bytes_be(),
        key.d().to_bytes_be(),
        key.primes().iter().map(|p| p.to_bytes_be()).collect(),
    )
}

#[test]
pub fn handshake() {
    let private_key =
        RsaPrivateKey::new(&mut rand::thread_rng(), 1024).expect("failed to generate a key");
    let public_key = RsaPublicKey::from(&private_key);

    let mut stream = SecureStream::new(CryptoStore::new(), VecBuf::new());

    let client_session = SecureClientSession::new(to_public_key(&public_key));

    client_session
        .handshake(&mut stream)
        .expect("Client handshake failed");

    let mut server_session = SecureServerSession::new(to_private_key(&private_key));

    server_session
        .handshake(stream.stream_mut())
        .expect("Server handshake failed");
}

#[test]
pub fn handshake_key_round_trip() {
    // The server recovers exactly the session key the client wrapped.
    let private_key =
        RsaPrivateKey::new(&mut rand::thread_rng(), 2048).expect("failed to generate a key");
    let public_key = RsaPublicKey::from(&private_key);

    let mut stream = SecureStream::new(CryptoStore::new(), VecBuf::new());

    let client_session = SecureClientSession::new(to_public_key(&public_key));
    client_session
        .handshake(&mut stream)
        .expect("Client handshake failed");

    let (client_crypto, mut pipe) = stream.into_inner();

    let mut server_session = SecureServerSession::new(to_private_key(&private_key));
    let server_crypto = server_session
        .handshake(&mut pipe)
        .expect("Server handshake failed");

    // Both sides now hold the same key: a packet sealed by one side opens
    // on the other.
    let mut sender = SecureStream::new(client_crypto, VecBuf::new());
    sender.write_data(&[4u8, 5, 6]).expect("write must not fail");
    let (_, relay) = sender.into_inner();

    let mut receiver = SecureStream::new(server_crypto, relay);
    let packet = receiver.read_packet().expect("read must not fail");
    assert_eq!(packet.data, vec![4u8, 5, 6]);
}

#[test]
pub fn handshake_short_read() {
    let private_key =
        RsaPrivateKey::new(&mut rand::thread_rng(), 1024).expect("failed to generate a key");

    let mut server_session = SecureServerSession::new(to_private_key(&private_key));

    let mut pipe = VecBuf::new();
    pipe.push(vec![1u8, 2, 3]);
    assert!(matches!(
        server_session.handshake(&mut pipe),
        Err(SecureHandshakeError::ShortRead)
    ));
}

#[test]
pub fn handshake_corrupted_key() {
    let private_key =
        RsaPrivateKey::new(&mut rand::thread_rng(), 1024).expect("failed to generate a key");

    let mut server_session = SecureServerSession::new(to_private_key(&private_key));

    // A preamble whose wrapped key is garbage fails OAEP verification.
    let mut bytes = 128u32.to_le_bytes().to_vec();
    bytes.extend_from_slice(&15u32.to_le_bytes());
    bytes.extend_from_slice(&2u32.to_le_bytes());
    bytes.extend_from_slice(&[0xabu8; 128]);

    let mut pipe = VecBuf::new();
    pipe.push(bytes);
    assert!(matches!(
        server_session.handshake(&mut pipe),
        Err(SecureHandshakeError::CorruptedData)
    ));
}

#[test]
pub fn handshake_invalid_key_length() {
    // A wrapped payload that is not 16 bytes long is rejected after a
    // successful unwrap.
    let private_key =
        RsaPrivateKey::new(&mut rand::thread_rng(), 1024).expect("failed to generate a key");
    let public_key = RsaPublicKey::from(&private_key);

    let wrapped = public_key
        .encrypt(
            &mut rand::thread_rng(),
            rsa::Oaep::new_with_mgf_hash::<sha1::Sha1, sha1::Sha1>(),
            &[7u8; 10],
        )
        .expect("wrap must not fail");

    let mut bytes = (wrapped.len() as u32).to_le_bytes().to_vec();
    bytes.extend_from_slice(&15u32.to_le_bytes());
    bytes.extend_from_slice(&2u32.to_le_bytes());
    bytes.extend_from_slice(&wrapped);

    let mut server_session = SecureServerSession::new(to_private_key(&private_key));
    let mut pipe = VecBuf::new();
    pipe.push(bytes);
    assert!(matches!(
        server_session.handshake(&mut pipe),
        Err(SecureHandshakeError::InvalidKey)
    ));
}
