use std::mem::swap;

use loco_protocol::secure::client::{LocoClientSecureLayer, ReadState};
use loco_protocol::secure::crypto::PublicKey;
use loco_protocol::secure::SecurePacket;
use rand::RngCore;
use rsa::traits::PublicKeyParts;
use rsa::{RsaPrivateKey, RsaPublicKey};

fn to_public_key(key: &RsaPublicKey) -> PublicKey {
    PublicKey::new(key.n().to_bytes_be(), key.e().to_bytes_be()).unwrap()
}

#[test]
pub fn test_handshake() {
    let mut layer = LocoClientSecureLayer::new([0u8; 16]);

    let priv_key =
        RsaPrivateKey::new(&mut rand::thread_rng(), 2048).expect("failed to generate a key");
    let pub_key = RsaPublicKey::from(&priv_key);

    layer.handshake(&to_public_key(&pub_key)).unwrap();

    assert_eq!(layer.write_buffer.len(), 12 + 256);
}

#[test]
pub fn handshake_header_fields() {
    let mut layer = LocoClientSecureLayer::new([0u8; 16]);

    let priv_key =
        RsaPrivateKey::new(&mut rand::thread_rng(), 2048).expect("failed to generate a key");
    let pub_key = RsaPublicKey::from(&priv_key);

    layer.handshake(&to_public_key(&pub_key)).unwrap();

    let bytes: Vec<u8> = layer.write_buffer.iter().copied().collect();
    assert_eq!(bytes.len(), 268);
    let key_size = u32::from_le_bytes([bytes[0], bytes[1], bytes[2], bytes[3]]);
    let key_type = u32::from_le_bytes([bytes[4], bytes[5], bytes[6], bytes[7]]);
    let encrypt_type = u32::from_le_bytes([bytes[8], bytes[9], bytes[10], bytes[11]]);
    assert_eq!(key_size, 256);
    assert_eq!(key_type, 15);
    assert_eq!(encrypt_type, 2);
}

#[test]
pub fn secure_read_write_test() {
    let key = {
        let mut arr = [0u8; 16];
        rand::thread_rng().fill_bytes(&mut arr);

        arr
    };

    let mut layer = LocoClientSecureLayer::new(key);

    let packet = SecurePacket {
        iv: [0u8; 16],
        data: vec![0u8, 1, 2],
    };

    layer.send(packet.clone());

    swap(&mut layer.read_buffer, &mut layer.write_buffer);

    assert_eq!(layer.read(), Some(packet));
}

#[test]
pub fn secure_empty_packet_test() {
    let mut layer = LocoClientSecureLayer::new([3u8; 16]);

    let packet = SecurePacket {
        iv: [9u8; 16],
        data: Vec::new(),
    };

    layer.send(packet.clone());
    swap(&mut layer.read_buffer, &mut layer.write_buffer);

    // A frame announcing size 16 carries no ciphertext: an empty payload.
    let got = layer.read().expect("an empty packet must be yielded");
    assert_eq!(got.iv, packet.iv);
    assert!(got.data.is_empty());
}

#[test]
pub fn secure_malformed_size_test() {
    let mut layer = LocoClientSecureLayer::new([3u8; 16]);

    // A head announcing size 15 (< 16) is structurally impossible.
    let mut bytes = 15u32.to_le_bytes().to_vec();
    bytes.extend_from_slice(&[0u8; 16]);
    for b in bytes {
        layer.read_buffer.push_back(b);
    }

    assert_eq!(layer.read(), None);
    assert_eq!(*layer.read_state(), ReadState::Corrupted);
}
