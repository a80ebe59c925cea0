use loco_protocol::secure::codec::{SecureCodec, SecureError};
use loco_protocol::secure::crypto::CryptoStore;
use loco_protocol::secure::{SecureHeader, SecureHeaderRead, SecureHeaderWrite};
use loco_protocol::vec_buf::VecBuf;

#[test]
pub fn secure_layer_read_write() {
    let crypto = CryptoStore::new();
    let mut codec = SecureCodec::new(crypto, VecBuf::new());

    let test_data1 = vec![1u8, 2, 3, 4];
    let test_data2 = vec![1u8, 2, 3, 4];

    codec
        .write_data(&test_data1)
        .expect("Data writing must not fail");
    codec
        .write_data(&test_data2)
        .expect("Data writing must not fail");

    let packet1 = codec.read_packet().expect("Data reading must not fail");
    assert_eq!(packet1.data, test_data1);

    let packet2 = codec.read_packet().expect("Data reading must not fail");
    assert_eq!(packet2.data, test_data2);
}

#[test]
pub fn secure_layer_plain_round_trip() {
    let crypto = CryptoStore::new();
    let mut layer = loco_protocol::secure::layer::SecureLayer::new(crypto, VecBuf::new());

    let data = vec![11u8, 22, 33];
    let written = layer.write(&data).expect("Data writing must not fail");
    assert_eq!(written, 3);

    let read = layer.read().expect("Data reading must not fail");
    assert_eq!(read, data);
}

#[test]
pub fn secure_header_round_trip() {
    let header = SecureHeader {
        data_size: 48,
        iv: [0xa5u8; 16],
    };

    let mut pipe = VecBuf::new();
    let written = pipe
        .write_encrypt_header(header)
        .expect("Header writing must not fail");
    assert_eq!(written, 20);

    let read = pipe
        .read_secure_header()
        .expect("Header reading must not fail");
    assert_eq!(read, header);
}

#[test]
pub fn secure_codec_malformed_frame() {
    let mut pipe = VecBuf::new();
    let mut head = 3u32.to_le_bytes().to_vec();
    head.extend_from_slice(&[0u8; 16]);
    pipe.push(head);

    let mut codec = SecureCodec::new(CryptoStore::new(), pipe);
    assert!(matches!(
        codec.read_packet(),
        Err(SecureError::MalformedFrame)
    ));
}

#[test]
pub fn secure_layer_distinct_ivs() {
    // Two sends of the same plaintext draw fresh random IVs, so the frames
    // must differ.
    let crypto = CryptoStore::new();
    let mut codec = SecureCodec::new(crypto, VecBuf::new());

    let data = vec![7u8; 32];
    codec.write_data(&data).expect("Data writing must not fail");
    codec.write_data(&data).expect("Data writing must not fail");

    let packet1 = codec.read_packet().expect("Data reading must not fail");
    let packet2 = codec.read_packet().expect("Data reading must not fail");
    assert_ne!(packet1.iv, packet2.iv);
    assert_eq!(packet1.data, data);
    assert_eq!(packet2.data, data);
}
