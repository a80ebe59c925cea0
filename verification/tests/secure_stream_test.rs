use loco_protocol::io::ByteRead;
use loco_protocol::secure::crypto::CryptoStore;
use loco_protocol::secure::stream::SecureStream;
use loco_protocol::vec_buf::VecBuf;

#[test]
pub fn secure_stream_read_write() {
    let crypto = CryptoStore::new();
    let mut stream = SecureStream::new(crypto, VecBuf::new());

    let test_data = vec![1u8, 2, 3, 4];

    stream
        .write_data(&test_data)
        .expect("Data writing must not fail");

    let packet = stream.read_packet().expect("Data reading must not fail");

    assert_eq!(test_data, packet.data);
}

#[test]
pub fn secure_stream_short_read() {
    let crypto = CryptoStore::new();
    let mut stream = SecureStream::new(crypto, VecBuf::new());

    assert!(stream.read_packet().is_err());
}

#[test]
pub fn secure_stream_resumes_partial_packet() {
    // A packet delivered in two pieces: the decoded head is retained
    // across the short read, and the second call yields the packet.
    let crypto = CryptoStore::new_with_key([5u8; 16]);
    let mut writer = SecureStream::new(CryptoStore::new_with_key([5u8; 16]), VecBuf::new());
    writer.write_data(&[9u8, 8, 7, 6]).expect("Data writing must not fail");
    let (_, mut pipe) = writer.into_inner();
    let n = pipe.available();
    let bytes = pipe.read_exact(n);

    let mut reader = SecureStream::new(crypto, VecBuf::new());
    // Feed the head and one ciphertext byte only.
    reader.stream_mut().push(bytes[..21].to_vec());
    assert!(reader.read_packet().is_err());
    // Feed the rest; the read resumes with the retained head.
    reader.stream_mut().push(bytes[21..].to_vec());
    let packet = reader.read_packet().expect("Data reading must not fail");
    assert_eq!(packet.data, vec![9u8, 8, 7, 6]);
}
