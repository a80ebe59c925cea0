use loco_protocol::command::client::{LocoSink, LocoStream};
use loco_protocol::command::codec::CommandCodec;
use loco_protocol::command::{Command, Header, Method};
use loco_protocol::io::SecureStream;
use loco_protocol::secure::crypto::{CryptoStore, PrivateKey, PublicKey};
use loco_protocol::secure::session::{SecureClientSession, SecureServerSession};
use loco_protocol::vec_buf::VecBuf;
use rsa::traits::{PrivateKeyParts, PublicKeyParts};
use rsa::{RsaPrivateKey, RsaPublicKey};

#[test]
pub fn adapter_read_write_test() {
    // Byte-stream adapter round trip: two 4-byte writes come back as two
    // 4-byte reads through a peer holding the same key.
    let key = [7u8; 16];
    let mut writer = SecureStream::new(CryptoStore::new_with_key(key), VecBuf::new());

    writer.write(&[1u8, 2, 3, 4]);
    writer.write(&[1u8, 2, 3, 4]);

    let SecureStream { stream: pipe, .. } = writer;

    let mut reader = SecureStream::new(CryptoStore::new_with_key(key), pipe);
    let first = reader.read(4).expect("read must not fail");
    assert_eq!(first, vec![1u8, 2, 3, 4]);
    let second = reader.read(4).expect("read must not fail");
    assert_eq!(second, vec![1u8, 2, 3, 4]);
    let empty = reader.read(4).expect("read must not fail");
    assert!(empty.is_empty());
}

#[test]
pub fn adapter_partial_read_test() {
    // Packet boundaries are not preserved: one 6-byte write can be drained
    // in unequal pieces.
    let key = [1u8; 16];
    let mut writer = SecureStream::new(CryptoStore::new_with_key(key), VecBuf::new());
    writer.write(&[10u8, 20, 30, 40, 50, 60]);
    let SecureStream { stream, .. } = writer;

    let mut reader = SecureStream::new(CryptoStore::new_with_key(key), stream);
    assert_eq!(reader.read(2).expect("read must not fail"), vec![10u8, 20]);
    assert_eq!(
        reader.read(10).expect("read must not fail"),
        vec![30u8, 40, 50, 60]
    );
}

#[test]
pub fn codec_over_adapter_test() {
    // The command codec stacks on the secure byte adapter: commands are
    // framed, sealed into packets, unsealed on the peer, and parsed back.
    let key = [2u8; 16];
    let command = Command {
        header: Header {
            id: 21,
            status: 0,
            method: Method::new("STACK").unwrap(),
            data_type: 1,
        },
        data: vec![6u8, 5, 4],
    };

    let sender = SecureStream::new(CryptoStore::new_with_key(key), VecBuf::new());
    let mut codec = CommandCodec::new(sender);
    codec.write(&command).expect("Command write must not fail");

    let SecureStream { stream: pipe, .. } = codec.into_inner();

    let receiver = SecureStream::new(CryptoStore::new_with_key(key), pipe);
    let mut rcodec = CommandCodec::new(receiver);
    rcodec.stream_mut().fill().expect("Decryption must not fail");
    let (n, got) = rcodec.read().expect("Command read must not fail");
    assert_eq!(n, 25);
    assert_eq!(got, command);
}

fn to_public_key(key: &RsaPublicKey) -> PublicKey {
    PublicKey::new(key.n().to_bytes_be(), key.e().to_bytes_be()).unwrap()
}

fn to_private_key(key: &RsaPrivateKey) -> PrivateKey {
    PrivateKey::new(
        key.n().to_bytes_be(),
        key.e().to_bytes_be(),
        key.d().to_bytes_be(),
        key.primes().iter().map(|p| p.to_bytes_be()).collect(),
    )
}

#[test]
pub fn handshake_command_integration_test() {
    // Client handshakes with the server's public key, then sends a command
    // through the secure byte adapter; the server unwraps the key, builds
    // its own adapter and recovers the command byte for byte.
    let private_key =
        RsaPrivateKey::new(&mut rand::thread_rng(), 2048).expect("failed to generate a key");
    let public_key = RsaPublicKey::from(&private_key);

    // Client side: handshake preamble, then one secure packet holding a
    // serialized command.
    let client_crypto = CryptoStore::new();
    let mut client =
        loco_protocol::secure::stream::SecureStream::new(client_crypto, VecBuf::new());
    let session = SecureClientSession::new(to_public_key(&public_key));
    session.handshake(&mut client).expect("Client handshake failed");

    let command = Command {
        header: Header {
            id: 3,
            status: 0,
            method: Method::new("LOGIN").unwrap(),
            data_type: 0,
        },
        data: vec![1u8, 2, 3, 4, 5],
    };
    let mut sink = LocoSink::new();
    sink.send(command.clone());
    let bytes: Vec<u8> = sink.write_buffer.iter().copied().collect();

    let (client_crypto, mut pipe) = client.into_inner();
    let mut client_adapter = SecureStream::new(client_crypto, VecBuf::new());
    client_adapter.write(&bytes);
    let SecureStream { stream: sealed, .. } = client_adapter;

    // Server side: unwrap the session key, then read bytes through its own
    // adapter and parse the command.
    let mut server_session = SecureServerSession::new(to_private_key(&private_key));
    let server_crypto = server_session
        .handshake(&mut pipe)
        .expect("Server handshake failed");

    let mut server_adapter = SecureStream::new(server_crypto, sealed);
    let mut stream = LocoStream::new();
    loop {
        let chunk = server_adapter.read(1024).expect("read must not fail");
        if chunk.is_empty() {
            break;
        }
        for b in chunk {
            stream.read_buffer.push_back(b);
        }
    }

    assert_eq!(stream.read(), Some(command));
}
