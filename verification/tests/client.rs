use std::mem::swap;

use loco_protocol::command::client::{LocoSink, LocoStream, StreamState};
use loco_protocol::command::{Command, Header, Method};

#[test]
pub fn client_read_write_test() {
    let mut sink = LocoSink::new();

    let command = Command {
        header: Header {
            id: 0,
            status: 1,
            method: Method::new("TEST").unwrap(),
            data_type: 2,
        },
        data: vec![1u8, 2, 3],
    };

    sink.send(command.clone());

    let mut stream = LocoStream::new();

    swap(&mut stream.read_buffer, &mut sink.write_buffer);

    assert_eq!(stream.read(), Some(command));
}

#[test]
pub fn client_fragmented_read_test() {
    let mut sink = LocoSink::new();

    let command = Command {
        header: Header {
            id: 0,
            status: 1,
            method: Method::new("TEST").unwrap(),
            data_type: 2,
        },
        data: vec![1u8, 2, 3],
    };

    sink.send(command.clone());
    let bytes: Vec<u8> = sink.write_buffer.iter().copied().collect();
    assert_eq!(bytes.len(), 25);

    let mut stream = LocoStream::new();
    for (i, byte) in bytes.iter().enumerate() {
        stream.read_buffer.push_back(*byte);
        if i < bytes.len() - 1 {
            assert_eq!(stream.read(), None);
        }
    }
    assert_eq!(stream.read(), Some(command));
}

#[test]
pub fn client_head_boundary_test() {
    let mut sink = LocoSink::new();

    let command = Command {
        header: Header {
            id: 7,
            status: 0,
            method: Method::new("PING").unwrap(),
            data_type: 0,
        },
        data: Vec::new(),
    };

    sink.send(command.clone());
    let bytes: Vec<u8> = sink.write_buffer.iter().copied().collect();
    assert_eq!(bytes.len(), 22);

    // 21 bytes are not enough for the 22-byte head.
    let mut stream = LocoStream::new();
    for byte in &bytes[..21] {
        stream.read_buffer.push_back(*byte);
    }
    assert_eq!(stream.read(), None);

    // The 22nd byte completes the zero-payload frame.
    stream.read_buffer.push_back(bytes[21]);
    assert_eq!(stream.read(), Some(command));
}

#[test]
pub fn client_corrupted_method_test() {
    // A 22-byte head whose method field holds an invalid-UTF-8 logical
    // prefix cannot be decoded: the stream corrupts.
    let mut head = vec![0u8; 22];
    head[6] = 0xff;
    head[7] = 0xfe;

    let mut stream = LocoStream::new();
    for b in head {
        stream.read_buffer.push_back(b);
    }
    assert_eq!(stream.read(), None);
    assert_eq!(*stream.state(), StreamState::Corrupted);
}
