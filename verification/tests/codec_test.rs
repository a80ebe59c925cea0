use loco_protocol::command::codec::CommandCodec;
use loco_protocol::command::{Command, Header, Method};
use loco_protocol::vec_buf::VecBuf;

#[test]
pub fn codec_read_write() {
    let test_command1 = Command {
        header: Header {
            id: 0,
            data_type: 0,
            status: 0,
            method: Method::new("TEST1").unwrap(),
        },
        data: vec![0u8; 4],
    };

    let test_command2 = Command {
        header: Header {
            id: 0,
            data_type: 0,
            status: 0,
            method: Method::new("TEST2").unwrap(),
        },
        data: vec![8u8; 4],
    };

    let mut codec = CommandCodec::new(VecBuf::new());

    codec
        .write(&test_command1)
        .expect("Command write must not fail");

    codec
        .write(&test_command2)
        .expect("Command write must not fail");

    let (_, command1) = codec.read().expect("Command read must not fail");
    assert_eq!(command1, test_command1);

    let (_, command2) = codec.read().expect("Command read must not fail");
    assert_eq!(command2, test_command2);
}

#[test]
pub fn codec_short_read() {
    let mut codec: CommandCodec<VecBuf> = CommandCodec::new(VecBuf::new());
    assert!(codec.read().is_err());
}
