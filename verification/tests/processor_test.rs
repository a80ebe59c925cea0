use loco_protocol::command::processor::CommandProcessor;
use loco_protocol::command::{Command, Header, Method};
use loco_protocol::vec_buf::VecBuf;

#[test]
pub fn processor_read_write() {
    let command = Command {
        header: Header {
            id: 12,
            status: 0,
            method: Method::new("CHECKIN").unwrap(),
            data_type: 0,
        },
        data: vec![5u8, 6, 7],
    };

    let mut processor = CommandProcessor::new(VecBuf::new());
    let written = processor
        .write_commmand(command.clone())
        .expect("Command write must not fail");
    assert_eq!(written, 25);

    let read = processor
        .read_command()
        .expect("Command read must not fail");
    assert_eq!(read, Some(command));
    assert_eq!(processor.current_header(), None);
}

#[test]
pub fn processor_write_all() {
    let first = Command {
        header: Header {
            id: 1,
            status: 0,
            method: Method::new("PING").unwrap(),
            data_type: 0,
        },
        data: Vec::new(),
    };
    let second = Command {
        header: Header {
            id: 2,
            status: 0,
            method: Method::new("MSG").unwrap(),
            data_type: 1,
        },
        data: vec![1u8, 2],
    };

    let mut processor = CommandProcessor::new(VecBuf::new());
    let written = processor
        .write_all_command(vec![first.clone(), second.clone()])
        .expect("Command write must not fail");
    assert_eq!(written, 22 + 24);

    assert_eq!(processor.read_command().unwrap(), Some(first));
    assert_eq!(processor.read_command().unwrap(), Some(second));
    assert_eq!(processor.read_command().unwrap(), None);
}
