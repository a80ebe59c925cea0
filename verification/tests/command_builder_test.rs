use loco_protocol::command::builder::CommandBuilder;
use loco_protocol::command::{Command, Header, Method};

#[test]
pub fn command_builder() {
    let builder = CommandBuilder::new(0, "TEST");

    let test_command = Command {
        header: Header {
            id: 0,
            data_type: 0,
            status: 0,
            method: Method::new("TEST").unwrap(),
        },
        data: vec![0u8; 4],
    };

    let command = builder.build(0, vec![0u8; 4]);

    assert_eq!(test_command, command)
}
