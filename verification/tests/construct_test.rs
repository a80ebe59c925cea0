use loco_protocol::command::construct::{CommandData, Construct, Decode, DeConstruct, Encode};
use loco_protocol::command::{Error, Method};

struct Ping {
    body: Vec<u8>,
}

impl CommandData for Ping {
    fn method(&self) -> String {
        "PING".to_string()
    }
}

struct PingCodec;

impl Encode<Ping> for PingCodec {
    fn encode(_method: &str, data: &Ping) -> Result<Vec<u8>, Error> {
        Ok(data.body.clone())
    }
}

impl Decode<Ping> for PingCodec {
    fn decode(_method: &Method, data: &Vec<u8>) -> Result<Ping, Error> {
        Ok(Ping { body: data.clone() })
    }
}

#[test]
pub fn construct_encode_decode() {
    let construct: Construct<Ping, PingCodec> = Construct::new(9, Ping { body: vec![3u8, 1, 4] });
    assert_eq!(construct.id(), 9);
    assert_eq!(construct.status(), 0);
    assert_eq!(construct.data_type(), 0);

    let command = construct.encode().expect("encoding must not fail");
    assert_eq!(command.header.id, 9);
    assert_eq!(command.header.method, Method::new("PING").unwrap());
    assert_eq!(command.data, vec![3u8, 1, 4]);

    let ping = DeConstruct::decode::<Ping, PingCodec>(command).expect("decoding must not fail");
    assert_eq!(ping.body, vec![3u8, 1, 4]);
}

#[test]
pub fn construct_setters() {
    let construct: Construct<Ping, PingCodec> = Construct::new(1, Ping { body: Vec::new() })
        .set_id(2)
        .set_status(3)
        .set_data_type(4);
    assert_eq!(construct.id(), 2);
    assert_eq!(construct.status(), 3);
    assert_eq!(construct.data_type(), 4);

    let long_name: Construct<LongName, LongNameCodec> =
        Construct::new(1, LongName);
    let command = long_name.encode().expect("encoding must not fail");
    // A method name longer than 11 bytes is truncated to its first 11.
    assert_eq!(command.header.method, Method::new("ABCDEFGHIJK").unwrap());
}

#[test]
pub fn construct_encode_failure() {
    let construct: Construct<Broken, BrokenCodec> = Construct::new(1, Broken);
    assert!(matches!(construct.encode(), Err(Error::Codec)));
}

struct Broken;

impl CommandData for Broken {
    fn method(&self) -> String {
        "BROKEN".to_string()
    }
}

struct BrokenCodec;

impl Encode<Broken> for BrokenCodec {
    fn encode(_method: &str, _data: &Broken) -> Result<Vec<u8>, Error> {
        Err(Error::Codec)
    }
}

impl Decode<Broken> for BrokenCodec {
    fn decode(_method: &Method, _data: &Vec<u8>) -> Result<Broken, Error> {
        Ok(Broken)
    }
}

struct LongName;

impl CommandData for LongName {
    fn method(&self) -> String {
        "ABCDEFGHIJKLMNOP".to_string()
    }
}

struct LongNameCodec;

impl Encode<LongName> for LongNameCodec {
    fn encode(_method: &str, _data: &LongName) -> Result<Vec<u8>, Error> {
        Ok(Vec::new())
    }
}

impl Decode<LongName> for LongNameCodec {
    fn decode(_method: &Method, _data: &Vec<u8>) -> Result<LongName, Error> {
        Ok(LongName)
    }
}
