//! Building and taking apart commands over user-supplied payload codecs.

use std::marker::PhantomData;
use vstd::prelude::*;
use vstd::string::StringSliceAdditionalSpecFns;

use crate::command::{method_prefix_ok, Command, Error, Header, Method};
use crate::wire::sub_bytes;

verus! {

/// The method-name bytes a command built from `name` carries: the first 11
/// bytes (or all of them, when fewer), NUL-padded to 11.
pub open spec fn truncated_name(name: Seq<u8>) -> Seq<u8> {
    let tb = if name.len() < 11 {
        name
    } else {
        name.take(11)
    };
    tb + Seq::new((11 - tb.len()) as nat, |i: int| 0u8)
}

/// Build a command around an already encoded payload: the method name
/// truncated to 11 bytes and NUL-padded, status and data type zero.
///
/// Succeeds exactly when the payload length fits the 32-bit size field and
/// the truncated name still decodes (truncation at byte 11 can split a
/// UTF-8 character); `Oversize` and `Malformed` report the two failures.
pub fn build_command(id: u32, name: &str, payload: Vec<u8>) -> (r: Result<Command, Error>)
    ensures
        match r {
            Ok(c) => {
                &&& payload@.len() <= u32::MAX
                &&& method_prefix_ok(truncated_name(name.spec_bytes()))
                &&& c.header.id == id
                &&& c.header.status == 0
                &&& c.header.data_type == 0
                &&& c.header.method.wf()
                &&& c.header.method@ == truncated_name(name.spec_bytes())
                &&& c.data == payload
            },
            Err(Error::Oversize) => payload@.len() > u32::MAX,
            Err(Error::Malformed) => payload@.len() <= u32::MAX && !method_prefix_ok(
                truncated_name(name.spec_bytes()),
            ),
            Err(_) => false,
        },
{
    if payload.len() as u64 > u32::MAX as u64 {
        return Err(Error::Oversize);
    }

    let name_bytes = name.as_bytes();
    let take = if name_bytes.len() < 11 {
        name_bytes.len()
    } else {
        11
    };
    let prefix = sub_bytes(name_bytes, 0, take);
    let mut buf = [0u8; 11];
    let mut i: usize = 0;
    while i < take
        invariant
            i <= take,
            take <= 11,
            take <= prefix@.len(),
            buf@.len() == 11,
            forall|j: int| 0 <= j < i ==> buf@[j] == prefix@[j],
            forall|j: int| i <= j < 11 ==> buf@[j] == 0,
        decreases take - i,
    {
        buf[i] = prefix[i];
        i = i + 1;
    }
    proof {
        assert(buf@ =~= truncated_name(name.spec_bytes()));
    }
    let method = match Method::deserialize(buf) {
        Some(m) => m,
        None => {
            return Err(Error::Malformed);
        },
    };

    let header = Header { id, status: 0, method, data_type: 0 };
    Ok(Command { header, data: payload })
}

/// A payload that knows the method name it travels under.
pub trait CommandData {
    /// The method name of this payload.
    fn method(&self) -> String;
}

/// Command payload encoder, supplied by the user of [`Construct`].
pub trait Encode<C: CommandData> {
    /// Encode a payload to bytes.
    fn encode(method: &str, data: &C) -> Result<Vec<u8>, Error>;
}

/// Command payload decoder, supplied by the user of [`DeConstruct`].
pub trait Decode<C: CommandData> {
    /// Decode a payload from bytes.
    fn decode(method: &Method, data: &Vec<u8>) -> Result<C, Error>;
}

/// Builds a [`Command`] from a typed payload through an [`Encode`] impl.
pub struct Construct<C: CommandData, E: Encode<C>> {
    id: u32,
    status: u16,
    data_type: u8,
    data: C,
    phantom: PhantomData<E>,
}

impl<C: CommandData, E: Encode<C>> Construct<C, E> {
    pub closed spec fn spec_id(&self) -> u32 {
        self.id
    }

    pub closed spec fn spec_status(&self) -> u16 {
        self.status
    }

    pub closed spec fn spec_data_type(&self) -> u8 {
        self.data_type
    }

    pub closed spec fn spec_data(&self) -> &C {
        &self.data
    }

    /// Create a construct with status 0 and data type 0.
    pub fn new(id: u32, data: C) -> (r: Construct<C, E>)
        ensures
            r.spec_id() == id,
            r.spec_status() == 0,
            r.spec_data_type() == 0,
            r.spec_data() == &data,
    {
        Construct { id, status: 0, data_type: 0, data, phantom: PhantomData }
    }

    pub fn id(&self) -> (r: u32)
        ensures
            r == self.spec_id(),
    {
        self.id
    }

    pub fn status(&self) -> (r: u16)
        ensures
            r == self.spec_status(),
    {
        self.status
    }

    pub fn data_type(&self) -> (r: u8)
        ensures
            r == self.spec_data_type(),
    {
        self.data_type
    }

    pub fn data(&self) -> (r: &C)
        ensures
            r == self.spec_data(),
    {
        &self.data
    }

    /// Replace the id.
    pub fn set_id(self, id: u32) -> (r: Construct<C, E>)
        ensures
            r.spec_id() == id,
            r.spec_status() == self.spec_status(),
            r.spec_data_type() == self.spec_data_type(),
            r.spec_data() == self.spec_data(),
    {
        Construct { id, ..self }
    }

    /// Replace the status.
    pub fn set_status(self, status: u16) -> (r: Construct<C, E>)
        ensures
            r.spec_id() == self.spec_id(),
            r.spec_status() == status,
            r.spec_data_type() == self.spec_data_type(),
            r.spec_data() == self.spec_data(),
    {
        Construct { status, ..self }
    }

    /// Replace the data type.
    pub fn set_data_type(self, data_type: u8) -> (r: Construct<C, E>)
        ensures
            r.spec_id() == self.spec_id(),
            r.spec_status() == self.spec_status(),
            r.spec_data_type() == data_type,
            r.spec_data() == self.spec_data(),
    {
        Construct { data_type, ..self }
    }

    /// Replace the payload.
    pub fn set_data(self, data: C) -> (r: Construct<C, E>)
        ensures
            r.spec_id() == self.spec_id(),
            r.spec_status() == self.spec_status(),
            r.spec_data_type() == self.spec_data_type(),
            r.spec_data() == &data,
    {
        Construct { data, ..self }
    }

    /// Encode the payload through `E` and build the command around it, via
    /// [`build_command`].  What the user's encoder returns cannot be
    /// described here; everything after that call is pinned by
    /// [`build_command`]'s contract.
    pub fn encode(self) -> (r: Result<Command, Error>)
        ensures
            r matches Ok(c) ==> {
                &&& c.header.id == self.spec_id()
                &&& c.header.status == 0
                &&& c.header.data_type == 0
                &&& c.header.method.wf()
                &&& method_prefix_ok(c.header.method@)
                &&& c.data@.len() <= u32::MAX
            },
    {
        let data_name = self.data.method();
        let data = match E::encode(data_name.as_str(), &self.data) {
            Ok(d) => d,
            Err(e) => {
                return Err(e);
            },
        };
        build_command(self.id, data_name.as_str(), data)
    }
}

/// Takes a command apart into a typed payload through a [`Decode`] impl.
pub struct DeConstruct;

impl DeConstruct {
    /// Decode the payload of a command.
    pub fn decode<C: CommandData, D: Decode<C>>(command: Command) -> (r: Result<C, Error>) {
        D::decode(&command.header.method, &command.data)
    }
}

} // verus!
