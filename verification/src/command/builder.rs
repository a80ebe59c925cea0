//! Command build helper.

use vstd::prelude::*;
use vstd::string::StringSliceAdditionalSpecFns;

use crate::command::{Command, Header, Method};

verus! {

/// Builds a [`Command`] from an id, a method name and a status.
#[derive(Debug)]
pub struct CommandBuilder<'a> {
    id: u32,
    method: &'a str,
    status: u16,
}

impl<'a> CommandBuilder<'a> {
    pub closed spec fn spec_id(&self) -> u32 {
        self.id
    }

    pub closed spec fn spec_status(&self) -> u16 {
        self.status
    }

    pub closed spec fn spec_method(&self) -> Seq<u8> {
        self.method.spec_bytes()
    }

    /// True when the method name fits a [`Method`]: at most 11 UTF-8 bytes,
    /// no interior NUL.
    pub open spec fn method_ok(&self) -> bool {
        &&& self.spec_method().len() <= 11
        &&& forall|j: int| 0 <= j < self.spec_method().len() ==> self.spec_method()[j] != 0
    }

    /// Create a builder with status 0.
    pub fn new(id: u32, method: &'a str) -> (r: CommandBuilder<'a>)
        ensures
            r.spec_id() == id,
            r.spec_status() == 0,
            r.spec_method() == method.spec_bytes(),
    {
        CommandBuilder { id, method, status: 0 }
    }

    pub fn id(&self) -> (r: u32)
        ensures
            r == self.spec_id(),
    {
        self.id
    }

    pub fn status(&self) -> (r: u16)
        ensures
            r == self.spec_status(),
    {
        self.status
    }

    /// Replace the status.
    pub fn set_status(self, status: u16) -> (r: CommandBuilder<'a>)
        ensures
            r.spec_id() == self.spec_id(),
            r.spec_status() == status,
            r.spec_method() == self.spec_method(),
    {
        CommandBuilder { status, ..self }
    }

    /// Build the command.
    pub fn build(self, data_type: u8, data: Vec<u8>) -> (r: Command)
        requires
            self.method_ok(),
        ensures
            r.header.id == self.spec_id(),
            r.header.status == self.spec_status(),
            r.header.data_type == data_type,
            r.header.method.wf(),
            r.header.method.spec_len() == self.spec_method().len(),
            r.header.method@ == self.spec_method() + Seq::new(
                (11 - self.spec_method().len()) as nat,
                |i: int| 0u8,
            ),
            r.data == data,
    {
        let method = Method::new(self.method).unwrap();
        let header = Header { id: self.id, status: self.status, method, data_type };
        Command { header, data }
    }
}

} // verus!
