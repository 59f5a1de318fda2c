use vstd::prelude::*;

verus! {

/// The id of a server's connection: the poll token of its socket.
pub type ConnId = usize;

/// A request: the caller's id for it, the method it names, and its
/// parameters as bytes.
#[derive(Debug, PartialEq, Eq)]
pub struct Request {
    pub id: u64,
    pub method: String,
    pub params: Vec<u8>,
}

/// A response: the result of the request with this id, the error code it
/// failed with, or data published on a channel.
#[derive(Debug, PartialEq, Eq)]
pub enum Response {
    Success { id: u64, data: Vec<u8> },
    Error { id: u64, code: u64 },
    Subscription { channel: String, data: Vec<u8> },
}

} // verus!
