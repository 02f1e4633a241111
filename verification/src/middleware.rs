//! What a handler sees and what it returns.

use vstd::prelude::*;
use vstd::utf8::{decode_utf8, encode_utf8, valid_utf8};

use crate::encoding::{payload_text, text_to_bytes};
use crate::error::ProtocolError;
use crate::packet::Packet;
use crate::transport::Addr;

verus! {

/// Everything a handler is shown about one request.
#[derive(Debug)]
pub struct Context {
    /// The route the request arrived on, as UTF-8 bytes.
    pub route: Vec<u8>,
    /// The request payload, transforms already undone.
    pub payload: Vec<u8>,
    /// Who sent the request.
    pub remote_addr: Addr,
    /// The packet as the transport delivered it.
    pub packet: Packet,
}

impl Context {
    /// The payload as UTF-8 text. Succeeds exactly on valid UTF-8; anything
    /// else is reported as an `Other` parsing error.
    pub fn text(&self) -> (r: Result<String, ProtocolError>)
        ensures
            r is Ok <==> valid_utf8(self.payload@),
            r matches Ok(s) ==> s@ == decode_utf8(self.payload@),
            r is Err ==> r->Err_0 is Other,
    {
        payload_text(&self.payload)
    }
}

/// What a handler returns: an opaque byte payload for the reply.
#[derive(Debug)]
pub struct Response {
    /// The reply payload.
    pub data: Vec<u8>,
}

impl Response {
    /// A response carrying the given bytes.
    pub fn new(data: Vec<u8>) -> (r: Response)
        ensures
            r.data@ == data@,
    {
        Response { data }
    }

    /// A response carrying the UTF-8 encoding of the given text.
    pub fn text(text: String) -> (r: Response)
        ensures
            r.data@ == encode_utf8(text@),
    {
        Response { data: text_to_bytes(text) }
    }
}

} // verus!
