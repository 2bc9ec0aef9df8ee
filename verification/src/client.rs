//! The client's side of a Binding transaction: what it sends.

use crate::attribute::AttributeView;
use crate::message::Message;
use crate::message_type::{MessageClass, Method, BINDING};
use vstd::prelude::*;

verus! {

/// STUN client
pub struct Client {
    /// remote address of STUN server
    server_address: String,
}

impl Client {
    /// The address of the server as text.
    pub closed spec fn spec_server_address(&self) -> Seq<char> {
        self.server_address@
    }

    pub fn new(addr: String) -> (client: Self)
        ensures
            client.spec_server_address() == addr@,
    {
        Self { server_address: addr }
    }

    /// The address of the server, as it was given.
    pub fn server_address(&self) -> (addr: &str)
        ensures
            addr@ == self.spec_server_address(),
    {
        self.server_address.as_str()
    }

    /// The Binding request with which the client asks the server for its
    /// reflexive address: no attributes, under a fresh transaction id. It can
    /// always go on the wire.
    pub fn binding_request(&self) -> (request: Message)
        ensures
            request@.class == MessageClass::Request,
            request@.method == Method(BINDING),
            request@.attributes == Seq::<AttributeView>::empty(),
            request@.encodable(),
    {
        Message::new(MessageClass::Request, Method::new(BINDING))
    }
}

} // verus!
