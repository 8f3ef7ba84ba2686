//! The protocol abstraction: a codec turns an incoming byte stream into
//! client messages and server messages back into outgoing bytes.

use vstd::prelude::*;

verus! {

/// A request/response stream codec.
///
/// An implementation owns whatever buffering it needs; `read_message` parses
/// the next client message and advances past it, `write_message` queues one
/// server message for sending.  The precise behaviour is stated on each
/// implementation, not here.
pub trait Protocol {
    type ClientMessage;

    type ServerMessage;

    type Error;

    /// Parse one message from the stream, consuming its bytes.
    fn read_message(&mut self) -> Result<Self::ClientMessage, Self::Error>;

    /// Serialize one message onto the stream.
    fn write_message(&mut self, msg: &Self::ServerMessage) -> Result<(), Self::Error>;
}

} // verus!
