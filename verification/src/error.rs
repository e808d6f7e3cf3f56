//! Errors of the stream sockets and of their message protocol.
use vstd::prelude::*;

verus! {

#[verifier::external_type_specification]
#[verifier::external_body]
pub struct ExIoError(std::io::Error);

/// What can go wrong on a stream socket or in its message protocol.
#[derive(Debug)]
pub enum IOError {
    /// The stream has no address to connect to, or the address has no path.
    ConnectAddressInvalid,
    /// The stream is not connected.
    DisconnectedStream,
    /// A message of this many bytes is longer than `MAX_PAYLOAD_SIZE`.
    OversizedPayload(usize),
    /// The peer closed the connection before a message header arrived.
    RecvConnectionClosed,
    /// A message length does not fit in a `usize` on this machine.
    ArithmeticSaturation,
    /// Any other failure of the operating system.
    StdIoError(std::io::Error),
}

} // verus!
