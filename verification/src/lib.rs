//! Building blocks of a vsock bridge between a host and a Nitro enclave:
//! detection of IP frames in a byte stream, the relays that forward bytes
//! between sockets, the length-prefixed message protocol of the stream
//! sockets, and the command lines and tables that set up the enclave.
pub mod boot;
pub mod command;
pub mod digest;
pub mod egress;
pub mod error;
pub mod framing;
pub mod hex;
pub mod ip_frame;
pub mod relay;
pub mod stream;
pub mod tun;
pub mod vsock;
