//! Handles on connection based socket streams, over Unix sockets or vsock.
//! The connecting, sending and receiving themselves are asynchronous I/O that
//! the caller performs; a `Stream` keeps the address and the open connection.
use vstd::prelude::*;
use crate::error::IOError;

verus! {

#[verifier::external_type_specification]
#[verifier::external_body]
pub struct ExUnixStream(tokio::net::UnixStream);

#[verifier::external_type_specification]
#[verifier::external_body]
pub struct ExVsockStream(tokio_vsock::VsockStream);

/// The address of a stream socket.
#[derive(Debug)]
pub enum SocketAddress {
    /// A Unix socket, with its path where it has one.
    Unix(Option<String>),
    /// A vsock socket.
    Vsock { cid: u32, port: u32 },
}

/// The value of a `SocketAddress`.
pub enum SocketAddressView {
    Unix(Option<Seq<char>>),
    Vsock { cid: u32, port: u32 },
}

impl View for SocketAddress {
    type V = SocketAddressView;

    open spec fn view(&self) -> SocketAddressView {
        match self {
            SocketAddress::Unix(None) => SocketAddressView::Unix(None),
            SocketAddress::Unix(Some(p)) => SocketAddressView::Unix(Some(p@)),
            SocketAddress::Vsock { cid, port } => SocketAddressView::Vsock { cid: *cid, port: *port },
        }
    }
}

impl Clone for SocketAddress {
    fn clone(&self) -> (r: Self)
        ensures
            r@ == self@,
    {
        match self {
            SocketAddress::Unix(None) => SocketAddress::Unix(None),
            SocketAddress::Unix(Some(p)) => SocketAddress::Unix(Some(p.clone())),
            SocketAddress::Vsock { cid, port } => SocketAddress::Vsock { cid: *cid, port: *port },
        }
    }
}

impl SocketAddress {
    /// The path of a Unix socket address; `ConnectAddressInvalid` where the
    /// address has no path or is not a Unix socket address.
    pub fn unix_path(&self) -> (r: Result<&String, IOError>)
        ensures
            r is Ok <==> self@ matches SocketAddressView::Unix(Some(_)),
            r matches Ok(p) ==> self@ == SocketAddressView::Unix(Some(p@)),
            r matches Err(e) ==> e == IOError::ConnectAddressInvalid,
    {
        match self {
            SocketAddress::Unix(Some(p)) => Ok(p),
            _ => Err(IOError::ConnectAddressInvalid),
        }
    }
}

/// An open connection.
#[derive(Debug)]
pub enum InnerStream {
    Unix(tokio::net::UnixStream),
    Vsock(tokio_vsock::VsockStream),
}

/// Handle on a stream.
#[derive(Debug)]
pub struct Stream {
    address: Option<SocketAddress>,
    inner: Option<InnerStream>,
}

/// The value of a `Stream`: the address it connects to, where it knows one,
/// and whether it holds a connection.
pub struct StreamView {
    pub address: Option<SocketAddressView>,
    pub connected: bool,
}

impl View for Stream {
    type V = StreamView;

    closed spec fn view(&self) -> StreamView {
        StreamView {
            address: match self.address {
                Some(a) => Some(a@),
                None => None,
            },
            connected: self.inner is Some,
        }
    }
}

impl Stream {
    /// The address that the stream connects to, where it knows one.
    pub open spec fn address_view(&self) -> Option<SocketAddressView> {
        self@.address
    }

    /// Whether the stream holds a connection.
    pub open spec fn connected(&self) -> bool {
        self@.connected
    }

    /// The connection that the stream holds, where it holds one.
    pub closed spec fn connection(&self) -> Option<InnerStream> {
        self.inner
    }

    /// A stream holds a connection exactly where `connected` says so.
    pub proof fn lemma_connection_connected(&self)
        ensures
            self.connection() is Some <==> self.connected(),
    {
    }
}

/// The stream after `reset`: no connection, the same address.
pub open spec fn after_reset(v: StreamView) -> StreamView {
    StreamView { connected: false, ..v }
}

/// The stream after `set_connection`: a connection, the same address.
pub open spec fn after_set_connection(v: StreamView) -> StreamView {
    StreamView { connected: true, ..v }
}

/// What a call on a stream does first.
#[derive(Debug, Clone, Copy, PartialEq, Eq, Structural)]
pub enum CallStep {
    /// Connect to the stream's address, then send.
    Connect,
    /// Send the request on the connection the stream holds.
    Send,
}

/// The operations that change a stream in place.
pub enum StreamOp {
    /// `reset`.
    Reset,
    /// `set_connection`, which a connect ends with.
    SetConnection,
    /// `inner_mut`, through which the connection is used.
    Borrow,
}

/// The stream after one operation.
pub open spec fn stream_step(v: StreamView, op: StreamOp) -> StreamView {
    match op {
        StreamOp::Reset => after_reset(v),
        StreamOp::SetConnection => after_set_connection(v),
        StreamOp::Borrow => v,
    }
}

/// The stream after all of `ops`.
pub open spec fn stream_run(v: StreamView, ops: Seq<StreamOp>) -> StreamView
    decreases ops.len(),
{
    if ops.len() == 0 {
        v
    } else {
        stream_run(stream_step(v, ops[0]), ops.drop_first())
    }
}

/// Resetting twice is resetting once.
pub proof fn lemma_reset_idempotent(v: StreamView)
    ensures
        after_reset(after_reset(v)) == after_reset(v),
{
}

/// Only a connection made (`set_connection`, or `accepted` for a new stream)
/// makes a stream connected: from a stream without a connection, whatever
/// resets and uses of the connection follow, it is connected again only where
/// a `set_connection` was among them. No operation changes the address.
pub proof fn lemma_only_set_connection_connects(v: StreamView, ops: Seq<StreamOp>)
    requires
        !v.connected,
    ensures
        stream_run(v, ops).connected ==> exists|i: int|
            0 <= i < ops.len() && ops[i] == StreamOp::SetConnection,
        stream_run(v, ops).address == v.address,
    decreases ops.len(),
{
    if ops.len() > 0 {
        let t = stream_step(v, ops[0]);
        let rest = ops.drop_first();
        if ops[0] == StreamOp::SetConnection {
            lemma_address_kept(t, rest);
        } else {
            lemma_only_set_connection_connects(t, rest);
            if stream_run(t, rest).connected {
                let i = choose|i: int| 0 <= i < rest.len() && rest[i] == StreamOp::SetConnection;
                assert(ops[i + 1] == StreamOp::SetConnection);
            }
        }
    }
}

proof fn lemma_address_kept(v: StreamView, ops: Seq<StreamOp>)
    ensures
        stream_run(v, ops).address == v.address,
    decreases ops.len(),
{
    if ops.len() > 0 {
        lemma_address_kept(stream_step(v, ops[0]), ops.drop_first());
    }
}

impl Stream {
    /// Create a new `Stream` with known `SocketAddress`. The stream starts
    /// disconnected and will connect on the first call.
    pub fn new(address: &SocketAddress) -> (s: Stream)
        ensures
            s.address_view() == Some(address@),
            !s.connected(),
    {
        Stream { address: Some(address.clone()), inner: None }
    }

    /// A stream accepted by a server: it has a connection and no address.
    pub fn accepted(inner: InnerStream) -> (s: Stream)
        ensures
            s.address_view() is None,
            s.connected(),
            s.connection() == Some(inner),
    {
        Stream { address: None, inner: Some(inner) }
    }

    /// Get the address of the socket or error out in case it's invalid.
    pub fn address(&self) -> (r: Result<&SocketAddress, IOError>)
        ensures
            r is Ok <==> self.address_view() is Some,
            r matches Ok(a) ==> self.address_view() == Some(a@),
            r matches Err(e) ==> e == IOError::ConnectAddressInvalid,
    {
        match &self.address {
            Some(a) => Ok(a),
            None => Err(IOError::ConnectAddressInvalid),
        }
    }

    /// The connection, for sending and receiving on it; `DisconnectedStream`
    /// where there is none. The stream keeps the connection and its address.
    pub fn inner_mut(&mut self) -> (r: Result<&mut InnerStream, IOError>)
        ensures
            r is Ok <==> old(self).connected(),
            r matches Err(e) ==> e == IOError::DisconnectedStream,
            final(self)@ == stream_step(old(self)@, StreamOp::Borrow),
            r matches Ok(c) ==> Some(*c) == old(self).connection() && final(self).connection()
                == Some(*final(c)),
            r is Err ==> final(self).connection() == old(self).connection(),
    {
        match self.inner.as_mut() {
            Some(s) => Ok(s),
            None => Err(IOError::DisconnectedStream),
        }
    }

    /// Keeps `inner` as the stream's connection, in place of any earlier one.
    pub fn set_connection(&mut self, inner: InnerStream)
        ensures
            final(self)@ == stream_step(old(self)@, StreamOp::SetConnection),
            final(self).connection() == Some(inner),
    {
        self.inner = Some(inner);
    }

    /// Resets the inner stream, forcing a re-connect next call.
    pub fn reset(&mut self)
        ensures
            final(self)@ == stream_step(old(self)@, StreamOp::Reset),
            final(self).connection() is None,
    {
        self.inner = None;
    }

    /// The address to connect to again where a connected stream reconnects:
    /// `ConnectAddressInvalid` where the stream has no address, then
    /// `DisconnectedStream` where it holds no connection to replace.
    pub fn reconnect_address(&self) -> (r: Result<&SocketAddress, IOError>)
        ensures
            r is Ok <==> self.address_view() is Some && self.connected(),
            r matches Ok(a) ==> self.address_view() == Some(a@),
            r matches Err(e) ==> (if self.address_view() is None {
                e == IOError::ConnectAddressInvalid
            } else {
                e == IOError::DisconnectedStream
            }),
    {
        let a = self.address()?;
        if self.inner.is_none() {
            return Err(IOError::DisconnectedStream);
        }
        Ok(a)
    }

    /// The first step of a call: connect where the stream holds no
    /// connection, otherwise send the request at once.
    pub fn call_first_step(&self) -> (step: CallStep)
        ensures
            step == (if self.connected() { CallStep::Send } else { CallStep::Connect }),
    {
        if self.inner.is_none() {
            CallStep::Connect
        } else {
            CallStep::Send
        }
    }

    /// Checks if we're in `connected` state. This does NOT mean that the
    /// connection is currently OK: it means we've connected in the past, and
    /// the connection is kept.
    pub fn is_connected(&self) -> (b: bool)
        ensures
            b == self.connected(),
    {
        self.inner.is_some()
    }
}

impl<'a> From<&'a Stream> for Stream {
    /// Construct a not yet connected Stream from another Stream: same address,
    /// no connection.
    fn from(other: &'a Stream) -> (s: Stream)
        ensures
            s.address_view() == other.address_view(),
            !s.connected(),
    {
        let address = match &other.address {
            Some(a) => Some(a.clone()),
            None => None,
        };
        Stream { address, inner: None }
    }
}

/// The address of the new stream is a copy of the other's, equal in value
/// but not the same `String`, so no spec function gives the result as a
/// value: `from`'s own `ensures` states it by the view.
impl<'a> vstd::std_specs::convert::FromSpecImpl<&'a Stream> for Stream {
    open spec fn obeys_from_spec() -> bool {
        false
    }

    closed spec fn from_spec(other: &'a Stream) -> Stream {
        Stream { address: None, inner: None }
    }
}

} // verus!
