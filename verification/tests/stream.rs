use common::error::IOError;
use common::egress::{connect_step, ConnectAction};
use common::stream::{CallStep, InnerStream, SocketAddress, Stream};

#[test]
fn new_stream_is_disconnected_with_address() {
    let addr = SocketAddress::Vsock { cid: 16, port: 9001 };
    let mut s = Stream::new(&addr);
    assert!(!s.is_connected());
    assert!(matches!(s.address(), Ok(SocketAddress::Vsock { cid: 16, port: 9001 })));
    assert!(matches!(s.inner_mut(), Err(IOError::DisconnectedStream)));
    let copy = Stream::from(&s);
    assert!(!copy.is_connected());
    assert!(matches!(copy.address(), Ok(SocketAddress::Vsock { cid: 16, port: 9001 })));
}

#[test]
fn unix_paths() {
    let a = SocketAddress::Unix(Some("/tmp/s.sock".to_string()));
    assert_eq!(a.unix_path().unwrap(), "/tmp/s.sock");
    assert!(matches!(SocketAddress::Unix(None).unix_path(), Err(IOError::ConnectAddressInvalid)));
    assert!(matches!(
        SocketAddress::Vsock { cid: 1, port: 2 }.unix_path(),
        Err(IOError::ConnectAddressInvalid)
    ));
}

#[test]
fn accepted_stream_has_no_address_and_can_be_reset() {
    let rt = tokio::runtime::Builder::new_current_thread().enable_all().build().unwrap();
    rt.block_on(async {
        let (a, _b) = tokio::net::UnixStream::pair().unwrap();
        let mut s = Stream::accepted(InnerStream::Unix(a));
        assert!(s.is_connected());
        assert!(matches!(s.address(), Err(IOError::ConnectAddressInvalid)));
        assert!(matches!(s.inner_mut(), Ok(InnerStream::Unix(_))));
        s.reset();
        assert!(!s.is_connected());
        let (c, _d) = tokio::net::UnixStream::pair().unwrap();
        s.set_connection(InnerStream::Unix(c));
        assert!(s.is_connected());
    });
}

#[test]
fn reset_twice_is_reset_once_and_only_a_connection_connects() {
    let rt = tokio::runtime::Builder::new_current_thread().enable_all().build().unwrap();
    rt.block_on(async {
        let addr = SocketAddress::Unix(Some("/tmp/x.sock".to_string()));
        let mut s = Stream::new(&addr);
        s.reset();
        s.reset();
        assert!(!s.is_connected());
        assert!(s.inner_mut().is_err());
        assert!(!s.is_connected());
        let (a, _b) = tokio::net::UnixStream::pair().unwrap();
        s.set_connection(InnerStream::Unix(a));
        assert!(s.is_connected());
        s.reset();
        s.reset();
        assert!(!s.is_connected());
        assert_eq!(s.address().unwrap().unix_path().unwrap(), "/tmp/x.sock");
    });
}

#[test]
fn reconnect_needs_an_address_then_a_connection() {
    let rt = tokio::runtime::Builder::new_current_thread().enable_all().build().unwrap();
    rt.block_on(async {
        let s = Stream::new(&SocketAddress::Vsock { cid: 3, port: 9 });
        assert!(matches!(s.reconnect_address(), Err(IOError::DisconnectedStream)));
        assert_eq!(s.call_first_step(), CallStep::Connect);
        let (a, _b) = tokio::net::UnixStream::pair().unwrap();
        let acc = Stream::accepted(InnerStream::Unix(a));
        assert!(matches!(acc.reconnect_address(), Err(IOError::ConnectAddressInvalid)));
        assert_eq!(acc.call_first_step(), CallStep::Send);
        let mut s = s;
        let (c, _d) = tokio::net::UnixStream::pair().unwrap();
        s.set_connection(InnerStream::Unix(c));
        assert!(matches!(s.reconnect_address(), Ok(SocketAddress::Vsock { cid: 3, port: 9 })));
        assert_eq!(s.call_first_step(), CallStep::Send);
    });
}

#[test]
fn host_retries_every_200ms_until_connected() {
    assert_eq!(connect_step(false), ConnectAction::RetryAfterMs(200));
    assert_eq!(connect_step(true), ConnectAction::Bridge);
}
