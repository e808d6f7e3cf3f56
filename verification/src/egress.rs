//! The host side's wait for the enclave's egress server.
use vstd::prelude::*;

verus! {

/// How long the host waits before it tries to connect again.
pub const CONNECT_RETRY_MS: u64 = 200;

/// What the host side does after one attempt to connect to the enclave.
#[derive(Debug, Clone, Copy, PartialEq, Eq, Structural)]
pub enum ConnectAction {
    /// The connection stands: bridge traffic over it.
    Bridge,
    /// Wait this many milliseconds, then try again with a fresh socket.
    RetryAfterMs(u64),
}

/// The host side connects with a fresh socket on each attempt and tries
/// again after 200 ms, without limit, until an attempt succeeds.
pub fn connect_step(connected: bool) -> (a: ConnectAction)
    ensures
        a == (if connected { ConnectAction::Bridge } else { ConnectAction::RetryAfterMs(CONNECT_RETRY_MS) }),
{
    if connected {
        ConnectAction::Bridge
    } else {
        ConnectAction::RetryAfterMs(CONNECT_RETRY_MS)
    }
}

} // verus!
