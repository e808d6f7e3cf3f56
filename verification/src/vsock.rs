//! Vsock socket addresses with the `svm_flags` field, which the libc of the
//! enclave does not know yet.
use vstd::prelude::*;

verus! {

/// VSOCK flag for talking to host if we deploy multiple enclave "horizontally" on the same VM.
pub const VMADDR_FLAG_TO_HOST: u8 = 0x01;

/// Don't specify any flags for a VSOCK.
pub const VMADDR_NO_FLAGS: u8 = 0x00;

/// The address family of vsock sockets on Linux.
pub const AF_VSOCK: u16 = 40;

/// Reads nix's `AddressFamily::Vsock` as a `libc::sa_family_t`. Its value is
/// `libc::AF_VSOCK`, which is 40 on Linux.
#[verifier::external_body]
fn vsock_family() -> (f: u16)
    ensures
        f == AF_VSOCK,
{
    nix::sys::socket::AddressFamily::Vsock as libc::sa_family_t
}

/// The fields of a Linux `struct sockaddr_vm`, in their order.
#[derive(Debug, Clone, Copy)]
pub struct SockAddrVm {
    pub svm_family: u16,
    pub svm_reserved1: u16,
    pub svm_port: u32,
    pub svm_cid: u32,
    pub svm_flags: u8,
    pub svm_zero: [u8; 3],
}

/// The vsock address of `port` on `cid`, with the address flags `flags`
/// (see [Add flags field in the vsock address](<https://lkml.org/lkml/2020/12/11/249>)).
pub fn new_vsock_raw(cid: u32, port: u32, flags: u8) -> (a: SockAddrVm)
    ensures
        a.svm_family == AF_VSOCK,
        a.svm_reserved1 == 0,
        a.svm_port == port,
        a.svm_cid == cid,
        a.svm_flags == flags,
        a.svm_zero@ == seq![0u8, 0u8, 0u8],
{
    let a = SockAddrVm {
        svm_family: vsock_family(),
        svm_reserved1: 0,
        svm_port: port,
        svm_cid: cid,
        svm_flags: flags,
        svm_zero: [0u8, 0u8, 0u8],
    };
    assert(a.svm_zero@ =~= seq![0u8, 0u8, 0u8]);
    a
}

} // verus!
