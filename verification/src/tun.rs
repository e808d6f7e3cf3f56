//! The request that turns an opened `/dev/net/tun` into a tun interface.
use vstd::prelude::*;
use vstd::string::StringSliceAdditionalSpecFns;

verus! {

/// The device that tun interfaces are made from.
pub const TUN_DEVICE: &'static str = "/dev/net/tun";

/// The `ioctl` request number that attaches a tun interface (`TUNSETIFF`).
pub const TUNSETIFF: u64 = 0x400454ca;

/// Reads `libc::IFNAMSIZ`, the size of an interface name field with its
/// terminating zero byte: 16 on Linux.
#[verifier::external_body]
fn ifnamsiz() -> (n: usize)
    ensures
        n == 16,
{
    libc::IFNAMSIZ
}

/// Reads `libc::IFF_TUN` as an `i16`: 0x0001 on Linux.
#[verifier::external_body]
fn iff_tun() -> (f: i16)
    ensures
        f == 0x0001,
{
    libc::IFF_TUN as i16
}

/// Reads `libc::IFF_NO_PI` as an `i16`: 0x1000 on Linux.
#[verifier::external_body]
fn iff_no_pi() -> (f: i16)
    ensures
        f == 0x1000,
{
    libc::IFF_NO_PI as i16
}

/// The interface name field: the first bytes of `name`, at most 15 of them,
/// then zero bytes up to 16.
pub open spec fn spec_ifr_name(name: Seq<u8>) -> Seq<u8> {
    let k = if name.len() < 15 { name.len() } else { 15 };
    name.take(k as int) + Seq::new((16 - k) as nat, |i: int| 0u8)
}

/// The interface name and flags of a `TUNSETIFF` request.
pub struct TunRequest {
    /// The `ifr_name` field.
    pub name: Vec<u8>,
    /// The `ifr_flags` field.
    pub flags: i16,
}

/// The request that makes a tun interface called `if_name`, without packet
/// information in front of the frames (`IFF_TUN | IFF_NO_PI`). A name longer
/// than 15 bytes is cut. The name must not hold a zero byte.
pub fn tun_request(if_name: &str) -> (r: TunRequest)
    requires
        !if_name.spec_bytes().contains(0u8),
    ensures
        r.name@ == spec_ifr_name(if_name.spec_bytes()),
        r.flags == 0x1001,
        r.name@.len() == 16,
        r.name@[15] == 0,
        forall|i: int|
            0 <= i < 15 ==> r.name@[i] == (if i < if_name.spec_bytes().len() {
                if_name.spec_bytes()[i]
            } else {
                0u8
            }),
{
    let bytes = if_name.as_bytes();
    let size = ifnamsiz();
    let len = bytes.len();
    let name_len = if len < size - 1 { len } else { size - 1 };
    let mut name: Vec<u8> = Vec::new();
    for i in 0..size
        invariant
            size == 16,
            name_len <= 15,
            name_len <= bytes@.len(),
            name@.len() == i,
            forall|j: int| 0 <= j < i ==> name@[j] == (if j < name_len { bytes@[j] } else { 0u8 }),
    {
        if i < name_len {
            name.push(bytes[i]);
        } else {
            name.push(0u8);
        }
    }
    assert(name@ =~= spec_ifr_name(bytes@));
    let tun = iff_tun();
    let no_pi = iff_no_pi();
    let flags = tun | no_pi;
    assert(flags == 0x1001) by (bit_vector)
        requires
            tun == 0x0001i16,
            no_pi == 0x1000i16,
            flags == tun | no_pi,
    ;
    TunRequest { name, flags }
}

} // verus!
