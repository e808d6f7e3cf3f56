//! Finding the IP frame that starts a byte stream.
use vstd::prelude::*;

verus! {

/// The field of an IP header that gives the length of its frame.
#[derive(Debug, Clone, Copy, PartialEq, Eq, Structural)]
pub enum IpLengthField {
    /// An IPv4 header, with its "total length" field (header and payload).
    V4 { total_len: u16 },
    /// An IPv6 header, with its "payload length" field (payload after the 40-byte header).
    V6 { payload_length: u16 },
}

/// Length of an IPv6 header.
pub const IPV6_HEADER_LEN: usize = 40;

/// The big-endian 16-bit number in `b[i]` and `b[i + 1]`.
pub open spec fn be_u16_at(b: Seq<u8>, i: int) -> u16 {
    (b[i] as int * 256 + b[i + 1] as int) as u16
}

/// What etherparse's lax IP parser finds at the start of `buf`: the IP version
/// is the high nibble of the first byte; an IPv4 header needs an IHL (low nibble)
/// of at least 5 and `4 * IHL` bytes, an IPv6 header needs 40 bytes. Anything
/// else is refused.
pub open spec fn spec_ip_length_field(buf: Seq<u8>) -> Option<IpLengthField> {
    if buf.len() == 0 {
        None
    } else if buf[0] / 16 == 4 {
        if buf[0] % 16 >= 5 && buf.len() >= 4 * (buf[0] % 16) {
            Some(IpLengthField::V4 { total_len: be_u16_at(buf, 2) })
        } else {
            None
        }
    } else if buf[0] / 16 == 6 {
        if buf.len() >= IPV6_HEADER_LEN {
            Some(IpLengthField::V6 { payload_length: be_u16_at(buf, 4) })
        } else {
            None
        }
    } else {
        None
    }
}

/// Calls `etherparse::LaxIpSlice::from_slice` on `buf`, and reads the length
/// field of the header it found (`Ipv4HeaderSlice::total_len` or
/// `Ipv6HeaderSlice::payload_length`). The claim: the parser succeeds exactly
/// where `spec_ip_length_field` says, and the fields are the big-endian numbers
/// at offset 2 (IPv4) and 4 (IPv6) of the buffer.
#[verifier::external_body]
fn lax_ip_length_field(buf: &[u8]) -> (r: Option<IpLengthField>)
    ensures
        r == spec_ip_length_field(buf@),
{
    match etherparse::LaxIpSlice::from_slice(buf) {
        Ok((etherparse::LaxIpSlice::Ipv4(ip4), _)) => Some(
            IpLengthField::V4 { total_len: ip4.header().total_len() },
        ),
        Ok((etherparse::LaxIpSlice::Ipv6(ip6), _)) => Some(
            IpLengthField::V6 { payload_length: ip6.header().payload_length() },
        ),
        Err(_) => None,
    }
}

/// The number of bytes of the frame that a header announces: the total length
/// for IPv4, the 40-byte header plus the payload length for IPv6.
pub open spec fn spec_frame_len(field: IpLengthField) -> nat {
    match field {
        IpLengthField::V4 { total_len } => total_len as nat,
        IpLengthField::V6 { payload_length } => payload_length as nat + 40,
    }
}

/// The size of the first frame of `buf`, where a header was found and the
/// whole frame is in the buffer.
pub open spec fn spec_next_frame(buf: Seq<u8>) -> Option<usize> {
    match spec_ip_length_field(buf) {
        None => None,
        Some(field) => if buf.len() < spec_frame_len(field) {
            None
        } else {
            Some(spec_frame_len(field) as usize)
        },
    }
}

/// More bytes behind a complete frame do not change what is found at its start.
pub proof fn lemma_next_frame_extends(x: Seq<u8>, y: Seq<u8>)
    requires
        spec_next_frame(x) is Some,
    ensures
        spec_next_frame(x + y) == spec_next_frame(x),
{
    let xy = x + y;
    assert(xy[0] == x[0]);
    if x[0] / 16 == 4 {
        assert(xy[2] == x[2] && xy[3] == x[3]);
    } else {
        assert(xy[4] == x[4] && xy[5] == x[5]);
    }
    assert(spec_ip_length_field(xy) == spec_ip_length_field(x));
}


/// An IPv4 frame is as long as its total-length field (the big-endian
/// number in bytes 2 and 3) says: where a well-formed IPv4 header starts
/// `buf`, the frame is found exactly when the buffer holds that many bytes,
/// and its size is that number.
pub proof fn lemma_ipv4_frame_is_total_length(buf: Seq<u8>)
    requires
        buf.len() >= 20,
        buf[0] / 16 == 4,
        buf[0] % 16 >= 5,
        buf.len() >= 4 * (buf[0] % 16),
    ensures
        buf[2] as int * 256 + buf[3] as int <= buf.len() ==> spec_next_frame(buf) == Some(
            (buf[2] as int * 256 + buf[3] as int) as usize,
        ),
        buf[2] as int * 256 + buf[3] as int > buf.len() ==> spec_next_frame(buf) is None,
{
    let t = buf[2] as int * 256 + buf[3] as int;
    assert(0 <= t <= 0xffff);
    assert(be_u16_at(buf, 2) as int == t);
}

/// An IPv6 frame is its 40-byte header and as many bytes as its
/// payload-length field (the big-endian number in bytes 4 and 5) says: where
/// an IPv6 header starts `buf`, the frame is found exactly when the buffer
/// holds that many bytes, and its size is that number.
pub proof fn lemma_ipv6_frame_is_header_and_payload(buf: Seq<u8>)
    requires
        buf.len() >= 40,
        buf[0] / 16 == 6,
    ensures
        buf[4] as int * 256 + buf[5] as int + 40 <= buf.len() ==> spec_next_frame(buf) == Some(
            (buf[4] as int * 256 + buf[5] as int + 40) as usize,
        ),
        buf[4] as int * 256 + buf[5] as int + 40 > buf.len() ==> spec_next_frame(buf) is None,
{
    let p = buf[4] as int * 256 + buf[5] as int;
    assert(0 <= p <= 0xffff);
    assert(be_u16_at(buf, 4) as int == p);
}

/// A frame found is never longer than the buffer, and never found at the
/// start of a buffer that is not an IPv4 or IPv6 header.
pub proof fn lemma_next_frame_within_buffer(buf: Seq<u8>)
    ensures
        spec_next_frame(buf) matches Some(n) ==> n <= buf.len() && buf.len() > 0 && (buf[0] / 16
            == 4 || buf[0] / 16 == 6),
{
}

/// Given the length field that the parser found at the start of a buffer of
/// `available` bytes, the size of the frame where all of it is there.
pub fn frame_size(field: Option<IpLengthField>, available: usize) -> (r: Option<usize>)
    ensures
        field is None ==> r is None,
        field matches Some(IpLengthField::V4 { total_len }) ==> r == (if available < total_len {
            None
        } else {
            Some(total_len as usize)
        }),
        field matches Some(IpLengthField::V6 { payload_length }) ==> r == (if available < payload_length as int + 40 {
            None
        } else {
            Some((payload_length + 40) as usize)
        }),
        r == (match field {
            None => None,
            Some(f) => if available < spec_frame_len(f) {
                None
            } else {
                Some(spec_frame_len(f) as usize)
            },
        }),
{
    match field {
        None => None,
        Some(f) => {
            let size: usize = match f {
                IpLengthField::V4 { total_len } => total_len as usize,
                IpLengthField::V6 { payload_length } => payload_length as usize + IPV6_HEADER_LEN,
            };
            if available < size {
                None
            } else {
                Some(size)
            }
        },
    }
}

/// The size of the first IP frame in `buf`, or `None` where no IP header
/// starts the buffer or the frame is not complete yet. `buf` must start at a
/// frame boundary.
pub fn next_frame(buf: &[u8]) -> (r: Option<usize>)
    ensures
        r == spec_next_frame(buf@),
        r matches Some(n) ==> n <= buf@.len(),
{
    frame_size(lax_ip_length_field(buf), buf.len())
}

} // verus!
