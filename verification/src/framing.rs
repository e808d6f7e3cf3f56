//! The message protocol of the stream sockets: every message is sent as an
//! 8-byte little-endian length followed by that many bytes of payload.
use vstd::prelude::*;
use crate::error::IOError;

verus! {

/// One mebibyte.
pub const MIB: usize = 1048576;

/// Largest payload of one message (128 MiB), so that a peer cannot make the
/// receiver reserve more memory than the machine has.
pub const MAX_PAYLOAD_SIZE: usize = 128 * MIB;

/// Number of bytes of the length header.
pub const HEADER_LEN: usize = 8;

/// Largest number of bytes that one read of a payload asks for.
pub const RECV_CHUNK_SIZE: usize = 16384;

/// The eight little-endian bytes of `v`.
pub open spec fn le_bytes(v: u64) -> Seq<u8> {
    seq![
        (v % 0x100) as u8,
        ((v / 0x100) % 0x100) as u8,
        ((v / 0x1_0000) % 0x100) as u8,
        ((v / 0x100_0000) % 0x100) as u8,
        ((v / 0x1_0000_0000) % 0x100) as u8,
        ((v / 0x100_0000_0000) % 0x100) as u8,
        ((v / 0x1_0000_0000_0000) % 0x100) as u8,
        ((v / 0x100_0000_0000_0000) % 0x100) as u8,
    ]
}

/// The number whose little-endian bytes are the first eight of `b`.
pub open spec fn le_value(b: Seq<u8>) -> int {
    b[0] as int + 0x100 * b[1] + 0x1_0000 * b[2] + 0x100_0000 * b[3] + 0x1_0000_0000 * b[4]
        + 0x100_0000_0000 * b[5] + 0x1_0000_0000_0000 * b[6] + 0x100_0000_0000_0000 * b[7]
}

/// Little-endian encoding is undone by decoding: the eight bytes of `v` read back as `v`.
pub proof fn lemma_le_bytes_value(v: u64)
    ensures
        le_bytes(v).len() == 8,
        le_value(le_bytes(v)) == v,
{
    assert(
        (v % 0x100) as u8 as int + 0x100 * (((v / 0x100) % 0x100) as u8 as int)
        + 0x1_0000 * (((v / 0x1_0000) % 0x100) as u8 as int)
        + 0x100_0000 * (((v / 0x100_0000) % 0x100) as u8 as int)
        + 0x1_0000_0000 * (((v / 0x1_0000_0000) % 0x100) as u8 as int)
        + 0x100_0000_0000 * (((v / 0x100_0000_0000) % 0x100) as u8 as int)
        + 0x1_0000_0000_0000 * (((v / 0x1_0000_0000_0000) % 0x100) as u8 as int)
        + 0x100_0000_0000_0000 * (((v / 0x100_0000_0000_0000) % 0x100) as u8 as int) == v
    ) by (bit_vector);
}


/// Every eight bytes are the encoding of the number they read as, so a header
/// is the only one that announces its length.
pub proof fn lemma_le_value_bytes(b: Seq<u8>)
    requires
        b.len() == 8,
    ensures
        0 <= le_value(b) <= u64::MAX,
        le_bytes(le_value(b) as u64) =~= b,
{
    let (b0, b1, b2, b3, b4, b5, b6, b7) = (b[0], b[1], b[2], b[3], b[4], b[5], b[6], b[7]);
    assert({
        let v = b0 as int + 0x100 * b1 + 0x1_0000 * b2 + 0x100_0000 * b3 + 0x1_0000_0000 * b4
            + 0x100_0000_0000 * b5 + 0x1_0000_0000_0000 * b6 + 0x100_0000_0000_0000 * b7;
        &&& 0 <= v <= u64::MAX
        &&& (v as u64 % 0x100) as u8 == b0
        &&& ((v as u64 / 0x100) % 0x100) as u8 == b1
        &&& ((v as u64 / 0x1_0000) % 0x100) as u8 == b2
        &&& ((v as u64 / 0x100_0000) % 0x100) as u8 == b3
        &&& ((v as u64 / 0x1_0000_0000) % 0x100) as u8 == b4
        &&& ((v as u64 / 0x100_0000_0000) % 0x100) as u8 == b5
        &&& ((v as u64 / 0x1_0000_0000_0000) % 0x100) as u8 == b6
        &&& ((v as u64 / 0x100_0000_0000_0000) % 0x100) as u8 == b7
    }) by (bit_vector);
}

/// The header of a payload of `payload.len()` bytes: its length as eight
/// little-endian bytes, or `OversizedPayload` where the payload is longer
/// than `MAX_PAYLOAD_SIZE`.
pub fn send_header(payload: &[u8]) -> (r: Result<[u8; 8], IOError>)
    ensures
        r is Err <==> payload@.len() > MAX_PAYLOAD_SIZE,
        r matches Err(e) ==> e == IOError::OversizedPayload(payload@.len() as usize),
        r matches Ok(h) ==> h@ == le_bytes(payload@.len() as u64),
        r matches Ok(h) ==> le_value(h@) == payload@.len() && h@[0] == payload@.len() % 256 && h@[7]
            == payload@.len() / 0x100_0000_0000_0000,
{
    let length = payload.len();
    if length > MAX_PAYLOAD_SIZE {
        return Err(IOError::OversizedPayload(length));
    }
    let v = length as u64;
    let h: [u8; 8] = [
        (v % 0x100) as u8,
        (v / 0x100 % 0x100) as u8,
        (v / 0x1_0000 % 0x100) as u8,
        (v / 0x100_0000 % 0x100) as u8,
        (v / 0x1_0000_0000 % 0x100) as u8,
        (v / 0x100_0000_0000 % 0x100) as u8,
        (v / 0x1_0000_0000_0000 % 0x100) as u8,
        (v / 0x100_0000_0000_0000 % 0x100) as u8,
    ];
    assert(h@ =~= le_bytes(v));
    proof {
        lemma_le_bytes_value(v);
    }
    Ok(h)
}

/// The payload length that a received `header` announces: `ArithmeticSaturation`
/// where it does not fit in a `usize`, `OversizedPayload` where it is above
/// `MAX_PAYLOAD_SIZE`.
pub fn payload_len(header: &[u8; 8]) -> (r: Result<usize, IOError>)
    ensures
        r is Err <==> le_value(header@) > MAX_PAYLOAD_SIZE,
        r matches Err(e) ==> (if le_value(header@) > usize::MAX {
            e == IOError::ArithmeticSaturation
        } else {
            e == IOError::OversizedPayload(le_value(header@) as usize)
        }),
        r matches Ok(n) ==> n == le_value(header@),
{
    proof {
        lemma_le_value_bytes(header@);
    }
    let v: u64 = header[0] as u64 + 0x100 * (header[1] as u64) + 0x1_0000 * (header[2] as u64)
        + 0x100_0000 * (header[3] as u64) + 0x1_0000_0000 * (header[4] as u64)
        + 0x100_0000_0000 * (header[5] as u64) + 0x1_0000_0000_0000 * (header[6] as u64)
        + 0x100_0000_0000_0000 * (header[7] as u64);
    if v > usize::MAX as u64 {
        return Err(IOError::ArithmeticSaturation);
    }
    let n = v as usize;
    if n > MAX_PAYLOAD_SIZE {
        return Err(IOError::OversizedPayload(n));
    }
    Ok(n)
}


/// A header made by `send_header` is accepted by `payload_len`, which gives back
/// the length of the payload it was made for.
pub proof fn lemma_header_roundtrip(length: usize)
    requires
        length <= MAX_PAYLOAD_SIZE,
    ensures
        le_bytes(length as u64).len() == HEADER_LEN,
        le_value(le_bytes(length as u64)) == length,
{
    lemma_le_bytes_value(length as u64);
}

/// A header that `payload_len` accepts is the one that `send_header` makes for
/// the length it announces.
pub proof fn lemma_header_canonical(header: Seq<u8>)
    requires
        header.len() == HEADER_LEN,
        le_value(header) <= MAX_PAYLOAD_SIZE,
    ensures
        le_bytes(le_value(header) as u64) == header,
{
    lemma_le_value_bytes(header);
}

/// The chunks one behind the other.
pub open spec fn concat(chunks: Seq<Seq<u8>>) -> Seq<u8>
    decreases chunks.len(),
{
    if chunks.len() == 0 {
        Seq::empty()
    } else {
        chunks[0] + concat(chunks.drop_first())
    }
}

/// What a receiver that expects `expected` bytes and holds `got` makes of the
/// reads `chunks`, each appended as `Receiver::on_chunk` does, stopping at the
/// first that completes the payload: the payload and the number of reads it
/// took, or `None` where no read completes it.
pub open spec fn receive_chunks(expected: nat, got: Seq<u8>, chunks: Seq<Seq<u8>>) -> Option<(Seq<u8>, nat)>
    decreases chunks.len(),
{
    if chunks.len() == 0 {
        None
    } else {
        let got2 = got + chunks[0];
        if got2.len() == expected {
            Some((got2, 1))
        } else {
            match receive_chunks(expected, got2, chunks.drop_first()) {
                Some((p, k)) => Some((p, k + 1)),
                None => None,
            }
        }
    }
}

proof fn lemma_concat_len(chunks: Seq<Seq<u8>>)
    requires
        chunks.len() > 0,
        chunks[0].len() > 0,
    ensures
        concat(chunks).len() > 0,
{
    assert(concat(chunks) == chunks[0] + concat(chunks.drop_first()));
}

proof fn lemma_receive_rest(expected: nat, got: Seq<u8>, chunks: Seq<Seq<u8>>)
    requires
        chunks.len() > 0,
        (got + concat(chunks)).len() == expected,
        forall|i: int| 0 < i < chunks.len() ==> chunks[i].len() > 0,
    ensures
        receive_chunks(expected, got, chunks) == Some((got + concat(chunks), chunks.len())),
    decreases chunks.len(),
{
    let got2 = got + chunks[0];
    let rest = chunks.drop_first();
    assert(got + concat(chunks) =~= got2 + concat(rest));
    if chunks.len() > 1 {
        assert(rest[0] == chunks[1]);
        lemma_concat_len(rest);
        lemma_receive_rest(expected, got2, rest);
    } else {
        assert(concat(rest) =~= Seq::<u8>::empty());
        assert(got2 =~= got + concat(chunks));
    }
}

/// What is sent is received: for any payload that `send_header` accepts, the
/// header announces its length, `payload_len` accepts it, and however the
/// payload arrives split into reads (none of them empty, but for the single
/// read that ends the stream behind an empty payload), the receiver completes
/// it with the last read and holds exactly the payload.
pub proof fn lemma_message_roundtrip(payload: Seq<u8>, chunks: Seq<Seq<u8>>)
    requires
        payload.len() <= MAX_PAYLOAD_SIZE,
        concat(chunks) == payload,
        chunks.len() > 0,
        forall|i: int| 0 <= i < chunks.len() ==> (chunks[i].len() > 0 || chunks.len() == 1),
    ensures
        le_bytes(payload.len() as u64).len() == HEADER_LEN,
        le_value(le_bytes(payload.len() as u64)) == payload.len(),
        receive_chunks(payload.len(), Seq::empty(), chunks) == Some((payload, chunks.len())),
{
    lemma_le_bytes_value(payload.len() as u64);
    lemma_receive_rest(payload.len(), Seq::empty(), chunks);
    assert(Seq::<u8>::empty() + concat(chunks) =~= payload);
}

/// Calls `std::io::Error::kind` and tells whether it is
/// `ErrorKind::UnexpectedEof`. The kind is kept inside the opaque error, so
/// nothing is stated of the answer.
#[verifier::external_body]
fn is_unexpected_eof(e: &std::io::Error) -> bool {
    e.kind() == std::io::ErrorKind::UnexpectedEof
}

/// The error of a failed read of a message header, given whether the stream
/// ended before the header was complete: `RecvConnectionClosed` then, the
/// operating system's error otherwise.
pub fn header_error_for(unexpected_eof: bool, e: std::io::Error) -> (r: IOError)
    ensures
        r == (if unexpected_eof { IOError::RecvConnectionClosed } else { IOError::StdIoError(e) }),
{
    if unexpected_eof {
        IOError::RecvConnectionClosed
    } else {
        IOError::StdIoError(e)
    }
}

/// The error of a failed read of a message header: `RecvConnectionClosed`
/// where the stream ended early (`ErrorKind::UnexpectedEof`), the operating
/// system's error otherwise.
pub fn header_read_error(e: std::io::Error) -> (r: IOError)
    ensures
        r == IOError::RecvConnectionClosed || r == IOError::StdIoError(e),
{
    let eof = is_unexpected_eof(&e);
    header_error_for(eof, e)
}

/// The payload of one message as it arrives: the length that its header
/// announced and the bytes read so far.
pub struct Receiver {
    expected: usize,
    payload: Vec<u8>,
}

impl Receiver {
    /// The number of payload bytes that the header announced.
    pub closed spec fn spec_expected(&self) -> nat {
        self.expected as nat
    }

    /// The payload bytes received so far.
    pub closed spec fn spec_payload(&self) -> Seq<u8> {
        self.payload@
    }

    /// Starts a message from its 8-byte header: fails as `payload_len` does,
    /// and otherwise expects the announced number of bytes, none received yet.
    pub fn start(header: &[u8; 8]) -> (r: Result<Receiver, IOError>)
        ensures
            r is Err <==> le_value(header@) > MAX_PAYLOAD_SIZE,
            r matches Err(e) ==> (if le_value(header@) > usize::MAX {
                e == IOError::ArithmeticSaturation
            } else {
                e == IOError::OversizedPayload(le_value(header@) as usize)
            }),
            r matches Ok(rx) ==> rx.spec_expected() == le_value(header@) && rx.spec_payload()
                =~= Seq::<u8>::empty(),
    {
        match payload_len(header) {
            Ok(n) => Ok(Receiver { expected: n, payload: Vec::new() }),
            Err(e) => Err(e),
        }
    }

    /// The number of payload bytes that the header announced.
    pub fn expected(&self) -> (n: usize)
        ensures
            n == self.spec_expected(),
    {
        self.expected
    }

    /// The number of payload bytes received so far.
    pub fn received(&self) -> (n: usize)
        ensures
            n == self.spec_payload().len(),
    {
        self.payload.len()
    }

    /// Appends one chunk that a read returned, and tells whether the payload
    /// now has exactly the announced length. An empty chunk means the peer
    /// closed the connection, which is only allowed once the payload is complete.
    pub fn on_chunk(&mut self, chunk: &[u8]) -> (done: bool)
        requires
            chunk@.len() > 0 || old(self).spec_payload().len() == old(self).spec_expected(),
            old(self).spec_payload().len() + chunk@.len() <= usize::MAX,
        ensures
            final(self).spec_expected() == old(self).spec_expected(),
            final(self).spec_payload() == old(self).spec_payload() + chunk@,
            done == (final(self).spec_payload().len() == final(self).spec_expected()),
    {
        let n = chunk.len();
        let ghost before = self.payload@;
        for i in 0..n
            invariant
                n == chunk@.len(),
                self.expected == old(self).expected,
                self.payload@ == before + chunk@.take(i as int),
                before == old(self).payload@,
                before.len() + n <= usize::MAX,
        {
            self.payload.push(chunk[i]);
            assert(chunk@.take(i + 1) =~= chunk@.take(i as int).push(chunk@[i as int]));
        }
        assert(chunk@.take(n as int) =~= chunk@);
        self.payload.len() == self.expected
    }

    /// The payload received so far.
    pub fn into_payload(self) -> (payload: Vec<u8>)
        ensures
            payload@ == self.spec_payload(),
    {
        self.payload
    }
}

} // verus!
