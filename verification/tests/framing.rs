use common::error::IOError;
use common::framing::{header_error_for, header_read_error, payload_len, send_header, Receiver, HEADER_LEN, MAX_PAYLOAD_SIZE};

#[test]
fn header_is_little_endian_length() {
    let payload = [7u8; 5];
    let h = send_header(&payload).unwrap();
    assert_eq!(h, [5, 0, 0, 0, 0, 0, 0, 0]);
    let big = vec![0u8; 0x0102_03];
    assert_eq!(send_header(&big).unwrap(), [0x03, 0x02, 0x01, 0, 0, 0, 0, 0]);
    assert_eq!(h.len(), HEADER_LEN);
}

#[test]
fn empty_payload_has_zero_header() {
    assert_eq!(send_header(&[]).unwrap(), [0u8; 8]);
    assert_eq!(payload_len(&[0u8; 8]).unwrap(), 0);
}

#[test]
fn header_roundtrip_on_values() {
    for len in [0usize, 1, 255, 256, 32768, 32769, 65536, MAX_PAYLOAD_SIZE] {
        let v = len as u64;
        let h = v.to_le_bytes();
        assert_eq!(payload_len(&h).unwrap(), len);
    }
    let payload = vec![1u8; 32769];
    let h = send_header(&payload).unwrap();
    assert_eq!(payload_len(&h).unwrap(), 32769);
}

#[test]
fn largest_payload_is_accepted() {
    let payload = vec![0u8; MAX_PAYLOAD_SIZE];
    let h = send_header(&payload).unwrap();
    assert_eq!(h, (MAX_PAYLOAD_SIZE as u64).to_le_bytes());
}

#[test]
fn oversized_payload_is_refused_on_send() {
    let payload = vec![0u8; MAX_PAYLOAD_SIZE + 1];
    match send_header(&payload) {
        Err(IOError::OversizedPayload(n)) => assert_eq!(n, MAX_PAYLOAD_SIZE + 1),
        other => panic!("unexpected {:?}", other),
    }
}

#[test]
fn oversized_header_is_refused_on_receive() {
    let h = ((MAX_PAYLOAD_SIZE + 1) as u64).to_le_bytes();
    assert!(matches!(payload_len(&h), Err(IOError::OversizedPayload(n)) if n == MAX_PAYLOAD_SIZE + 1));
    assert!(matches!(Receiver::start(&h), Err(IOError::OversizedPayload(_))));
}

#[test]
fn huge_header_is_refused() {
    let h = [0xffu8; 8];
    let r = payload_len(&h);
    if usize::BITS >= 64 {
        assert!(matches!(r, Err(IOError::OversizedPayload(n)) if n == usize::MAX));
    } else {
        assert!(matches!(r, Err(IOError::ArithmeticSaturation)));
    }
}

#[test]
fn receiver_collects_chunks_until_complete() {
    let mut rx = Receiver::start(&[3, 0, 0, 0, 0, 0, 0, 0]).unwrap();
    assert_eq!(rx.expected(), 3);
    assert_eq!(rx.received(), 0);
    assert!(!rx.on_chunk(&[1, 2]));
    assert_eq!(rx.received(), 2);
    assert!(rx.on_chunk(&[3]));
    assert_eq!(rx.into_payload(), vec![1, 2, 3]);
}

#[test]
fn receiver_of_empty_message_is_done_on_empty_read() {
    let mut rx = Receiver::start(&[0u8; 8]).unwrap();
    assert!(rx.on_chunk(&[]));
    assert!(rx.into_payload().is_empty());
}

#[test]
fn receiver_overshoot_is_not_done() {
    let mut rx = Receiver::start(&[2, 0, 0, 0, 0, 0, 0, 0]).unwrap();
    assert!(!rx.on_chunk(&[1, 2, 3]));
    assert_eq!(rx.received(), 3);
}

#[test]
fn send_then_receive_gives_the_payload_back() {
    let payload: Vec<u8> = (0..40000u32).map(|i| (i % 251) as u8).collect();
    let h = send_header(&payload).unwrap();
    let mut rx = Receiver::start(&h).unwrap();
    let mut done = false;
    for chunk in payload.chunks(16384) {
        done = rx.on_chunk(chunk);
    }
    assert!(done);
    assert_eq!(rx.into_payload(), payload);
}

#[test]
fn header_read_errors() {
    let eof = std::io::Error::new(std::io::ErrorKind::UnexpectedEof, "early end");
    assert!(matches!(header_read_error(eof), IOError::RecvConnectionClosed));
    let other = std::io::Error::new(std::io::ErrorKind::ConnectionReset, "reset");
    assert!(matches!(header_read_error(other), IOError::StdIoError(e) if e.kind() == std::io::ErrorKind::ConnectionReset));
    let e = std::io::Error::other("x");
    assert!(matches!(header_error_for(true, e), IOError::RecvConnectionClosed));
    let e = std::io::Error::other("x");
    assert!(matches!(header_error_for(false, e), IOError::StdIoError(_)));
}

#[test]
fn message_roundtrip_over_any_split() {
    let payload: Vec<u8> = (0..1000u32).map(|i| (i % 253) as u8).collect();
    for size in [1usize, 7, 333, 999, 1000] {
        let h = send_header(&payload).unwrap();
        let mut rx = Receiver::start(&h).unwrap();
        let chunks: Vec<&[u8]> = payload.chunks(size).collect();
        for (i, c) in chunks.iter().enumerate() {
            let done = rx.on_chunk(c);
            assert_eq!(done, i + 1 == chunks.len());
        }
        assert_eq!(rx.into_payload(), payload);
    }
}
