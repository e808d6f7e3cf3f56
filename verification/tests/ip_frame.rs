use common::ip_frame::{frame_size, next_frame, IpLengthField};

fn ipv4(total_len: u16, buf_len: usize) -> Vec<u8> {
    let mut b = vec![0u8; buf_len];
    b[0] = 0x45;
    b[2] = (total_len >> 8) as u8;
    b[3] = total_len as u8;
    b
}

fn ipv6(payload_length: u16, buf_len: usize) -> Vec<u8> {
    let mut b = vec![0u8; buf_len];
    b[0] = 0x60;
    b[4] = (payload_length >> 8) as u8;
    b[5] = payload_length as u8;
    b
}

#[test]
fn complete_ipv4_frame_is_found() {
    assert_eq!(next_frame(&ipv4(20, 20)), Some(20));
    assert_eq!(next_frame(&ipv4(28, 40)), Some(28));
}

#[test]
fn incomplete_ipv4_frame_is_not_found() {
    assert_eq!(next_frame(&ipv4(300, 40)), None);
}

#[test]
fn complete_ipv6_frame_counts_its_header() {
    assert_eq!(next_frame(&ipv6(4, 44)), Some(44));
    assert_eq!(next_frame(&ipv6(4, 50)), Some(44));
    assert_eq!(next_frame(&ipv6(4, 43)), None);
}

#[test]
fn largest_ipv6_payload_does_not_wrap() {
    assert_eq!(next_frame(&ipv6(0xffff, 100)), None);
    assert_eq!(next_frame(&ipv6(0xffff, 0xffff + 40)), Some(0xffff + 40));
}

#[test]
fn short_or_foreign_headers_are_refused() {
    assert_eq!(next_frame(&[]), None);
    assert_eq!(next_frame(&ipv6(0, 39)), None);
    let mut b = ipv4(20, 20);
    b[0] = 0x44;
    assert_eq!(next_frame(&b), None);
    let mut b = ipv4(24, 23);
    b[0] = 0x46;
    assert_eq!(next_frame(&b), None);
    let mut b = ipv4(20, 20);
    b[0] = 0x55;
    assert_eq!(next_frame(&b), None);
}

#[test]
fn frame_size_from_fields() {
    assert_eq!(frame_size(None, 100), None);
    assert_eq!(frame_size(Some(IpLengthField::V4 { total_len: 60 }), 60), Some(60));
    assert_eq!(frame_size(Some(IpLengthField::V4 { total_len: 60 }), 59), None);
    assert_eq!(frame_size(Some(IpLengthField::V6 { payload_length: 10 }), 50), Some(50));
    assert_eq!(frame_size(Some(IpLengthField::V6 { payload_length: 10 }), 49), None);
}
