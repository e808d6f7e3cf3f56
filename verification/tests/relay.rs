use common::relay::{ChunkRelay, FrameRelay, RelayAction, RELAY_BUFFER_SIZE};

fn ipv4_frame(total_len: u16, fill: u8) -> Vec<u8> {
    let mut b = vec![fill; total_len as usize];
    b[0] = 0x45;
    b[2] = (total_len >> 8) as u8;
    b[3] = total_len as u8;
    b
}

#[test]
fn frame_relay_reads_until_a_frame_is_complete() {
    let frame = ipv4_frame(30, 7);
    let mut r = FrameRelay::new();
    assert_eq!(r.next_action(), RelayAction::Read { max_len: RELAY_BUFFER_SIZE });
    r.on_read(&frame[..10]);
    assert_eq!(r.next_action(), RelayAction::Read { max_len: RELAY_BUFFER_SIZE - 10 });
    r.on_read(&frame[10..]);
    assert_eq!(r.next_action(), RelayAction::Write { len: 30 });
    assert_eq!(r.unsent(), &frame[..]);
    r.on_written(30);
    assert_eq!(r.next_action(), RelayAction::Read { max_len: RELAY_BUFFER_SIZE });
}

#[test]
fn frame_relay_writes_frames_one_by_one_and_keeps_the_tail() {
    let a = ipv4_frame(24, 1);
    let b = ipv4_frame(20, 2);
    let c = ipv4_frame(40, 3);
    let mut input = Vec::new();
    input.extend_from_slice(&a);
    input.extend_from_slice(&b);
    input.extend_from_slice(&c[..15]);
    let mut r = FrameRelay::new();
    r.on_read(&input);
    assert_eq!(r.next_action(), RelayAction::Write { len: 24 });
    assert_eq!(r.unsent(), &a[..]);
    r.on_written(10);
    assert_eq!(r.next_action(), RelayAction::Write { len: 14 });
    assert_eq!(r.unsent(), &a[10..]);
    r.on_written(14);
    assert_eq!(r.next_action(), RelayAction::Write { len: 20 });
    assert_eq!(r.unsent(), &b[..]);
    r.on_written(20);
    // the tail of the third frame moved to the front, reading resumes behind it
    assert_eq!(r.next_action(), RelayAction::Read { max_len: RELAY_BUFFER_SIZE - 15 });
    r.on_read(&c[15..]);
    assert_eq!(r.next_action(), RelayAction::Write { len: 40 });
    assert_eq!(r.unsent(), &c[..]);
}

#[test]
fn frame_relay_forwards_every_byte_in_order() {
    let frames: Vec<Vec<u8>> = (0..50u16).map(|i| ipv4_frame(20 + i * 3, i as u8)).collect();
    let input: Vec<u8> = frames.concat();
    let mut r = FrameRelay::new();
    let mut out = Vec::new();
    let mut pos = 0;
    let mut steps = 0;
    while out.len() < input.len() && steps < 100000 {
        steps += 1;
        match r.next_action() {
            RelayAction::Read { max_len } => {
                let n = 37.min(max_len).min(input.len() - pos);
                r.on_read(&input[pos..pos + n]);
                pos += n;
            }
            RelayAction::Write { len } => {
                let n = len.min(11);
                out.extend_from_slice(&r.unsent()[..n]);
                r.on_written(n);
            }
            RelayAction::Stalled => panic!("no empty frame here"),
        }
    }
    assert_eq!(out, input);
}

#[test]
fn chunk_relay_forwards_each_read() {
    let mut r = ChunkRelay::new();
    assert_eq!(r.next_action(), RelayAction::Read { max_len: RELAY_BUFFER_SIZE });
    r.on_read(&[]);
    assert_eq!(r.next_action(), RelayAction::Read { max_len: RELAY_BUFFER_SIZE });
    r.on_read(&[1, 2, 3, 4]);
    assert_eq!(r.next_action(), RelayAction::Write { len: 4 });
    assert_eq!(r.unsent(), &[1, 2, 3, 4]);
    r.on_written(3);
    assert_eq!(r.unsent(), &[4]);
    r.on_written(1);
    assert_eq!(r.next_action(), RelayAction::Read { max_len: RELAY_BUFFER_SIZE });
    r.on_read(&[9]);
    assert_eq!(r.unsent(), &[9]);
}

#[test]
fn chunk_relay_forwards_every_byte_in_order() {
    let input: Vec<u8> = (0..100000u32).map(|i| (i * 7) as u8).collect();
    let mut r = ChunkRelay::new();
    let mut out = Vec::new();
    let mut pos = 0;
    while out.len() < input.len() {
        match r.next_action() {
            RelayAction::Read { max_len } => {
                let n = 5000.min(max_len).min(input.len() - pos);
                r.on_read(&input[pos..pos + n]);
                pos += n;
            }
            RelayAction::Write { len } => {
                let n = len.min(1234);
                out.extend_from_slice(&r.unsent()[..n]);
                r.on_written(n);
            }
            RelayAction::Stalled => panic!("a chunk relay never stalls"),
        }
    }
    assert_eq!(out, input);
}

#[test]
fn frame_relay_stalls_on_an_empty_frame() {
    let mut r = FrameRelay::new();
    r.on_read(&ipv4_frame_header_only(0));
    assert_eq!(r.next_action(), RelayAction::Stalled);
}

#[test]
fn frame_relay_stalls_after_writing_up_to_an_empty_frame() {
    let a = ipv4_frame(20, 5);
    let mut input = a.clone();
    input.extend_from_slice(&ipv4_frame_header_only(0));
    let mut r = FrameRelay::new();
    r.on_read(&input);
    assert_eq!(r.next_action(), RelayAction::Write { len: 20 });
    r.on_written(20);
    assert_eq!(r.next_action(), RelayAction::Stalled);
}

#[test]
fn frame_relay_output_ends_on_frame_boundaries_when_reading() {
    let frames: Vec<Vec<u8>> = (0..10u16).map(|i| ipv4_frame(20 + i, i as u8)).collect();
    let input: Vec<u8> = frames.concat();
    let ends: Vec<usize> = frames
        .iter()
        .scan(0, |acc, f| {
            *acc += f.len();
            Some(*acc)
        })
        .collect();
    let mut r = FrameRelay::new();
    let mut out = Vec::new();
    let mut pos = 0;
    while out.len() < input.len() {
        match r.next_action() {
            RelayAction::Read { max_len } => {
                assert!(out.is_empty() || ends.contains(&out.len()));
                let n = 13.min(max_len).min(input.len() - pos);
                r.on_read(&input[pos..pos + n]);
                pos += n;
            }
            RelayAction::Write { len } => {
                let n = len.min(7);
                out.extend_from_slice(&r.unsent()[..n]);
                r.on_written(n);
            }
            RelayAction::Stalled => panic!("no empty frame here"),
        }
    }
    assert_eq!(out, input);
}

fn ipv4_frame_header_only(total_len: u16) -> Vec<u8> {
    let mut b = vec![0u8; 20];
    b[0] = 0x45;
    b[2] = (total_len >> 8) as u8;
    b[3] = total_len as u8;
    b
}
