use std::collections::VecDeque;

use commonr::net::{after_read, take_frames, EncodeOverflow, NetworkMessage, ReadOutcome, ReadStep};

fn frame(payload: &[u8]) -> Vec<u8> {
    NetworkMessage::new(payload.to_vec()).unwrap().to_bytes()
}

fn receive_in_chunks(bytes: &[u8], cuts: &[usize]) -> (Vec<Vec<u8>>, VecDeque<u8>) {
    let mut buffer = VecDeque::new();
    let mut messages = Vec::new();
    let mut start = 0;
    for &cut in cuts.iter().chain(std::iter::once(&bytes.len())) {
        buffer.extend(&bytes[start..cut]);
        take_frames(&mut buffer, &mut messages);
        start = cut;
    }
    (messages, buffer)
}

#[test]
fn frame_is_little_endian_length_then_payload() {
    assert_eq!(frame(&[7, 8, 9]), vec![3, 0, 7, 8, 9]);
    assert_eq!(frame(&[]), vec![0, 0]);
    let big = vec![1u8; 300];
    let bytes = frame(&big);
    assert_eq!(&bytes[..2], &[44, 1]);
    assert_eq!(bytes.len(), 302);
}

#[test]
fn largest_payload_fits() {
    let bytes = frame(&vec![0u8; 65535]);
    assert_eq!(&bytes[..2], &[255, 255]);
    assert_eq!(bytes.len(), 65537);
}

#[test]
fn oversized_payload_is_refused() {
    let r = NetworkMessage::new(vec![0u8; 65536]);
    assert_eq!(r.unwrap_err(), EncodeOverflow { len: 65536 });
}

#[test]
fn one_frame_round_trips() {
    let mut buffer: VecDeque<u8> = frame(b"snapshot").into_iter().collect();
    let mut messages = Vec::new();
    take_frames(&mut buffer, &mut messages);
    assert_eq!(messages, vec![b"snapshot".to_vec()]);
    assert!(buffer.is_empty());
}

#[test]
fn partial_frame_stays_in_buffer() {
    let mut buffer: VecDeque<u8> = vec![5u8, 0, 1, 2].into_iter().collect();
    let mut messages: Vec<Vec<u8>> = Vec::new();
    take_frames(&mut buffer, &mut messages);
    assert!(messages.is_empty());
    assert_eq!(buffer, vec![5u8, 0, 1, 2]);
}

#[test]
fn lone_prefix_byte_stays_in_buffer() {
    let mut buffer: VecDeque<u8> = vec![9u8].into_iter().collect();
    let mut messages: Vec<Vec<u8>> = Vec::new();
    take_frames(&mut buffer, &mut messages);
    assert!(messages.is_empty());
    assert_eq!(buffer, vec![9u8]);
}

#[test]
fn complete_frames_then_partial_tail() {
    let mut bytes = frame(&[1, 2]);
    bytes.extend(frame(&[]));
    bytes.extend(frame(&[3]));
    bytes.extend(&[4, 0, 9]);
    let mut buffer: VecDeque<u8> = bytes.into_iter().collect();
    let mut messages = vec![vec![42u8]];
    take_frames(&mut buffer, &mut messages);
    assert_eq!(messages, vec![vec![42u8], vec![1, 2], vec![], vec![3]]);
    assert_eq!(buffer, vec![4u8, 0, 9]);
}

#[test]
fn fragmented_input_gives_same_frames() {
    let mut bytes = frame(b"first");
    bytes.extend(frame(&[0u8; 260]));
    bytes.extend(frame(b"third frame"));
    let whole = receive_in_chunks(&bytes, &[]);
    assert_eq!(whole.0.len(), 3);
    let one_at_a_time: Vec<usize> = (1..bytes.len()).collect();
    assert_eq!(receive_in_chunks(&bytes, &one_at_a_time), whole);
    assert_eq!(receive_in_chunks(&bytes, &[1, 8, 9, 270]), whole);
    assert_eq!(receive_in_chunks(&bytes, &[7, 8]), whole);
}

#[test]
fn read_decisions() {
    assert_eq!(after_read(ReadOutcome::Bytes(0)), ReadStep::Closed);
    assert_eq!(after_read(ReadOutcome::Bytes(10)), ReadStep::Continue);
    assert_eq!(after_read(ReadOutcome::Interrupted), ReadStep::Continue);
    assert_eq!(after_read(ReadOutcome::WouldBlock), ReadStep::Stop);
    assert_eq!(after_read(ReadOutcome::Failed), ReadStep::Closed);
}
