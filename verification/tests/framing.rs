use rcon_protocol::framing::FrameBuffer;
use rcon_protocol::packet::{DecodeError, RconPacket};

fn frame_of(id: i32, packet_type: i32, body: &str) -> Vec<u8> {
    RconPacket::new(id, packet_type, body.to_string()).serialize()
}

#[test]
fn empty_buffer_has_no_frame() {
    let mut buffer = FrameBuffer::new();
    assert_eq!(buffer.len(), 0);
    assert_eq!(buffer.next_frame(), Ok(None));
    assert_eq!(buffer.len(), 0);
}

#[test]
fn whole_frame_comes_out_unchanged() {
    let frame = frame_of(7, 3, "password");
    let mut buffer = FrameBuffer::new();
    buffer.push(&frame);
    assert_eq!(buffer.len(), frame.len());
    assert_eq!(buffer.next_frame(), Ok(Some(frame)));
    assert_eq!(buffer.len(), 0);
    assert_eq!(buffer.next_frame(), Ok(None));
}

#[test]
fn partial_frame_waits_for_the_rest() {
    let frame = frame_of(7, 3, "password");
    for cut in 0..frame.len() {
        let mut buffer = FrameBuffer::new();
        buffer.push(&frame[..cut]);
        assert_eq!(buffer.next_frame(), Ok(None));
        assert_eq!(buffer.len(), cut);
        buffer.push(&frame[cut..]);
        assert_eq!(buffer.next_frame(), Ok(Some(frame.clone())));
        assert_eq!(buffer.len(), 0);
    }
}

#[test]
fn byte_by_byte_arrival() {
    let frame = frame_of(1, 2, "status");
    let mut buffer = FrameBuffer::new();
    for (i, b) in frame.iter().enumerate() {
        buffer.push(&[*b]);
        if i + 1 < frame.len() {
            assert_eq!(buffer.next_frame(), Ok(None));
        }
    }
    assert_eq!(buffer.next_frame(), Ok(Some(frame)));
}

#[test]
fn two_frames_in_one_chunk_come_out_in_order() {
    let first = frame_of(1, 3, "password");
    let second = frame_of(2, 2, "status");
    let mut chunk = first.clone();
    chunk.extend_from_slice(&second);
    let mut buffer = FrameBuffer::new();
    buffer.push(&chunk);
    assert_eq!(buffer.next_frame(), Ok(Some(first)));
    assert_eq!(buffer.len(), second.len());
    assert_eq!(buffer.next_frame(), Ok(Some(second)));
    assert_eq!(buffer.next_frame(), Ok(None));
}

#[test]
fn remainder_is_kept_for_the_next_frame() {
    let first = frame_of(1, 3, "password");
    let second = frame_of(2, 2, "status");
    let mut buffer = FrameBuffer::new();
    let mut chunk = first.clone();
    chunk.extend_from_slice(&second[..5]);
    buffer.push(&chunk);
    assert_eq!(buffer.next_frame(), Ok(Some(first)));
    assert_eq!(buffer.len(), 5);
    assert_eq!(buffer.next_frame(), Ok(None));
    buffer.push(&second[5..]);
    assert_eq!(buffer.next_frame(), Ok(Some(second)));
}

#[test]
fn size_field_below_ten_is_malformed() {
    for size in [9, 0, -1, i32::MIN] {
        let mut buffer = FrameBuffer::new();
        buffer.push(&size.to_le_bytes());
        assert_eq!(buffer.next_frame(), Err(DecodeError::MalformedPacket));
        assert_eq!(buffer.len(), 4);
        assert_eq!(buffer.next_frame(), Err(DecodeError::MalformedPacket));
    }
}

#[test]
fn size_field_of_ten_is_the_shortest_frame() {
    let mut buffer = FrameBuffer::new();
    buffer.push(&[10, 0, 0, 0, 1, 0, 0, 0, 3, 0, 0, 0, 0]);
    assert_eq!(buffer.next_frame(), Ok(None));
    buffer.push(&[0]);
    assert_eq!(buffer.next_frame(), Ok(Some(vec![10, 0, 0, 0, 1, 0, 0, 0, 3, 0, 0, 0, 0, 0])));
}

#[test]
fn three_bytes_are_not_yet_a_size_field() {
    let mut buffer = FrameBuffer::new();
    buffer.push(&[1, 0, 0]);
    assert_eq!(buffer.next_frame(), Ok(None));
    buffer.push(&[0]);
    assert_eq!(buffer.next_frame(), Err(DecodeError::MalformedPacket));
}

#[test]
fn frame_is_cut_by_its_size_field_not_by_zero_bytes() {
    let data = [12, 0, 0, 0, 1, 0, 0, 0, 2, 0, 0, 0, 0, 0, b'x', b'y', 9, 9];
    let mut buffer = FrameBuffer::new();
    buffer.push(&data);
    assert_eq!(buffer.next_frame(), Ok(Some(data[..16].to_vec())));
    assert_eq!(buffer.len(), 2);
}
