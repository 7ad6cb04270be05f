use bytes::{BufMut, BytesMut};
use rcon_protocol::packet::{DecodeError, RconPacket};
use rcon_protocol::wire::read_i32_le;

fn packet(id: i32, packet_type: i32, body: &str) -> RconPacket {
    RconPacket::new(id, packet_type, body.to_string())
}

fn frame(size: i32, id: i32, packet_type: i32, body: &[u8]) -> Vec<u8> {
    let mut out = Vec::new();
    out.extend_from_slice(&size.to_le_bytes());
    out.extend_from_slice(&id.to_le_bytes());
    out.extend_from_slice(&packet_type.to_le_bytes());
    out.extend_from_slice(body);
    out.push(0);
    out.push(0);
    out
}

#[test]
fn new_keeps_its_arguments() {
    let p = RconPacket::new(5, 3, "abc".to_string());
    assert_eq!(p.id, 5);
    assert_eq!(p.packet_type, 3);
    assert_eq!(p.body, "abc");
}

#[test]
fn clone_is_equal() {
    let p = packet(-9, 2, "say hi");
    assert_eq!(p.clone(), p);
}

#[test]
fn serialize_auth_packet_exact_bytes() {
    let out = packet(7, 3, "password").serialize();
    let expected: Vec<u8> = vec![
        18, 0, 0, 0, 7, 0, 0, 0, 3, 0, 0, 0, b'p', b'a', b's', b's', b'w', b'o', b'r', b'd', 0, 0,
    ];
    assert_eq!(out, expected);
}

#[test]
fn serialize_empty_body_exact_bytes() {
    let out = packet(42, 2, "").serialize();
    assert_eq!(out, vec![10, 0, 0, 0, 42, 0, 0, 0, 2, 0, 0, 0, 0, 0]);
}

#[test]
fn serialize_negative_id_is_twos_complement() {
    let out = packet(-1, 2, "").serialize();
    assert_eq!(out, vec![10, 0, 0, 0, 0xff, 0xff, 0xff, 0xff, 2, 0, 0, 0, 0, 0]);
    let out = packet(-2, i32::MIN, "").serialize();
    assert_eq!(out, vec![10, 0, 0, 0, 0xfe, 0xff, 0xff, 0xff, 0, 0, 0, 0x80, 0, 0]);
}

#[test]
fn serialize_is_little_endian() {
    let out = packet(0x0809_a0a1, 0x0102_0304, "").serialize();
    assert_eq!(out, vec![10, 0, 0, 0, 0xa1, 0xa0, 0x09, 0x08, 0x04, 0x03, 0x02, 0x01, 0, 0]);
}

#[test]
fn serialize_multibyte_body_counts_bytes() {
    let body = "h\u{e9}llo \u{4e16}\u{754c} \u{1f600}";
    let out = packet(1, 2, body).serialize();
    assert_eq!(out.len(), 14 + body.len());
    assert_eq!(&out[..4], &((body.len() as i32) + 10).to_le_bytes());
    assert_eq!(&out[12..out.len() - 2], body.as_bytes());
    assert_eq!(&out[out.len() - 2..], &[0, 0]);
}

#[test]
fn serialize_long_body_size_field_uses_higher_bytes() {
    let body = "x".repeat(70_000);
    let out = packet(1, 2, &body).serialize();
    assert_eq!(out.len(), 70_014);
    assert_eq!(&out[..4], &[0x7a, 0x11, 0x01, 0x00]);
    assert_eq!(RconPacket::deserialize(&out), Ok(packet(1, 2, &body)));
}

#[test]
fn size_field_is_length_minus_four() {
    for body in ["", "a", "status", "a longer command with spaces", "\u{1f600}"] {
        let out = packet(3, 2, body).serialize();
        let size = i32::from_le_bytes([out[0], out[1], out[2], out[3]]);
        assert_eq!(size as usize, out.len() - 4);
        assert_eq!(size as usize, 8 + body.len() + 2);
    }
}

#[test]
fn round_trip() {
    let cases = [
        packet(0, 0, ""),
        packet(7, 3, "password"),
        packet(42, 2, "status"),
        packet(-1, 2, ""),
        packet(i32::MAX, i32::MIN, "edge"),
        packet(i32::MIN, i32::MAX, "h\u{e9}llo \u{4e16}\u{754c}"),
        packet(1, 99, "tabs\tand\nnewlines"),
    ];
    for p in cases {
        assert_eq!(RconPacket::deserialize(&p.serialize()), Ok(p));
    }
}

#[test]
fn empty_body_round_trip() {
    let p = packet(11, 3, "");
    let decoded = RconPacket::deserialize(&p.serialize()).unwrap();
    assert_eq!(decoded.body, "");
    assert_eq!(decoded, p);
}

#[test]
fn deserialize_reads_fields_at_fixed_offsets() {
    let data = frame(16, 0x0403_0201, -3, b"status");
    let p = RconPacket::deserialize(&data).unwrap();
    assert_eq!(p.id, 0x0403_0201);
    assert_eq!(p.packet_type, -3);
    assert_eq!(p.body, "status");
}

#[test]
fn deserialize_shortest_frame() {
    let data = [10, 0, 0, 0, 1, 0, 0, 0, 3, 0, 0, 0, 0, 0];
    assert_eq!(RconPacket::deserialize(&data), Ok(packet(1, 3, "")));
}

#[test]
fn deserialize_short_input_is_malformed() {
    let whole = frame(10, 1, 3, b"");
    for n in 0..14 {
        assert_eq!(RconPacket::deserialize(&whole[..n]), Err(DecodeError::MalformedPacket));
    }
    assert_eq!(RconPacket::deserialize(&[0xff; 13]), Err(DecodeError::MalformedPacket));
}

#[test]
fn deserialize_invalid_utf8_is_rejected() {
    let data = frame(12, 1, 2, &[0xff, 0xfe]);
    assert_eq!(RconPacket::deserialize(&data), Err(DecodeError::InvalidEncoding));
    let truncated_scalar = frame(11, 1, 2, &[0xc3]);
    assert_eq!(RconPacket::deserialize(&truncated_scalar), Err(DecodeError::InvalidEncoding));
    let surrogate = frame(13, 1, 2, &[0xed, 0xa0, 0x80]);
    assert_eq!(RconPacket::deserialize(&surrogate), Err(DecodeError::InvalidEncoding));
}

#[test]
fn deserialize_size_mismatch() {
    let too_small = frame(15, 1, 2, b"status");
    assert_eq!(RconPacket::deserialize(&too_small), Err(DecodeError::SizeMismatch));
    let too_large = frame(17, 1, 2, b"status");
    assert_eq!(RconPacket::deserialize(&too_large), Err(DecodeError::SizeMismatch));
    let zero = frame(0, 1, 2, b"");
    assert_eq!(RconPacket::deserialize(&zero), Err(DecodeError::SizeMismatch));
    let negative = frame(-1, 1, 2, b"");
    assert_eq!(RconPacket::deserialize(&negative), Err(DecodeError::SizeMismatch));
    let huge = frame(i32::MAX, 1, 2, b"");
    assert_eq!(RconPacket::deserialize(&huge), Err(DecodeError::SizeMismatch));
}

#[test]
fn deserialize_checks_size_before_encoding() {
    let data = frame(99, 1, 2, &[0xff]);
    assert_eq!(RconPacket::deserialize(&data), Err(DecodeError::SizeMismatch));
}

#[test]
fn deserialize_two_frames_at_once_is_a_mismatch() {
    let mut data = packet(1, 3, "password").serialize();
    data.extend_from_slice(&packet(2, 2, "status").serialize());
    assert_eq!(RconPacket::deserialize(&data), Err(DecodeError::SizeMismatch));
}

#[test]
fn deserialize_strips_only_the_two_terminators() {
    let data = frame(13, 1, 2, b"a\0b");
    let p = RconPacket::deserialize(&data).unwrap();
    assert_eq!(p.body, "a\0b");
    assert_eq!(p.serialize(), data);
}

#[test]
fn is_encodable_for_ordinary_packets() {
    assert!(packet(1, 2, "").is_encodable());
    assert!(packet(1, 2, &"y".repeat(100_000)).is_encodable());
}

#[test]
fn read_i32_le_exact_values() {
    let data = [0xa1, 0xa0, 0x09, 0x08, 0xff, 0xff, 0xff, 0xff, 0x00, 0x00, 0x00, 0x80, 0xff];
    assert_eq!(read_i32_le(&data, 0), 0x0809_a0a1);
    assert_eq!(read_i32_le(&data, 4), -1);
    assert_eq!(read_i32_le(&data, 8), i32::MIN);
    assert_eq!(read_i32_le(&data, 9), -0x0080_0000);
    assert_eq!(read_i32_le(&[0xff, 0xff, 0xff, 0x7f], 0), i32::MAX);
    assert_eq!(read_i32_le(&[0, 0, 0, 0], 0), 0);
}

#[test]
fn read_i32_le_agrees_with_std() {
    for n in [0, 1, -1, 255, 256, 65_535, 65_536, 0x7fff_ffff, -0x8000_0000, 0x1234_5678, -12_345] {
        let bytes = i32::to_le_bytes(n);
        assert_eq!(read_i32_le(&bytes, 0), n);
    }
}

#[test]
fn frame_layout() {
    let p = packet(0x1122_3344, 3, "hello");
    let out = p.serialize();
    assert_eq!(out.len(), 14 + 5);
    assert_eq!(&out[0..4], &15i32.to_le_bytes());
    assert_eq!(&out[4..8], &[0x44, 0x33, 0x22, 0x11]);
    assert_eq!(&out[8..12], &[3, 0, 0, 0]);
    assert_eq!(&out[12..17], b"hello");
    assert_eq!(out[17], 0);
    assert_eq!(out[18], 0);
}

#[test]
fn frame_that_carries_a_packet_is_its_frame() {
    let data = frame(13, -7, 3, "\u{e9}!".as_bytes());
    let p = RconPacket::deserialize(&data).unwrap();
    assert_eq!(p, packet(-7, 3, "\u{e9}!"));
    assert_eq!(p.serialize(), data);
}

#[test]
fn deserialize_does_not_look_at_the_terminators() {
    let mut data = frame(12, 1, 2, b"ok");
    let n = data.len();
    data[n - 2] = b'x';
    data[n - 1] = b'y';
    assert_eq!(RconPacket::deserialize(&data), Ok(packet(1, 2, "ok")));
}

#[test]
fn serialize_agrees_with_bytes_crate() {
    let mut expected = BytesMut::new();
    expected.put_i32_le(8 + 6 + 2);
    expected.put_i32_le(-3);
    expected.put_i32_le(2);
    expected.put_slice(b"status");
    expected.put_u8(0);
    expected.put_u8(0);
    assert_eq!(packet(-3, 2, "status").serialize(), expected.to_vec());
}
