use sega_led_proxy::frame::{JVSPacket, SegaJVSReader};

fn decode_all(bytes: &[u8]) -> Vec<(u8, u8, Vec<u8>)> {
    let mut reader = SegaJVSReader::default();
    let mut out = Vec::new();
    for b in bytes {
        if let Some(p) = reader.read_byte(*b) {
            out.push((p.dest_id, p.source_id, p.payload.clone()));
        }
    }
    out
}

#[test]
fn encode_exact_bytes() {
    let mut pkt = JVSPacket::new(1, 2);
    pkt.payload = vec![0x10, 0x20];
    let mut buf = Vec::new();
    pkt.serialize(&mut buf);
    assert_eq!(buf, vec![0xE0, 2, 1, 2, 0x10, 0x20, 0x35]);
    assert_eq!(pkt.expected_len, 2);
}

#[test]
fn checksum_wraps() {
    let mut pkt = JVSPacket::new(0x80, 0x80);
    pkt.payload = vec![0x7F, 0x03];
    let mut buf = Vec::new();
    pkt.serialize(&mut buf);
    assert_eq!(buf, vec![0xE0, 0x80, 0x80, 2, 0x7F, 0x03, 0x84]);
}

#[test]
fn frame_round_trip() {
    let mut pkt = JVSPacket::new(7, 9);
    pkt.payload = (0u8..200).filter(|b| *b != 0xD0).collect();
    let mut buf = Vec::new();
    pkt.serialize(&mut buf);
    let frames = decode_all(&buf);
    assert_eq!(frames, vec![(9, 7, pkt.payload.clone())]);
}

#[test]
fn escape_sync_in_payload() {
    let mut pkt = JVSPacket::new(1, 2);
    pkt.payload = vec![0x3F, 0xE0, 0x01];
    let mut buf = Vec::new();
    pkt.serialize(&mut buf);
    assert_eq!(buf, vec![0xE0, 2, 1, 3, 0x3F, 0xD0, 0xDF, 0x01, 0x26]);
    assert_eq!(decode_all(&buf), vec![(2, 1, vec![0x3F, 0xE0, 0x01])]);
}

#[test]
fn flipped_bit_drops_frame() {
    let mut pkt = JVSPacket::new(1, 2);
    pkt.payload = vec![0x31, 0, 10, 20, 30];
    let mut buf = Vec::new();
    pkt.serialize(&mut buf);
    let positions: Vec<usize> = [1, 2].into_iter().chain(4..buf.len()).collect();
    for i in positions {
        for bit in 0..8 {
            let mut bad = buf.clone();
            bad[i] ^= 1 << bit;
            assert!(decode_all(&bad).is_empty(), "byte {} bit {}", i, bit);
        }
    }
}

#[test]
fn sync_mid_frame_resyncs() {
    let mut good = JVSPacket::new(1, 2);
    good.payload = vec![16];
    let mut buf = vec![0xE0, 2, 1, 5, 0x31, 0];
    good.serialize(&mut buf);
    assert_eq!(decode_all(&buf), vec![(2, 1, vec![16])]);
}

#[test]
fn bytes_after_complete_frame_are_ignored() {
    let mut pkt = JVSPacket::new(1, 2);
    pkt.payload = vec![60];
    let mut buf = Vec::new();
    pkt.serialize(&mut buf);
    buf.extend_from_slice(&[1, 2, 3]);
    assert_eq!(decode_all(&buf).len(), 1);
}

#[test]
fn wrong_checksum_then_next_frame() {
    let mut pkt = JVSPacket::new(1, 2);
    pkt.payload = vec![60];
    let mut buf = Vec::new();
    pkt.serialize(&mut buf);
    let last = buf.len() - 1;
    buf[last] = buf[last].wrapping_add(1);
    let mut second = Vec::new();
    pkt.serialize(&mut second);
    buf.extend_from_slice(&second);
    assert_eq!(decode_all(&buf), vec![(2, 1, vec![60])]);
}
