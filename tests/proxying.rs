use sega_led_proxy::command::LEDCommand;
use sega_led_proxy::frame::JVSPacket;
use sega_led_proxy::proxy::{mitm_packet, route_alls_frame, AllsToLed, Forward, LedToAlls};

fn encoded(dest: u8, src: u8, payload: &[u8]) -> Vec<u8> {
    let mut pkt = JVSPacket::new(src, dest);
    pkt.payload = payload.to_vec();
    let mut buf = Vec::new();
    pkt.serialize(&mut buf);
    buf
}

fn run_alls(bytes: &[u8], fix_rbg: bool) -> Vec<Forward> {
    let mut dir = AllsToLed::new(fix_rbg);
    bytes.iter().filter_map(|b| dir.feed(*b)).collect()
}

#[test]
fn unknown_opcode_fails_open() {
    let bytes = encoded(2, 1, &[0x99, 1, 2]);
    let out = run_alls(&bytes, true);
    assert_eq!(out.len(), 1);
    match &out[0] {
        Forward::ToLed(b) => assert_eq!(b, &bytes),
        Forward::ToAlls(_) => panic!("sent back"),
    }
}

#[test]
fn board_info_is_spoofed() {
    let bytes = encoded(2, 1, &[0xF0]);
    let out = run_alls(&bytes, false);
    assert_eq!(out.len(), 1);
    let mut body = vec![1, 0xF0, 1];
    body.extend_from_slice(b"15070-04");
    body.extend_from_slice(&[0xFF, 0x01]);
    match &out[0] {
        Forward::ToAlls(b) => assert_eq!(b, &encoded(1, 2, &body)),
        Forward::ToLed(_) => panic!("reached the LED board"),
    }
}

#[test]
fn color_swap_set_led() {
    let bytes = encoded(2, 1, &[0x31, 0, 10, 20, 30]);
    match &run_alls(&bytes, true)[0] {
        Forward::ToLed(b) => assert_eq!(b, &encoded(2, 1, &[0x31, 0, 10, 30, 20])),
        Forward::ToAlls(_) => panic!("sent back"),
    }
    match &run_alls(&bytes, false)[0] {
        Forward::ToLed(b) => assert_eq!(b, &bytes),
        Forward::ToAlls(_) => panic!("sent back"),
    }
}

#[test]
fn mitm_swaps_multi_led_fields() {
    let req = JVSPacket::new(1, 2);
    let mut cmd = LEDCommand::SetMultiLEDFade { start: 0, end: 1, skip: 2, r: 3, g: 4, b: 5, speed: 6 };
    assert!(mitm_packet(&req, &mut cmd, true).is_none());
    assert_eq!(
        cmd,
        LEDCommand::SetMultiLEDFade { start: 0, end: 1, skip: 2, r: 3, g: 5, b: 4, speed: 6 }
    );
    let mut reset = LEDCommand::Reset;
    assert!(mitm_packet(&req, &mut reset, true).is_none());
}

#[test]
fn mitm_board_info_reply_addresses() {
    let req = JVSPacket::new(1, 2);
    let mut cmd = LEDCommand::GetBoardInfoCommand(vec![]);
    let reply = mitm_packet(&req, &mut cmd, false).expect("reply");
    let mut expected = JVSPacket::new(2, 1);
    expected.payload = reply.payload.clone();
    assert_eq!(reply, expected);
    assert_eq!((reply.source_id, reply.dest_id), (2, 1));
    assert_eq!(reply.payload[..3], [1, 0xF0, 1]);
    assert_eq!(&reply.payload[3..11], b"15070-04");
    assert_eq!(reply.payload[11..], [0xFF, 0x01]);
}

#[test]
fn led_direction_passes_frames_through() {
    let mut bytes = encoded(1, 2, &[1, 0x10, 1, 7]);
    bytes.extend(encoded(1, 2, &[1, 0x3F, 1, 0xE0]));
    let mut dir = LedToAlls::new();
    let out: Vec<Vec<u8>> = bytes.iter().filter_map(|b| dir.feed(*b)).collect();
    assert_eq!(out.concat(), bytes);
}

#[test]
fn route_keeps_verbatim_commands() {
    let mut pkt = JVSPacket::new(1, 2);
    pkt.payload = vec![63, 1, 2, 3];
    match route_alls_frame(&pkt, true) {
        Forward::ToLed(b) => assert_eq!(b, encoded(2, 1, &[63, 1, 2, 3])),
        Forward::ToAlls(_) => panic!("sent back"),
    }
}
