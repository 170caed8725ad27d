use sega_led_proxy::capture::reencode_stream;
use sega_led_proxy::command::{LEDCommand, LEDCommandType, ParseError};
use sega_led_proxy::frame::{JVSPacket, SegaJVSReader};

/// Builds the wire form of a frame by hand, independently of the library.
fn wire_frame(dest: u8, src: u8, payload: &[u8]) -> Vec<u8> {
    let mut out = vec![0xE0];
    let mut sum: u8 = 0;
    let mut logical = vec![dest, src, payload.len() as u8];
    logical.extend_from_slice(payload);
    for b in logical {
        sum = sum.wrapping_add(b);
        if b == 0xE0 {
            out.push(0xD0);
            out.push(0xDF);
        } else {
            out.push(b);
        }
    }
    out.push(sum);
    out
}

/// A stream of frames as the controller sends them in test mode.
fn test_mode_data() -> Vec<u8> {
    let payloads: Vec<Vec<u8>> = vec![
        vec![16],
        vec![0xF0],
        vec![0xF3],
        vec![0xF1],
        vec![17, 0x00, 0x10],
        vec![0x31, 0, 255, 0, 0],
        vec![0x32, 0, 32, 1, 0, 255, 0, 0],
        vec![51, 0, 32, 1, 0, 0, 255, 8],
        vec![0x3F, 0xE0, 0x80, 0x7F],
        vec![59, 1, 2, 3],
        vec![57, 0xFF, 0x00, 0x40],
        vec![123, 1, 2, 3, 4],
        vec![124, 0],
        vec![60],
    ];
    let mut out = Vec::new();
    for p in payloads {
        out.extend(wire_frame(2, 1, &p));
    }
    out
}

#[test]
fn test_serialization() {
    let test_data = test_mode_data();
    let mut jvs = SegaJVSReader::default();
    let mut new_buf = Vec::new();
    for byte in &test_data {
        if let Some(packet) = jvs.read_byte(*byte) {
            let cmd = LEDCommand::parse(packet).expect("led command");
            // Create our own version of the same packet.
            let mut new_pkt = JVSPacket::new(packet.source_id, packet.dest_id);
            cmd.serialize_to_jvs(&mut new_pkt);
            new_pkt.serialize(&mut new_buf);
        }
    }
    // Our version should look the same as the input.
    assert_eq!(test_data.as_slice(), new_buf.as_slice());
}

fn reserialize(payload: &[u8]) -> Vec<u8> {
    let mut pkt = JVSPacket::new(1, 2);
    pkt.payload = payload.to_vec();
    let cmd = LEDCommand::parse(&pkt).expect("led command");
    let mut out = Vec::new();
    cmd.serialize(&mut out);
    out
}

#[test]
fn command_round_trip_every_kind() {
    let commands = vec![
        LEDCommand::Reset,
        LEDCommand::SetLED { index: 3, r: 10, g: 20, b: 30 },
        LEDCommand::SetMultiLED { start: 0, end: 9, skip: 1, r: 4, g: 5, b: 6, speed: 7 },
        LEDCommand::SetMultiLEDFade { start: 1, end: 2, skip: 3, r: 4, g: 5, b: 6, speed: 7 },
        LEDCommand::SetDc(vec![1, 2, 3]),
        LEDCommand::UpdateDc(vec![]),
        LEDCommand::SetFet(vec![0xFF, 0, 0x80]),
        LEDCommand::Commit,
        LEDCommand::GetBoardInfoCommand(vec![]),
        LEDCommand::GetProtocolVersionCommand(vec![9]),
        LEDCommand::GetBoardStatusCommand(vec![]),
        LEDCommand::EepromWrite(vec![1, 2]),
        LEDCommand::EepromRead(vec![1]),
        LEDCommand::SetTimeout(vec![0, 0x10]),
    ];
    for c in commands {
        let mut wire = Vec::new();
        c.serialize(&mut wire);
        let mut pkt = JVSPacket::new(1, 2);
        c.serialize_to_jvs(&mut pkt);
        assert_eq!(pkt.payload, wire);
        let parsed = LEDCommand::parse(&pkt).expect("led command");
        assert_eq!(parsed, c);
        assert_eq!(reserialize(&wire), wire);
    }
}

#[test]
fn opcode_table_values() {
    let table = [
        (LEDCommandType::Reset, 16u8),
        (LEDCommandType::SetTimeout, 17),
        (LEDCommandType::SetLED, 49),
        (LEDCommandType::SetMultiLED, 50),
        (LEDCommandType::SetMultiLEDFade, 51),
        (LEDCommandType::SetFet, 57),
        (LEDCommandType::Commit, 60),
        (LEDCommandType::SetDc, 63),
        (LEDCommandType::UpdateDc, 59),
        (LEDCommandType::EepromWrite, 123),
        (LEDCommandType::EepromRead, 124),
        (LEDCommandType::GetBoardStatusCommand, 241),
        (LEDCommandType::GetBoardInfoCommand, 240),
        (LEDCommandType::GetProtocolVersionCommand, 243),
    ];
    for (t, op) in table {
        assert_eq!(t.opcode(), op);
        assert_eq!(LEDCommandType::from_opcode(op), Some(t));
    }
    assert_eq!(LEDCommandType::from_opcode(0x99), None);
}

#[test]
fn parse_fixed_layouts() {
    let mut pkt = JVSPacket::new(1, 2);
    pkt.payload = vec![0x31, 0, 10, 20, 30];
    let cmd = LEDCommand::parse(&pkt).unwrap();
    assert!(matches!(cmd, LEDCommand::SetLED { index: 0, r: 10, g: 20, b: 30 }));
    assert_eq!(cmd.get_type(), LEDCommandType::SetLED);
    pkt.payload = vec![0x32, 1, 2, 3, 4, 5, 6, 7];
    let cmd = LEDCommand::parse(&pkt).unwrap();
    assert!(matches!(
        cmd,
        LEDCommand::SetMultiLED { start: 1, end: 2, skip: 3, r: 4, g: 5, b: 6, speed: 7 }
    ));
    pkt.payload = vec![16, 1, 2];
    assert!(matches!(LEDCommand::parse(&pkt).unwrap(), LEDCommand::Reset));
    pkt.payload = vec![63, 5, 6];
    match LEDCommand::parse(&pkt).unwrap() {
        LEDCommand::SetDc(body) => assert_eq!(body, vec![5, 6]),
        other => panic!("unexpected {:?}", other),
    }
}

#[test]
fn parse_errors() {
    let mut pkt = JVSPacket::new(1, 2);
    assert_eq!(LEDCommand::parse(&pkt).unwrap_err(), ParseError::EmptyPayload);
    pkt.payload = vec![0x99, 1];
    assert_eq!(LEDCommand::parse(&pkt).unwrap_err(), ParseError::UnknownOpcode(0x99));
    pkt.payload = vec![0x31, 0, 10];
    assert_eq!(LEDCommand::parse(&pkt).unwrap_err(), ParseError::TruncatedPayload(0x31));
    pkt.payload = vec![51, 0, 1, 2, 3, 4, 5];
    assert_eq!(LEDCommand::parse(&pkt).unwrap_err(), ParseError::TruncatedPayload(51));
}

#[test]
fn reply_envelope() {
    let cmd = LEDCommand::GetProtocolVersionCommand(vec![7, 8]);
    let mut buf = vec![0xAA];
    cmd.serialize_reply(&mut buf);
    assert_eq!(buf, vec![0xAA, 1, 243, 1, 7, 8]);
    let mut pkt = JVSPacket::new(5, 6);
    pkt.payload = vec![9, 9, 9];
    cmd.serialize_reply_to_jvs(&mut pkt);
    assert_eq!(pkt.payload, vec![1, 243, 1, 7, 8]);
    assert_eq!((pkt.source_id, pkt.dest_id), (5, 6));
}

#[test]
fn reencode_stream_reproduces_capture() {
    let data = test_mode_data();
    assert_eq!(reencode_stream(&data), data);
}

#[test]
fn reencode_stream_drops_frames_that_are_not_commands() {
    let mut data = wire_frame(2, 1, &[0x31, 0, 1, 2, 3]);
    let unknown = wire_frame(2, 1, &[0x99, 7]);
    let commit = wire_frame(2, 1, &[60]);
    let mut stream = data.clone();
    stream.extend_from_slice(&unknown);
    stream.extend_from_slice(&commit);
    data.extend_from_slice(&commit);
    assert_eq!(reencode_stream(&stream), data);
}

#[test]
fn reencode_stream_normalizes_extra_reset_bytes() {
    let stream = wire_frame(2, 1, &[16, 9, 9]);
    assert_eq!(reencode_stream(&stream), wire_frame(2, 1, &[16]));
    assert_eq!(reencode_stream(&[]), Vec::<u8>::new());
}
