//! The interception policy of the proxy, and what each direction of traffic
//! does with every byte it reads.
use crate::command::{
    decode_layout, layout_len, lemma_parse_serialize, parse_payload, push_all, CommandView, LEDCommand, LEDCommandType,
};
use crate::command::ParseError;
use crate::frame::{encode_frame, fresh_reader, step, JVSPacket, ReaderState, SegaJVSReader};
use vstd::prelude::*;

verus! {

/// The identity reported for the LED board: the ASCII text "15070-04", then
/// 0xFF and 0x01.
pub open spec fn board_info_body() -> Seq<u8> {
    seq![0x31u8, 0x35, 0x30, 0x37, 0x30, 0x2D, 0x30, 0x34, 0xFF, 0x01]
}

fn board_info_bytes() -> (r: Vec<u8>)
    ensures
        r@ == board_info_body(),
{
    // "15070-04" in ASCII, then the two trailer bytes.
    let r: Vec<u8> = vec![0x31, 0x35, 0x30, 0x37, 0x30, 0x2D, 0x30, 0x34, 0xFF, 0x01];
    proof {
        assert(r@ =~= board_info_body());
    }
    r
}

/// Whether a command is answered by the proxy itself instead of the LED board.
pub open spec fn is_spoofed(c: CommandView) -> bool {
    c.kind() == LEDCommandType::GetBoardInfoCommand
}

/// The command after the interception policy: a board-info query gets the
/// spoofed identity as its body; with `fix_rbg`, a color-set command has its
/// green and blue exchanged; any other command is kept.
pub open spec fn intercepted(c: CommandView, fix_rbg: bool) -> CommandView {
    match c {
        CommandView::GetBoardInfoCommand(_) => CommandView::GetBoardInfoCommand(board_info_body()),
        CommandView::SetLED { index, r, g, b } => if fix_rbg {
            CommandView::SetLED { index, r, g: b, b: g }
        } else {
            c
        },
        CommandView::SetMultiLED { start, end, skip, r, g, b, speed } => if fix_rbg {
            CommandView::SetMultiLED { start, end, skip, r, g: b, b: g, speed }
        } else {
            c
        },
        CommandView::SetMultiLEDFade { start, end, skip, r, g, b, speed } => if fix_rbg {
            CommandView::SetMultiLEDFade { start, end, skip, r, g: b, b: g, speed }
        } else {
            c
        },
        _ => c,
    }
}

/// Applies the interception policy to `request_to_led`, which `jvs_request`
/// carried. Returns the reply frame when the proxy answers the request itself:
/// addressed back to the sender, with the rewritten command as a reply.
pub fn mitm_packet(jvs_request: &JVSPacket, request_to_led: &mut LEDCommand, fix_rbg: bool) -> (r:
    Option<JVSPacket>)
    ensures
        final(request_to_led)@ == intercepted(old(request_to_led)@, fix_rbg),
        r.is_some() == is_spoofed(old(request_to_led)@),
        r matches Some(p) ==> {
            &&& p.source_id == jvs_request.dest_id
            &&& p.dest_id == jvs_request.source_id
            &&& p.payload@ == final(request_to_led)@.reply_wire()
            &&& p.expected_len == 0
            &&& p.checksum == 0
        },
{
    match request_to_led {
        LEDCommand::GetBoardInfoCommand(buf) => {
            *buf = board_info_bytes();
        },
        LEDCommand::SetLED { g, b, .. } => {
            if fix_rbg {
                let t = *g;
                *g = *b;
                *b = t;
            }
        },
        LEDCommand::SetMultiLED { g, b, .. } => {
            if fix_rbg {
                let t = *g;
                *g = *b;
                *b = t;
            }
        },
        LEDCommand::SetMultiLEDFade { g, b, .. } => {
            if fix_rbg {
                let t = *g;
                *g = *b;
                *b = t;
            }
        },
        _ => {},
    }
    if let LEDCommand::GetBoardInfoCommand(_) = request_to_led {
        let mut response = JVSPacket::new(jvs_request.dest_id, jvs_request.source_id);
        request_to_led.serialize_reply_to_jvs(&mut response);
        Some(response)
    } else {
        None
    }
}

/// Where a frame from the controller is sent, as wire bytes.
pub enum Forward {
    /// On to the LED board.
    ToLed(Vec<u8>),
    /// Back to the controller, in place of the LED board's answer.
    ToAlls(Vec<u8>),
}

/// Where a frame from the controller goes (`true`: back to the controller), and
/// as which bytes. A payload that is not a command is forwarded as it came.
pub open spec fn routed_frame(dest: u8, source: u8, payload: Seq<u8>, fix_rbg: bool) -> (
    bool,
    Seq<u8>,
) {
    match parse_payload(payload) {
        Err(_) => (false, encode_frame(dest, source, payload)),
        Ok(c) => if is_spoofed(c) {
            (true, encode_frame(source, dest, intercepted(c, fix_rbg).reply_wire()))
        } else {
            (false, encode_frame(dest, source, intercepted(c, fix_rbg).wire()))
        },
    }
}

/// `f` sends the bytes `route.1` the way `route.0` says.
pub open spec fn forwards_as(f: Forward, route: (bool, Seq<u8>)) -> bool {
    match f {
        Forward::ToLed(bytes) => !route.0 && bytes@ == route.1,
        Forward::ToAlls(bytes) => route.0 && bytes@ == route.1,
    }
}

/// A command that is forwarded is carried in no more bytes than it came in.
proof fn lemma_forwarded_wire_fits(p: Seq<u8>, c: CommandView, fix_rbg: bool)
    requires
        parse_payload(p) == Ok::<CommandView, ParseError>(c),
        !is_spoofed(c),
    ensures
        intercepted(c, fix_rbg).wire().len() <= p.len(),
{
    let t = LEDCommandType::spec_from_opcode(p[0]).unwrap();
    assert(p.len() >= layout_len(t));
    assert(c == decode_layout(t, p));
    assert(p.subrange(1, p.len() as int).len() == p.len() - 1);
    match t {
        LEDCommandType::SetLED => {},
        LEDCommandType::SetMultiLED => {},
        LEDCommandType::SetMultiLEDFade => {},
        _ => {},
    }
}

/// Decides what becomes of a complete frame from the controller: a payload
/// that is not a command goes on to the LED board unchanged; a board-info query
/// is answered back to the controller; any other command goes on to the LED
/// board after the interception policy.
pub fn route_alls_frame(packet: &JVSPacket, fix_rbg: bool) -> (r: Forward)
    requires
        packet.payload@.len() <= 255,
    ensures
        forwards_as(r, routed_frame(packet.dest_id, packet.source_id, packet.payload@, fix_rbg)),
{
    match LEDCommand::parse(packet) {
        Ok(cmd) => {
            let mut cmd = cmd;
            proof {
                if !is_spoofed(cmd@) {
                    lemma_forwarded_wire_fits(packet.payload@, cmd@, fix_rbg);
                }
            }
            let reply = mitm_packet(packet, &mut cmd, fix_rbg);
            let mut out: Vec<u8> = Vec::new();
            match reply {
                Some(reply) => {
                    let mut reply = reply;
                    reply.serialize(&mut out);
                    Forward::ToAlls(out)
                },
                None => {
                    let mut forwarded = JVSPacket::new(packet.source_id, packet.dest_id);
                    cmd.serialize_to_jvs(&mut forwarded);
                    forwarded.serialize(&mut out);
                    Forward::ToLed(out)
                },
            }
        },
        Err(_) => {
            let mut forwarded = JVSPacket::new(packet.source_id, packet.dest_id);
            push_all(&mut forwarded.payload, packet.payload.as_slice());
            let mut out: Vec<u8> = Vec::new();
            forwarded.serialize(&mut out);
            proof {
                assert(forwarded.payload@ =~= packet.payload@);
            }
            Forward::ToLed(out)
        },
    }
}

/// The direction from the controller to the LED board, which intercepts.
pub struct AllsToLed {
    pub reader: SegaJVSReader,
    pub fix_rbg: bool,
}

impl AllsToLed {
    pub fn new(fix_rbg: bool) -> (r: Self)
        ensures
            r.reader@ == fresh_reader(),
            r.fix_rbg == fix_rbg,
    {
        AllsToLed { reader: SegaJVSReader::default(), fix_rbg }
    }

    /// Takes one byte read from the controller; when it completes a frame,
    /// says where that frame goes.
    pub fn feed(&mut self, byte: u8) -> (r: Option<Forward>)
        ensures
            final(self).reader@ == step(old(self).reader@, byte),
            final(self).fix_rbg == old(self).fix_rbg,
            r.is_some() == (old(self).reader@.state == ReaderState::Checksum
                && final(self).reader@.state == ReaderState::Ready),
            r matches Some(f) ==> forwards_as(
                f,
                routed_frame(
                    final(self).reader@.dest,
                    final(self).reader@.source,
                    final(self).reader@.payload,
                    final(self).fix_rbg,
                ),
            ),
    {
        let fix_rbg = self.fix_rbg;
        match self.reader.read_byte(byte) {
            Some(packet) => Some(route_alls_frame(packet, fix_rbg)),
            None => None,
        }
    }
}

/// The direction from the LED board to the controller, which passes every
/// frame through.
pub struct LedToAlls {
    pub reader: SegaJVSReader,
}

impl LedToAlls {
    pub fn new() -> (r: Self)
        ensures
            r.reader@ == fresh_reader(),
    {
        LedToAlls { reader: SegaJVSReader::default() }
    }

    /// Takes one byte read from the LED board; when it completes a frame,
    /// returns that frame's wire bytes for the controller.
    pub fn feed(&mut self, byte: u8) -> (r: Option<Vec<u8>>)
        ensures
            final(self).reader@ == step(old(self).reader@, byte),
            r.is_some() == (old(self).reader@.state == ReaderState::Checksum
                && final(self).reader@.state == ReaderState::Ready),
            r matches Some(bytes) ==> bytes@ == encode_frame(
                final(self).reader@.dest,
                final(self).reader@.source,
                final(self).reader@.payload,
            ),
    {
        match self.reader.read_byte(byte) {
            Some(packet) => {
                let mut forwarded = JVSPacket::new(packet.source_id, packet.dest_id);
                push_all(&mut forwarded.payload, packet.payload.as_slice());
                let mut out: Vec<u8> = Vec::new();
                forwarded.serialize(&mut out);
                proof {
                    assert(forwarded.payload@ =~= packet.payload@);
                }
                Some(out)
            },
            None => None,
        }
    }
}

/// A frame from the controller whose payload is not a command (empty, of an
/// unknown opcode, or too short for its layout) goes on to the LED board
/// unchanged, as the canonical wire form of the decoded frame. That is the very
/// bytes it arrived as whenever it arrived canonically encoded.
pub proof fn lemma_fail_open(dest: u8, source: u8, payload: Seq<u8>, fix_rbg: bool)
    requires
        parse_payload(payload) is Err,
    ensures
        routed_frame(dest, source, payload, fix_rbg) == (false, encode_frame(dest, source, payload)),
{
}

/// A board-info query never reaches the LED board: the controller gets back a
/// reply frame, addressed to the query's sender, whose body is the spoofed
/// identity.
pub proof fn lemma_board_info_spoofed(dest: u8, source: u8, payload: Seq<u8>, fix_rbg: bool)
    requires
        parse_payload(payload) matches Ok(c) && c.kind() == LEDCommandType::GetBoardInfoCommand,
    ensures
        routed_frame(dest, source, payload, fix_rbg) == (
        true,
        encode_frame(source, dest, seq![1u8, 240u8, 1u8] + board_info_body()),
        ),
{
    let c = parse_payload(payload).unwrap();
    assert(intercepted(c, fix_rbg) == CommandView::GetBoardInfoCommand(board_info_body()));
}

/// With the swap enabled, a single-LED color command goes on to the LED board
/// with its green and blue exchanged, and everything else kept.
pub proof fn lemma_color_swap(dest: u8, source: u8, index: u8, r: u8, g: u8, b: u8)
    ensures
        routed_frame(dest, source, seq![0x31u8, index, r, g, b], true) == (
        false,
        encode_frame(dest, source, seq![0x31u8, index, r, b, g]),
        ),
{
    let c = CommandView::SetLED { index, r, g, b };
    lemma_parse_serialize(c);
    assert(c.wire() =~= seq![0x31u8, index, r, g, b]);
    assert(intercepted(c, true).wire() =~= seq![0x31u8, index, r, b, g]);
}

} // verus!
