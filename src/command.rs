//! The LED board's commands and their wire layout inside a frame's payload.
use crate::frame::JVSPacket;
use vstd::prelude::*;

verus! {

/// The kind of a command; each kind has one opcode byte.
#[derive(Clone, Copy, Debug, PartialEq, Eq, Structural)]
pub enum LEDCommandType {
    Reset,
    SetLED,
    SetMultiLED,
    SetMultiLEDFade,
    SetDc,
    UpdateDc,
    SetFet,
    Commit,
    GetBoardInfoCommand,
    GetProtocolVersionCommand,
    GetBoardStatusCommand,
    EepromWrite,
    EepromRead,
    SetTimeout,
}

impl LEDCommandType {
    /// The opcode byte of each kind.
    pub open spec fn spec_opcode(self) -> u8 {
        match self {
            LEDCommandType::Reset => 16,
            LEDCommandType::SetLED => 0x31,
            LEDCommandType::SetMultiLED => 0x32,
            LEDCommandType::SetMultiLEDFade => 51,
            LEDCommandType::SetDc => 63,
            LEDCommandType::UpdateDc => 59,
            LEDCommandType::SetFet => 57,
            LEDCommandType::Commit => 60,
            LEDCommandType::GetBoardInfoCommand => 240,
            LEDCommandType::GetProtocolVersionCommand => 243,
            LEDCommandType::GetBoardStatusCommand => 241,
            LEDCommandType::EepromWrite => 123,
            LEDCommandType::EepromRead => 124,
            LEDCommandType::SetTimeout => 17,
        }
    }

    /// The kind whose opcode is `b`, if there is one.
    pub open spec fn spec_from_opcode(b: u8) -> Option<LEDCommandType> {
        if exists|t: LEDCommandType| t.spec_opcode() == b {
            Some(choose|t: LEDCommandType| t.spec_opcode() == b)
        } else {
            None
        }
    }

    pub fn opcode(self) -> (r: u8)
        ensures
            r == self.spec_opcode(),
    {
        match self {
            LEDCommandType::Reset => 16,
            LEDCommandType::SetLED => 0x31,
            LEDCommandType::SetMultiLED => 0x32,
            LEDCommandType::SetMultiLEDFade => 51,
            LEDCommandType::SetDc => 63,
            LEDCommandType::UpdateDc => 59,
            LEDCommandType::SetFet => 57,
            LEDCommandType::Commit => 60,
            LEDCommandType::GetBoardInfoCommand => 240,
            LEDCommandType::GetProtocolVersionCommand => 243,
            LEDCommandType::GetBoardStatusCommand => 241,
            LEDCommandType::EepromWrite => 123,
            LEDCommandType::EepromRead => 124,
            LEDCommandType::SetTimeout => 17,
        }
    }

    pub fn from_opcode(b: u8) -> (r: Option<LEDCommandType>)
        ensures
            r == LEDCommandType::spec_from_opcode(b),
    {
        let r = match b {
            16 => Some(LEDCommandType::Reset),
            0x31 => Some(LEDCommandType::SetLED),
            0x32 => Some(LEDCommandType::SetMultiLED),
            51 => Some(LEDCommandType::SetMultiLEDFade),
            63 => Some(LEDCommandType::SetDc),
            59 => Some(LEDCommandType::UpdateDc),
            57 => Some(LEDCommandType::SetFet),
            60 => Some(LEDCommandType::Commit),
            240 => Some(LEDCommandType::GetBoardInfoCommand),
            243 => Some(LEDCommandType::GetProtocolVersionCommand),
            241 => Some(LEDCommandType::GetBoardStatusCommand),
            123 => Some(LEDCommandType::EepromWrite),
            124 => Some(LEDCommandType::EepromRead),
            17 => Some(LEDCommandType::SetTimeout),
            _ => {
                assert forall|t: LEDCommandType| t.spec_opcode() != b by {
                    match t {
                        LEDCommandType::Reset => {},
                        _ => {},
                    }
                }
                None
            },
        };
        proof {
            lemma_opcode_table(b);
            if let Some(t) = r {
                assert(t.spec_opcode() == b);
            }
        }
        r
    }
}

/// No two kinds share an opcode, so decoding an opcode gives back its kind.
pub proof fn lemma_opcode_table(b: u8)
    ensures
        forall|t: LEDCommandType| #[trigger] t.spec_opcode() == b ==>
            LEDCommandType::spec_from_opcode(b) == Some(t),
        LEDCommandType::spec_from_opcode(b) matches Some(t) ==> t.spec_opcode() == b,
{
    if exists|t: LEDCommandType| t.spec_opcode() == b {
        let t = choose|t: LEDCommandType| t.spec_opcode() == b;
        assert forall|u: LEDCommandType| #[trigger] u.spec_opcode() == b implies u == t by {
            assert(u.spec_opcode() == t.spec_opcode());
        }
    }
}

/// Why a payload is not a command.
#[derive(Clone, Copy, Debug, PartialEq, Eq, Structural)]
pub enum ParseError {
    EmptyPayload,
    UnknownOpcode(u8),
    /// The opcode's fixed layout needs more bytes than the payload has.
    TruncatedPayload(u8),
}

/// A command of the LED board.
#[derive(Clone, Debug, PartialEq)]
pub enum LEDCommand {
    Reset,
    SetLED { index: u8, r: u8, g: u8, b: u8 },
    SetMultiLED { start: u8, end: u8, skip: u8, r: u8, g: u8, b: u8, speed: u8 },
    SetMultiLEDFade { start: u8, end: u8, skip: u8, r: u8, g: u8, b: u8, speed: u8 },
    SetDc(Vec<u8>),
    UpdateDc(Vec<u8>),
    SetFet(Vec<u8>),
    Commit,
    GetBoardInfoCommand(Vec<u8>),
    GetProtocolVersionCommand(Vec<u8>),
    GetBoardStatusCommand(Vec<u8>),
    EepromWrite(Vec<u8>),
    EepromRead(Vec<u8>),
    SetTimeout(Vec<u8>),
}

/// What a command says, with its opaque bodies as sequences.
pub enum CommandView {
    Reset,
    SetLED { index: u8, r: u8, g: u8, b: u8 },
    SetMultiLED { start: u8, end: u8, skip: u8, r: u8, g: u8, b: u8, speed: u8 },
    SetMultiLEDFade { start: u8, end: u8, skip: u8, r: u8, g: u8, b: u8, speed: u8 },
    SetDc(Seq<u8>),
    UpdateDc(Seq<u8>),
    SetFet(Seq<u8>),
    Commit,
    GetBoardInfoCommand(Seq<u8>),
    GetProtocolVersionCommand(Seq<u8>),
    GetBoardStatusCommand(Seq<u8>),
    EepromWrite(Seq<u8>),
    EepromRead(Seq<u8>),
    SetTimeout(Seq<u8>),
}

impl View for LEDCommand {
    type V = CommandView;

    open spec fn view(&self) -> CommandView {
        match self {
            LEDCommand::Reset => CommandView::Reset,
            LEDCommand::SetLED { index, r, g, b } => CommandView::SetLED {
                index: *index,
                r: *r,
                g: *g,
                b: *b,
            },
            LEDCommand::SetMultiLED { start, end, skip, r, g, b, speed } => CommandView::SetMultiLED {
                start: *start,
                end: *end,
                skip: *skip,
                r: *r,
                g: *g,
                b: *b,
                speed: *speed,
            },
            LEDCommand::SetMultiLEDFade { start, end, skip, r, g, b, speed } =>
                CommandView::SetMultiLEDFade {
                start: *start,
                end: *end,
                skip: *skip,
                r: *r,
                g: *g,
                b: *b,
                speed: *speed,
            },
            LEDCommand::Commit => CommandView::Commit,
            LEDCommand::SetDc(data) => CommandView::SetDc(data@),
            LEDCommand::UpdateDc(data) => CommandView::UpdateDc(data@),
            LEDCommand::SetFet(data) => CommandView::SetFet(data@),
            LEDCommand::GetBoardInfoCommand(data) => CommandView::GetBoardInfoCommand(data@),
            LEDCommand::GetProtocolVersionCommand(data) => CommandView::GetProtocolVersionCommand(data@),
            LEDCommand::GetBoardStatusCommand(data) => CommandView::GetBoardStatusCommand(data@),
            LEDCommand::EepromWrite(data) => CommandView::EepromWrite(data@),
            LEDCommand::EepromRead(data) => CommandView::EepromRead(data@),
            LEDCommand::SetTimeout(data) => CommandView::SetTimeout(data@),
        }
    }
}

impl CommandView {
    pub open spec fn kind(self) -> LEDCommandType {
        match self {
            CommandView::Reset => LEDCommandType::Reset,
            CommandView::SetLED { .. } => LEDCommandType::SetLED,
            CommandView::SetMultiLED { .. } => LEDCommandType::SetMultiLED,
            CommandView::SetMultiLEDFade { .. } => LEDCommandType::SetMultiLEDFade,
            CommandView::Commit => LEDCommandType::Commit,
            CommandView::SetDc(_) => LEDCommandType::SetDc,
            CommandView::UpdateDc(_) => LEDCommandType::UpdateDc,
            CommandView::SetFet(_) => LEDCommandType::SetFet,
            CommandView::GetBoardInfoCommand(_) => LEDCommandType::GetBoardInfoCommand,
            CommandView::GetProtocolVersionCommand(_) => LEDCommandType::GetProtocolVersionCommand,
            CommandView::GetBoardStatusCommand(_) => LEDCommandType::GetBoardStatusCommand,
            CommandView::EepromWrite(_) => LEDCommandType::EepromWrite,
            CommandView::EepromRead(_) => LEDCommandType::EepromRead,
            CommandView::SetTimeout(_) => LEDCommandType::SetTimeout,
        }
    }

    /// The bytes that follow the opcode on the wire.
    pub open spec fn body(self) -> Seq<u8> {
        match self {
            CommandView::Reset | CommandView::Commit => Seq::empty(),
            CommandView::SetLED { index, r, g, b } => seq![index, r, g, b],
            CommandView::SetMultiLED { start, end, skip, r, g, b, speed }
            | CommandView::SetMultiLEDFade { start, end, skip, r, g, b, speed } => seq![
                start,
                end,
                skip,
                r,
                g,
                b,
                speed,
            ],
            CommandView::SetDc(data)
            | CommandView::UpdateDc(data)
            | CommandView::SetFet(data)
            | CommandView::GetBoardInfoCommand(data)
            | CommandView::GetProtocolVersionCommand(data)
            | CommandView::GetBoardStatusCommand(data)
            | CommandView::EepromWrite(data)
            | CommandView::EepromRead(data)
            | CommandView::SetTimeout(data) => data,
        }
    }

    /// The payload that carries this command.
    pub open spec fn wire(self) -> Seq<u8> {
        seq![self.kind().spec_opcode()] + self.body()
    }

    /// The payload of a synthesized reply to this command: status, opcode,
    /// report, body.
    pub open spec fn reply_wire(self) -> Seq<u8> {
        seq![1u8, self.kind().spec_opcode(), 1u8] + self.body()
    }
}

/// The number of payload bytes, opcode included, that a kind's layout reads.
pub open spec fn layout_len(t: LEDCommandType) -> nat {
    match t {
        LEDCommandType::SetLED => 5,
        LEDCommandType::SetMultiLED | LEDCommandType::SetMultiLEDFade => 8,
        _ => 1,
    }
}

/// The command that a payload of kind `t`, long enough for its layout, holds.
pub open spec fn decode_layout(t: LEDCommandType, p: Seq<u8>) -> CommandView {
    let rest = p.subrange(1, p.len() as int);
    match t {
        LEDCommandType::Reset => CommandView::Reset,
        LEDCommandType::Commit => CommandView::Commit,
        LEDCommandType::SetLED => CommandView::SetLED { index: p[1], r: p[2], g: p[3], b: p[4] },
        LEDCommandType::SetMultiLED => CommandView::SetMultiLED {
            start: p[1],
            end: p[2],
            skip: p[3],
            r: p[4],
            g: p[5],
            b: p[6],
            speed: p[7],
        },
        LEDCommandType::SetMultiLEDFade => CommandView::SetMultiLEDFade {
            start: p[1],
            end: p[2],
            skip: p[3],
            r: p[4],
            g: p[5],
            b: p[6],
            speed: p[7],
        },
            LEDCommandType::SetDc => CommandView::SetDc(rest),
            LEDCommandType::UpdateDc => CommandView::UpdateDc(rest),
            LEDCommandType::SetFet => CommandView::SetFet(rest),
            LEDCommandType::GetBoardInfoCommand => CommandView::GetBoardInfoCommand(rest),
            LEDCommandType::GetProtocolVersionCommand => CommandView::GetProtocolVersionCommand(rest),
            LEDCommandType::GetBoardStatusCommand => CommandView::GetBoardStatusCommand(rest),
            LEDCommandType::EepromWrite => CommandView::EepromWrite(rest),
            LEDCommandType::EepromRead => CommandView::EepromRead(rest),
            LEDCommandType::SetTimeout => CommandView::SetTimeout(rest),
    }
}

/// What a payload decodes to.
pub open spec fn parse_payload(p: Seq<u8>) -> Result<CommandView, ParseError> {
    if p.len() == 0 {
        Err(ParseError::EmptyPayload)
    } else {
        match LEDCommandType::spec_from_opcode(p[0]) {
            None => Err(ParseError::UnknownOpcode(p[0])),
            Some(t) => if p.len() < layout_len(t) {
                Err(ParseError::TruncatedPayload(p[0]))
            } else {
                Ok(decode_layout(t, p))
            },
        }
    }
}

/// A parse result with the command seen through its view.
pub open spec fn parse_result_view(r: Result<LEDCommand, ParseError>) -> Result<
    CommandView,
    ParseError,
> {
    match r {
        Ok(c) => Ok(c@),
        Err(e) => Err(e),
    }
}

/// The bytes of `buf` after its first, the opcode.
fn without_command(buf: &[u8]) -> (r: Vec<u8>)
    ensures
        r@ == if buf@.len() == 0 {
            Seq::<u8>::empty()
        } else {
            buf@.subrange(1, buf@.len() as int)
        },
{
    let mut out: Vec<u8> = Vec::new();
    if buf.len() == 0 {
        return out;
    }
    let mut i: usize = 1;
    while i < buf.len()
        invariant
            1 <= i <= buf@.len(),
            out@ == buf@.subrange(1, i as int),
        decreases buf@.len() - i,
    {
        out.push(buf[i]);
        proof {
            assert(out@ =~= buf@.subrange(1, i + 1));
        }
        i += 1;
    }
    out
}

/// Appends `data` to `buf`.
pub(crate) fn push_all(buf: &mut Vec<u8>, data: &[u8])
    ensures
        final(buf)@ == old(buf)@ + data@,
{
    let mut i: usize = 0;
    while i < data.len()
        invariant
            0 <= i <= data@.len(),
            buf@ == old(buf)@ + data@.subrange(0, i as int),
        decreases data@.len() - i,
    {
        buf.push(data[i]);
        proof {
            assert(buf@ =~= old(buf)@ + data@.subrange(0, i + 1));
        }
        i += 1;
    }
    proof {
        assert(data@.subrange(0, data@.len() as int) =~= data@);
    }
}

impl LEDCommand {
    /// Decodes the command that a frame's payload carries.
    pub fn parse(packet: &JVSPacket) -> (r: Result<LEDCommand, ParseError>)
        ensures
            parse_result_view(r) == parse_payload(packet.payload@),
    {
        let payload = packet.payload.as_slice();
        if payload.len() == 0 {
            return Err(ParseError::EmptyPayload);
        }
        let command_type = match LEDCommandType::from_opcode(payload[0]) {
            Some(t) => t,
            None => {
                return Err(ParseError::UnknownOpcode(payload[0]));
            },
        };
        let needed: usize = match command_type {
            LEDCommandType::SetLED => 5,
            LEDCommandType::SetMultiLED | LEDCommandType::SetMultiLEDFade => 8,
            _ => 1,
        };
        if payload.len() < needed {
            return Err(ParseError::TruncatedPayload(payload[0]));
        }
        let cmd = match command_type {
            LEDCommandType::Reset => LEDCommand::Reset,
            LEDCommandType::Commit => LEDCommand::Commit,
            LEDCommandType::SetLED => LEDCommand::SetLED {
                index: payload[1],
                r: payload[2],
                g: payload[3],
                b: payload[4],
            },
            LEDCommandType::SetMultiLED => LEDCommand::SetMultiLED {
                start: payload[1],
                end: payload[2],
                skip: payload[3],
                r: payload[4],
                g: payload[5],
                b: payload[6],
                speed: payload[7],
            },
            LEDCommandType::SetMultiLEDFade => LEDCommand::SetMultiLEDFade {
                start: payload[1],
                end: payload[2],
                skip: payload[3],
                r: payload[4],
                g: payload[5],
                b: payload[6],
                speed: payload[7],
            },
            LEDCommandType::SetDc => LEDCommand::SetDc(without_command(payload)),
            LEDCommandType::UpdateDc => LEDCommand::UpdateDc(without_command(payload)),
            LEDCommandType::SetFet => LEDCommand::SetFet(without_command(payload)),
            LEDCommandType::GetBoardInfoCommand => LEDCommand::GetBoardInfoCommand(without_command(payload)),
            LEDCommandType::GetProtocolVersionCommand => LEDCommand::GetProtocolVersionCommand(without_command(payload)),
            LEDCommandType::GetBoardStatusCommand => LEDCommand::GetBoardStatusCommand(without_command(payload)),
            LEDCommandType::EepromWrite => LEDCommand::EepromWrite(without_command(payload)),
            LEDCommandType::EepromRead => LEDCommand::EepromRead(without_command(payload)),
            LEDCommandType::SetTimeout => LEDCommand::SetTimeout(without_command(payload)),
        };
        Ok(cmd)
    }

    pub fn get_type(&self) -> (r: LEDCommandType)
        ensures
            r == self@.kind(),
    {
        match self {
            LEDCommand::Reset => LEDCommandType::Reset,
            LEDCommand::SetLED { .. } => LEDCommandType::SetLED,
            LEDCommand::SetMultiLED { .. } => LEDCommandType::SetMultiLED,
            LEDCommand::SetMultiLEDFade { .. } => LEDCommandType::SetMultiLEDFade,
            LEDCommand::Commit => LEDCommandType::Commit,
            LEDCommand::SetDc(_) => LEDCommandType::SetDc,
            LEDCommand::UpdateDc(_) => LEDCommandType::UpdateDc,
            LEDCommand::SetFet(_) => LEDCommandType::SetFet,
            LEDCommand::GetBoardInfoCommand(_) => LEDCommandType::GetBoardInfoCommand,
            LEDCommand::GetProtocolVersionCommand(_) => LEDCommandType::GetProtocolVersionCommand,
            LEDCommand::GetBoardStatusCommand(_) => LEDCommandType::GetBoardStatusCommand,
            LEDCommand::EepromWrite(_) => LEDCommandType::EepromWrite,
            LEDCommand::EepromRead(_) => LEDCommandType::EepromRead,
            LEDCommand::SetTimeout(_) => LEDCommandType::SetTimeout,
        }
    }

    fn serialize_cmd_body(&self, buf: &mut Vec<u8>)
        ensures
            final(buf)@ == old(buf)@ + self@.body(),
    {
        match self {
            LEDCommand::SetLED { index, r, g, b } => {
                buf.push(*index);
                buf.push(*r);
                buf.push(*g);
                buf.push(*b);
            },
            LEDCommand::SetMultiLED { start, end, skip, r, g, b, speed }
            | LEDCommand::SetMultiLEDFade { start, end, skip, r, g, b, speed } => {
                buf.push(*start);
                buf.push(*end);
                buf.push(*skip);
                buf.push(*r);
                buf.push(*g);
                buf.push(*b);
                buf.push(*speed);
            },
            LEDCommand::Reset | LEDCommand::Commit => {},
            LEDCommand::SetDc(data)
            | LEDCommand::UpdateDc(data)
            | LEDCommand::SetFet(data)
            | LEDCommand::GetBoardInfoCommand(data)
            | LEDCommand::GetProtocolVersionCommand(data)
            | LEDCommand::GetBoardStatusCommand(data)
            | LEDCommand::EepromWrite(data)
            | LEDCommand::EepromRead(data)
            | LEDCommand::SetTimeout(data) => {
                push_all(buf, data.as_slice());
            },
        }
        proof {
            assert(buf@ =~= old(buf)@ + self@.body());
        }
    }

    /// Appends the payload of a synthesized reply carrying this command.
    pub fn serialize_reply(&self, buf: &mut Vec<u8>)
        ensures
            final(buf)@ == old(buf)@ + self@.reply_wire(),
    {
        buf.push(1);
        buf.push(self.get_type().opcode());
        buf.push(1);
        self.serialize_cmd_body(buf);
        proof {
            assert(buf@ =~= old(buf)@ + self@.reply_wire());
        }
    }

    /// Makes `jvs_packet`'s payload a synthesized reply carrying this command.
    pub fn serialize_reply_to_jvs(&self, jvs_packet: &mut JVSPacket)
        ensures
            final(jvs_packet).payload@ == self@.reply_wire(),
            final(jvs_packet).source_id == old(jvs_packet).source_id,
            final(jvs_packet).dest_id == old(jvs_packet).dest_id,
            final(jvs_packet).expected_len == old(jvs_packet).expected_len,
            final(jvs_packet).checksum == old(jvs_packet).checksum,
    {
        jvs_packet.payload.clear();
        self.serialize_reply(&mut jvs_packet.payload);
        proof {
            assert(jvs_packet.payload@ =~= self@.reply_wire());
        }
    }

    /// Appends the payload that carries this command.
    pub fn serialize(&self, buf: &mut Vec<u8>)
        ensures
            final(buf)@ == old(buf)@ + self@.wire(),
    {
        buf.push(self.get_type().opcode());
        self.serialize_cmd_body(buf);
        proof {
            assert(buf@ =~= old(buf)@ + self@.wire());
        }
    }

    /// Makes `jvs_packet`'s payload the one that carries this command.
    pub fn serialize_to_jvs(&self, jvs_packet: &mut JVSPacket)
        ensures
            final(jvs_packet).payload@ == self@.wire(),
            final(jvs_packet).source_id == old(jvs_packet).source_id,
            final(jvs_packet).dest_id == old(jvs_packet).dest_id,
            final(jvs_packet).expected_len == old(jvs_packet).expected_len,
            final(jvs_packet).checksum == old(jvs_packet).checksum,
    {
        jvs_packet.payload.clear();
        self.serialize(&mut jvs_packet.payload);
        proof {
            assert(jvs_packet.payload@ =~= self@.wire());
        }
    }
}

/// A decoded command is carried in no more bytes than it was decoded from.
pub proof fn lemma_wire_fits(p: Seq<u8>, c: CommandView)
    requires
        parse_payload(p) == Ok::<CommandView, ParseError>(c),
    ensures
        c.wire().len() <= p.len(),
{
    let t = LEDCommandType::spec_from_opcode(p[0]).unwrap();
    assert(p.len() >= layout_len(t));
    assert(p.subrange(1, p.len() as int).len() == p.len() - 1);
}

/// Every command decodes from the payload that carries it back to itself.
pub proof fn lemma_parse_serialize(c: CommandView)
    ensures
        parse_payload(c.wire()) == Ok::<CommandView, ParseError>(c),
{
    let w = c.wire();
    lemma_opcode_table(c.kind().spec_opcode());
    assert(w[0] == c.kind().spec_opcode());
    assert(w.subrange(1, w.len() as int) =~= c.body());
}

} // verus!
