//! The byte-stuffed, checksummed frame format of the bus, and an incremental
//! decoder for it.
use vstd::prelude::*;

verus! {

/// Marks the start of a frame; a decoder that sees it always starts over.
pub const SYNC_BYTE: u8 = 0xE0;

/// Announces that the next wire byte is one less than the byte it stands for.
pub const ESCAPE_BYTE: u8 = 0xD0;

/// The wire bytes that stand for one logical byte of the escaped region.
pub open spec fn escape_byte(b: u8) -> Seq<u8> {
    if b == SYNC_BYTE {
        seq![ESCAPE_BYTE, (b - 1) as u8]
    } else {
        seq![b]
    }
}

/// The wire form of a run of logical bytes.
pub open spec fn escaped(s: Seq<u8>) -> Seq<u8>
    decreases s.len(),
{
    if s.len() == 0 {
        Seq::empty()
    } else {
        escaped(s.drop_last()) + escape_byte(s.last())
    }
}

/// The mod-256 sum of `s`, added onto `start`.
pub open spec fn checksum_from(start: u8, s: Seq<u8>) -> u8
    decreases s.len(),
{
    if s.len() == 0 {
        start
    } else {
        checksum_from(start, s.drop_last()).wrapping_add(s.last())
    }
}

/// The mod-256 sum of `s`.
pub open spec fn checksum_of(s: Seq<u8>) -> u8 {
    checksum_from(0, s)
}

/// The logical bytes that a frame's checksum covers: header, then payload.
pub open spec fn logical_bytes(dest: u8, source: u8, payload: Seq<u8>) -> Seq<u8> {
    seq![dest, source, payload.len() as u8] + payload
}

/// The complete wire form of a frame.
pub open spec fn encode_frame(dest: u8, source: u8, payload: Seq<u8>) -> Seq<u8> {
    let logical = logical_bytes(dest, source, payload);
    seq![SYNC_BYTE] + escaped(logical) + seq![checksum_of(logical)]
}

/// Appends the wire form of `input` to `output`, and adds its bytes to `checksum`.
fn escape_and_push(input: &[u8], output: &mut Vec<u8>, checksum: &mut u8)
    ensures
        final(output)@ == old(output)@ + escaped(input@),
        *final(checksum) == checksum_from(*old(checksum), input@),
{
    let mut i: usize = 0;
    while i < input.len()
        invariant
            0 <= i <= input@.len(),
            output@ == old(output)@ + escaped(input@.subrange(0, i as int)),
            *checksum == checksum_from(*old(checksum), input@.subrange(0, i as int)),
        decreases input@.len() - i,
    {
        let byte = input[i];
        proof {
            assert(input@.subrange(0, i + 1).drop_last() =~= input@.subrange(0, i as int));
        }
        *checksum = checksum.wrapping_add(byte);
        if byte == SYNC_BYTE {
            output.push(ESCAPE_BYTE);
            output.push(byte - 1);
        } else {
            output.push(byte);
        }
        proof {
            assert(output@ =~= old(output)@ + escaped(input@.subrange(0, i + 1)));
        }
        i += 1;
    }
    proof {
        assert(input@.subrange(0, input@.len() as int) =~= input@);
    }
}

/// One frame of the bus.
#[derive(Clone, Debug, PartialEq)]
pub struct JVSPacket {
    pub source_id: u8,
    pub dest_id: u8,
    /// The length byte; `serialize` sets it from the payload.
    pub expected_len: u8,
    pub payload: Vec<u8>,
    /// The running checksum while the frame is decoded.
    pub checksum: u8,
}

impl Default for JVSPacket {
    fn default() -> (r: Self)
        ensures
            r.source_id == 0,
            r.dest_id == 0,
            r.expected_len == 0,
            r.payload@ == Seq::<u8>::empty(),
            r.checksum == 0,
    {
        JVSPacket { source_id: 0, dest_id: 0, expected_len: 0, payload: Vec::new(), checksum: 0 }
    }
}

impl JVSPacket {
    /// The wire form of this frame.
    pub open spec fn wire(&self) -> Seq<u8> {
        encode_frame(self.dest_id, self.source_id, self.payload@)
    }

    pub fn new(source: u8, dest: u8) -> (r: Self)
        ensures
            r.source_id == source,
            r.dest_id == dest,
            r.expected_len == 0,
            r.payload@ == Seq::<u8>::empty(),
            r.checksum == 0,
    {
        JVSPacket { source_id: source, dest_id: dest, expected_len: 0, payload: Vec::new(), checksum: 0 }
    }

    /// Appends the wire form of this frame to `buf`, and records the payload's
    /// length in `expected_len`.
    pub fn serialize(&mut self, buf: &mut Vec<u8>)
        requires
            old(self).payload@.len() <= 255,
        ensures
            final(buf)@ == old(buf)@ + old(self).wire(),
            final(self).expected_len == old(self).payload@.len(),
            final(self).payload@ == old(self).payload@,
            final(self).source_id == old(self).source_id,
            final(self).dest_id == old(self).dest_id,
            final(self).checksum == old(self).checksum,
    {
        buf.push(SYNC_BYTE);
        let mut checksum: u8 = 0;
        self.expected_len = self.payload.len() as u8;
        let header = vec![self.dest_id, self.source_id, self.expected_len];
        escape_and_push(header.as_slice(), buf, &mut checksum);
        escape_and_push(self.payload.as_slice(), buf, &mut checksum);
        buf.push(checksum);
        proof {
            let logical = logical_bytes(self.dest_id, self.source_id, self.payload@);
            lemma_escaped_append(header@, self.payload@);
            lemma_checksum_append(0, header@, self.payload@);
            assert(header@ + self.payload@ =~= logical);
            assert(buf@ =~= old(buf)@ + old(self).wire());
        }
    }
}

/// Escaping works byte by byte, so it distributes over concatenation.
pub proof fn lemma_escaped_append(a: Seq<u8>, b: Seq<u8>)
    ensures
        escaped(a + b) == escaped(a) + escaped(b),
    decreases b.len(),
{
    if b.len() == 0 {
        assert(a + b =~= a);
        assert(escaped(a) + escaped(b) =~= escaped(a));
    } else {
        assert((a + b).drop_last() =~= a + b.drop_last());
        assert((a + b).last() == b.last());
        lemma_escaped_append(a, b.drop_last());
        assert(escaped(a + b) =~= escaped(a) + escaped(b));
    }
}

/// A checksum over two runs is the checksum over the second, started from the first.
pub proof fn lemma_checksum_append(start: u8, a: Seq<u8>, b: Seq<u8>)
    ensures
        checksum_from(start, a + b) == checksum_from(checksum_from(start, a), b),
    decreases b.len(),
{
    if b.len() == 0 {
        assert(a + b =~= a);
    } else {
        assert((a + b).drop_last() =~= a + b.drop_last());
        assert((a + b).last() == b.last());
        lemma_checksum_append(start, a, b.drop_last());
    }
}

/// Where a decoder stands within a frame.
#[derive(Clone, Copy, Debug, PartialEq, Eq, Structural)]
pub enum ReaderState {
    Dest,
    Src,
    Len,
    Payload,
    PayloadEscaped,
    Checksum,
    Ready,
}

/// What a decoder holds: its state and the frame received so far.
pub struct ReaderView {
    pub state: ReaderState,
    pub dest: u8,
    pub source: u8,
    pub len: u8,
    pub payload: Seq<u8>,
    pub checksum: u8,
}

/// A decoder that waits for the destination byte of a new frame.
pub open spec fn fresh_reader() -> ReaderView {
    ReaderView {
        state: ReaderState::Dest,
        dest: 0,
        source: 0,
        len: 0,
        payload: Seq::empty(),
        checksum: 0,
    }
}

/// The decoder after one more wire byte.
pub open spec fn step(r: ReaderView, b: u8) -> ReaderView {
    if b == SYNC_BYTE {
        fresh_reader()
    } else {
        match r.state {
            ReaderState::Dest => ReaderView {
                state: ReaderState::Src,
                dest: b,
                checksum: r.checksum.wrapping_add(b),
                ..r
            },
            ReaderState::Src => ReaderView {
                state: ReaderState::Len,
                source: b,
                checksum: r.checksum.wrapping_add(b),
                ..r
            },
            ReaderState::Len => ReaderView {
                state: ReaderState::Payload,
                len: b,
                checksum: r.checksum.wrapping_add(b),
                ..r
            },
            ReaderState::Payload | ReaderState::PayloadEscaped => {
                if b == ESCAPE_BYTE {
                    ReaderView { state: ReaderState::PayloadEscaped, ..r }
                } else {
                    let v = if r.state == ReaderState::PayloadEscaped {
                        b.wrapping_add(1)
                    } else {
                        b
                    };
                    let p = r.payload.push(v);
                    ReaderView {
                        state: if p.len() == r.len {
                            ReaderState::Checksum
                        } else {
                            ReaderState::Payload
                        },
                        payload: p,
                        checksum: r.checksum.wrapping_add(v),
                        ..r
                    }
                }
            },
            ReaderState::Checksum => {
                if b == r.checksum {
                    ReaderView { state: ReaderState::Ready, ..r }
                } else {
                    fresh_reader()
                }
            },
            ReaderState::Ready => r,
        }
    }
}

/// The decoder after a run of wire bytes, fed one at a time.
pub open spec fn feed_all(r: ReaderView, bytes: Seq<u8>) -> ReaderView
    decreases bytes.len(),
{
    if bytes.len() == 0 {
        r
    } else {
        step(feed_all(r, bytes.drop_last()), bytes.last())
    }
}

/// Byte `b` completes a frame: the decoder awaited the checksum, and it matched.
pub open spec fn completes(r: ReaderView, b: u8) -> bool {
    r.state == ReaderState::Checksum && step(r, b).state == ReaderState::Ready
}

/// The frames that decoding `bytes` from `r` emits, in the order completed.
pub open spec fn emitted_frames(r: ReaderView, bytes: Seq<u8>) -> Seq<ReaderView>
    decreases bytes.len(),
{
    if bytes.len() == 0 {
        Seq::empty()
    } else {
        let before = feed_all(r, bytes.drop_last());
        let prev = emitted_frames(r, bytes.drop_last());
        if completes(before, bytes.last()) {
            prev.push(step(before, bytes.last()))
        } else {
            prev
        }
    }
}

/// What a decoder has summed so far: nothing before the destination byte,
/// then the header bytes received, then the header and the payload so far.
pub open spec fn running_checksum(r: ReaderView) -> u8 {
    match r.state {
        ReaderState::Dest => 0,
        ReaderState::Src => checksum_of(seq![r.dest]),
        ReaderState::Len => checksum_of(seq![r.dest, r.source]),
        _ => checksum_of(seq![r.dest, r.source, r.len] + r.payload),
    }
}

/// A decoder's checksum is the sum of what it received, it holds no payload
/// before the header is complete, and once its payload is complete that payload
/// has the declared length.
pub open spec fn reader_consistent(r: ReaderView) -> bool {
    &&& r.checksum == running_checksum(r)
    &&& (r.state == ReaderState::Dest || r.state == ReaderState::Src || r.state
        == ReaderState::Len) ==> r.payload.len() == 0
    &&& (r.state == ReaderState::Checksum || r.state == ReaderState::Ready) ==> r.payload.len()
        == r.len
}

/// Every byte keeps a decoder consistent.
pub proof fn lemma_step_consistent(r: ReaderView, b: u8)
    requires
        reader_consistent(r),
    ensures
        reader_consistent(step(r, b)),
{
    if b != SYNC_BYTE {
        let h = seq![r.dest, r.source, r.len];
        match r.state {
            ReaderState::Dest => {
                assert(seq![b].drop_last() =~= Seq::<u8>::empty());
                assert(checksum_from(0, Seq::<u8>::empty()) == 0);
                assert(checksum_of(seq![b]) == (0u8).wrapping_add(b));
            },
            ReaderState::Src => {
                assert(seq![r.dest, b].drop_last() =~= seq![r.dest]);
                assert(seq![r.dest].drop_last() =~= Seq::<u8>::empty());
            },
            ReaderState::Len => {
                let s3 = seq![r.dest, r.source, b];
                assert(s3.drop_last() =~= seq![r.dest, r.source]);
                assert(r.payload =~= Seq::<u8>::empty());
                assert(s3 + r.payload =~= s3);
            },
            ReaderState::Payload | ReaderState::PayloadEscaped => {
                if b != ESCAPE_BYTE {
                    let v = if r.state == ReaderState::PayloadEscaped {
                        b.wrapping_add(1)
                    } else {
                        b
                    };
                    assert((h + r.payload.push(v)).drop_last() =~= h + r.payload);
                    assert((h + r.payload.push(v)).last() == v);
                    assert(checksum_of(h + r.payload.push(v)) == checksum_of(
                        h + r.payload,
                    ).wrapping_add(v));
                }
            },
            _ => {},
        }
    }
}

/// Decodes frames from the bus one byte at a time.
pub struct SegaJVSReader {
    state: ReaderState,
    packet: JVSPacket,
}

impl View for SegaJVSReader {
    type V = ReaderView;

    closed spec fn view(&self) -> ReaderView {
        ReaderView {
            state: self.state,
            dest: self.packet.dest_id,
            source: self.packet.source_id,
            len: self.packet.expected_len,
            payload: self.packet.payload@,
            checksum: self.packet.checksum,
        }
    }
}

impl Default for SegaJVSReader {
    fn default() -> (r: Self)
        ensures
            r@ == fresh_reader(),
    {
        SegaJVSReader { state: ReaderState::Dest, packet: JVSPacket::default() }
    }
}

impl SegaJVSReader {
    #[verifier::type_invariant]
    spec fn consistent(&self) -> bool {
        reader_consistent(self@)
    }

    fn reset(&mut self) -> (r: ReaderState)
        ensures
            final(self)@ == fresh_reader(),
            r == ReaderState::Dest,
    {
        *self = SegaJVSReader { state: ReaderState::Dest, packet: JVSPacket::default() };
        proof {
            assert(self@.payload =~= fresh_reader().payload);
        }
        self.state
    }

    /// Feeds one wire byte; returns the frame when this byte completed it with
    /// a matching checksum. Bytes after that, up to the next sync byte, are
    /// ignored.
    pub fn read_byte(&mut self, input: u8) -> (r: Option<&JVSPacket>)
        ensures
            final(self)@ == step(old(self)@, input),
            r.is_some() == completes(old(self)@, input),
            r matches Some(p) ==> {
                &&& p.payload@.len() == p.expected_len
                &&& p.checksum == checksum_of(logical_bytes(p.dest_id, p.source_id, p.payload@))
                &&& p.dest_id == final(self)@.dest
                &&& p.source_id == final(self)@.source
                &&& p.expected_len == final(self)@.len
                &&& p.payload@ == final(self)@.payload
                &&& p.checksum == final(self)@.checksum
            },
    {
        proof {
            use_type_invariant(&*self);
            lemma_step_consistent(self@, input);
        }
        if input == SYNC_BYTE {
            self.reset();
            return None;
        }
        let mut taken = SegaJVSReader { state: ReaderState::Dest, packet: JVSPacket::default() };
        std::mem::swap(self, &mut taken);
        let SegaJVSReader { state, packet } = taken;
        let mut packet = packet;
        let next = match state {
            ReaderState::Dest => {
                packet.dest_id = input;
                packet.checksum = packet.checksum.wrapping_add(input);
                ReaderState::Src
            },
            ReaderState::Src => {
                packet.source_id = input;
                packet.checksum = packet.checksum.wrapping_add(input);
                ReaderState::Len
            },
            ReaderState::Len => {
                packet.expected_len = input;
                packet.checksum = packet.checksum.wrapping_add(input);
                ReaderState::Payload
            },
            ReaderState::Payload | ReaderState::PayloadEscaped => {
                if input == ESCAPE_BYTE {
                    ReaderState::PayloadEscaped
                } else {
                    let v = if state == ReaderState::PayloadEscaped {
                        input.wrapping_add(1)
                    } else {
                        input
                    };
                    packet.payload.push(v);
                    packet.checksum = packet.checksum.wrapping_add(v);
                    if packet.payload.len() == packet.expected_len as usize {
                        ReaderState::Checksum
                    } else {
                        ReaderState::Payload
                    }
                }
            },
            ReaderState::Checksum => {
                if packet.checksum == input {
                    ReaderState::Ready
                } else {
                    packet = JVSPacket::default();
                    proof {
                        assert(packet.payload@ =~= fresh_reader().payload);
                    }
                    ReaderState::Dest
                }
            },
            ReaderState::Ready => ReaderState::Ready,
        };
        let completed = state == ReaderState::Checksum && next == ReaderState::Ready;
        *self = SegaJVSReader { state: next, packet };
        if completed {
            Some(&self.packet)
        } else {
            None
        }
    }
}

/// Feeding two runs of bytes is feeding the first, then the second.
pub proof fn lemma_feed_append(r: ReaderView, a: Seq<u8>, b: Seq<u8>)
    ensures
        feed_all(r, a + b) == feed_all(feed_all(r, a), b),
    decreases b.len(),
{
    if b.len() == 0 {
        assert(a + b =~= a);
    } else {
        assert((a + b).drop_last() =~= a + b.drop_last());
        assert((a + b).last() == b.last());
        lemma_feed_append(r, a, b.drop_last());
    }
}

/// The frames emitted over two runs of bytes are those of the first, then
/// those of the second.
pub proof fn lemma_emitted_append(r: ReaderView, a: Seq<u8>, b: Seq<u8>)
    ensures
        emitted_frames(r, a + b) == emitted_frames(r, a) + emitted_frames(feed_all(r, a), b),
    decreases b.len(),
{
    if b.len() == 0 {
        assert(a + b =~= a);
        assert(emitted_frames(r, a) + Seq::<ReaderView>::empty() =~= emitted_frames(r, a));
    } else {
        assert((a + b).drop_last() =~= a + b.drop_last());
        assert((a + b).last() == b.last());
        lemma_emitted_append(r, a, b.drop_last());
        lemma_feed_append(r, a, b.drop_last());
        let x = step(feed_all(r, a + b.drop_last()), b.last());
        assert((emitted_frames(r, a) + emitted_frames(feed_all(r, a), b.drop_last())).push(x)
            =~= emitted_frames(r, a) + emitted_frames(feed_all(r, a), b.drop_last()).push(x));
    }
}

/// A sync byte discards whatever was received, and decoding starts afresh
/// with the bytes after it.
pub proof fn lemma_resync(r: ReaderView, rest: Seq<u8>)
    ensures
        step(r, SYNC_BYTE) == fresh_reader(),
        feed_all(r, seq![SYNC_BYTE] + rest) == feed_all(fresh_reader(), rest),
        emitted_frames(r, seq![SYNC_BYTE] + rest) == emitted_frames(fresh_reader(), rest),
{
    lemma_feed_append(r, seq![SYNC_BYTE], rest);
    lemma_emitted_append(r, seq![SYNC_BYTE], rest);
    assert(seq![SYNC_BYTE].drop_last() =~= Seq::<u8>::empty());
    assert(feed_all(r, Seq::<u8>::empty()) == r);
    assert(emitted_frames(r, Seq::<u8>::empty()) =~= Seq::<ReaderView>::empty());
    assert(!completes(r, SYNC_BYTE));
    assert(emitted_frames(r, seq![SYNC_BYTE]) =~= Seq::<ReaderView>::empty());
    assert(Seq::<ReaderView>::empty() + emitted_frames(fresh_reader(), rest) =~= emitted_frames(
        fresh_reader(),
        rest,
    ));
}

/// A sync byte in the payload goes on the wire as the escape byte and 0xDF, and
/// a decoder inside a payload turns those two bytes back into the sync byte.
pub proof fn lemma_escape_sync(r: ReaderView)
    requires
        r.state == ReaderState::Payload,
    ensures
        escape_byte(SYNC_BYTE) == seq![ESCAPE_BYTE, 0xDFu8],
        feed_all(r, seq![ESCAPE_BYTE, 0xDFu8]).payload == r.payload.push(SYNC_BYTE),
{
    let two = seq![ESCAPE_BYTE, 0xDFu8];
    assert(two.drop_last() =~= seq![ESCAPE_BYTE]);
    assert(seq![ESCAPE_BYTE].drop_last() =~= Seq::<u8>::empty());
    assert(feed_all(r, Seq::<u8>::empty()) == r);
    assert(feed_all(r, seq![ESCAPE_BYTE]).state == ReaderState::PayloadEscaped);
}

/// No byte of `s` is the escape byte.
pub open spec fn free_of_escape(s: Seq<u8>) -> bool {
    forall|i: int| 0 <= i < s.len() ==> s[i] != ESCAPE_BYTE
}

/// Decoding the wire form of payload bytes inside a payload appends them.
proof fn lemma_feed_payload(r: ReaderView, p: Seq<u8>)
    requires
        r.state == ReaderState::Payload,
        r.payload.len() < r.len,
        r.payload.len() + p.len() <= r.len,
        free_of_escape(p),
    ensures
        feed_all(r, escaped(p)) == (ReaderView {
            state: if r.payload.len() + p.len() == r.len {
                ReaderState::Checksum
            } else {
                ReaderState::Payload
            },
            payload: r.payload + p,
            checksum: checksum_from(r.checksum, p),
            ..r
        }),
        emitted_frames(r, escaped(p)) == Seq::<ReaderView>::empty(),
    decreases p.len(),
{
    if p.len() == 0 {
        assert(r.payload + p =~= r.payload);
        assert(escaped(p) =~= Seq::<u8>::empty());
        assert(feed_all(r, Seq::<u8>::empty()) == r);
        assert(emitted_frames(r, Seq::<u8>::empty()) =~= Seq::<ReaderView>::empty());
    } else {
        let p0 = p.drop_last();
        let x = p.last();
        assert(free_of_escape(p0));
        lemma_feed_payload(r, p0);
        lemma_feed_append(r, escaped(p0), escape_byte(x));
        lemma_emitted_append(r, escaped(p0), escape_byte(x));
        let r1 = feed_all(r, escaped(p0));
        assert(emitted_frames(r1, Seq::<u8>::empty()) =~= Seq::<ReaderView>::empty());
        assert(r1.payload + seq![x] =~= r.payload + p);
        if x == SYNC_BYTE {
            let e = escape_byte(x);
            assert(e.drop_last() =~= seq![ESCAPE_BYTE]);
            assert(seq![ESCAPE_BYTE].drop_last() =~= Seq::<u8>::empty());
            assert(feed_all(r1, Seq::<u8>::empty()) == r1);
            assert(feed_all(r1, seq![ESCAPE_BYTE]).state == ReaderState::PayloadEscaped);
            assert(emitted_frames(r1, seq![ESCAPE_BYTE]) =~= Seq::<ReaderView>::empty());
            assert(emitted_frames(r1, e) =~= Seq::<ReaderView>::empty());
            assert(r1.payload.push(x) =~= r.payload + p);
        } else {
            assert(p[p.len() - 1] != ESCAPE_BYTE);
            assert(escape_byte(x).drop_last() =~= Seq::<u8>::empty());
            assert(feed_all(r1, Seq::<u8>::empty()) == r1);
            assert(emitted_frames(r1, escape_byte(x)) =~= Seq::<ReaderView>::empty());
            assert(r1.payload.push(x) =~= r.payload + p);
        }
        assert(Seq::<ReaderView>::empty() + Seq::<ReaderView>::empty() =~= Seq::<
            ReaderView,
        >::empty());
    }
}

/// Decoding a sync byte and the escaped header and payload of a frame leaves
/// the decoder waiting for the checksum byte, holding that frame.
proof fn lemma_feed_frame_body(r: ReaderView, dest: u8, source: u8, payload: Seq<u8>)
    requires
        dest != SYNC_BYTE,
        source != SYNC_BYTE,
        0 < payload.len() <= 255,
        payload.len() as u8 != SYNC_BYTE,
        free_of_escape(payload),
    ensures
        feed_all(r, seq![SYNC_BYTE] + escaped(logical_bytes(dest, source, payload))) == (
        ReaderView {
            state: ReaderState::Checksum,
            dest,
            source,
            len: payload.len() as u8,
            payload,
            checksum: checksum_of(logical_bytes(dest, source, payload)),
        }),
        emitted_frames(r, seq![SYNC_BYTE] + escaped(logical_bytes(dest, source, payload)))
            == Seq::<ReaderView>::empty(),
{
    let len = payload.len() as u8;
    let header = seq![dest, source, len];
    lemma_escaped_append(header, payload);
    assert(header + payload =~= logical_bytes(dest, source, payload));
    assert(header.drop_last() =~= seq![dest, source]);
    assert(seq![dest, source].drop_last() =~= seq![dest]);
    assert(seq![dest].drop_last() =~= Seq::<u8>::empty());
    assert(escaped(Seq::<u8>::empty()) =~= Seq::<u8>::empty());
    assert(escaped(seq![dest]) =~= seq![dest]);
    assert(escaped(seq![dest, source]) =~= seq![dest, source]);
    assert(escaped(header) =~= header);
    lemma_resync(r, escaped(header) + escaped(payload));
    assert(seq![SYNC_BYTE] + escaped(header) + escaped(payload) =~= seq![SYNC_BYTE] + (
    escaped(header) + escaped(payload)));
    lemma_feed_append(fresh_reader(), header, escaped(payload));
    let r1 = feed_all(fresh_reader(), header);
    assert(feed_all(fresh_reader(), Seq::<u8>::empty()) == fresh_reader());
    assert(feed_all(fresh_reader(), seq![dest]).state == ReaderState::Src);
    assert(feed_all(fresh_reader(), seq![dest, source]).state == ReaderState::Len);
    assert(r1.state == ReaderState::Payload);
    assert(r1.payload =~= Seq::<u8>::empty());
    assert(checksum_from(0, Seq::<u8>::empty()) == 0);
    assert(checksum_from(0, seq![dest]) == feed_all(fresh_reader(), seq![dest]).checksum);
    assert(checksum_from(0, seq![dest, source]) == feed_all(
        fresh_reader(),
        seq![dest, source],
    ).checksum);
    assert(checksum_from(0, header) == r1.checksum);
    lemma_feed_payload(r1, payload);
    lemma_checksum_append(0, header, payload);
    assert(Seq::<u8>::empty() + payload =~= payload);
    lemma_emitted_append(fresh_reader(), header, escaped(payload));
    assert(emitted_frames(fresh_reader(), Seq::<u8>::empty()) =~= Seq::<ReaderView>::empty());
    assert(emitted_frames(fresh_reader(), seq![dest]) =~= Seq::<ReaderView>::empty());
    assert(emitted_frames(fresh_reader(), seq![dest, source]) =~= Seq::<ReaderView>::empty());
    assert(emitted_frames(fresh_reader(), header) =~= Seq::<ReaderView>::empty());
    assert(Seq::<ReaderView>::empty() + Seq::<ReaderView>::empty() =~= Seq::<
        ReaderView,
    >::empty());
}

/// A frame with a non-empty payload of at most 255 bytes, whose header bytes and
/// checksum are not the sync byte and whose payload holds no escape byte, is
/// decoded from its wire form, whatever state the decoder was in, as the same
/// frame: no byte but the last emits a frame, and the last emits exactly it.
pub proof fn lemma_frame_round_trip(r: ReaderView, dest: u8, source: u8, payload: Seq<u8>)
    requires
        dest != SYNC_BYTE,
        source != SYNC_BYTE,
        0 < payload.len() <= 255,
        payload.len() as u8 != SYNC_BYTE,
        free_of_escape(payload),
        checksum_of(logical_bytes(dest, source, payload)) != SYNC_BYTE,
    ensures
        feed_all(r, encode_frame(dest, source, payload)) == (ReaderView {
            state: ReaderState::Ready,
            dest,
            source,
            len: payload.len() as u8,
            payload,
            checksum: checksum_of(logical_bytes(dest, source, payload)),
        }),
        emitted_frames(r, encode_frame(dest, source, payload).drop_last())
            == Seq::<ReaderView>::empty(),
        emitted_frames(r, encode_frame(dest, source, payload)) == seq![
            feed_all(r, encode_frame(dest, source, payload)),
        ],
{
    let logical = logical_bytes(dest, source, payload);
    lemma_feed_frame_body(r, dest, source, payload);
    let body = seq![SYNC_BYTE] + escaped(logical);
    assert(encode_frame(dest, source, payload).drop_last() =~= body);
    assert(Seq::<ReaderView>::empty().push(feed_all(r, encode_frame(dest, source, payload)))
        =~= seq![feed_all(r, encode_frame(dest, source, payload))]);
}

/// A frame whose last wire byte is not its checksum is dropped: no byte of it
/// emits a frame, and the decoder does not end in the ready state.
pub proof fn lemma_wrong_checksum_rejected(
    r: ReaderView,
    dest: u8,
    source: u8,
    payload: Seq<u8>,
    last: u8,
)
    requires
        dest != SYNC_BYTE,
        source != SYNC_BYTE,
        0 < payload.len() <= 255,
        payload.len() as u8 != SYNC_BYTE,
        free_of_escape(payload),
        last != checksum_of(logical_bytes(dest, source, payload)),
    ensures
        feed_all(r, encode_frame(dest, source, payload).drop_last().push(last)).state
            != ReaderState::Ready,
        emitted_frames(r, encode_frame(dest, source, payload).drop_last().push(last))
            == Seq::<ReaderView>::empty(),
{
    let logical = logical_bytes(dest, source, payload);
    lemma_feed_frame_body(r, dest, source, payload);
    let body = seq![SYNC_BYTE] + escaped(logical);
    assert(encode_frame(dest, source, payload).drop_last().push(last).drop_last() =~= body);
}

/// Adding the same bytes to two different starting sums keeps them different.
proof fn lemma_checksum_injective(c1: u8, c2: u8, s: Seq<u8>)
    requires
        c1 != c2,
    ensures
        checksum_from(c1, s) != checksum_from(c2, s),
    decreases s.len(),
{
    if s.len() > 0 {
        lemma_checksum_injective(c1, c2, s.drop_last());
    }
}

/// A frame in which one payload byte was changed on the wire to another value,
/// neither value being the sync or the escape byte, is dropped: its checksum byte
/// no longer matches, and no byte of it emits a frame.
pub proof fn lemma_changed_payload_byte_rejected(
    r: ReaderView,
    dest: u8,
    source: u8,
    payload: Seq<u8>,
    i: int,
    v: u8,
)
    requires
        dest != SYNC_BYTE,
        source != SYNC_BYTE,
        0 < payload.len() <= 255,
        payload.len() as u8 != SYNC_BYTE,
        free_of_escape(payload),
        0 <= i < payload.len(),
        payload[i] != SYNC_BYTE,
        v != SYNC_BYTE,
        v != ESCAPE_BYTE,
        v != payload[i],
    ensures
        escaped(payload.update(i, v)).len() == escaped(payload).len(),
        feed_all(
            r,
            encode_frame(dest, source, payload.update(i, v)).drop_last().push(
                checksum_of(logical_bytes(dest, source, payload)),
            ),
        ).state != ReaderState::Ready,
        emitted_frames(
            r,
            encode_frame(dest, source, payload.update(i, v)).drop_last().push(
                checksum_of(logical_bytes(dest, source, payload)),
            ),
        ) == Seq::<ReaderView>::empty(),
{
    let changed = payload.update(i, v);
    let a = payload.subrange(0, i);
    let b = payload.subrange(i + 1, payload.len() as int);
    assert(payload =~= a + seq![payload[i]] + b);
    assert(changed =~= a + seq![v] + b);
    lemma_escaped_append(a + seq![payload[i]], b);
    lemma_escaped_append(a, seq![payload[i]]);
    lemma_escaped_append(a + seq![v], b);
    lemma_escaped_append(a, seq![v]);
    assert(seq![v].drop_last() =~= Seq::<u8>::empty());
    assert(seq![payload[i]].drop_last() =~= Seq::<u8>::empty());
    assert(free_of_escape(changed));
    let h = seq![dest, source, payload.len() as u8];
    assert(logical_bytes(dest, source, payload) =~= (h + a) + seq![payload[i]] + b);
    assert(logical_bytes(dest, source, changed) =~= (h + a) + seq![v] + b);
    let c0 = checksum_from(0, h + a);
    lemma_checksum_append(0, (h + a) + seq![payload[i]], b);
    lemma_checksum_append(0, h + a, seq![payload[i]]);
    lemma_checksum_append(0, (h + a) + seq![v], b);
    lemma_checksum_append(0, h + a, seq![v]);
    assert(checksum_from(c0, seq![v]) != checksum_from(c0, seq![payload[i]]));
    lemma_checksum_injective(checksum_from(c0, seq![v]), checksum_from(c0, seq![payload[i]]), b);
    lemma_wrong_checksum_rejected(
        r,
        dest,
        source,
        changed,
        checksum_of(logical_bytes(dest, source, payload)),
    );
}

/// A frame whose destination or source byte was changed on the wire to another
/// value that is not the sync byte is dropped: its checksum byte no longer
/// matches, and no byte of it emits a frame.
pub proof fn lemma_changed_address_byte_rejected(
    r: ReaderView,
    dest: u8,
    source: u8,
    payload: Seq<u8>,
    new_dest: u8,
    new_source: u8,
)
    requires
        new_dest != SYNC_BYTE,
        new_source != SYNC_BYTE,
        0 < payload.len() <= 255,
        payload.len() as u8 != SYNC_BYTE,
        free_of_escape(payload),
        (new_dest != dest && new_source == source) || (new_dest == dest && new_source != source),
    ensures
        emitted_frames(
            r,
            encode_frame(new_dest, new_source, payload).drop_last().push(
                checksum_of(logical_bytes(dest, source, payload)),
            ),
        ) == Seq::<ReaderView>::empty(),
{
    let rest = seq![payload.len() as u8] + payload;
    assert(logical_bytes(dest, source, payload) =~= seq![dest, source] + rest);
    assert(logical_bytes(new_dest, new_source, payload) =~= seq![new_dest, new_source] + rest);
    lemma_checksum_append(0, seq![dest, source], rest);
    lemma_checksum_append(0, seq![new_dest, new_source], rest);
    assert(seq![dest, source].drop_last() =~= seq![dest]);
    assert(seq![new_dest, new_source].drop_last() =~= seq![new_dest]);
    assert(seq![dest].drop_last() =~= Seq::<u8>::empty());
    assert(seq![new_dest].drop_last() =~= Seq::<u8>::empty());
    assert(checksum_from(0, Seq::<u8>::empty()) == 0);
    assert(checksum_from(0, seq![dest]) == (0u8).wrapping_add(dest));
    assert(checksum_from(0, seq![new_dest]) == (0u8).wrapping_add(new_dest));
    let c1 = checksum_from(0, seq![dest, source]);
    let c2 = checksum_from(0, seq![new_dest, new_source]);
    assert(c1 == (0u8).wrapping_add(dest).wrapping_add(source));
    assert(c2 == (0u8).wrapping_add(new_dest).wrapping_add(new_source));
    assert(c1 != c2);
    lemma_checksum_injective(c1, c2, rest);
    lemma_wrong_checksum_rejected(
        r,
        new_dest,
        new_source,
        payload,
        checksum_of(logical_bytes(dest, source, payload)),
    );
}

} // verus!
