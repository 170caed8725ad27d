//! Checking a captured stream: decode every frame, and re-encode those that
//! carry a command.
use crate::command::{lemma_wire_fits, parse_payload, LEDCommand};
use crate::frame::{
    emitted_frames, encode_frame, feed_all, fresh_reader, lemma_emitted_append,
    lemma_frame_round_trip, checksum_of, free_of_escape, logical_bytes, JVSPacket, ReaderView,
    SegaJVSReader, SYNC_BYTE,
};
use vstd::prelude::*;

verus! {

/// The wire form of a decoded frame re-encoded from its command; nothing for
/// a frame whose payload is not a command.
pub open spec fn reencoded_frame(f: ReaderView) -> Seq<u8> {
    match parse_payload(f.payload) {
        Ok(c) => encode_frame(f.dest, f.source, c.wire()),
        Err(_) => Seq::empty(),
    }
}

/// The re-encoded frames, one after the other.
pub open spec fn reencoded_frames(frames: Seq<ReaderView>) -> Seq<u8>
    decreases frames.len(),
{
    if frames.len() == 0 {
        Seq::empty()
    } else {
        reencoded_frames(frames.drop_last()) + reencoded_frame(frames.last())
    }
}

/// What re-encoding a captured stream gives: every frame that decodes from it
/// and carries a command, re-encoded, in stream order.
pub open spec fn reencoded_stream(bytes: Seq<u8>) -> Seq<u8> {
    reencoded_frames(emitted_frames(fresh_reader(), bytes))
}

/// Decodes `bytes` one at a time and re-encodes, in order, each completed frame
/// whose payload is a command; frames that are not commands are dropped.
pub fn reencode_stream(bytes: &[u8]) -> (r: Vec<u8>)
    ensures
        r@ == reencoded_stream(bytes@),
{
    let mut reader = SegaJVSReader::default();
    let mut out: Vec<u8> = Vec::new();
    let mut i: usize = 0;
    proof {
        assert(bytes@.subrange(0, 0) =~= Seq::<u8>::empty());
        assert(emitted_frames(fresh_reader(), Seq::<u8>::empty()) =~= Seq::<ReaderView>::empty());
    }
    while i < bytes.len()
        invariant
            0 <= i <= bytes@.len(),
            reader@ == feed_all(fresh_reader(), bytes@.subrange(0, i as int)),
            out@ == reencoded_stream(bytes@.subrange(0, i as int)),
        decreases bytes@.len() - i,
    {
        let b = bytes[i];
        proof {
            assert(bytes@.subrange(0, i + 1).drop_last() =~= bytes@.subrange(0, i as int));
            assert(bytes@.subrange(0, i + 1).last() == b);
        }
        let ghost prev = emitted_frames(fresh_reader(), bytes@.subrange(0, i as int));
        match reader.read_byte(b) {
            Some(packet) => {
                match LEDCommand::parse(packet) {
                    Ok(cmd) => {
                        let mut q = JVSPacket::new(packet.source_id, packet.dest_id);
                        cmd.serialize_to_jvs(&mut q);
                        proof {
                            lemma_wire_fits(packet.payload@, cmd@);
                        }
                        q.serialize(&mut out);
                    },
                    Err(_) => {},
                }
            },
            None => {},
        }
        proof {
            assert(prev.push(reader@).drop_last() =~= prev);
        }
        i += 1;
    }
    proof {
        assert(bytes@.subrange(0, bytes@.len() as int) =~= bytes@);
    }
    out
}

/// A frame that decodes from its wire form and whose payload is exactly the
/// wire form of a command.
pub open spec fn canonical_frame(dest: u8, source: u8, payload: Seq<u8>) -> bool {
    &&& dest != SYNC_BYTE
    &&& source != SYNC_BYTE
    &&& 0 < payload.len() <= 255
    &&& payload.len() as u8 != SYNC_BYTE
    &&& free_of_escape(payload)
    &&& checksum_of(logical_bytes(dest, source, payload)) != SYNC_BYTE
    &&& parse_payload(payload) matches Ok(c) && c.wire() == payload
}

/// The wire forms of `frames` (destination, source, payload), one after the other.
pub open spec fn encode_frames(frames: Seq<(u8, u8, Seq<u8>)>) -> Seq<u8>
    decreases frames.len(),
{
    if frames.len() == 0 {
        Seq::empty()
    } else {
        let f = frames.last();
        encode_frames(frames.drop_last()) + encode_frame(f.0, f.1, f.2)
    }
}

/// A stream of canonical frames decodes into exactly those frames, and
/// re-encoding them gives back the stream byte for byte.
pub proof fn lemma_reencode_canonical_stream(frames: Seq<(u8, u8, Seq<u8>)>)
    requires
        forall|i: int| 0 <= i < frames.len() ==> #[trigger] canonical_frame(
            frames[i].0,
            frames[i].1,
            frames[i].2,
        ),
    ensures
        emitted_frames(fresh_reader(), encode_frames(frames)).len() == frames.len(),
        reencoded_stream(encode_frames(frames)) == encode_frames(frames),
    decreases frames.len(),
{
    if frames.len() == 0 {
        assert(emitted_frames(fresh_reader(), Seq::<u8>::empty()) =~= Seq::<ReaderView>::empty());
    } else {
        let init = frames.drop_last();
        let f = frames.last();
        assert forall|i: int| 0 <= i < init.len() implies #[trigger] canonical_frame(
            init[i].0,
            init[i].1,
            init[i].2,
        ) by {
            assert(init[i] == frames[i]);
        }
        assert(canonical_frame(frames[frames.len() - 1].0, frames[frames.len() - 1].1, frames[
            frames.len() - 1
        ].2));
        lemma_reencode_canonical_stream(init);
        let a = encode_frames(init);
        let e = encode_frame(f.0, f.1, f.2);
        let r = feed_all(fresh_reader(), a);
        lemma_emitted_append(fresh_reader(), a, e);
        lemma_frame_round_trip(r, f.0, f.1, f.2);
        let prev = emitted_frames(fresh_reader(), a);
        let v = feed_all(r, e);
        assert(prev + seq![v] =~= prev.push(v));
        assert(prev.push(v).drop_last() =~= prev);
        assert(reencoded_frame(v) == e);
    }
}

} // verus!
