//! Wire codec for the multiplexing protocol.
//!
//! Every frame is little-endian. A data frame is `port:u16 | length:u32 |
//! bytes[length]` with `port != 0`. A control frame starts with `port == 0`
//! followed by `msg_type:u8`: a keepalive is `00 00 00`, and a
//! connection-status frame is `00 00 | 01 | for_port:u16 | status:u8` with
//! `status` 0 (closed) or 1 (open).

use vstd::prelude::*;

verus! {

use vstd::bytes::lemma_auto_spec_u16_to_from_le_bytes;
use vstd::bytes::lemma_auto_spec_u32_to_from_le_bytes;
use vstd::bytes::spec_u16_from_le_bytes;
use vstd::bytes::spec_u16_to_le_bytes;
use vstd::bytes::spec_u32_from_le_bytes;
use vstd::bytes::spec_u32_to_le_bytes;
use vstd::bytes::u16_from_le_bytes;
use vstd::bytes::u16_to_le_bytes;
use vstd::bytes::u32_from_le_bytes;
use vstd::bytes::u32_to_le_bytes;

use crate::chunker::Chunker;

/// One protocol packet, as exchanged with the peer.
#[derive(Debug, Clone, PartialEq, Eq)]
pub enum Packet {
    /// Bytes belonging to the virtual connection identified by `port`.
    Data { port: u16, data: Vec<u8> },
    /// A keepalive (`msg_type == 0`) or a connection-status message
    /// (`msg_type == 1`) about `for_port`: 0 = closed, 1 = open.
    Control { msg_type: u8, for_port: u16, status: u8 },
}

/// Mathematical model of a packet: payload bytes as a sequence.
pub enum PacketModel {
    Data { port: u16, data: Seq<u8> },
    Control { msg_type: u8, for_port: u16, status: u8 },
}

impl View for Packet {
    type V = PacketModel;

    open spec fn view(&self) -> PacketModel {
        match self {
            Packet::Data { port, data } => PacketModel::Data { port: *port, data: data@ },
            Packet::Control { msg_type, for_port, status } => PacketModel::Control {
                msg_type: *msg_type,
                for_port: *for_port,
                status: *status,
            },
        }
    }
}

/// A packet that the protocol can represent on the wire: a data packet
/// carries a non-zero port (zero marks control frames) and a payload whose
/// length fits the 32-bit length field; a control packet has a known
/// `msg_type` and `status`, and a keepalive carries no port or status of
/// its own.
pub open spec fn wf_packet(p: PacketModel) -> bool {
    match p {
        PacketModel::Data { port, data } => port != 0 && data.len() <= u32::MAX,
        PacketModel::Control { msg_type, for_port, status } => {
            &&& msg_type <= 1
            &&& status <= 1
            &&& (msg_type == 0 ==> for_port == 0 && status == 0)
        },
    }
}

/// Whether the payload length fits the wire's 32-bit length field; the one
/// condition under which serialization is possible at all.
pub open spec fn fits_wire(p: PacketModel) -> bool {
    match p {
        PacketModel::Data { port, data } => data.len() <= u32::MAX,
        PacketModel::Control { .. } => true,
    }
}

/// The exact bytes a packet occupies on the wire.
pub open spec fn spec_serialize(p: PacketModel) -> Seq<u8> {
    match p {
        PacketModel::Data { port, data } => spec_u16_to_le_bytes(port)
            + spec_u32_to_le_bytes(data.len() as u32) + data,
        PacketModel::Control { msg_type, for_port, status } => {
            if msg_type == 0 {
                spec_u16_to_le_bytes(0) + seq![msg_type]
            } else {
                spec_u16_to_le_bytes(0) + seq![msg_type] + spec_u16_to_le_bytes(for_port)
                    + seq![status]
            }
        },
    }
}

/// The only way serialization fails: a payload longer than the 32-bit
/// length field can carry.
#[derive(Debug, Clone, Copy, PartialEq, Eq, Structural)]
pub enum SerializeError {
    PayloadTooLarge,
}

impl Packet {
    /// A keepalive control packet.
    pub fn keepalive() -> (p: Packet)
        ensures
            p@ == (PacketModel::Control { msg_type: 0, for_port: 0, status: 0 }),
    {
        Packet::Control { msg_type: 0, for_port: 0, status: 0 }
    }

    /// A connection-status packet announcing that `for_port` is open.
    pub fn control_socket_open(for_port: u16) -> (p: Packet)
        ensures
            p@ == (PacketModel::Control { msg_type: 1, for_port, status: 1 }),
    {
        Packet::Control { msg_type: 1, for_port, status: 1 }
    }

    /// A connection-status packet announcing that `for_port` is closed.
    pub fn control_socket_closed(for_port: u16) -> (p: Packet)
        ensures
            p@ == (PacketModel::Control { msg_type: 1, for_port, status: 0 }),
    {
        Packet::Control { msg_type: 1, for_port, status: 0 }
    }

    /// Encodes the packet for the wire. Fails only when a data payload is
    /// longer than the 32-bit length field allows.
    pub fn serialize(&self) -> (r: Result<Vec<u8>, SerializeError>)
        ensures
            fits_wire(self@) ==> (r matches Ok(bytes) && bytes@ == spec_serialize(self@)),
            !fits_wire(self@) ==> r == Err::<Vec<u8>, SerializeError>(
                SerializeError::PayloadTooLarge,
            ),
    {
        match self {
            Packet::Data { port, data } => {
                if data.len() as u64 > u32::MAX as u64 {
                    return Err(SerializeError::PayloadTooLarge);
                }
                let mut out = u16_to_le_bytes(*port);
                let mut length_bytes = u32_to_le_bytes(data.len() as u32);
                out.append(&mut length_bytes);
                out.extend_from_slice(data.as_slice());
                proof {
                    assert(out@ =~= spec_serialize(self@));
                }
                Ok(out)
            },
            Packet::Control { msg_type, for_port, status } => {
                let mut out = u16_to_le_bytes(0);
                out.push(*msg_type);
                if *msg_type != 0 {
                    let mut port_bytes = u16_to_le_bytes(*for_port);
                    out.append(&mut port_bytes);
                    out.push(*status);
                }
                proof {
                    assert(out@ =~= spec_serialize(self@));
                }
                Ok(out)
            },
        }
    }
}

/// The ways a byte stream can fail to decode. Failures of the transport
/// itself (timeout, closed channel) are the reassembly buffer's concern,
/// not the codec's.
#[derive(Debug, Clone, Copy, PartialEq, Eq, Structural)]
pub enum DecodeError {
    /// A control frame whose `msg_type` is neither keepalive nor
    /// connection-status.
    UnknownMsgType { msg_type: u8 },
    /// A connection-status frame whose `status` is neither closed nor open.
    UnknownStatus { status: u8 },
}

/// What the front of a byte stream holds: not enough bytes yet for a whole
/// frame, a malformed frame, or one complete packet occupying the first
/// `len` bytes.
pub enum ParseOutcome {
    Incomplete,
    Malformed { err: DecodeError },
    Parsed { packet: PacketModel, len: int },
}

/// Decodes the frame at the front of `s`, if `s` starts with a whole one.
///
/// A `length == 0` data frame parses to an empty payload. The outcome
/// depends only on the bytes of `s`, which is what makes the decoder
/// independent of how the transport chunked them.
pub open spec fn spec_parse(s: Seq<u8>) -> ParseOutcome {
    if s.len() < 2 {
        ParseOutcome::Incomplete
    } else {
        let port = spec_u16_from_le_bytes(s.subrange(0, 2));
        if port == 0 {
            if s.len() < 3 {
                ParseOutcome::Incomplete
            } else {
                let msg_type = s[2];
                if msg_type == 0 {
                    ParseOutcome::Parsed {
                        packet: PacketModel::Control { msg_type: 0, for_port: 0, status: 0 },
                        len: 3,
                    }
                } else if msg_type != 1 {
                    ParseOutcome::Malformed { err: DecodeError::UnknownMsgType { msg_type } }
                } else if s.len() < 6 {
                    ParseOutcome::Incomplete
                } else {
                    let for_port = spec_u16_from_le_bytes(s.subrange(3, 5));
                    let status = s[5];
                    if status <= 1 {
                        ParseOutcome::Parsed {
                            packet: PacketModel::Control { msg_type: 1, for_port, status },
                            len: 6,
                        }
                    } else {
                        ParseOutcome::Malformed { err: DecodeError::UnknownStatus { status } }
                    }
                }
            }
        } else {
            if s.len() < 6 {
                ParseOutcome::Incomplete
            } else {
                let length = spec_u32_from_le_bytes(s.subrange(2, 6));
                if s.len() < 6 + length {
                    ParseOutcome::Incomplete
                } else {
                    ParseOutcome::Parsed {
                        packet: PacketModel::Data {
                            port,
                            data: s.subrange(6, 6 + length),
                        },
                        len: 6 + length,
                    }
                }
            }
        }
    }
}

/// A parsed frame is never empty and never longer than the stream.
pub proof fn lemma_parse_len_bounds(s: Seq<u8>)
    ensures
        spec_parse(s) matches ParseOutcome::Parsed { packet, len } ==> 3 <= len <= s.len(),
{
    lemma_auto_spec_u16_to_from_le_bytes();
    lemma_auto_spec_u32_to_from_le_bytes();
}

/// Round trip: what `serialize` writes, `spec_parse` reads back as the very
/// same packet, consuming exactly the bytes written. This holds for every
/// well-formed packet; a keepalive is reconstructed canonically.
pub proof fn lemma_serialize_parse_round_trip(p: PacketModel)
    requires
        wf_packet(p),
    ensures
        spec_parse(spec_serialize(p)) == (ParseOutcome::Parsed {
            packet: p,
            len: spec_serialize(p).len() as int,
        }),
{
    lemma_auto_spec_u16_to_from_le_bytes();
    lemma_auto_spec_u32_to_from_le_bytes();
    let s = spec_serialize(p);
    match p {
        PacketModel::Data { port, data } => {
            assert(s.subrange(0, 2) =~= spec_u16_to_le_bytes(port));
            assert(s.subrange(2, 6) =~= spec_u32_to_le_bytes(data.len() as u32));
            assert(s.subrange(6, 6 + data.len() as u32) =~= data);
        },
        PacketModel::Control { msg_type, for_port, status } => {
            if msg_type == 0 {
                assert(s.subrange(0, 2) =~= spec_u16_to_le_bytes(0));
                assert(s[2] == 0);
            } else {
                assert(s.subrange(0, 2) =~= spec_u16_to_le_bytes(0));
                assert(s[2] == 1);
                assert(s.subrange(3, 5) =~= spec_u16_to_le_bytes(for_port));
                assert(s[5] == status);
            }
        },
    }
}

impl Packet {
    /// Decodes the frame at the front of the chunker's pending bytes.
    ///
    /// Returns `Ok(None)` — consuming nothing — while the pending bytes do
    /// not yet hold a whole frame; the caller pushes the next transport
    /// chunk and retries. Returns the decoded packet after consuming
    /// exactly its bytes, or the decode error for a malformed frame
    /// (consuming nothing, as the transport is torn down then anyway).
    pub fn deserialize(chunker: &mut Chunker) -> (r: Result<Option<Packet>, DecodeError>)
        ensures
            final(chunker).stream() == old(chunker).stream(),
            match spec_parse(old(chunker).pending()) {
                ParseOutcome::Incomplete => r == Ok::<Option<Packet>, DecodeError>(None)
                    && *final(chunker) == *old(chunker),
                ParseOutcome::Malformed { err } => r == Err::<Option<Packet>, DecodeError>(err)
                    && *final(chunker) == *old(chunker),
                ParseOutcome::Parsed { packet, len } => (r matches Ok(Some(p)) && p@ == packet
                    && final(chunker).pending() == old(chunker).pending().skip(len)
                    && final(chunker).consumed() == old(chunker).consumed()
                    + old(chunker).pending().take(len)),
            },
    {
        let ghost s = chunker.pending();
        let n = chunker.available();
        if n < 2 {
            return Ok(None);
        }
        let b0 = chunker.peek(0);
        let b1 = chunker.peek(1);
        let mut port_bytes: Vec<u8> = Vec::new();
        port_bytes.push(b0);
        port_bytes.push(b1);
        proof {
            assert(port_bytes@ =~= s.subrange(0, 2));
        }
        let port = u16_from_le_bytes(port_bytes.as_slice());

        if port == 0 {
            if n < 3 {
                return Ok(None);
            }
            let msg_type = chunker.peek(2);
            if msg_type == 0 {
                let _ = chunker.read(3);
                return Ok(Some(Packet::Control { msg_type: 0, for_port: 0, status: 0 }));
            }
            if msg_type != 1 {
                return Err(DecodeError::UnknownMsgType { msg_type });
            }
            if n < 6 {
                return Ok(None);
            }
            let b3 = chunker.peek(3);
            let b4 = chunker.peek(4);
            let mut for_port_bytes: Vec<u8> = Vec::new();
            for_port_bytes.push(b3);
            for_port_bytes.push(b4);
            proof {
                assert(for_port_bytes@ =~= s.subrange(3, 5));
            }
            let for_port = u16_from_le_bytes(for_port_bytes.as_slice());
            let status = chunker.peek(5);
            if status > 1 {
                return Err(DecodeError::UnknownStatus { status });
            }
            let _ = chunker.read(6);
            return Ok(Some(Packet::Control { msg_type: 1, for_port, status }));
        }

        if n < 6 {
            return Ok(None);
        }
        let b2 = chunker.peek(2);
        let b3 = chunker.peek(3);
        let b4 = chunker.peek(4);
        let b5 = chunker.peek(5);
        let mut length_bytes: Vec<u8> = Vec::new();
        length_bytes.push(b2);
        length_bytes.push(b3);
        length_bytes.push(b4);
        length_bytes.push(b5);
        proof {
            assert(length_bytes@ =~= s.subrange(2, 6));
        }
        let length = u32_from_le_bytes(length_bytes.as_slice());
        if (n - 6) < length as usize {
            return Ok(None);
        }
        let _ = chunker.read(6);
        let body = chunker.read(length as usize);
        let data = body.unwrap();
        proof {
            assert(data@ =~= s.subrange(6, 6 + length as int));
            assert(final(chunker).pending() =~= s.skip(6 + length as int));
            assert(final(chunker).consumed() =~= old(chunker).consumed() + s.take(
                6 + length as int,
            ));
        }
        Ok(Some(Packet::Data { port, data }))
    }
}

/// Parsing is stable under appended bytes: once the front of the stream
/// holds a whole frame (or a malformed one), later bytes cannot change
/// what it parses to.
pub proof fn lemma_parse_prefix_stable(s: Seq<u8>, ext: Seq<u8>)
    ensures
        !(spec_parse(s) is Incomplete) ==> spec_parse(s + ext) == spec_parse(s),
{
    lemma_auto_spec_u16_to_from_le_bytes();
    lemma_auto_spec_u32_to_from_le_bytes();
    let t = s + ext;
    if s.len() >= 2 {
        assert(t.subrange(0, 2) =~= s.subrange(0, 2));
        let port = spec_u16_from_le_bytes(s.subrange(0, 2));
        if port == 0 {
            if s.len() >= 3 {
                assert(t[2] == s[2]);
                if s[2] == 1 && s.len() >= 6 {
                    assert(t.subrange(3, 5) =~= s.subrange(3, 5));
                    assert(t[5] == s[5]);
                }
            }
        } else {
            if s.len() >= 6 {
                assert(t.subrange(2, 6) =~= s.subrange(2, 6));
                let length = spec_u32_from_le_bytes(s.subrange(2, 6));
                if s.len() >= 6 + length {
                    assert(t.subrange(6, 6 + length) =~= s.subrange(6, 6 + length));
                }
            }
        }
    }
}

/// Concatenation of a sequence of transport chunks into one byte stream.
pub open spec fn concat_chunks(chunks: Seq<Seq<u8>>) -> Seq<u8>
    decreases chunks.len(),
{
    if chunks.len() == 0 {
        Seq::empty()
    } else {
        concat_chunks(chunks.drop_last()) + chunks.last()
    }
}

/// Every whole packet at the front of `s`, in order, up to the first
/// malformed frame or the trailing incomplete one.
pub open spec fn spec_packets_of(s: Seq<u8>) -> Seq<PacketModel>
    decreases s.len(),
{
    match spec_parse(s) {
        ParseOutcome::Parsed { packet, len } => if 1 <= len <= s.len() {
            seq![packet] + spec_packets_of(s.skip(len))
        } else {
            Seq::empty()
        },
        _ => Seq::empty(),
    }
}

/// The decode error a stream ends in, if its packets are followed by a
/// malformed frame rather than by an incomplete (or empty) tail.
pub open spec fn spec_stream_error(s: Seq<u8>) -> Option<DecodeError>
    decreases s.len(),
{
    match spec_parse(s) {
        ParseOutcome::Parsed { packet, len } => if 1 <= len <= s.len() {
            spec_stream_error(s.skip(len))
        } else {
            None
        },
        ParseOutcome::Malformed { err } => Some(err),
        ParseOutcome::Incomplete => None,
    }
}

/// The suffix of `s` left after taking every whole packet off the front.
pub open spec fn spec_leftover(s: Seq<u8>) -> Seq<u8>
    decreases s.len(),
{
    match spec_parse(s) {
        ParseOutcome::Parsed { packet, len } => if 1 <= len <= s.len() {
            spec_leftover(s.skip(len))
        } else {
            s
        },
        _ => s,
    }
}

/// Decodes every whole packet waiting in the chunker, stopping at the
/// first malformed frame (returned as the error) or at an incomplete
/// tail, which stays pending for when the next chunk arrives.
pub fn decode_pending(chunker: &mut Chunker) -> (r: (Vec<Packet>, Option<DecodeError>))
    ensures
        final(chunker).stream() == old(chunker).stream(),
        r.0@.map_values(|p: Packet| p@) == spec_packets_of(old(chunker).pending()),
        r.1 == spec_stream_error(old(chunker).pending()),
        final(chunker).pending() == spec_leftover(old(chunker).pending()),
{
    let ghost stream0 = chunker.stream();
    let ghost s0 = chunker.pending();
    let mut out: Vec<Packet> = Vec::new();
    #[verifier::loop_isolation(false)]
    loop
        invariant
            chunker.stream() == stream0,
            spec_packets_of(s0) == out@.map_values(|p: Packet| p@) + spec_packets_of(
                chunker.pending(),
            ),
            spec_stream_error(s0) == spec_stream_error(chunker.pending()),
            spec_leftover(s0) == spec_leftover(chunker.pending()),
        decreases chunker.pending().len(),
    {
        let ghost pending_before = chunker.pending();
        proof {
            lemma_parse_len_bounds(pending_before);
        }
        match Packet::deserialize(chunker) {
            Ok(Some(p)) => {
                proof {
                    assert(out@.push(p).map_values(|q: Packet| q@) =~= out@.map_values(
                        |q: Packet| q@,
                    ).push(p@));
                    assert(spec_packets_of(s0) =~= out@.map_values(|q: Packet| q@).push(p@)
                        + spec_packets_of(chunker.pending()));
                }
                out.push(p);
            },
            Ok(None) => {
                proof {
                    assert(out@.map_values(|p: Packet| p@) + spec_packets_of(chunker.pending())
                        =~= out@.map_values(|p: Packet| p@));
                }
                return (out, None);
            },
            Err(e) => {
                proof {
                    assert(out@.map_values(|p: Packet| p@) + spec_packets_of(chunker.pending())
                        =~= out@.map_values(|p: Packet| p@));
                }
                return (out, Some(e));
            },
        }
    }
}

/// Decodes a byte stream delivered as a sequence of transport chunks.
///
/// The result is a function of the concatenated bytes alone — see
/// [`lemma_chunk_independence`].
pub fn decode_chunked(chunks: Vec<Vec<u8>>) -> (r: (Vec<Packet>, Option<DecodeError>))
    ensures
        r.0@.map_values(|p: Packet| p@) == spec_packets_of(
            concat_chunks(chunks@.map_values(|c: Vec<u8>| c@)),
        ),
        r.1 == spec_stream_error(concat_chunks(chunks@.map_values(|c: Vec<u8>| c@))),
{
    let ghost cs = chunks@.map_values(|c: Vec<u8>| c@);
    let mut chunker = Chunker::new();
    proof {
        assert(cs.take(0int) =~= Seq::<Seq<u8>>::empty());
    }
    let mut i: usize = 0;
    #[verifier::loop_isolation(false)]
    while i < chunks.len()
        invariant
            i <= chunks.len(),
            cs == chunks@.map_values(|c: Vec<u8>| c@),
            chunker.pending() == concat_chunks(cs.take(i as int)),
            chunker.consumed() == Seq::<u8>::empty(),
        decreases chunks.len() - i,
    {
        let chunk = chunks[i].clone();
        proof {
            assert(chunk@ =~= cs[i as int]);
            assert(cs.take(i + 1).drop_last() =~= cs.take(i as int));
            assert(cs.take(i + 1).last() =~= cs[i as int]);
        }
        chunker.push_chunk(chunk);
        i += 1;
    }
    proof {
        assert(cs.take(chunks@.len() as int) =~= cs);
        chunker.lemma_stream_split();
        assert(chunker.pending() =~= chunker.stream());
    }
    decode_pending(&mut chunker)
}

/// Chunk independence: however the transport splits a byte stream into
/// chunks, decoding yields the same packets and the same terminal error.
/// Together with [`decode_chunked`]'s contract — whose result is stated
/// over the concatenation only — any two chunkings of the same bytes
/// decode identically.
pub proof fn lemma_chunk_independence(c1: Seq<Seq<u8>>, c2: Seq<Seq<u8>>)
    requires
        concat_chunks(c1) == concat_chunks(c2),
    ensures
        spec_packets_of(concat_chunks(c1)) == spec_packets_of(concat_chunks(c2)),
        spec_stream_error(concat_chunks(c1)) == spec_stream_error(concat_chunks(c2)),
{
}

} // verus!
