//! Typed telemetry: the 12-byte payload of one wire block read as three
//! little-endian 32-bit fields.
//!
//! The device reports an idle-loop counter and two coordinates. The
//! coordinates travel as IEEE-754 single-precision bit patterns; the
//! library carries them as the plain 32-bit values found on the wire and
//! leaves reinterpreting the bits to the display code.

use vstd::prelude::*;

use crate::frame::decode_block;
use crate::frame::decode_spec;
use crate::frame::encode_block;
use crate::frame::encode_spec;
use crate::frame::lemma_decode_len;
use crate::frame::lemma_round_trip;
use crate::frame::DecodeError;
use crate::frame::FRAME_LEN;
use crate::frame::PAYLOAD_LEN;

verus! {

/// One validated telemetry sample: only a successful decode constructs it.
#[derive(Clone, Copy, PartialEq, Eq, Structural, Debug)]
pub struct TelemetryPacket {
    /// The firmware's idle-loop counter; falls as the device gets busier.
    pub idle_counter: u32,
    /// Bit pattern of the single-precision x coordinate.
    pub x_bits: u32,
    /// Bit pattern of the single-precision y coordinate.
    pub y_bits: u32,
}

/// The unsigned value of four little-endian bytes.
pub open spec fn le_u32(b: Seq<u8>) -> int
    recommends
        b.len() == 4,
{
    b[0] as int + 256 * (b[1] as int) + 65536 * (b[2] as int) + 16777216 * (b[3] as int)
}

/// The four little-endian bytes of an unsigned 32-bit value.
pub open spec fn le_bytes(v: u32) -> Seq<u8> {
    seq![
        (v & 0xff) as u8,
        ((v >> 8) & 0xff) as u8,
        ((v >> 16) & 0xff) as u8,
        ((v >> 24) & 0xff) as u8,
    ]
}

/// The packet a 12-byte payload denotes: bytes 0..4 the idle counter,
/// 4..8 the x bits, 8..12 the y bits, each little-endian.
pub open spec fn packet_of(p: Seq<u8>) -> TelemetryPacket
    recommends
        p.len() == 12,
{
    TelemetryPacket {
        idle_counter: le_u32(p.subrange(0, 4)) as u32,
        x_bits: le_u32(p.subrange(4, 8)) as u32,
        y_bits: le_u32(p.subrange(8, 12)) as u32,
    }
}

/// The 12-byte payload that carries a packet.
pub open spec fn payload_spec(t: TelemetryPacket) -> Seq<u8> {
    le_bytes(t.idle_counter) + le_bytes(t.x_bits) + le_bytes(t.y_bits)
}

/// Four little-endian bytes read back give the value they were taken from.
pub proof fn lemma_le_bytes_round(v: u32)
    ensures
        le_u32(le_bytes(v)) == v as int,
{
    let b0 = (v & 0xff) as u8;
    let b1 = ((v >> 8) & 0xff) as u8;
    let b2 = ((v >> 16) & 0xff) as u8;
    let b3 = ((v >> 24) & 0xff) as u8;
    assert(b0 as u64 + 256 * (b1 as u64) + 65536 * (b2 as u64) + 16777216 * (b3 as u64) == v
        as u64) by (bit_vector)
        requires
            b0 == (v & 0xff) as u8,
            b1 == ((v >> 8) & 0xff) as u8,
            b2 == ((v >> 16) & 0xff) as u8,
            b3 == ((v >> 24) & 0xff) as u8,
    ;
    assert(le_bytes(v)[0] == b0);
    assert(le_bytes(v)[1] == b1);
    assert(le_bytes(v)[2] == b2);
    assert(le_bytes(v)[3] == b3);
}

/// A packet's payload is 12 bytes and denotes the packet itself.
pub proof fn lemma_payload_packet(t: TelemetryPacket)
    ensures
        payload_spec(t).len() == 12,
        packet_of(payload_spec(t)) == t,
{
    let p = payload_spec(t);
    assert(p.subrange(0, 4) =~= le_bytes(t.idle_counter));
    assert(p.subrange(4, 8) =~= le_bytes(t.x_bits));
    assert(p.subrange(8, 12) =~= le_bytes(t.y_bits));
    lemma_le_bytes_round(t.idle_counter);
    lemma_le_bytes_round(t.x_bits);
    lemma_le_bytes_round(t.y_bits);
}

/// Reads the four little-endian bytes at `off`.
pub fn read_le_u32(p: &Vec<u8>, off: usize) -> (v: u32)
    requires
        off + 4 <= p@.len(),
    ensures
        v as int == le_u32(p@.subrange(off as int, off + 4)),
{
    let n = p.len();
    proof {
        assert(off + 4 <= n);
    }
    let b0 = p[off] as u32;
    let b1 = p[off + 1] as u32;
    let b2 = p[off + 2] as u32;
    let b3 = p[off + 3] as u32;
    proof {
        let s = p@.subrange(off as int, off + 4);
        assert(s[0] == p@[off as int]);
        assert(s[1] == p@[off + 1]);
        assert(s[2] == p@[off + 2]);
        assert(s[3] == p@[off + 3]);
    }
    b0 + 256 * b1 + 65536 * b2 + 16777216 * b3
}

/// Appends the four little-endian bytes of `v`.
fn push_le_u32(out: &mut Vec<u8>, v: u32)
    ensures
        final(out)@ == old(out)@ + le_bytes(v),
{
    out.push((v & 0xff) as u8);
    out.push(((v >> 8) & 0xff) as u8);
    out.push(((v >> 16) & 0xff) as u8);
    out.push(((v >> 24) & 0xff) as u8);
    proof {
        assert(out@ =~= old(out)@ + le_bytes(v));
    }
}

/// Reads a 12-byte payload as a telemetry packet.
pub fn parse_payload(p: &Vec<u8>) -> (t: TelemetryPacket)
    requires
        p@.len() == PAYLOAD_LEN,
    ensures
        t == packet_of(p@),
{
    let idle_counter = read_le_u32(p, 0);
    let x_bits = read_le_u32(p, 4);
    let y_bits = read_le_u32(p, 8);
    TelemetryPacket { idle_counter, x_bits, y_bits }
}

/// Lays a packet out as its 12-byte payload.
pub fn packet_payload(t: &TelemetryPacket) -> (p: Vec<u8>)
    ensures
        p@ == payload_spec(*t),
        p@.len() == PAYLOAD_LEN,
{
    let mut p: Vec<u8> = Vec::new();
    push_le_u32(&mut p, t.idle_counter);
    push_le_u32(&mut p, t.x_bits);
    push_le_u32(&mut p, t.y_bits);
    proof {
        assert(p@ =~= payload_spec(*t));
    }
    p
}

/// Encodes a packet into the 13-byte block that carries it on the wire.
pub fn encode_frame(t: &TelemetryPacket) -> (b: Vec<u8>)
    ensures
        b@ == encode_spec(payload_spec(*t)),
        b@.len() == FRAME_LEN,
{
    let p = packet_payload(t);
    encode_block(&p)
}

/// Decodes one 13-byte wire block into a telemetry packet, or reports the
/// first stuffing fault. No packet is built unless the whole block
/// validates.
pub fn decode_frame(b: &Vec<u8>) -> (r: Result<TelemetryPacket, DecodeError>)
    requires
        b@.len() == FRAME_LEN,
    ensures
        match r {
            Ok(t) => decode_spec(b@) is Ok && t == packet_of(decode_spec(b@)->Ok_0),
            Err(e) => decode_spec(b@) == Err::<Seq<u8>, DecodeError>(e),
        },
{
    match decode_block(b) {
        Ok(payload) => {
            proof {
                lemma_decode_len(b@);
            }
            Ok(parse_payload(&payload))
        },
        Err(e) => Err(e),
    }
}

/// A packet sent through the full pipeline — payload layout, stuffing,
/// unstuffing, field parse — comes back unchanged.
pub proof fn lemma_packet_round_trip(t: TelemetryPacket)
    ensures
        decode_spec(encode_spec(payload_spec(t))) == Ok::<Seq<u8>, DecodeError>(payload_spec(t)),
        packet_of(payload_spec(t)) == t,
{
    lemma_payload_packet(t);
    lemma_round_trip(payload_spec(t));
}

} // verus!
