//! Packets on a byte stream: four bytes of length, most significant first, then
//! the packet.

use vstd::prelude::*;
use vstd::slice::{slice_subrange, slice_to_vec};
use vstd::string::StringExecFns;
use crate::bytes::{self, u32_from_be, u32_to_be};
use crate::protocol::MAX_PACKET_SIZE;
use crate::text::{self, push_decimal};

verus! {

/// The four bytes in front of a packet of `len` bytes: its length, as far as 32
/// bits hold it.
pub open spec fn header(len: nat) -> Seq<u8> {
    bytes::be32((len % 0x1_0000_0000) as u32)
}

/// A packet on the stream.
pub open spec fn frame(packet: Seq<u8>) -> Seq<u8> {
    header(packet.len()) + packet
}

/// The packet that a stream begins with, if it begins with a whole one that is
/// not too large.
pub open spec fn first_packet(stream: Seq<u8>) -> Option<Seq<u8>> {
    if stream.len() < 4 {
        None
    } else {
        let len = bytes::from_be32(stream) as int;
        if len > 2 * MAX_PACKET_SIZE || stream.len() < 4 + len {
            None
        } else {
            Some(stream.subrange(4, 4 + len))
        }
    }
}

/// A frame that is larger than any that is accepted.
#[derive(Debug, Clone, Copy, PartialEq, Eq, Structural)]
pub struct FrameTooLarge {
    pub len: usize,
}

impl FrameTooLarge {
    /// The error in words.
    pub fn to_text(&self) -> (text: String)
        ensures
            text@ == "frame too large: "@ + text::decimal(self.len as nat),
    {
        let mut out = "frame too large: ".to_owned();
        push_decimal(&mut out, self.len as u64);
        out
    }
}

/// The bytes to write in front of a packet.
pub fn frame_header(packet: &[u8]) -> (h: [u8; 4])
    ensures
        h@ == header(packet@.len()),
{
    let n: u64 = packet.len() as u64;
    assert(n as u32 == n % 0x1_0000_0000) by (bit_vector);
    u32_to_be(#[verifier::truncate] (n as u32))
}

/// What the bytes of a stream that have come so far begin with.
pub enum FrameRead {
    /// A part of a packet.
    Incomplete,
    /// A packet.
    Packet(Vec<u8>),
    /// The length of a packet that is larger than any that is accepted.
    TooLarge(FrameTooLarge),
}

/// Reads the packet that a stream begins with. Behind it the next one begins.
pub fn read_framed(stream: &[u8]) -> (r: FrameRead)
    ensures
        match r {
            FrameRead::Packet(packet) => first_packet(stream@) == Some(packet@),
            FrameRead::TooLarge(e) => {
                &&& stream@.len() >= 4
                &&& e.len == bytes::from_be32(stream@)
                &&& e.len > 2 * MAX_PACKET_SIZE
            },
            FrameRead::Incomplete => {
                ||| stream@.len() < 4
                ||| {
                    &&& bytes::from_be32(stream@) <= 2 * MAX_PACKET_SIZE
                    &&& stream@.len() < 4 + bytes::from_be32(stream@)
                }
            },
        },
        r is Packet <==> first_packet(stream@) is Some,
{
    if stream.len() < 4 {
        return FrameRead::Incomplete;
    }
    let h: [u8; 4] = [stream[0], stream[1], stream[2], stream[3]];
    let len: usize = u32_from_be(&h) as usize;
    assert(len == bytes::from_be32(stream@));
    if len > MAX_PACKET_SIZE * 2 {
        return FrameRead::TooLarge(FrameTooLarge { len });
    }
    if stream.len() < 4 + len {
        return FrameRead::Incomplete;
    }
    FrameRead::Packet(slice_to_vec(slice_subrange(stream, 4, 4 + len)))
}

/// A packet that is written on a stream, and is not too large, is what is read
/// from it, whatever follows.
pub proof fn lemma_frame_roundtrip(packet: Seq<u8>, rest: Seq<u8>)
    requires
        packet.len() <= 2 * MAX_PACKET_SIZE,
    ensures
        first_packet(frame(packet) + rest) == Some(packet),
        (frame(packet) + rest).skip(frame(packet).len() as int) == rest,
{
    let stream = frame(packet) + rest;
    bytes::lemma_be32_roundtrip(packet.len() as u32);
    assert(bytes::from_be32(stream) == bytes::from_be32(header(packet.len())));
    assert(stream.subrange(4, 4 + packet.len() as int) =~= packet);
    assert(stream.skip(frame(packet).len() as int) =~= rest);
}

/// A stream begins with a packet if and only if it begins with the frame of one that is
/// not too large.
pub proof fn lemma_first_packet_is_framed(stream: Seq<u8>, packet: Seq<u8>)
    ensures
        first_packet(stream) == Some(packet) <==> {
            &&& packet.len() <= 2 * MAX_PACKET_SIZE
            &&& stream.len() >= 4 + packet.len()
            &&& stream.take(4 + packet.len() as int) == frame(packet)
        },
{
    if first_packet(stream) == Some(packet) {
        bytes::lemma_from_be_roundtrip(stream);
        assert(stream.take(4 + packet.len() as int) =~= frame(packet));
    }
    if packet.len() <= 2 * MAX_PACKET_SIZE && stream.len() >= 4 + packet.len() && stream.take(
        4 + packet.len() as int,
    ) == frame(packet) {
        let rest = stream.skip(4 + packet.len() as int);
        assert(stream =~= frame(packet) + rest);
        lemma_frame_roundtrip(packet, rest);
    }
}

/// The frame of a packet is its length, most significant byte first, and the packet.
pub proof fn lemma_frame(packet: Seq<u8>)
    requires
        packet.len() < 0x1_0000_0000,
    ensures
        frame(packet).len() == 4 + packet.len(),
        0x100_0000 * frame(packet)[0] + 0x1_0000 * frame(packet)[1] + 0x100 * frame(packet)[2]
            + frame(packet)[3] == packet.len(),
        frame(packet).skip(4) == packet,
{
    bytes::lemma_byte_order(0, packet.len() as u32, 0);
    assert(frame(packet).skip(4) =~= packet);
}

/// Nothing is read from a part of a frame.
pub proof fn lemma_part_of_frame(packet: Seq<u8>, n: int)
    requires
        packet.len() <= 2 * MAX_PACKET_SIZE,
        0 <= n < frame(packet).len(),
    ensures
        first_packet(frame(packet).take(n)) is None,
{
    let part = frame(packet).take(n);
    if n >= 4 {
        bytes::lemma_be32_roundtrip(packet.len() as u32);
        assert(bytes::from_be32(part) == bytes::from_be32(header(packet.len())));
    }
}

} // verus!
