//! What is done with an IP packet that the capturing adapter hands over.

use vstd::prelude::*;
use vstd::slice::{slice_subrange, slice_to_vec};
use crate::bytes;
use crate::protocol::ConnId;
use crate::routing::{self, is_game_ip};

verus! {

/// What the tunnel does with a captured packet.
pub enum TunAction {
    /// Nothing.
    Ignore,
    /// Open a connection through the tunnel.
    Open(ConnId),
    /// Tell the relay that the connection was reset.
    Reset(ConnId),
    /// Tell the relay that this side is done sending.
    Shutdown(ConnId),
    /// Send a payload.
    Send { conn: ConnId, payload: Vec<u8> },
}

/// What a [`TunAction`] says.
pub ghost enum Action {
    Ignore,
    Open(ConnId),
    Reset(ConnId),
    Shutdown(ConnId),
    Send { conn: ConnId, payload: Seq<u8> },
}

impl View for TunAction {
    type V = Action;

    open spec fn view(&self) -> Action {
        match self {
            TunAction::Ignore => Action::Ignore,
            TunAction::Open(conn) => Action::Open(*conn),
            TunAction::Reset(conn) => Action::Reset(*conn),
            TunAction::Shutdown(conn) => Action::Shutdown(*conn),
            TunAction::Send { conn, payload } => Action::Send { conn: *conn, payload: payload@ },
        }
    }
}

/// Whether a packet is one of IP version 4 to a game server.
pub open spec fn is_captured(packet: Seq<u8>) -> bool {
    &&& packet.len() >= 20
    &&& packet[0] / 16 == 4
    &&& routing::is_game_address(packet.subrange(16, 20))
}

/// The length of the IP header, as it says itself.
pub open spec fn header_len(packet: Seq<u8>) -> int {
    4 * (packet[0] % 16)
}

/// Whether a packet carries TCP and is long enough for both headers.
pub open spec fn is_tcp(packet: Seq<u8>) -> bool {
    &&& packet.len() >= 20
    &&& packet[9] == 6
    &&& packet.len() >= header_len(packet) + 20
}

/// Where the payload of a TCP packet begins, as its headers say.
pub open spec fn payload_start(packet: Seq<u8>) -> int {
    header_len(packet) + 4 * (packet[header_len(packet) + 12] / 16)
}

/// Whether the headers of a TCP packet place its payload behind its end.
pub open spec fn is_cut_short(packet: Seq<u8>) -> bool {
    is_tcp(packet) && payload_start(packet) > packet.len()
}

/// The connection that a TCP packet belongs to.
pub open spec fn packet_conn(packet: Seq<u8>) -> ConnId {
    let tcp = packet.skip(header_len(packet));
    ConnId {
        src_ip: [packet[12], packet[13], packet[14], packet[15]],
        src_port: bytes::from_be16(tcp),
        dst_ip: [packet[16], packet[17], packet[18], packet[19]],
        dst_port: bytes::from_be16(tcp.skip(2)),
    }
}

/// What is done with a packet, by the flags of its TCP header: a reset is one
/// whatever else is set, a request to connect opens a connection, an end of
/// sending is passed on, and of the rest only what carries a payload counts.
pub open spec fn packet_action(packet: Seq<u8>) -> Action {
    if !is_tcp(packet) {
        Action::Ignore
    } else {
        let flags = packet[header_len(packet) + 13];
        let fin = flags % 2 == 1;
        let syn = flags / 2 % 2 == 1;
        let rst = flags / 4 % 2 == 1;
        let payload = packet.skip(payload_start(packet));
        if rst {
            Action::Reset(packet_conn(packet))
        } else if syn {
            Action::Open(packet_conn(packet))
        } else if fin {
            Action::Shutdown(packet_conn(packet))
        } else if payload.len() > 0 {
            Action::Send { conn: packet_conn(packet), payload }
        } else {
            Action::Ignore
        }
    }
}

/// Whether a packet from the adapter is for the tunnel.
pub fn is_for_tunnel(packet: &[u8]) -> (r: bool)
    ensures
        r == is_captured(packet@),
{
    if packet.len() < 20 {
        return false;
    }
    let first: u8 = packet[0];
    assert(first >> 4 == first / 16) by (bit_vector);
    if (first >> 4) != 4 {
        return false;
    }
    let dst_ip: [u8; 4] = [packet[16], packet[17], packet[18], packet[19]];
    assert(dst_ip@ =~= packet@.subrange(16, 20));
    is_game_ip(dst_ip)
}

fn header_size(packet: &[u8]) -> (n: usize)
    requires
        packet@.len() >= 20,
    ensures
        n == header_len(packet@),
        n <= 60,
{
    let first: u8 = packet[0];
    assert(first & 0x0F == first % 16) by (bit_vector);
    ((first & 0x0F) as usize) * 4
}

fn carries_tcp(packet: &[u8]) -> (r: bool)
    ensures
        r == is_tcp(packet@),
{
    packet.len() >= 20 && packet[9] == 6 && packet.len() >= header_size(packet) + 20
}

fn payload_offset(packet: &[u8]) -> (n: usize)
    requires
        is_tcp(packet@),
    ensures
        n == payload_start(packet@),
{
    let ihl: usize = header_size(packet);
    let offset: u8 = packet[ihl + 12];
    assert(offset >> 4 == offset / 16) by (bit_vector);
    ihl + ((offset >> 4) as usize) * 4
}

/// Whether [`handle_tun_packet`] cannot be called on a packet: its headers place
/// its payload behind its end.
pub fn ends_too_early(packet: &[u8]) -> (r: bool)
    ensures
        r == is_cut_short(packet@),
{
    carries_tcp(packet) && payload_offset(packet) > packet.len()
}

/// Decides what is done with a captured packet.
pub fn handle_tun_packet(packet: &[u8]) -> (action: TunAction)
    requires
        !is_cut_short(packet@),
    ensures
        action@ == packet_action(packet@),
{
    if !carries_tcp(packet) {
        return TunAction::Ignore;
    }
    let ihl: usize = header_size(packet);
    let src_port: u16 = (packet[ihl] as u16) * 0x100 + (packet[ihl + 1] as u16);
    let dst_port: u16 = (packet[ihl + 2] as u16) * 0x100 + (packet[ihl + 3] as u16);
    let flags: u8 = packet[ihl + 13];
    assert(flags & 0x01 != 0 <==> flags % 2 == 1) by (bit_vector);
    assert(flags & 0x02 != 0 <==> flags / 2 % 2 == 1) by (bit_vector);
    assert(flags & 0x04 != 0 <==> flags / 4 % 2 == 1) by (bit_vector);
    let syn: bool = flags & 0x02 != 0;
    let fin: bool = flags & 0x01 != 0;
    let rst: bool = flags & 0x04 != 0;
    let payload: &[u8] = slice_subrange(packet, payload_offset(packet), packet.len());
    let conn = ConnId::new(
        [packet[12], packet[13], packet[14], packet[15]],
        src_port,
        [packet[16], packet[17], packet[18], packet[19]],
        dst_port,
    );
    proof {
        let expected = packet_conn(packet@);
        assert(conn.src_ip =~= expected.src_ip);
        assert(conn.dst_ip =~= expected.dst_ip);
        assert(conn == expected);
        assert(payload@ =~= packet@.skip(payload_start(packet@)));
    }
    if syn && !rst {
        TunAction::Open(conn)
    } else if rst {
        TunAction::Reset(conn)
    } else if fin {
        TunAction::Shutdown(conn)
    } else if payload.len() != 0 {
        TunAction::Send { conn, payload: slice_to_vec(payload) }
    } else {
        TunAction::Ignore
    }
}

/// A packet that is for the tunnel and opens, ends or feeds a connection belongs
/// to a connection to a game server.
pub proof fn lemma_captured_goes_to_game(packet: Seq<u8>)
    requires
        is_captured(packet),
        is_tcp(packet),
    ensures
        routing::is_game_address(packet_conn(packet).dst_ip@),
{
    let dst = packet_conn(packet).dst_ip@;
    assert(dst =~= packet.subrange(16, 20));
}

/// Whether a packet is long enough for its IP header and a TCP header, and says
/// that it carries TCP.
pub open spec fn holds_tcp(packet: Seq<u8>) -> bool {
    packet.len() >= 20 && packet[9] == 6 && packet.len() >= 4 * (packet[0] % 16) + 20
}

/// Whether a connection is that of a packet: the addresses stand in the IP header,
/// the ports at the beginning of the TCP header, most significant byte first.
pub open spec fn is_connection_of(conn: ConnId, packet: Seq<u8>) -> bool {
    let tcp = 4 * (packet[0] % 16);
    &&& conn.src_ip@ == packet.subrange(12, 16)
    &&& conn.dst_ip@ == packet.subrange(16, 20)
    &&& conn.src_port == 256 * packet[tcp] + packet[tcp + 1]
    &&& conn.dst_port == 256 * packet[tcp + 2] + packet[tcp + 3]
}

proof fn lemma_connection_of(packet: Seq<u8>)
    requires
        holds_tcp(packet),
    ensures
        is_connection_of(packet_conn(packet), packet),
{
    let conn = packet_conn(packet);
    assert(conn.src_ip@ =~= packet.subrange(12, 16));
    assert(conn.dst_ip@ =~= packet.subrange(16, 20));
}

/// A TCP packet without the bits for a request to connect, an end of sending or a
/// reset sends what follows its headers, up to its end, over its connection,
/// whatever its other bits are; if nothing follows, nothing is done.
pub proof fn lemma_payload_is_sent(packet: Seq<u8>)
    requires
        holds_tcp(packet),
        packet[4 * (packet[0] % 16) + 13] % 8 == 0,
    ensures
        ({
            let tcp = 4 * (packet[0] % 16);
            let start = tcp + 4 * (packet[tcp + 12] / 16);
            &&& is_cut_short(packet) <==> start > packet.len()
            &&& start < packet.len() ==> (packet_action(packet) matches Action::Send { conn, payload }
                && is_connection_of(conn, packet) && payload == packet.subrange(
                start,
                packet.len() as int,
            ))
            &&& start == packet.len() ==> packet_action(packet) == Action::Ignore
        }),
{
    lemma_connection_of(packet);
    let tcp = 4 * (packet[0] % 16);
    let start = tcp + 4 * (packet[tcp + 12] / 16);
    let flags = packet[tcp + 13];
    assert(flags % 2 == 0 && flags / 2 % 2 == 0 && flags / 4 % 2 == 0);
    if start <= packet.len() {
        assert(packet.skip(start) =~= packet.subrange(start, packet.len() as int));
    }
}

/// A reset is one whatever other bits are set; without it a request to connect
/// opens a connection; without either an end of sending is passed on; and what is
/// done concerns the packet's connection.
pub proof fn lemma_flags_decide(packet: Seq<u8>)
    requires
        holds_tcp(packet),
    ensures
        ({
            let flags = packet[4 * (packet[0] % 16) + 13] % 8;
            let act = packet_action(packet);
            &&& act is Reset <==> flags >= 4
            &&& act is Open <==> flags == 2 || flags == 3
            &&& act is Shutdown <==> flags == 1
            &&& act is Send ==> flags == 0
            &&& match act {
                Action::Reset(conn) => is_connection_of(conn, packet),
                Action::Open(conn) => is_connection_of(conn, packet),
                Action::Shutdown(conn) => is_connection_of(conn, packet),
                Action::Send { conn, .. } => is_connection_of(conn, packet),
                Action::Ignore => true,
            }
        }),
{
    lemma_connection_of(packet);
    let flags = packet[4 * (packet[0] % 16) + 13];
    assert(flags % 8 == 4 * (flags / 4 % 2) + 2 * (flags / 2 % 2) + flags % 2);
}

/// What is not TCP, or too short for its headers, is left alone.
pub proof fn lemma_other_packets_are_ignored(packet: Seq<u8>)
    requires
        !holds_tcp(packet),
    ensures
        packet_action(packet) == Action::Ignore,
        !is_cut_short(packet),
{
}

/// Two packets that differ only in bits of the flags other than those for a request
/// to connect, an end of sending and a reset lead to the same action. (Lengths of the
/// two headers that are too small put the flags among the addresses or the payload.)
pub proof fn lemma_other_flags_do_not_matter(packet: Seq<u8>, flags: u8)
    requires
        holds_tcp(packet),
        packet[0] % 16 >= 2,
        packet[4 * (packet[0] % 16) + 13] % 8 == 0 ==> packet[4 * (packet[0] % 16) + 12] / 16 >= 4,
        !is_cut_short(packet),
        flags % 8 == packet[4 * (packet[0] % 16) + 13] % 8,
    ensures
        ({
            let other = packet.update(4 * (packet[0] % 16) + 13, flags);
            match (packet_action(packet), packet_action(other)) {
                (
                    Action::Send { conn: c, payload: p },
                    Action::Send { conn: d, payload: q },
                ) => c == d && p == q,
                (a, b) => a == b,
            }
        }),
{
    let tcp = 4 * (packet[0] % 16);
    let old_flags = packet[tcp + 13];
    let other = packet.update(tcp + 13, flags);
    let start = tcp + 4 * (packet[tcp + 12] / 16);
    assert(old_flags % 8 == 4 * (old_flags / 4 % 2) + 2 * (old_flags / 2 % 2) + old_flags % 2);
    assert(flags % 8 == 4 * (flags / 4 % 2) + 2 * (flags / 2 % 2) + flags % 2);
    assert(old_flags % 2 == flags % 2 && old_flags / 2 % 2 == flags / 2 % 2 && old_flags / 4 % 2
        == flags / 4 % 2);
    assert(packet_conn(other) == packet_conn(packet));
    if start > tcp + 13 {
        assert(other.skip(start) =~= packet.skip(start));
    }
}

/// A packet is for the tunnel if and only if it is one of IP version 4 whose
/// destination, as a number, lies in one of the game's ranges.
pub proof fn lemma_captured_by_destination(packet: Seq<u8>)
    ensures
        is_captured(packet) <==> packet.len() >= 20 && 0x40 <= packet[0] <= 0x4f && {
            let n = 0x100_0000 * packet[16] + 0x1_0000 * packet[17] + 0x100 * packet[18] + packet[19];
            ||| 0xD2F2_0000 <= n <= 0xD2F2_FFFF
            ||| 0xD86B_F400 <= n <= 0xD86B_F4FF
            ||| 0xD86B_FD00 <= n <= 0xD86B_FDFF
        },
{
    if packet.len() >= 20 {
        routing::lemma_game_ranges(packet.subrange(16, 20));
    }
}

} // verus!
