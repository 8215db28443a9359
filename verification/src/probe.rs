//! A single connection through the tunnel that passes on what is typed and shows
//! what comes back.

use vstd::prelude::*;
use crate::addr::PeerAddr;
use crate::bytes::{self, u32_to_be};
use crate::crypto::{self, CryptoError};
use crate::protocol::{self, ConnId, TunnelMessage};
use crate::tunnel::{
    self, drain_rx, is_connected, is_shutdown, open_connection, send_data, send_to_relay,
    TunnelState,
};

verus! {

/// How far a probe is.
#[derive(Debug, Clone, Copy, PartialEq, Eq, Structural)]
pub enum ProbePhase {
    /// The relay has not said yet that the connection is established.
    Connecting,
    /// Data goes both ways.
    Streaming,
    /// It is over.
    Done,
}

/// What happens to a probe.
pub enum ProbeEvent {
    /// Something about the connection changed.
    Notified,
    /// This was typed. Nothing at all means that the input ended.
    Input(Vec<u8>),
    /// The input could not be read.
    InputFailed,
}

/// A connection through the tunnel, and how far it is.
pub struct Probe {
    pub conn: ConnId,
    pub phase: ProbePhase,
}

/// What a probe does about something that happened.
pub struct ProbeStep {
    /// Packets for the relay, in order.
    pub packets: Vec<Vec<u8>>,
    /// What is shown.
    pub output: Vec<u8>,
}

/// Why a probe cannot be started.
#[derive(Debug, Clone, PartialEq, Eq)]
pub enum ProbeError {
    /// Only destinations of IP version 4 are supported.
    NotIpv4,
    /// The request could not be sealed.
    Crypto(CryptoError),
}

/// The connection of a probe to a destination.
pub open spec fn probe_conn(ip: u32, port: u16) -> ConnId {
    let b = bytes::be32(ip);
    ConnId {
        src_ip: [10, 200, 0, 2],
        src_port: 12345,
        dst_ip: [b[0], b[1], b[2], b[3]],
        dst_port: port,
    }
}

/// Whether something can happen to a probe.
pub open spec fn can_happen(phase: ProbePhase, event: ProbeEvent) -> bool {
    match phase {
        ProbePhase::Connecting => event is Notified,
        ProbePhase::Streaming => true,
        ProbePhase::Done => false,
    }
}

/// The phase of a probe after something happened.
pub open spec fn phase_after(
    phase: ProbePhase,
    event: ProbeEvent,
    link: Option<tunnel::Conn>,
) -> ProbePhase {
    match (phase, event) {
        (ProbePhase::Connecting, ProbeEvent::Notified) => match link {
            Some(c) => if c.connected {
                ProbePhase::Streaming
            } else {
                ProbePhase::Connecting
            },
            None => ProbePhase::Connecting,
        },
        (_, ProbeEvent::Notified) => match link {
            Some(c) => if c.shutdown {
                ProbePhase::Done
            } else {
                phase
            },
            None => phase,
        },
        (_, ProbeEvent::Input(b)) => if b@.len() == 0 {
            ProbePhase::Done
        } else {
            phase
        },
        (_, ProbeEvent::InputFailed) => ProbePhase::Done,
    }
}

/// What is known of a connection, if anything is.
pub open spec fn link_of(state: TunnelState, conn: ConnId) -> Option<tunnel::Conn> {
    if state.links().dom().contains(conn) {
        Some(state.links()[conn])
    } else {
        None
    }
}

/// Whether `packets` carry what was typed: the payload in pieces, or, at the end
/// of the input, that this side is done sending.
pub open spec fn carry_input(
    packets: Seq<Vec<u8>>,
    state: TunnelState,
    conn: ConnId,
    typed: Seq<u8>,
) -> bool {
    if typed.len() == 0 {
        let msg = protocol::Message::Shutdown(conn);
        &&& packets.len() == 1
        &&& crypto::is_sealed(state.key, msg, packets[0]@)
        &&& crypto::opens_only_as(state.key, msg, packets[0]@)
    } else {
        &&& packets.len() == tunnel::chunk_count(typed)
        &&& forall|i: int|
            0 <= i < packets.len() ==> {
                let msg = protocol::Message::Data { conn, payload: tunnel::chunk(typed, i) };
                &&& crypto::is_sealed(state.key, msg, #[trigger] packets[i]@)
                &&& crypto::opens_only_as(state.key, msg, packets[i]@)
            }
    }
}

impl Probe {
    /// Opens a connection to a destination, and gives the packet that asks the
    /// relay for it.
    pub fn start(state: &mut TunnelState, dst: PeerAddr) -> (r: Result<(Self, Vec<u8>), ProbeError>)
        ensures
            final(state).key == old(state).key,
            final(state).ping_seq == old(state).ping_seq,
            final(state).last_rtt_ms == old(state).last_rtt_ms,
            match dst {
                PeerAddr::V4 { ip, port } => {
                    let conn = probe_conn(ip, port);
                    let msg = protocol::Message::Connect(conn);
                    &&& final(state).links() == old(state).links().insert(
                        conn,
                        tunnel::fresh_conn(),
                    )
                    &&& r matches Ok((probe, packet)) && probe.conn == conn && probe.phase
                        == ProbePhase::Connecting && crypto::is_sealed(
                        old(state).key,
                        msg,
                        packet@,
                    ) && crypto::opens_only_as(old(state).key, msg, packet@)
                },
                PeerAddr::V6 { .. } => {
                    &&& final(state).links() == old(state).links()
                    &&& r matches Err(e) && e == ProbeError::NotIpv4
                },
            },
            r is Ok <==> dst is V4,
            r matches Ok((probe, _)) ==> {
                &&& tunnel::only_changes(
                    old(state).links(),
                    final(state).links(),
                    Some(probe.conn),
                )
                &&& link_of(*final(state), probe.conn) matches Some(c)
                &&& c.rx.len() == 0 && !c.connected && !c.shutdown
            },
    {
        match dst {
            PeerAddr::V4 { ip, port } => {
                let dst_ip: [u8; 4] = u32_to_be(ip);
                assert(dst_ip =~= probe_conn(ip, port).dst_ip) by {
                    assert(dst_ip@ == bytes::be32(ip));
                }
                match open_connection(state, [10, 200, 0, 2], 12345, dst_ip, port) {
                    Ok((conn, packet)) => Ok((Probe { conn, phase: ProbePhase::Connecting }, packet)),
                    Err(e) => Err(ProbeError::Crypto(e)),
                }
            },
            PeerAddr::V6 { .. } => Err(ProbeError::NotIpv4),
        }
    }

    /// Decides what is done about something that happened.
    pub fn step(&mut self, state: &mut TunnelState, event: ProbeEvent) -> (r: Result<
        ProbeStep,
        CryptoError,
    >)
        requires
            can_happen(old(self).phase, event),
        ensures
            final(self).conn == old(self).conn,
            final(self).phase == phase_after(
                old(self).phase,
                event,
                link_of(*old(state), old(self).conn),
            ),
            final(state).key == old(state).key,
            final(state).ping_seq == old(state).ping_seq,
            final(state).last_rtt_ms == old(state).last_rtt_ms,
            ({
                let conn = old(self).conn;
                let link = link_of(*old(state), conn);
                r matches Ok(step) && if old(self).phase == ProbePhase::Streaming
                    && event is Notified && link is Some {
                    &&& step.packets@.len() == 0
                    &&& step.output@ == link->Some_0.rx
                    &&& final(state).links() == old(state).links().insert(
                        conn,
                        tunnel::Conn { rx: Seq::empty(), ..link->Some_0 },
                    )
                } else {
                    &&& final(state).links() == old(state).links()
                    &&& step.output@.len() == 0
                    &&& match event {
                        ProbeEvent::Input(b) => carry_input(
                            step.packets@,
                            *old(state),
                            conn,
                            b@,
                        ),
                        _ => step.packets@.len() == 0,
                    }
                }
            }),
            tunnel::only_changes(old(state).links(), final(state).links(), Some(old(self).conn)),
            r matches Ok(step) ==> (link_of(*old(state), old(self).conn) matches Some(was) ==> {
                &&& link_of(*final(state), old(self).conn) matches Some(is)
                &&& step.output@ + is.rx == was.rx
                &&& is.connected == was.connected
                &&& is.shutdown == was.shutdown
                &&& old(self).phase == ProbePhase::Streaming && event is Notified ==> is.rx.len()
                    == 0
            }),
    {
        let nothing: Vec<Vec<u8>> = Vec::new();
        match event {
            ProbeEvent::Notified => {
                if self.phase == ProbePhase::Connecting {
                    if is_connected(state, &self.conn) {
                        self.phase = ProbePhase::Streaming;
                    }
                    Ok(ProbeStep { packets: nothing, output: Vec::new() })
                } else {
                    let output: Vec<u8> = drain_rx(state, &self.conn);
                    if is_shutdown(state, &self.conn) {
                        self.phase = ProbePhase::Done;
                    }
                    Ok(ProbeStep { packets: nothing, output })
                }
            },
            ProbeEvent::Input(typed) => {
                if typed.len() == 0 {
                    self.phase = ProbePhase::Done;
                    match send_to_relay(state, &TunnelMessage::Shutdown(self.conn)) {
                        Ok(packet) => {
                            let mut packets: Vec<Vec<u8>> = Vec::new();
                            packets.push(packet);
                            Ok(ProbeStep { packets, output: Vec::new() })
                        },
                        Err(e) => Err(e),
                    }
                } else {
                    match send_data(state, self.conn, typed.as_slice()) {
                        Ok(packets) => Ok(ProbeStep { packets, output: Vec::new() }),
                        Err(e) => Err(e),
                    }
                }
            },
            ProbeEvent::InputFailed => {
                self.phase = ProbePhase::Done;
                Ok(ProbeStep { packets: nothing, output: Vec::new() })
            },
        }
    }
}

/// A probe streams once the relay said that its connection is established, and until
/// then waits; it is over when the server is done sending, when the input ends, or
/// when it cannot be read, and only then.
pub proof fn lemma_probe_phases(phase: ProbePhase, event: ProbeEvent, link: Option<tunnel::Conn>)
    requires
        can_happen(phase, event),
    ensures
        ({
            let after = phase_after(phase, event, link);
            &&& phase == ProbePhase::Connecting ==> (after == ProbePhase::Streaming <==> (
            link matches Some(c) && c.connected))
            &&& phase == ProbePhase::Connecting ==> after != ProbePhase::Done
            &&& phase == ProbePhase::Streaming ==> after != ProbePhase::Connecting
            &&& phase == ProbePhase::Streaming ==> (after == ProbePhase::Done <==> match event {
                ProbeEvent::Notified => link matches Some(c) && c.shutdown,
                ProbeEvent::Input(typed) => typed@.len() == 0,
                ProbeEvent::InputFailed => true,
            })
        }),
{
}

/// The payload that a packet carries over a connection, if it carries one.
pub open spec fn carried(key: crypto::TunnelKey, conn: ConnId, packet: Seq<u8>) -> Seq<u8> {
    match crypto::opened(key, packet) {
        Some(protocol::Message::Data { conn: c, payload }) => if c == conn {
            payload
        } else {
            Seq::empty()
        },
        _ => Seq::empty(),
    }
}

/// What is typed is carried by the packets, in order and in full; the end of the input
/// is told to the relay, once.
pub proof fn lemma_typed_is_carried(
    packets: Seq<Vec<u8>>,
    state: TunnelState,
    conn: ConnId,
    typed: Seq<u8>,
)
    requires
        carry_input(packets, state, conn, typed),
    ensures
        packets.map_values(|p: Vec<u8>| carried(state.key, conn, p@)).flatten() == typed,
        typed.len() == 0 ==> packets.len() == 1 && crypto::opened(state.key, packets[0]@) == Some(
            protocol::Message::Shutdown(conn),
        ),
{
    let pieces = packets.map_values(|p: Vec<u8>| carried(state.key, conn, p@));
    if typed.len() == 0 {
        assert(pieces =~= seq![Seq::<u8>::empty()]);
        assert(pieces.drop_first() =~= Seq::<Seq<u8>>::empty());
        assert(pieces.drop_first().flatten() =~= Seq::<u8>::empty());
        assert(pieces.flatten() =~= typed);
    } else {
        tunnel::lemma_chunks_make_up_payload(typed);
        assert(pieces =~= tunnel::chunks(typed)) by {
            assert forall|i: int| 0 <= i < packets.len() implies pieces[i] == tunnel::chunk(
                typed,
                i,
            ) by {
                assert(crypto::opens_only_as(
                    state.key,
                    protocol::Message::Data { conn, payload: tunnel::chunk(typed, i) },
                    packets[i]@,
                ));
            }
        }
    }
}

/// The connection of a probe comes from a fixed address and port of the tunnel's own
/// and goes to the destination.
pub proof fn lemma_probe_conn(ip: u32, port: u16)
    ensures
        ({
            let conn = probe_conn(ip, port);
            &&& conn.src_ip@ == seq![10u8, 200u8, 0u8, 2u8]
            &&& conn.src_port == 12345
            &&& 0x100_0000 * conn.dst_ip@[0] + 0x1_0000 * conn.dst_ip@[1] + 0x100 * conn.dst_ip@[2]
                + conn.dst_ip@[3] == ip
            &&& conn.dst_port == port
        }),
{
    let conn = probe_conn(ip, port);
    bytes::lemma_byte_order(0, ip, 0);
    assert(conn.src_ip@ =~= seq![10u8, 200u8, 0u8, 2u8]);
}

} // verus!
