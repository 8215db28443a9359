//! The client's side of the tunnel: its connections, and what it sends to the
//! relay and makes of what it receives.

use vstd::prelude::*;
use vstd::slice::{slice_subrange, slice_to_vec};
use crate::cipher;
use crate::crypto::{self, open, seal, CryptoError, TunnelKey};
use crate::protocol::{self, ConnId, TunnelMessage, MAX_PAYLOAD_SIZE};
use crate::table::Table;

verus! {

/// Per-connection state on the client's side.
pub struct ConnState {
    /// Data received from the relay that nobody has taken yet.
    pub rx_buf: Vec<u8>,
    /// Whether the relay said that the connection is established.
    pub connected: bool,
    /// Whether the relay said that the server is done sending.
    pub shutdown: bool,
}

/// What a [`ConnState`] says.
pub ghost struct Conn {
    pub rx: Seq<u8>,
    pub connected: bool,
    pub shutdown: bool,
}

impl View for ConnState {
    type V = Conn;

    open spec fn view(&self) -> Conn {
        Conn { rx: self.rx_buf@, connected: self.connected, shutdown: self.shutdown }
    }
}

/// A connection that was just asked for.
pub open spec fn fresh_conn() -> Conn {
    Conn { rx: Seq::empty(), connected: false, shutdown: false }
}

/// The state of the tunnel on the client's side.
pub struct TunnelState {
    /// The key shared with the relay.
    pub key: TunnelKey,
    /// The open connections.
    pub conns: Table<ConnId, ConnState>,
    /// The number of the next latency probe.
    pub ping_seq: u64,
    /// The round-trip time that the last answered probe took.
    pub last_rtt_ms: u64,
}

/// What came of a message from the relay. `known` says whether its connection is
/// one of the table's, whose reader is then to be woken.
pub enum RelayEvent {
    /// A connection was established.
    Connected { conn: ConnId, known: bool },
    /// A connection could not be established, and is forgotten.
    Failed { conn: ConnId, reason: String },
    /// Data arrived.
    Data { conn: ConnId, known: bool },
    /// The server is done sending.
    Shutdown { conn: ConnId, known: bool },
    /// The connection was reset, and is forgotten.
    Reset(ConnId),
    /// A latency probe was answered.
    Pong { seq: u64, rtt_ms: u64 },
    /// The relay sent what only a client sends.
    Unexpected,
}

/// The connections after a message from the relay.
pub open spec fn conns_after(conns: Map<ConnId, Conn>, msg: protocol::Message) -> Map<ConnId, Conn> {
    match msg {
        protocol::Message::Connected(conn) => if conns.dom().contains(conn) {
            conns.insert(conn, Conn { connected: true, ..conns[conn] })
        } else {
            conns
        },
        protocol::Message::Data { conn, payload } => if conns.dom().contains(conn) {
            conns.insert(conn, Conn { rx: conns[conn].rx + payload, ..conns[conn] })
        } else {
            conns
        },
        protocol::Message::Shutdown(conn) => if conns.dom().contains(conn) {
            conns.insert(conn, Conn { shutdown: true, ..conns[conn] })
        } else {
            conns
        },
        protocol::Message::ConnectFailed { conn, .. } => conns.remove(conn),
        protocol::Message::Reset(conn) => conns.remove(conn),
        _ => conns,
    }
}

/// The time since a probe was sent, or zero if the clock went back since.
pub open spec fn elapsed(now_ms: u64, sent_ms: u64) -> u64 {
    if now_ms >= sent_ms {
        (now_ms - sent_ms) as u64
    } else {
        0
    }
}

/// The last round-trip time after a message from the relay.
pub open spec fn rtt_after(rtt_ms: u64, msg: protocol::Message, now_ms: u64) -> u64 {
    match msg {
        protocol::Message::Pong { client_timestamp_ms, .. } => elapsed(now_ms, client_timestamp_ms),
        _ => rtt_ms,
    }
}

/// What is reported of a message from the relay.
pub open spec fn reports(
    event: RelayEvent,
    conns: Map<ConnId, Conn>,
    msg: protocol::Message,
    now_ms: u64,
) -> bool {
    match msg {
        protocol::Message::Connected(conn) => event == RelayEvent::Connected {
            conn,
            known: conns.dom().contains(conn),
        },
        protocol::Message::ConnectFailed { conn, reason } => {
            event matches RelayEvent::Failed { conn: c, reason: text } && c == conn && text@ == reason
        },
        protocol::Message::Data { conn, .. } => event == RelayEvent::Data {
            conn,
            known: conns.dom().contains(conn),
        },
        protocol::Message::Shutdown(conn) => event == RelayEvent::Shutdown {
            conn,
            known: conns.dom().contains(conn),
        },
        protocol::Message::Reset(conn) => event == RelayEvent::Reset(conn),
        protocol::Message::Pong { seq, client_timestamp_ms } => event == RelayEvent::Pong {
            seq,
            rtt_ms: elapsed(now_ms, client_timestamp_ms),
        },
        _ => event == RelayEvent::Unexpected,
    }
}

/// Piece number `i` of a payload that is cut into pieces of the largest size.
pub open spec fn chunk(payload: Seq<u8>, i: int) -> Seq<u8> {
    let start = i * MAX_PAYLOAD_SIZE;
    let end = if start + MAX_PAYLOAD_SIZE <= payload.len() {
        start + MAX_PAYLOAD_SIZE
    } else {
        payload.len() as int
    };
    payload.subrange(start, end)
}

/// How many pieces a payload is cut into.
pub open spec fn chunk_count(payload: Seq<u8>) -> nat {
    (payload.len() + MAX_PAYLOAD_SIZE - 1) as nat / MAX_PAYLOAD_SIZE as nat
}

impl TunnelState {
    /// The connections, and what is known of each.
    pub open spec fn links(self) -> Map<ConnId, Conn> {
        self.conns@.map_values(|c: ConnState| c@)
    }

    /// A tunnel without connections.
    pub fn new(key: TunnelKey) -> (state: Self)
        ensures
            state.key == key,
            state.links() == Map::<ConnId, Conn>::empty(),
            state.ping_seq == 0,
            state.last_rtt_ms == 0,
    {
        let state = TunnelState { key, conns: Table::new(), ping_seq: 0, last_rtt_ms: 0 };
        assert(state.links() =~= Map::<ConnId, Conn>::empty());
        state
    }

    /// Takes in a message from the relay.
    pub fn handle_message(&mut self, msg: TunnelMessage, now_ms: u64) -> (event: RelayEvent)
        ensures
            final(self).key == old(self).key,
            final(self).ping_seq == old(self).ping_seq,
            final(self).links() == conns_after(old(self).links(), msg@),
            final(self).last_rtt_ms == rtt_after(old(self).last_rtt_ms, msg@, now_ms),
            reports(event, old(self).links(), msg@, now_ms),
            only_changes(old(self).links(), final(self).links(), about(msg@)),
    {
        match msg {
            TunnelMessage::Connected(conn) => {
                let known: bool = match self.conns.remove(conn) {
                    Some(cs) => {
                        self.conns.insert(
                            conn,
                            ConnState { rx_buf: cs.rx_buf, connected: true, shutdown: cs.shutdown },
                        );
                        true
                    },
                    None => false,
                };
                assert(self.links() =~= conns_after(old(self).links(), msg@));
                RelayEvent::Connected { conn, known }
            },
            TunnelMessage::ConnectFailed { conn, reason } => {
                self.conns.remove(conn);
                assert(self.links() =~= conns_after(old(self).links(), msg@));
                RelayEvent::Failed { conn, reason }
            },
            TunnelMessage::Data { conn, payload } => {
                let known: bool = match self.conns.remove(conn) {
                    Some(cs) => {
                        let mut rx_buf: Vec<u8> = cs.rx_buf;
                        rx_buf.extend_from_slice(payload.as_slice());
                        assert(rx_buf@ =~= cs.rx_buf@ + payload@);
                        self.conns.insert(
                            conn,
                            ConnState { rx_buf, connected: cs.connected, shutdown: cs.shutdown },
                        );
                        true
                    },
                    None => false,
                };
                assert(self.links() =~= conns_after(old(self).links(), msg@));
                RelayEvent::Data { conn, known }
            },
            TunnelMessage::Shutdown(conn) => {
                let known: bool = match self.conns.remove(conn) {
                    Some(cs) => {
                        self.conns.insert(
                            conn,
                            ConnState { rx_buf: cs.rx_buf, connected: cs.connected, shutdown: true },
                        );
                        true
                    },
                    None => false,
                };
                assert(self.links() =~= conns_after(old(self).links(), msg@));
                RelayEvent::Shutdown { conn, known }
            },
            TunnelMessage::Reset(conn) => {
                self.conns.remove(conn);
                assert(self.links() =~= conns_after(old(self).links(), msg@));
                RelayEvent::Reset(conn)
            },
            TunnelMessage::Pong { seq, client_timestamp_ms } => {
                let rtt: u64 = now_ms.saturating_sub(client_timestamp_ms);
                self.last_rtt_ms = rtt;
                RelayEvent::Pong { seq, rtt_ms: rtt }
            },
            _ => RelayEvent::Unexpected,
        }
    }

    /// Takes in a packet from the relay. One that does not open changes nothing.
    pub fn receive(&mut self, packet: &[u8], now_ms: u64) -> (r: Result<RelayEvent, CryptoError>)
        requires
            packet@.len() >= 44 ==> cipher::cipher_returns((packet@.len() - 44) as nat),
        ensures
            final(self).key == old(self).key,
            final(self).ping_seq == old(self).ping_seq,
            match crypto::opened(old(self).key, packet@) {
                Some(msg) => {
                    &&& r matches Ok(event) && reports(event, old(self).links(), msg, now_ms)
                    &&& final(self).links() == conns_after(old(self).links(), msg)
                    &&& final(self).last_rtt_ms == rtt_after(old(self).last_rtt_ms, msg, now_ms)
                    &&& only_changes(old(self).links(), final(self).links(), about(msg))
                },
                None => {
                    &&& r matches Err(e) && crypto::is_open_error(e, old(self).key, packet@)
                    &&& *final(self) == *old(self)
                },
            },
    {
        match open(&self.key, packet) {
            Ok(msg) => Ok(self.handle_message(msg, now_ms)),
            Err(e) => Err(e),
        }
    }
}

/// The packet that carries a message to the relay.
pub fn send_to_relay(state: &TunnelState, msg: &TunnelMessage) -> (r: Result<Vec<u8>, CryptoError>)
    requires
        cipher::cipher_returns(protocol::message_len(msg@)),
    ensures
        r is Ok <==> cipher::cipher_takes(protocol::message_len(msg@)),
        match r {
            Ok(packet) => {
                &&& crypto::is_sealed(state.key, msg@, packet@)
                &&& crypto::opens_only_as(state.key, msg@, packet@)
            },
            Err(e) => e == CryptoError::EncryptionFailed,
        },
{
    seal(&state.key, msg)
}

/// Numbers a latency probe and gives the packet that carries it.
#[verifier::spinoff_prover]
#[verifier::rlimit(40)]
pub fn next_ping(state: &mut TunnelState, timestamp_ms: u64) -> (r: Result<Vec<u8>, CryptoError>)
    ensures
        final(state).key == old(state).key,
        final(state).conns == old(state).conns,
        final(state).last_rtt_ms == old(state).last_rtt_ms,
        final(state).ping_seq == (old(state).ping_seq + 1) % 0x1_0000_0000_0000_0000,
        ({
            let msg = protocol::Message::Ping { seq: old(state).ping_seq, timestamp_ms };
            r matches Ok(packet) && crypto::is_sealed(old(state).key, msg, packet@)
                && crypto::opens_only_as(old(state).key, msg, packet@)
        }),
        old(state).ping_seq < u64::MAX ==> final(state).ping_seq == old(state).ping_seq + 1,
{
    let msg = TunnelMessage::Ping { seq: state.ping_seq, timestamp_ms };
    let r = send_to_relay(state, &msg);
    state.ping_seq = state.ping_seq.wrapping_add(1);
    r
}

/// Enters a new connection, in place of one of the same endpoints, and gives
/// the packet that asks the relay for it.
pub fn open_connection(
    state: &mut TunnelState,
    src_ip: [u8; 4],
    src_port: u16,
    dst_ip: [u8; 4],
    dst_port: u16,
) -> (r: Result<(ConnId, Vec<u8>), CryptoError>)
    ensures
        final(state).key == old(state).key,
        final(state).ping_seq == old(state).ping_seq,
        final(state).last_rtt_ms == old(state).last_rtt_ms,
        ({
            let conn = ConnId { src_ip, src_port, dst_ip, dst_port };
            let msg = protocol::Message::Connect(conn);
            &&& final(state).links() == old(state).links().insert(conn, fresh_conn())
            &&& r matches Ok((c, packet)) && c == conn && crypto::is_sealed(
                old(state).key,
                msg,
                packet@,
            ) && crypto::opens_only_as(old(state).key, msg, packet@)
            &&& only_changes(old(state).links(), final(state).links(), Some(conn))
            &&& final(state).links().dom().contains(conn)
            &&& final(state).links()[conn].rx.len() == 0
            &&& !final(state).links()[conn].connected
            &&& !final(state).links()[conn].shutdown
        }),
{
    let conn = ConnId::new(src_ip, src_port, dst_ip, dst_port);
    state.conns.insert(
        conn,
        ConnState { rx_buf: Vec::new(), connected: false, shutdown: false },
    );
    assert(state.links() =~= old(state).links().insert(conn, fresh_conn()));
    match send_to_relay(state, &TunnelMessage::Connect(conn)) {
        Ok(packet) => Ok((conn, packet)),
        Err(e) => Err(e),
    }
}

/// The packets that carry a payload over a connection, in order.
pub fn send_data(state: &TunnelState, conn: ConnId, payload: &[u8]) -> (r: Result<
    Vec<Vec<u8>>,
    CryptoError,
>)
    ensures
        r matches Ok(packets) && packets@.len() == chunk_count(payload@) && forall|i: int|
            0 <= i < packets@.len() ==> {
                let msg = protocol::Message::Data { conn, payload: chunk(payload@, i) };
                &&& crypto::is_sealed(state.key, msg, #[trigger] packets@[i]@)
                &&& crypto::opens_only_as(state.key, msg, packets@[i]@)
            },
{
    let mut packets: Vec<Vec<u8>> = Vec::new();
    let mut start: usize = 0;
    while start < payload.len()
        invariant
            start <= payload.len(),
            start < payload.len() ==> start == packets@.len() * MAX_PAYLOAD_SIZE,
            start == payload.len() ==> packets@.len() == chunk_count(payload@),
            forall|i: int|
                0 <= i < packets@.len() ==> {
                    let msg = protocol::Message::Data { conn, payload: chunk(payload@, i) };
                    &&& crypto::is_sealed(state.key, msg, #[trigger] packets@[i]@)
                    &&& crypto::opens_only_as(state.key, msg, packets@[i]@)
                },
        decreases payload.len() - start,
    {
        let end: usize = if payload.len() - start > MAX_PAYLOAD_SIZE {
            start + MAX_PAYLOAD_SIZE
        } else {
            payload.len()
        };
        let piece: Vec<u8> = slice_to_vec(slice_subrange(payload, start, end));
        assert(piece@ =~= chunk(payload@, packets@.len() as int));
        let msg = TunnelMessage::Data { conn, payload: piece };
        match send_to_relay(state, &msg) {
            Ok(packet) => packets.push(packet),
            Err(e) => return Err(e),
        }
        start = end;
    }
    Ok(packets)
}

/// Takes the data that a connection has received.
pub fn drain_rx(state: &mut TunnelState, conn: &ConnId) -> (data: Vec<u8>)
    ensures
        final(state).key == old(state).key,
        final(state).ping_seq == old(state).ping_seq,
        final(state).last_rtt_ms == old(state).last_rtt_ms,
        if old(state).links().dom().contains(*conn) {
            let before = old(state).links()[*conn];
            &&& data@ == before.rx
            &&& final(state).links() == old(state).links().insert(
                *conn,
                Conn { rx: Seq::empty(), ..before },
            )
        } else {
            &&& data@ == Seq::<u8>::empty()
            &&& final(state).links() == old(state).links()
        },
        only_changes(old(state).links(), final(state).links(), Some(*conn)),
        final(state).links().dom().contains(*conn) <==> old(state).links().dom().contains(*conn),
        old(state).links().dom().contains(*conn) ==> {
            let (was, is) = (old(state).links()[*conn], final(state).links()[*conn]);
            is.rx.len() == 0 && is.connected == was.connected && is.shutdown == was.shutdown
        },
{
    match state.conns.remove(*conn) {
        Some(cs) => {
            state.conns.insert(
                *conn,
                ConnState {
                    rx_buf: Vec::new(),
                    connected: cs.connected,
                    shutdown: cs.shutdown,
                },
            );
            proof {
                let before = old(state).links()[*conn];
                assert(state.links() =~= old(state).links().insert(
                    *conn,
                    Conn { rx: Seq::empty(), ..before },
                ));
            }
            cs.rx_buf
        },
        None => {
            assert(state.links() =~= old(state).links());
            Vec::new()
        },
    }
}

/// Whether a connection is established.
pub fn is_connected(state: &TunnelState, conn: &ConnId) -> (r: bool)
    ensures
        r == (state.links().dom().contains(*conn) && state.links()[*conn].connected),
{
    match state.conns.get(*conn) {
        Some(cs) => cs.connected,
        None => false,
    }
}

/// Whether the server of a connection is done sending.
pub fn is_shutdown(state: &TunnelState, conn: &ConnId) -> (r: bool)
    ensures
        r == (state.links().dom().contains(*conn) && state.links()[*conn].shutdown),
{
    match state.conns.get(*conn) {
        Some(cs) => cs.shutdown,
        None => false,
    }
}

/// The pieces of a payload, in order.
pub open spec fn chunks(payload: Seq<u8>) -> Seq<Seq<u8>> {
    Seq::new(chunk_count(payload), |i: int| chunk(payload, i))
}

/// No piece of a payload is empty, every one but the last is of the largest size and
/// the last is no larger, and the pieces in order make up the payload.
pub proof fn lemma_chunks_make_up_payload(payload: Seq<u8>)
    ensures
        forall|i: int|
            0 <= i < chunks(payload).len() ==> 0 < (#[trigger] chunks(payload)[i]).len()
                <= MAX_PAYLOAD_SIZE,
        forall|i: int|
            0 <= i < chunks(payload).len() - 1 ==> (#[trigger] chunks(payload)[i]).len()
                == MAX_PAYLOAD_SIZE,
        chunks(payload).flatten() == payload,
{
    lemma_first_chunks(payload, chunk_count(payload));
    assert(chunks(payload).take(chunk_count(payload) as int) =~= chunks(payload));
}

proof fn lemma_first_chunks(payload: Seq<u8>, n: nat)
    requires
        n <= chunk_count(payload),
    ensures
        ({
            let end = n * MAX_PAYLOAD_SIZE;
            chunks(payload).take(n as int).flatten() == payload.take(
                if end <= payload.len() {
                    end as int
                } else {
                    payload.len() as int
                },
            )
        }),
    decreases n,
{
    let first = chunks(payload).take(n as int);
    if n == 0 {
        assert(first.flatten() =~= Seq::<u8>::empty());
        assert(payload.take(0) =~= Seq::<u8>::empty());
    } else {
        lemma_first_chunks(payload, (n - 1) as nat);
        assert(first.drop_last() =~= chunks(payload).take(n - 1));
        first.lemma_flatten_and_flatten_alt_are_equivalent();
        first.drop_last().lemma_flatten_and_flatten_alt_are_equivalent();
        let end = n * MAX_PAYLOAD_SIZE;
        let stop = if end <= payload.len() {
            end as int
        } else {
            payload.len() as int
        };
        assert(first.last() == chunk(payload, n - 1));
        assert(first.flatten() =~= payload.take(stop));
    }
}

/// The connections after a payload for each of some messages in turn arrived.
pub open spec fn conns_after_data(
    conns: Map<ConnId, Conn>,
    conn: ConnId,
    payloads: Seq<Seq<u8>>,
) -> Map<ConnId, Conn>
    decreases payloads.len(),
{
    if payloads.len() == 0 {
        conns
    } else {
        conns_after(
            conns_after_data(conns, conn, payloads.drop_last()),
            protocol::Message::Data { conn, payload: payloads.last() },
        )
    }
}

/// What a connection received stands in its buffer in the order of arrival,
/// behind what was there, and nothing else of the table changes.
pub proof fn lemma_data_accumulates(
    conns: Map<ConnId, Conn>,
    conn: ConnId,
    payloads: Seq<Seq<u8>>,
)
    requires
        conns.dom().contains(conn),
    ensures
        conns_after_data(conns, conn, payloads) == conns.insert(
            conn,
            Conn { rx: conns[conn].rx + payloads.flatten(), ..conns[conn] },
        ),
    decreases payloads.len(),
{
    if payloads.len() == 0 {
        assert(payloads.flatten() =~= Seq::<u8>::empty());
        assert(conns[conn].rx + payloads.flatten() =~= conns[conn].rx);
    } else {
        lemma_data_accumulates(conns, conn, payloads.drop_last());
        payloads.lemma_flatten_and_flatten_alt_are_equivalent();
        payloads.drop_last().lemma_flatten_and_flatten_alt_are_equivalent();
        assert(conns[conn].rx + payloads.flatten() =~= conns[conn].rx
            + payloads.drop_last().flatten() + payloads.last());
    }
    assert(conns_after_data(conns, conn, payloads) =~= conns.insert(
        conn,
        Conn { rx: conns[conn].rx + payloads.flatten(), ..conns[conn] },
    ));
}

/// A payload that was cut into pieces for sending is, once the pieces have
/// arrived in order, in the buffer of the connection as it was.
pub proof fn lemma_payload_arrives_whole(
    conns: Map<ConnId, Conn>,
    conn: ConnId,
    payload: Seq<u8>,
)
    requires
        conns.dom().contains(conn),
    ensures
        conns_after_data(conns, conn, chunks(payload))[conn].rx == conns[conn].rx + payload,
{
    lemma_chunks_make_up_payload(payload);
    lemma_data_accumulates(conns, conn, chunks(payload));
}

/// The connection that a message is about, if it is about one.
pub open spec fn about(msg: protocol::Message) -> Option<ConnId> {
    match msg {
        protocol::Message::Connect(conn) => Some(conn),
        protocol::Message::Connected(conn) => Some(conn),
        protocol::Message::ConnectFailed { conn, .. } => Some(conn),
        protocol::Message::Data { conn, .. } => Some(conn),
        protocol::Message::Shutdown(conn) => Some(conn),
        protocol::Message::Reset(conn) => Some(conn),
        protocol::Message::Ping { .. } => None,
        protocol::Message::Pong { .. } => None,
    }
}

/// Whether a table of connections changed at most in one of them: any other is in it
/// afterwards if and only if it was before, as it was.
pub open spec fn only_changes(
    before: Map<ConnId, Conn>,
    after: Map<ConnId, Conn>,
    conn: Option<ConnId>,
) -> bool {
    forall|other: ConnId|
        Some(other) != conn ==> {
            &&& #[trigger] after.dom().contains(other) <==> before.dom().contains(other)
            &&& before.dom().contains(other) ==> after[other] == before[other]
        }
}

/// A message changes no connection but the one that it is about: any other is in
/// the table afterwards if and only if it was before, with the same received bytes
/// and flags.
pub proof fn lemma_other_connections_stay(
    conns: Map<ConnId, Conn>,
    msg: protocol::Message,
    other: ConnId,
)
    requires
        about(msg) != Some(other),
    ensures
        conns_after(conns, msg).dom().contains(other) <==> conns.dom().contains(other),
        conns.dom().contains(other) ==> {
            let (was, is) = (conns[other], conns_after(conns, msg)[other]);
            is.rx == was.rx && is.connected == was.connected && is.shutdown == was.shutdown
        },
{
}

/// Of the connection that a message is about: a failure or a reset takes it out of
/// the table, and no message puts it there. While it stays, what it has received
/// grows by the payload of data and by nothing else, it becomes established by that
/// message alone and shut down by that message alone, and neither is taken back.
pub proof fn lemma_message_acts_on_its_connection(conns: Map<ConnId, Conn>, msg: protocol::Message)
    requires
        about(msg) is Some,
    ensures
        ({
            let conn = about(msg)->Some_0;
            let after = conns_after(conns, msg);
            &&& after.dom().contains(conn) <==> conns.dom().contains(conn) && !(msg is Reset)
                && !(msg is ConnectFailed)
            &&& after.dom().contains(conn) ==> {
                let (was, is) = (conns[conn], after[conn]);
                &&& is.rx == was.rx + match msg {
                    protocol::Message::Data { payload, .. } => payload,
                    _ => Seq::empty(),
                }
                &&& is.connected <==> was.connected || msg is Connected
                &&& is.shutdown <==> was.shutdown || msg is Shutdown
            }
        }),
{
    let conn = about(msg)->Some_0;
    if conns.dom().contains(conn) {
        assert(conns[conn].rx + Seq::<u8>::empty() =~= conns[conn].rx);
    }
}

/// The time between sending and now adds up to now; it is zero if the sending lies
/// ahead.
pub proof fn lemma_elapsed(now_ms: u64, sent_ms: u64)
    ensures
        sent_ms <= now_ms ==> elapsed(now_ms, sent_ms) + sent_ms == now_ms,
        sent_ms > now_ms ==> elapsed(now_ms, sent_ms) == 0,
{
}

/// Only the answer to a probe changes the round-trip time, to the time between the
/// stamp that it carries and now, or to zero if the stamp lies ahead.
pub proof fn lemma_answer_sets_round_trip(rtt_ms: u64, msg: protocol::Message, now_ms: u64)
    ensures
        match msg {
            protocol::Message::Pong { client_timestamp_ms: sent, .. } => {
                &&& now_ms >= sent ==> rtt_after(rtt_ms, msg, now_ms) + sent == now_ms
                &&& now_ms < sent ==> rtt_after(rtt_ms, msg, now_ms) == 0
            },
            _ => rtt_after(rtt_ms, msg, now_ms) == rtt_ms,
        },
{
}

/// What is reported of a message is of its kind and about its connection; whether
/// the connection is known is whether it is in the table; a failure is reported with
/// its reason, an answer with its number and the new round-trip time; and what only
/// a client sends is unexpected.
pub proof fn lemma_report_matches_message(
    event: RelayEvent,
    conns: Map<ConnId, Conn>,
    msg: protocol::Message,
    now_ms: u64,
)
    requires
        reports(event, conns, msg, now_ms),
    ensures
        event is Connected <==> msg is Connected,
        event is Failed <==> msg is ConnectFailed,
        event is Data <==> msg is Data,
        event is Shutdown <==> msg is Shutdown,
        event is Reset <==> msg is Reset,
        event is Pong <==> msg is Pong,
        event is Unexpected <==> msg is Connect || msg is Ping,
        match event {
            RelayEvent::Connected { conn, known } => about(msg) == Some(conn) && known
                == conns.dom().contains(conn),
            RelayEvent::Data { conn, known } => about(msg) == Some(conn) && known
                == conns.dom().contains(conn),
            RelayEvent::Shutdown { conn, known } => about(msg) == Some(conn) && known
                == conns.dom().contains(conn),
            RelayEvent::Failed { conn, reason } => about(msg) == Some(conn) && reason@
                == msg->ConnectFailed_reason,
            RelayEvent::Reset(conn) => about(msg) == Some(conn),
            RelayEvent::Pong { seq, rtt_ms } => {
                let sent = msg->Pong_client_timestamp_ms;
                &&& seq == msg->Pong_seq
                &&& now_ms >= sent ==> rtt_ms + sent == now_ms
                &&& now_ms < sent ==> rtt_ms == 0
            },
            RelayEvent::Unexpected => true,
        },
{
}

/// A connection that was just asked for has received nothing and is neither
/// established nor shut down.
pub proof fn lemma_fresh_connection()
    ensures
        fresh_conn().rx.len() == 0,
        !fresh_conn().connected,
        !fresh_conn().shutdown,
{
}

/// A payload is cut into no more pieces than it takes, and into none if it is empty.
pub proof fn lemma_chunk_count(payload: Seq<u8>)
    ensures
        payload.len() == 0 ==> chunk_count(payload) == 0,
        payload.len() > 0 ==> (chunk_count(payload) - 1) * MAX_PAYLOAD_SIZE < payload.len()
            <= chunk_count(payload) * MAX_PAYLOAD_SIZE,
{
}

} // verus!
