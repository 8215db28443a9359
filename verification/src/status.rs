//! The desktop proxy: what it counts, what it shows, and what it writes in its
//! log.

use vstd::prelude::*;
use vstd::string::StringExecFns;
use crate::cipher;
use crate::crypto::{self, open, seal, CryptoError, TunnelKey};
use crate::hex;
use crate::keys::{self, read_key};
use crate::protocol::{self, TunnelMessage};
use crate::text::{self, now_iso, push_decimal};
use crate::tunnel;

verus! {

/// How to reach a relay, as the user gives it.
#[derive(Debug, Clone)]
pub struct RelayConfig {
    pub relay_addr: String,
    pub key_hex: String,
}

/// What is shown of the proxy.
#[derive(Debug, Clone)]
pub struct ProxyStatus {
    pub state: &'static str,
    pub rtt_ms: Option<u64>,
    pub uptime_secs: u64,
    pub bytes_tx: u64,
    pub bytes_rx: u64,
    pub active_connections: u32,
}

/// A line of the log, with its time.
#[derive(Debug, Clone)]
pub struct LogEntry {
    pub timestamp: String,
    pub level: &'static str,
    pub message: String,
}

/// A line of the log.
pub struct LogLine {
    pub level: &'static str,
    pub message: String,
}

/// What a running proxy counts.
#[derive(Debug, Clone, Copy, PartialEq, Eq, Structural)]
pub struct ProxyStats {
    /// The last round-trip time, or zero if none is known.
    pub rtt_ms: u64,
    pub bytes_tx: u64,
    pub bytes_rx: u64,
    pub active_connections: u64,
    /// Whether the relay has answered.
    pub connected: bool,
}

/// Whether a line of the log says this.
pub open spec fn says(line: LogLine, level: Seq<char>, message: Seq<char>) -> bool {
    line.level@ == level && line.message@ == message
}

/// A counter after something was added to it: it starts again at zero where it
/// would not fit.
pub open spec fn counted(counter: u64, n: nat) -> u64 {
    ((counter + n) % 0x1_0000_0000_0000_0000) as u64
}

/// A counter that is one less: it starts again at the largest number below zero.
pub open spec fn one_less(counter: u64) -> u64 {
    if counter == 0 {
        u64::MAX
    } else {
        (counter - 1) as u64
    }
}

impl ProxyStats {
    /// What a new proxy has counted.
    pub fn new() -> (stats: Self)
        ensures
            stats == fresh_stats(),
    {
        ProxyStats { rtt_ms: 0, bytes_tx: 0, bytes_rx: 0, active_connections: 0, connected: false }
    }
}

/// What a new proxy has counted.
pub open spec fn fresh_stats() -> ProxyStats {
    ProxyStats { rtt_ms: 0, bytes_tx: 0, bytes_rx: 0, active_connections: 0, connected: false }
}

/// Whether this is what is shown of a proxy with these counters, or of none.
pub open spec fn shows(status: ProxyStatus, stats: Option<ProxyStats>, uptime_secs: u64) -> bool {
    match stats {
        Some(s) => {
            &&& status.state@ == if s.connected {
                "connected"@
            } else {
                "connecting"@
            }
            &&& status.rtt_ms == if s.rtt_ms > 0 {
                Some(s.rtt_ms)
            } else {
                None
            }
            &&& status.uptime_secs == uptime_secs
            &&& status.bytes_tx == s.bytes_tx
            &&& status.bytes_rx == s.bytes_rx
            &&& status.active_connections == s.active_connections % 0x1_0000_0000
        },
        None => {
            &&& status.state@ == "disconnected"@
            &&& status.rtt_ms is None
            &&& status.uptime_secs == 0
            &&& status.bytes_tx == 0
            &&& status.bytes_rx == 0
            &&& status.active_connections == 0
        },
    }
}

/// What is shown of a running proxy.
pub fn build_status(stats: &ProxyStats, uptime_secs: u64) -> (status: ProxyStatus)
    ensures
        shows(status, Some(*stats), uptime_secs),
        stats.connected ==> status.state@ == "connected"@,
        !stats.connected ==> status.state@ == "connecting"@,
{
    let active: u64 = stats.active_connections;
    assert(active as u32 == active % 0x1_0000_0000) by (bit_vector);
    ProxyStatus {
        state: if stats.connected {
            "connected"
        } else {
            "connecting"
        },
        rtt_ms: if stats.rtt_ms > 0 {
            Some(stats.rtt_ms)
        } else {
            None
        },
        uptime_secs,
        bytes_tx: stats.bytes_tx,
        bytes_rx: stats.bytes_rx,
        active_connections: #[verifier::truncate] (active as u32),
    }
}

/// A line of the log at a time of day.
pub fn log_entry(secs: u64, line: LogLine) -> (entry: LogEntry)
    ensures
        entry.timestamp@ == text::clock_text(secs as nat),
        entry.level@ == line.level@,
        entry.message@ == line.message@,
{
    LogEntry { timestamp: now_iso(secs), level: line.level, message: line.message }
}

/// The counters after a message from the relay.
pub open spec fn stats_after(stats: ProxyStats, msg: protocol::Message, now_ms: u64) -> ProxyStats {
    match msg {
        protocol::Message::Pong { client_timestamp_ms, .. } => ProxyStats {
            rtt_ms: tunnel::elapsed(now_ms, client_timestamp_ms),
            connected: true,
            ..stats
        },
        protocol::Message::Connected(_) => ProxyStats {
            active_connections: counted(stats.active_connections, 1),
            ..stats
        },
        protocol::Message::Shutdown(_) => ProxyStats {
            active_connections: one_less(stats.active_connections),
            ..stats
        },
        protocol::Message::Reset(_) => ProxyStats {
            active_connections: one_less(stats.active_connections),
            ..stats
        },
        protocol::Message::Data { payload, .. } => ProxyStats {
            bytes_rx: counted(stats.bytes_rx, payload.len()),
            ..stats
        },
        _ => stats,
    }
}

/// The level and text of the line about a message from the relay, if it gets one.
pub open spec fn message_note(msg: protocol::Message, now_ms: u64) -> Option<
    (Seq<char>, Seq<char>),
> {
    match msg {
        protocol::Message::Pong { seq, client_timestamp_ms } => Some(
            (
                "info"@,
                "Pong seq="@ + text::decimal(seq as nat) + " rtt="@ + text::decimal(
                    tunnel::elapsed(now_ms, client_timestamp_ms) as nat,
                ) + "ms"@,
            ),
        ),
        protocol::Message::Connected(conn) => Some(
            ("info"@, "Connection established: "@ + conn.text()),
        ),
        protocol::Message::ConnectFailed { conn, reason } => Some(
            ("error"@, "Connect failed "@ + conn.text() + ": "@ + reason),
        ),
        protocol::Message::Shutdown(conn) => Some(
            ("info"@, "Connection closed: "@ + conn.text()),
        ),
        protocol::Message::Reset(conn) => Some(("warn"@, "Connection reset: "@ + conn.text())),
        _ => None,
    }
}

/// Whether a line is the one that is due, or is missing where none is.
pub open spec fn is_note(line: Option<LogLine>, note: Option<(Seq<char>, Seq<char>)>) -> bool {
    match note {
        Some((level, message)) => line matches Some(l) && says(l, level, message),
        None => line is None,
    }
}

fn line(level: &'static str, start: &str, rest: &str) -> (l: LogLine)
    ensures
        says(l, level@, start@ + rest@),
{
    let mut message = start.to_owned();
    message.append(rest);
    LogLine { level, message }
}

/// Takes in a message from the relay.
pub fn handle_relay_msg(stats: &mut ProxyStats, msg: TunnelMessage, now_ms: u64) -> (note: Option<
    LogLine,
>)
    ensures
        *final(stats) == stats_after(*old(stats), msg@, now_ms),
        is_note(note, message_note(msg@, now_ms)),
{
    match msg {
        TunnelMessage::Pong { seq, client_timestamp_ms } => {
            let rtt: u64 = now_ms.saturating_sub(client_timestamp_ms);
            stats.rtt_ms = rtt;
            stats.connected = true;
            let mut message = "Pong seq=".to_owned();
            push_decimal(&mut message, seq);
            message.append(" rtt=");
            push_decimal(&mut message, rtt);
            message.append("ms");
            Some(LogLine { level: "info", message })
        },
        TunnelMessage::Connected(conn) => {
            stats.active_connections = stats.active_connections.wrapping_add(1);
            Some(line("info", "Connection established: ", conn.to_text().as_str()))
        },
        TunnelMessage::ConnectFailed { conn, reason } => {
            let mut message = "Connect failed ".to_owned();
            message.append(conn.to_text().as_str());
            message.append(": ");
            message.append(reason.as_str());
            Some(LogLine { level: "error", message })
        },
        TunnelMessage::Shutdown(conn) => {
            stats.active_connections = stats.active_connections.wrapping_sub(1);
            Some(line("info", "Connection closed: ", conn.to_text().as_str()))
        },
        TunnelMessage::Reset(conn) => {
            stats.active_connections = stats.active_connections.wrapping_sub(1);
            Some(line("warn", "Connection reset: ", conn.to_text().as_str()))
        },
        TunnelMessage::Data { payload, .. } => {
            stats.bytes_rx = stats.bytes_rx.wrapping_add(payload.len() as u64);
            None
        },
        _ => None,
    }
}

/// What happens to the tunnel of a running proxy.
pub enum TunnelEvent {
    /// A datagram came in.
    Received(Vec<u8>),
    /// Nothing could be received, for this reason.
    RecvFailed(String),
    /// The proxy was stopped.
    Cancelled,
}

/// The counters after something happened to the tunnel.
pub open spec fn stats_after_event(
    stats: ProxyStats,
    key: TunnelKey,
    event: TunnelEvent,
    now_ms: u64,
) -> ProxyStats {
    match event {
        TunnelEvent::Received(packet) => {
            let heard = ProxyStats { bytes_rx: counted(stats.bytes_rx, packet@.len()), ..stats };
            match crypto::opened(key, packet@) {
                Some(msg) => stats_after(heard, msg, now_ms),
                None => heard,
            }
        },
        _ => ProxyStats { connected: false, ..stats },
    }
}

/// The line of the log about something that happened to the tunnel, if it gets
/// one.
pub open spec fn event_note(key: TunnelKey, event: TunnelEvent, now_ms: u64) -> Option<
    (Seq<char>, Seq<char>),
> {
    match event {
        TunnelEvent::Received(packet) => match crypto::opened(key, packet@) {
            Some(msg) => message_note(msg, now_ms),
            None => Some(
                ("warn"@, "Decrypt failed: "@ + crypto::open_error_text(key, packet@)),
            ),
        },
        TunnelEvent::RecvFailed(reason) => Some(("error"@, "Recv error: "@ + reason@)),
        TunnelEvent::Cancelled => Some(("info"@, "Tunnel shutting down"@)),
    }
}

/// Takes in something that happened to the tunnel. It goes on while datagrams
/// come in.
pub fn run_tunnel_step(stats: &mut ProxyStats, key: &TunnelKey, event: TunnelEvent, now_ms: u64) -> (r:
    (Option<LogLine>, bool))
    requires
        event matches TunnelEvent::Received(packet) ==> packet@.len() >= 44
            ==> cipher::cipher_returns((packet@.len() - 44) as nat),
    ensures
        *final(stats) == stats_after_event(*old(stats), *key, event, now_ms),
        is_note(r.0, event_note(*key, event, now_ms)),
        r.1 == (event is Received),
        !r.1 ==> !final(stats).connected,
{
    match event {
        TunnelEvent::Received(packet) => {
            stats.bytes_rx = stats.bytes_rx.wrapping_add(packet.len() as u64);
            match open(key, packet.as_slice()) {
                Ok(msg) => (handle_relay_msg(stats, msg, now_ms), true),
                Err(e) => (Some(line("warn", "Decrypt failed: ", e.to_text().as_str())), true),
            }
        },
        TunnelEvent::RecvFailed(reason) => {
            stats.connected = false;
            (Some(line("error", "Recv error: ", reason.as_str())), false)
        },
        TunnelEvent::Cancelled => {
            stats.connected = false;
            (Some(LogLine { level: "info", message: "Tunnel shutting down".to_owned() }), false)
        },
    }
}

/// The latency probes of a running proxy.
pub struct Pinger {
    /// The number of the next one.
    pub seq: u64,
}

impl Pinger {
    /// Numbers a probe, counts its bytes, and gives the packet that carries it.
    #[verifier::spinoff_prover]
    #[verifier::rlimit(40)]
    pub fn next(&mut self, stats: &mut ProxyStats, key: &TunnelKey, timestamp_ms: u64) -> (r: Result<
        Vec<u8>,
        CryptoError,
    >)
        requires
            old(self).seq < u64::MAX,
        ensures
            final(self).seq == old(self).seq + 1,
            ({
                let msg = protocol::Message::Ping { seq: old(self).seq, timestamp_ms };
                r matches Ok(packet) && crypto::is_sealed(*key, msg, packet@)
                    && crypto::opens_only_as(*key, msg, packet@) && *final(stats) == (ProxyStats {
                    bytes_tx: counted(old(stats).bytes_tx, packet@.len()),
                    ..*old(stats)
                })
            }),
    {
        let msg = TunnelMessage::Ping { seq: self.seq, timestamp_ms };
        self.seq = self.seq + 1;
        match seal(key, &msg) {
            Ok(packet) => {
                stats.bytes_tx = stats.bytes_tx.wrapping_add(packet.len() as u64);
                Ok(packet)
            },
            Err(e) => Err(e),
        }
    }
}

/// The proxy of the desktop program: at most one runs at a time.
pub struct ProxyState {
    /// The number of the running session, if one runs.
    pub running: Option<u64>,
}

impl ProxyState {
    /// A proxy that does not run.
    pub fn new() -> (state: Self)
        ensures
            state.running is None,
    {
        ProxyState { running: None }
    }

    /// Ends the running session, if one runs, and gives its number.
    pub fn take_running(&mut self) -> (session: Option<u64>)
        ensures
            session == old(self).running,
            final(self).running is None,
    {
        let session: Option<u64> = self.running;
        self.running = None;
        session
    }
}

/// Starts a session, after the one before was ended, if the relay's address, as it
/// was read, and the key are good.
pub fn start_proxy(
    state: &mut ProxyState,
    session: u64,
    config: &RelayConfig,
    relay_addr: Result<String, String>,
) -> (r: Result<(TunnelKey, ProxyStats, LogLine), String>)
    requires
        old(state).running is None,
    ensures
        final(state).running == if r is Ok {
            Some(session)
        } else {
            None
        },
        r is Ok <==> relay_addr is Ok && keys::spells_key(config.key_hex@),
        match r {
            Ok((key, stats, note)) => {
                &&& key == keys::key_in(config.key_hex@)
                &&& stats == fresh_stats()
                &&& says(note, "info"@, "Connecting to relay "@ + relay_addr->Ok_0@ + "..."@)
            },
            Err(text) => match relay_addr {
                Err(reason) => text@ == "Invalid relay address: "@ + reason@,
                Ok(_) => exists|e: hex::HexError| #[trigger]
                    keys::is_key_error(config.key_hex@, e) && text@ == e.label(),
            },
        },
{
    let addr: String = match relay_addr {
        Ok(addr) => addr,
        Err(reason) => {
            let mut text = "Invalid relay address: ".to_owned();
            text.append(reason.as_str());
            return Err(text);
        },
    };
    let key: TunnelKey = match read_key(config.key_hex.as_str()) {
        Ok(key) => key,
        Err(e) => {
            assert(keys::is_key_error(config.key_hex@, e));
            return Err(e.to_label());
        },
    };
    state.running = Some(session);
    let mut message = "Connecting to relay ".to_owned();
    message.append(addr.as_str());
    message.append("...");
    Ok((key, ProxyStats::new(), LogLine { level: "info", message }))
}

/// Ends the running session. The log gets a line if one ran.
pub fn stop_proxy(state: &mut ProxyState) -> (r: Option<(u64, LogLine)>)
    ensures
        final(state).running is None,
        match r {
            Some((session, note)) => {
                &&& old(state).running == Some(session)
                &&& says(note, "info"@, "Proxy stopped"@)
            },
            None => old(state).running is None,
        },
        r is Some <==> old(state).running is Some,
{
    match state.take_running() {
        Some(session) => Some(
            (session, LogLine { level: "info", message: "Proxy stopped".to_owned() }),
        ),
        None => None,
    }
}

/// What is shown of the proxy, with the counters of the running one.
pub fn get_status(stats: Option<&ProxyStats>, uptime_secs: u64) -> (status: ProxyStatus)
    ensures
        shows(
            status,
            match stats {
                Some(s) => Some(*s),
                None => None,
            },
            uptime_secs,
        ),
{
    match stats {
        Some(s) => build_status(s, uptime_secs),
        None => ProxyStatus {
            state: "disconnected",
            rtt_ms: None,
            uptime_secs: 0,
            bytes_tx: 0,
            bytes_rx: 0,
            active_connections: 0,
        },
    }
}

/// The proxy counts as connected by the answer to a probe and by nothing else,
/// until its tunnel ends.
pub proof fn lemma_connected_by_answer_only(
    stats: ProxyStats,
    key: TunnelKey,
    event: TunnelEvent,
    now_ms: u64,
)
    ensures
        stats_after_event(stats, key, event, now_ms).connected <==> {
            &&& event matches TunnelEvent::Received(packet)
            &&& stats.connected || (crypto::opened(key, packet@) matches Some(msg) && msg is Pong)
        },
{
}

/// A connection that is established and then closed or reset leaves the number
/// of active connections as it was.
pub proof fn lemma_connection_count_balances(
    stats: ProxyStats,
    conn: protocol::ConnId,
    end: protocol::Message,
    now_ms: u64,
)
    requires
        end == protocol::Message::Shutdown(conn) || end == protocol::Message::Reset(conn),
    ensures
        stats_after(stats_after(stats, protocol::Message::Connected(conn), now_ms), end, now_ms)
            == stats,
{
}

/// The counters after several messages from the relay in turn, each with the time
/// at which it came.
pub open spec fn stats_after_all(
    stats: ProxyStats,
    msgs: Seq<(protocol::Message, u64)>,
) -> ProxyStats
    decreases msgs.len(),
{
    if msgs.len() == 0 {
        stats
    } else {
        let (msg, now_ms) = msgs.last();
        stats_after(stats_after_all(stats, msgs.drop_last()), msg, now_ms)
    }
}

/// How many connections some messages say were established.
pub open spec fn established(msgs: Seq<(protocol::Message, u64)>) -> nat
    decreases msgs.len(),
{
    if msgs.len() == 0 {
        0
    } else {
        established(msgs.drop_last()) + if msgs.last().0 is Connected {
            1nat
        } else {
            0nat
        }
    }
}

/// How many connections some messages say were closed or reset.
pub open spec fn ended(msgs: Seq<(protocol::Message, u64)>) -> nat
    decreases msgs.len(),
{
    if msgs.len() == 0 {
        0
    } else {
        ended(msgs.drop_last()) + if msgs.last().0 is Shutdown || msgs.last().0 is Reset {
            1nat
        } else {
            0nat
        }
    }
}

/// How many bytes the payloads of some messages have.
pub open spec fn payload_bytes(msgs: Seq<(protocol::Message, u64)>) -> nat
    decreases msgs.len(),
{
    if msgs.len() == 0 {
        0
    } else {
        payload_bytes(msgs.drop_last()) + match msgs.last().0 {
            protocol::Message::Data { payload, .. } => payload.len(),
            _ => 0,
        }
    }
}

/// Whether one of some messages answers a probe.
pub open spec fn has_answer(msgs: Seq<(protocol::Message, u64)>) -> bool {
    exists|i: int| 0 <= i < msgs.len() && (#[trigger] msgs[i]).0 is Pong
}

/// The last round-trip time after some messages: that of the last answer among
/// them, or the one before.
pub open spec fn last_rtt(rtt_ms: u64, msgs: Seq<(protocol::Message, u64)>) -> u64
    decreases msgs.len(),
{
    if msgs.len() == 0 {
        rtt_ms
    } else {
        match msgs.last().0 {
            protocol::Message::Pong { client_timestamp_ms, .. } => tunnel::elapsed(
                msgs.last().1,
                client_timestamp_ms,
            ),
            _ => last_rtt(rtt_ms, msgs.drop_last()),
        }
    }
}

/// After several messages the number of active connections is larger by those
/// established and smaller by those closed or reset, and the bytes received are
/// more by those of the payloads, both modulo 2^64; the bytes sent are the same;
/// the proxy is connected if it was or if a probe was answered; and the round-trip
/// time is that of the last answer, or the old one if there was none.
pub proof fn lemma_messages_add_up(stats: ProxyStats, msgs: Seq<(protocol::Message, u64)>)
    ensures
        ({
            let after = stats_after_all(stats, msgs);
            &&& after.active_connections == (stats.active_connections + established(msgs) - ended(
                msgs,
            )) % 0x1_0000_0000_0000_0000
            &&& after.bytes_rx == (stats.bytes_rx + payload_bytes(msgs)) % 0x1_0000_0000_0000_0000
            &&& after.bytes_tx == stats.bytes_tx
            &&& after.connected == (stats.connected || has_answer(msgs))
            &&& after.rtt_ms == last_rtt(stats.rtt_ms, msgs)
            &&& !has_answer(msgs) ==> after.rtt_ms == stats.rtt_ms
        }),
    decreases msgs.len(),
{
    if msgs.len() > 0 {
        let init = msgs.drop_last();
        let n = msgs.len() - 1;
        lemma_messages_add_up(stats, init);
        assert(msgs[n] == msgs.last());
        assert(forall|i: int| 0 <= i < n ==> msgs[i] == init[i]);
        if has_answer(init) {
            let i = choose|i: int| 0 <= i < init.len() && (#[trigger] init[i]).0 is Pong;
            assert(msgs[i].0 is Pong);
        }
        if has_answer(msgs) && !(msgs.last().0 is Pong) {
            let i = choose|i: int| 0 <= i < msgs.len() && (#[trigger] msgs[i]).0 is Pong;
            assert(init[i].0 is Pong);
        }
    }
}

/// As long as no more connections end than there are, and the counters do not run
/// over, the number of active connections is exactly the old one with those
/// established and without those ended, and the bytes received are exactly the old
/// ones and those of the payloads.
pub proof fn lemma_messages_add_up_exactly(stats: ProxyStats, msgs: Seq<(protocol::Message, u64)>)
    requires
        ended(msgs) <= stats.active_connections + established(msgs),
        stats.active_connections + established(msgs) - ended(msgs) <= u64::MAX,
        stats.bytes_rx + payload_bytes(msgs) <= u64::MAX,
    ensures
        ({
            let after = stats_after_all(stats, msgs);
            &&& after.active_connections == stats.active_connections + established(msgs) - ended(
                msgs,
            )
            &&& after.bytes_rx == stats.bytes_rx + payload_bytes(msgs)
        }),
{
    lemma_messages_add_up(stats, msgs);
}

proof fn lemma_states_differ()
    ensures
        "connected"@ != "connecting"@,
        "connected"@ != "disconnected"@,
        "connecting"@ != "disconnected"@,
{
    reveal_strlit("connected");
    reveal_strlit("connecting");
    reveal_strlit("disconnected");
    assert("connected"@.len() == 9);
    assert("connecting"@.len() == 10);
    assert("disconnected"@.len() == 12);
}

/// The shown state depends on nothing but whether a proxy runs and whether the relay
/// has answered it, whatever the other counters are.
pub proof fn lemma_shown_state(status: ProxyStatus, stats: Option<ProxyStats>, uptime_secs: u64)
    requires
        shows(status, stats, uptime_secs),
    ensures
        status.state@ == "disconnected"@ <==> stats is None,
        status.state@ == "connected"@ <==> (stats matches Some(s) && s.connected),
        status.state@ == "connecting"@ <==> (stats matches Some(s) && !s.connected),
{
    lemma_states_differ();
}

/// Two proxies that were both answered, or both not, are shown in the same state.
pub proof fn lemma_same_shown_state(
    a: ProxyStatus,
    b: ProxyStatus,
    s: ProxyStats,
    t: ProxyStats,
    uptime_a: u64,
    uptime_b: u64,
)
    requires
        shows(a, Some(s), uptime_a),
        shows(b, Some(t), uptime_b),
    ensures
        s.connected == t.connected <==> a.state@ == b.state@,
{
    lemma_states_differ();
}

/// The shown numbers are those that were counted: a round-trip time once one other
/// than zero is known, the bytes, and the connections modulo 2^32.
pub proof fn lemma_shown_numbers(status: ProxyStatus, stats: ProxyStats, uptime_secs: u64)
    requires
        shows(status, Some(stats), uptime_secs),
    ensures
        status.rtt_ms is None <==> stats.rtt_ms == 0,
        status.rtt_ms matches Some(ms) ==> ms == stats.rtt_ms,
        status.uptime_secs == uptime_secs,
        status.bytes_tx == stats.bytes_tx,
        status.bytes_rx == stats.bytes_rx,
        (stats.active_connections - status.active_connections) % 0x1_0000_0000 == 0,
        stats.active_connections <= u32::MAX ==> status.active_connections
            == stats.active_connections,
{
}

/// Nothing is counted of a proxy that does not run.
pub proof fn lemma_nothing_shown_of_none(status: ProxyStatus, uptime_secs: u64)
    requires
        shows(status, None, uptime_secs),
    ensures
        status.rtt_ms is None,
        status.uptime_secs == 0,
        status.bytes_tx == 0,
        status.bytes_rx == 0,
        status.active_connections == 0,
{
}

/// A new proxy has counted nothing and was not answered.
pub proof fn lemma_fresh_stats(stats: ProxyStats)
    requires
        stats == fresh_stats(),
    ensures
        stats.rtt_ms == 0,
        stats.bytes_tx == 0,
        stats.bytes_rx == 0,
        stats.active_connections == 0,
        !stats.connected,
{
}

/// The counters after several things happened to the tunnel in turn, each with the
/// time at which it did.
pub open spec fn stats_after_events(
    stats: ProxyStats,
    key: TunnelKey,
    events: Seq<(TunnelEvent, u64)>,
) -> ProxyStats
    decreases events.len(),
{
    if events.len() == 0 {
        stats
    } else {
        let (event, now_ms) = events.last();
        stats_after_event(stats_after_events(stats, key, events.drop_last()), key, event, now_ms)
    }
}

/// Whether a datagram that answers a probe came in.
pub open spec fn is_answer(key: TunnelKey, event: TunnelEvent) -> bool {
    &&& event matches TunnelEvent::Received(packet)
    &&& crypto::opened(key, packet@) matches Some(msg)
    &&& msg is Pong
}

/// Once a probe was answered the proxy is shown as connected, whatever else it has
/// counted, for as long as datagrams come in.
pub proof fn lemma_connected_once_answered(
    stats: ProxyStats,
    key: TunnelKey,
    events: Seq<(TunnelEvent, u64)>,
    i: int,
    status: ProxyStatus,
    uptime_secs: u64,
)
    requires
        0 <= i < events.len(),
        is_answer(key, events[i].0),
        forall|j: int| i < j < events.len() ==> (#[trigger] events[j]).0 is Received,
        shows(status, Some(stats_after_events(stats, key, events)), uptime_secs),
    ensures
        status.state@ == "connected"@,
{
    lemma_stays_connected(stats, key, events, i);
}

proof fn lemma_stays_connected(
    stats: ProxyStats,
    key: TunnelKey,
    events: Seq<(TunnelEvent, u64)>,
    i: int,
)
    requires
        0 <= i < events.len(),
        is_answer(key, events[i].0),
        forall|j: int| i < j < events.len() ==> (#[trigger] events[j]).0 is Received,
    ensures
        stats_after_events(stats, key, events).connected,
    decreases events.len(),
{
    let init = events.drop_last();
    if i < events.len() - 1 {
        assert(forall|j: int| 0 <= j < init.len() ==> init[j] == events[j]);
        lemma_stays_connected(stats, key, init, i);
        assert(events[events.len() - 1].0 is Received);
    }
}

/// Before the first answer to a probe a new proxy is shown as connecting.
pub proof fn lemma_connecting_until_answered(
    stats: ProxyStats,
    key: TunnelKey,
    events: Seq<(TunnelEvent, u64)>,
    status: ProxyStatus,
    uptime_secs: u64,
)
    requires
        !stats.connected,
        forall|j: int| 0 <= j < events.len() ==> !is_answer(key, (#[trigger] events[j]).0),
        shows(status, Some(stats_after_events(stats, key, events)), uptime_secs),
    ensures
        status.state@ == "connecting"@,
{
    lemma_stays_unconnected(stats, key, events);
}

proof fn lemma_stays_unconnected(
    stats: ProxyStats,
    key: TunnelKey,
    events: Seq<(TunnelEvent, u64)>,
)
    requires
        !stats.connected,
        forall|j: int| 0 <= j < events.len() ==> !is_answer(key, (#[trigger] events[j]).0),
    ensures
        !stats_after_events(stats, key, events).connected,
    decreases events.len(),
{
    if events.len() > 0 {
        let init = events.drop_last();
        assert(forall|j: int| 0 <= j < init.len() ==> init[j] == events[j]);
        lemma_stays_unconnected(stats, key, init);
        assert(!is_answer(key, events[events.len() - 1].0));
    }
}

/// When the tunnel ends, only whether the relay has answered changes: it has not.
pub proof fn lemma_end_of_tunnel(
    stats: ProxyStats,
    key: TunnelKey,
    event: TunnelEvent,
    now_ms: u64,
)
    requires
        !(event is Received),
    ensures
        ({
            let after = stats_after_event(stats, key, event, now_ms);
            &&& !after.connected
            &&& after.rtt_ms == stats.rtt_ms
            &&& after.bytes_tx == stats.bytes_tx
            &&& after.bytes_rx == stats.bytes_rx
            &&& after.active_connections == stats.active_connections
        }),
{
}

/// Every datagram counts with all its bytes as received, and once more with those of
/// the payload that it carries; one that does not open changes nothing else.
pub proof fn lemma_datagram_is_counted(
    stats: ProxyStats,
    key: TunnelKey,
    packet: Vec<u8>,
    now_ms: u64,
)
    ensures
        ({
            let after = stats_after_event(stats, key, TunnelEvent::Received(packet), now_ms);
            let carried = match crypto::opened(key, packet@) {
                Some(protocol::Message::Data { payload, .. }) => payload.len() as int,
                _ => 0,
            };
            &&& after.bytes_rx == (stats.bytes_rx + packet@.len() + carried)
                % 0x1_0000_0000_0000_0000
            &&& after.bytes_tx == stats.bytes_tx
            &&& crypto::opened(key, packet@) is None ==> {
                &&& after.rtt_ms == stats.rtt_ms
                &&& after.active_connections == stats.active_connections
                &&& after.connected == stats.connected
            }
        }),
{
}

/// Of the counters other than those of bytes, a message changes at most these: an
/// answer the round-trip time and whether there was one, an established connection
/// and an ended one the number of connections, by one.
pub proof fn lemma_message_is_counted(stats: ProxyStats, msg: protocol::Message, now_ms: u64)
    ensures
        ({
            let after = stats_after(stats, msg, now_ms);
            &&& after.connected <==> stats.connected || msg is Pong
            &&& match msg {
                protocol::Message::Pong { client_timestamp_ms: sent, .. } => {
                    &&& now_ms >= sent ==> after.rtt_ms + sent == now_ms
                    &&& now_ms < sent ==> after.rtt_ms == 0
                },
                _ => after.rtt_ms == stats.rtt_ms,
            }
            &&& if msg is Connected {
                (after.active_connections - stats.active_connections - 1)
                    % 0x1_0000_0000_0000_0000 == 0
            } else if msg is Shutdown || msg is Reset {
                (after.active_connections - stats.active_connections + 1)
                    % 0x1_0000_0000_0000_0000 == 0
            } else {
                after.active_connections == stats.active_connections
            }
        }),
{
}

/// The log gets a line about every message but data and what only a client sends: an
/// error if a connection failed, a warning if one was reset. The line names the
/// connection.
pub proof fn lemma_message_is_noted(msg: protocol::Message, now_ms: u64)
    ensures
        message_note(msg, now_ms) is None <==> msg is Data || msg is Connect || msg is Ping,
        message_note(msg, now_ms) matches Some((level, line)) ==> {
            &&& level == if msg is ConnectFailed {
                "error"@
            } else if msg is Reset {
                "warn"@
            } else {
                "info"@
            }
            &&& match msg {
                protocol::Message::Connected(conn) => line == "Connection established: "@
                    + conn.text(),
                protocol::Message::Shutdown(conn) => line == "Connection closed: "@ + conn.text(),
                protocol::Message::Reset(conn) => line == "Connection reset: "@ + conn.text(),
                protocol::Message::ConnectFailed { conn, reason } => line == "Connect failed "@
                    + conn.text() + ": "@ + reason,
                _ => true,
            }
        },
{
}

/// The log gets a line about every datagram that does not open and about the end of
/// the tunnel; about any other datagram it gets the line of the message.
pub proof fn lemma_event_is_noted(key: TunnelKey, event: TunnelEvent, now_ms: u64)
    ensures
        match event {
            TunnelEvent::Received(packet) => match crypto::opened(key, packet@) {
                Some(msg) => event_note(key, event, now_ms) == message_note(msg, now_ms),
                None => event_note(key, event, now_ms) matches Some((level, _)) && level
                    == "warn"@,
            },
            TunnelEvent::RecvFailed(reason) => event_note(key, event, now_ms) matches Some(
                (level, line),
            ) && level == "error"@ && line == "Recv error: "@ + reason@,
            TunnelEvent::Cancelled => event_note(key, event, now_ms) matches Some((level, _))
                && level == "info"@,
        },
{
}

/// A line that is due is there, with its level and its text, and no other is.
pub proof fn lemma_due_line(line: Option<LogLine>, note: Option<(Seq<char>, Seq<char>)>)
    requires
        is_note(line, note),
    ensures
        line is Some <==> note is Some,
        line matches Some(l) ==> (note matches Some((level, message)) && l.level@ == level
            && l.message@ == message),
{
}

} // verus!
