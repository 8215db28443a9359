//! Tunnel messages and their wire form.

use vstd::prelude::*;
use vstd::string::StringExecFns;
use vstd::utf8;
use crate::bytes;
use crate::codec::{
    self, deserialize_endpoints, deserialize_endpoints_bytes, deserialize_endpoints_text,
    deserialize_pair, deserialize_tag, serialize_endpoints, serialize_endpoints_bytes,
    serialize_endpoints_text, serialize_pair,
};
use crate::text::{self, push_decimal, push_ip};

verus! {

/// Maximum payload of one tunnel message, so that a packet stays within a
/// typical MTU.
pub const MAX_PAYLOAD_SIZE: usize = 1280;

/// Maximum size of an encrypted tunnel packet on the wire.
pub const MAX_PACKET_SIZE: usize = 2048;

/// Identifies a proxied TCP connection by its source and destination.
#[derive(Debug, Clone, Copy, PartialEq, Eq, Hash)]
pub struct ConnId {
    pub src_ip: [u8; 4],
    pub src_port: u16,
    pub dst_ip: [u8; 4],
    pub dst_port: u16,
}

impl ConnId {
    /// The connection from `src_ip:src_port` to `dst_ip:dst_port`.
    pub fn new(src_ip: [u8; 4], src_port: u16, dst_ip: [u8; 4], dst_port: u16) -> (conn: Self)
        ensures
            conn == (ConnId { src_ip, src_port, dst_ip, dst_port }),
    {
        ConnId { src_ip, src_port, dst_ip, dst_port }
    }

    /// The source address.
    pub fn src_addr(&self) -> (ip: [u8; 4])
        ensures
            ip == self.src_ip,
    {
        self.src_ip
    }

    /// The destination address.
    pub fn dst_addr(&self) -> (ip: [u8; 4])
        ensures
            ip == self.dst_ip,
    {
        self.dst_ip
    }

    /// The connection in words: source, then destination.
    pub fn to_text(&self) -> (text: String)
        ensures
            text@ == self.text(),
    {
        let mut out = String::new();
        push_ip(&mut out, &self.src_ip);
        out.append(":");
        push_decimal(&mut out, self.src_port as u64);
        out.append(" → ");
        push_ip(&mut out, &self.dst_ip);
        out.append(":");
        push_decimal(&mut out, self.dst_port as u64);
        assert(out@ =~= self.text());
        out
    }

    /// What [`ConnId::to_text`] gives.
    pub open spec fn text(self) -> Seq<char> {
        text::ip_text(self.src_ip@) + ":"@ + text::decimal(self.src_port as nat) + " → "@
            + text::ip_text(self.dst_ip@) + ":"@ + text::decimal(self.dst_port as nat)
    }

    /// The bytes by which a message carries this connection.
    pub open spec fn wire(self) -> Seq<u8> {
        codec::endpoint_bytes(self.src_ip@, self.src_port, self.dst_ip@, self.dst_port)
    }
}

/// A message between a client and a relay.
#[derive(Debug, Clone)]
pub enum TunnelMessage {
    /// Client to relay: open a TCP connection to the game server.
    Connect(ConnId),
    /// Relay to client: the TCP connection is established.
    Connected(ConnId),
    /// Relay to client: the TCP connection failed.
    ConnectFailed { conn: ConnId, reason: String },
    /// Both ways: TCP payload.
    Data { conn: ConnId, payload: Vec<u8> },
    /// Both ways: this side is done sending.
    Shutdown(ConnId),
    /// Both ways: force the connection closed.
    Reset(ConnId),
    /// Client to relay: keepalive and latency probe.
    Ping { seq: u64, timestamp_ms: u64 },
    /// Relay to client: answer to a probe.
    Pong { seq: u64, client_timestamp_ms: u64 },
}

/// What a [`TunnelMessage`] says.
pub ghost enum Message {
    Connect(ConnId),
    Connected(ConnId),
    ConnectFailed { conn: ConnId, reason: Seq<char> },
    Data { conn: ConnId, payload: Seq<u8> },
    Shutdown(ConnId),
    Reset(ConnId),
    Ping { seq: u64, timestamp_ms: u64 },
    Pong { seq: u64, client_timestamp_ms: u64 },
}

impl View for TunnelMessage {
    type V = Message;

    open spec fn view(&self) -> Message {
        match self {
            TunnelMessage::Connect(conn) => Message::Connect(*conn),
            TunnelMessage::Connected(conn) => Message::Connected(*conn),
            TunnelMessage::ConnectFailed { conn, reason } => Message::ConnectFailed {
                conn: *conn,
                reason: reason@,
            },
            TunnelMessage::Data { conn, payload } => Message::Data {
                conn: *conn,
                payload: payload@,
            },
            TunnelMessage::Shutdown(conn) => Message::Shutdown(*conn),
            TunnelMessage::Reset(conn) => Message::Reset(*conn),
            TunnelMessage::Ping { seq, timestamp_ms } => Message::Ping {
                seq: *seq,
                timestamp_ms: *timestamp_ms,
            },
            TunnelMessage::Pong { seq, client_timestamp_ms } => Message::Pong {
                seq: *seq,
                client_timestamp_ms: *client_timestamp_ms,
            },
        }
    }
}

/// Why a message could not be written or read.
#[derive(Debug, Clone, PartialEq, Eq)]
pub enum CodecError {
    /// The message could not be written.
    Encode,
    /// The bytes are not those of a message, for this reason.
    Decode(String),
}

/// The wire form of a message: its variant's number, then its fields.
pub open spec fn message_bytes(msg: Message) -> Seq<u8> {
    match msg {
        Message::Connect(conn) => bytes::le32(0) + conn.wire(),
        Message::Connected(conn) => bytes::le32(1) + conn.wire(),
        Message::ConnectFailed { conn, reason } => bytes::le32(2) + conn.wire() + codec::counted_bytes(
            utf8::encode_utf8(reason),
        ),
        Message::Data { conn, payload } => bytes::le32(3) + conn.wire() + codec::counted_bytes(payload),
        Message::Shutdown(conn) => bytes::le32(4) + conn.wire(),
        Message::Reset(conn) => bytes::le32(5) + conn.wire(),
        Message::Ping { seq, timestamp_ms } => bytes::le32(6) + bytes::le64(seq) + bytes::le64(timestamp_ms),
        Message::Pong { seq, client_timestamp_ms } => bytes::le32(7) + bytes::le64(seq) + bytes::le64(
            client_timestamp_ms,
        ),
    }
}

/// How many bytes a message has on the wire.
pub open spec fn message_len(msg: Message) -> nat {
    match msg {
        Message::ConnectFailed { reason, .. } => 24 + utf8::encode_utf8(reason).len(),
        Message::Data { payload, .. } => 24 + payload.len(),
        Message::Ping { .. } => 20,
        Message::Pong { .. } => 20,
        _ => 16,
    }
}

/// The wire form of a message is as long as [`message_len`] says.
pub proof fn lemma_message_len(msg: Message)
    ensures
        message_bytes(msg).len() == message_len(msg),
{
}

/// The connection that a message carries behind its variant's number.
pub open spec fn conn_at(data: Seq<u8>) -> ConnId {
    ConnId {
        src_ip: [data[4], data[5], data[6], data[7]],
        src_port: bytes::from_le16(data.skip(8)),
        dst_ip: [data[10], data[11], data[12], data[13]],
        dst_port: bytes::from_le16(data.skip(14)),
    }
}

/// The message that `data` begins with, if it begins with one.
pub open spec fn parse_message(data: Seq<u8>) -> Option<Message> {
    if data.len() < 4 {
        None
    } else {
        let tag = bytes::from_le32(data);
        if tag == 2 {
            if codec::has_counted_text(data, 16) {
                Some(
                    Message::ConnectFailed {
                        conn: conn_at(data),
                        reason: utf8::decode_utf8(codec::counted_at(data, 16)),
                    },
                )
            } else {
                None
            }
        } else if tag == 3 {
            if codec::has_counted_bytes(data, 16) {
                Some(Message::Data { conn: conn_at(data), payload: codec::counted_at(data, 16) })
            } else {
                None
            }
        } else if tag == 6 || tag == 7 {
            if data.len() < 20 {
                None
            } else if tag == 6 {
                Some(
                    Message::Ping {
                        seq: bytes::from_le64(data.skip(4)),
                        timestamp_ms: bytes::from_le64(data.skip(12)),
                    },
                )
            } else {
                Some(
                    Message::Pong {
                        seq: bytes::from_le64(data.skip(4)),
                        client_timestamp_ms: bytes::from_le64(data.skip(12)),
                    },
                )
            }
        } else if data.len() < 16 {
            None
        } else if tag == 0 {
            Some(Message::Connect(conn_at(data)))
        } else if tag == 1 {
            Some(Message::Connected(conn_at(data)))
        } else if tag == 4 {
            Some(Message::Shutdown(conn_at(data)))
        } else if tag == 5 {
            Some(Message::Reset(conn_at(data)))
        } else {
            None
        }
    }
}

/// What is said of a variant number that no message has.
pub open spec fn unknown_variant_text(tag: u32) -> Seq<char> {
    "invalid value: integer `"@ + text::decimal(tag as nat)
        + "`, expected variant index 0 <= i < 8"@
}

/// Why bytes that begin with no message do not.
pub open spec fn decode_error_text(data: Seq<u8>) -> Seq<char> {
    if data.len() < 4 {
        codec::tag_read_error(data)
    } else {
        let tag = bytes::from_le32(data);
        if tag == 2 {
            codec::text_read_error(data, usize::BITS)
        } else if tag == 3 {
            codec::bytes_read_error(data, usize::BITS)
        } else if tag == 6 || tag == 7 {
            codec::pair_read_error(data)
        } else if tag > 7 {
            unknown_variant_text(tag)
        } else {
            codec::endpoints_read_error(data)
        }
    }
}

/// The reason that a variant number is none of a message's.
fn unknown_variant(tag: u32) -> (text: String)
    ensures
        text@ == unknown_variant_text(tag),
{
    let mut out = "invalid value: integer `".to_owned();
    push_decimal(&mut out, tag as u64);
    out.append("`, expected variant index 0 <= i < 8");
    out
}

/// Writes a message.
pub fn encode_message(msg: &TunnelMessage) -> (r: Result<Vec<u8>, CodecError>)
    ensures
        r matches Ok(v) && v@ == message_bytes(msg@),
{
    let written: Result<Vec<u8>, bincode::Error> = match msg {
        TunnelMessage::Connect(c) => serialize_endpoints(
            0,
            c.src_ip,
            c.src_port,
            c.dst_ip,
            c.dst_port,
        ),
        TunnelMessage::Connected(c) => serialize_endpoints(
            1,
            c.src_ip,
            c.src_port,
            c.dst_ip,
            c.dst_port,
        ),
        TunnelMessage::ConnectFailed { conn: c, reason } => serialize_endpoints_text(
            2,
            c.src_ip,
            c.src_port,
            c.dst_ip,
            c.dst_port,
            reason.as_str(),
        ),
        TunnelMessage::Data { conn: c, payload } => serialize_endpoints_bytes(
            3,
            c.src_ip,
            c.src_port,
            c.dst_ip,
            c.dst_port,
            payload.as_slice(),
        ),
        TunnelMessage::Shutdown(c) => serialize_endpoints(
            4,
            c.src_ip,
            c.src_port,
            c.dst_ip,
            c.dst_port,
        ),
        TunnelMessage::Reset(c) => serialize_endpoints(
            5,
            c.src_ip,
            c.src_port,
            c.dst_ip,
            c.dst_port,
        ),
        TunnelMessage::Ping { seq, timestamp_ms } => serialize_pair(6, *seq, *timestamp_ms),
        TunnelMessage::Pong { seq, client_timestamp_ms } => serialize_pair(
            7,
            *seq,
            *client_timestamp_ms,
        ),
    };
    match written {
        Ok(v) => Ok(v),
        Err(_) => Err(CodecError::Encode),
    }
}

/// The connection that `data` carries, from what was read of it.
fn conn_of(
    src_ip: [u8; 4],
    src_port: u16,
    dst_ip: [u8; 4],
    dst_port: u16,
    Ghost(data): Ghost<Seq<u8>>,
) -> (conn: ConnId)
    requires
        data.len() >= 16,
        src_ip@ == data.subrange(4, 8),
        src_port == bytes::from_le16(data.skip(8)),
        dst_ip@ == data.subrange(10, 14),
        dst_port == bytes::from_le16(data.skip(14)),
    ensures
        conn == conn_at(data),
{
    let conn = ConnId { src_ip, src_port, dst_ip, dst_port };
    proof {
        let expected = conn_at(data);
        assert(src_ip =~= expected.src_ip) by {
            assert forall|i: int| 0 <= i < 4 implies src_ip[i] == expected.src_ip[i] by {
                assert(src_ip@[i] == data[4 + i]);
            }
        }
        assert(dst_ip =~= expected.dst_ip) by {
            assert forall|i: int| 0 <= i < 4 implies dst_ip[i] == expected.dst_ip[i] by {
                assert(dst_ip@[i] == data[10 + i]);
            }
        }
    }
    conn
}

/// Reads a message. Bytes behind it are not looked at.
pub fn decode_message(data: &[u8]) -> (r: Result<TunnelMessage, CodecError>)
    ensures
        match r {
            Ok(msg) => parse_message(data@) == Some(msg@),
            Err(e) => {
                &&& parse_message(data@) is None
                &&& e matches CodecError::Decode(text) && text@ == decode_error_text(data@)
            },
        },
{
    let tag: u32 = match deserialize_tag(data) {
        Ok(tag) => tag,
        Err(text) => return Err(CodecError::Decode(text)),
    };
    if tag == 2 {
        match deserialize_endpoints_text(data) {
            Ok((_, src_ip, src_port, dst_ip, dst_port, reason)) => {
                let conn = conn_of(src_ip, src_port, dst_ip, dst_port, Ghost(data@));
                Ok(TunnelMessage::ConnectFailed { conn, reason })
            },
            Err(text) => Err(CodecError::Decode(text)),
        }
    } else if tag == 3 {
        match deserialize_endpoints_bytes(data) {
            Ok((_, src_ip, src_port, dst_ip, dst_port, payload)) => {
                let conn = conn_of(src_ip, src_port, dst_ip, dst_port, Ghost(data@));
                Ok(TunnelMessage::Data { conn, payload })
            },
            Err(text) => Err(CodecError::Decode(text)),
        }
    } else if tag == 6 || tag == 7 {
        match deserialize_pair(data) {
            Ok((_, seq, stamp)) => {
                if tag == 6 {
                    Ok(TunnelMessage::Ping { seq, timestamp_ms: stamp })
                } else {
                    Ok(TunnelMessage::Pong { seq, client_timestamp_ms: stamp })
                }
            },
            Err(text) => Err(CodecError::Decode(text)),
        }
    } else if tag > 7 {
        Err(CodecError::Decode(unknown_variant(tag)))
    } else {
        match deserialize_endpoints(data) {
            Ok((_, src_ip, src_port, dst_ip, dst_port)) => {
                let conn = conn_of(src_ip, src_port, dst_ip, dst_port, Ghost(data@));
                if tag == 0 {
                    Ok(TunnelMessage::Connect(conn))
                } else if tag == 1 {
                    Ok(TunnelMessage::Connected(conn))
                } else if tag == 4 {
                    Ok(TunnelMessage::Shutdown(conn))
                } else {
                    Ok(TunnelMessage::Reset(conn))
                }
            },
            Err(text) => Err(CodecError::Decode(text)),
        }
    }
}

/// Reading the message that some bytes were written for gives it back, whatever
/// follows those bytes.
pub proof fn lemma_message_roundtrip(msg: Message, rest: Seq<u8>)
    requires
        msg matches Message::ConnectFailed { reason, .. } ==> utf8::encode_utf8(reason).len()
            <= u64::MAX,
        msg matches Message::Data { payload, .. } ==> payload.len() <= u64::MAX,
    ensures
        parse_message(message_bytes(msg) + rest) == Some(msg),
{
    match msg {
        Message::Connect(conn) => lemma_conn_roundtrip(0, conn, rest),
        Message::Connected(conn) => lemma_conn_roundtrip(1, conn, rest),
        Message::ConnectFailed { conn, reason } => lemma_failed_roundtrip(conn, reason, rest),
        Message::Data { conn, payload } => lemma_data_roundtrip(conn, payload, rest),
        Message::Shutdown(conn) => lemma_conn_roundtrip(4, conn, rest),
        Message::Reset(conn) => lemma_conn_roundtrip(5, conn, rest),
        Message::Ping { seq, timestamp_ms } => lemma_pair_roundtrip(6, seq, timestamp_ms, rest),
        Message::Pong { seq, client_timestamp_ms } => lemma_pair_roundtrip(
            7,
            seq,
            client_timestamp_ms,
            rest,
        ),
    }
}

#[verifier::rlimit(40)]
proof fn lemma_failed_roundtrip(conn: ConnId, reason: Seq<char>, rest: Seq<u8>)
    requires
        utf8::encode_utf8(reason).len() <= u64::MAX,
    ensures
        ({
            let msg = Message::ConnectFailed { conn, reason };
            parse_message(message_bytes(msg) + rest) == Some(msg)
        }),
{
    let text = utf8::encode_utf8(reason);
    let head = bytes::le32(2) + conn.wire();
    let data = head + codec::counted_bytes(text) + rest;
    lemma_conn_roundtrip(2, conn, codec::counted_bytes(text) + rest);
    assert(data =~= head + (codec::counted_bytes(text) + rest));
    lemma_counted_roundtrip(head, text, rest);
    utf8::encode_utf8_valid_utf8(reason);
    utf8::encode_utf8_decode_utf8(reason);
}

#[verifier::rlimit(40)]
proof fn lemma_data_roundtrip(conn: ConnId, payload: Seq<u8>, rest: Seq<u8>)
    requires
        payload.len() <= u64::MAX,
    ensures
        ({
            let msg = Message::Data { conn, payload };
            parse_message(message_bytes(msg) + rest) == Some(msg)
        }),
{
    let head = bytes::le32(3) + conn.wire();
    let data = head + codec::counted_bytes(payload) + rest;
    lemma_conn_roundtrip(3, conn, codec::counted_bytes(payload) + rest);
    assert(data =~= head + (codec::counted_bytes(payload) + rest));
    lemma_counted_roundtrip(head, payload, rest);
}

proof fn lemma_conn_roundtrip(tag: u32, conn: ConnId, rest: Seq<u8>)
    ensures
        conn.wire().len() == 12,
        ({
            let data = bytes::le32(tag) + conn.wire() + rest;
            &&& bytes::from_le32(data) == tag
            &&& conn_at(data) == conn
        }),
{
    let data = bytes::le32(tag) + conn.wire() + rest;
    bytes::lemma_le32_roundtrip(tag, conn.wire() + rest);
    assert(data =~= bytes::le32(tag) + (conn.wire() + rest));
    let from_dst = conn.dst_ip@ + bytes::le16(conn.dst_port) + rest;
    bytes::lemma_le16_roundtrip(conn.src_port, from_dst);
    bytes::lemma_le16_roundtrip(conn.dst_port, rest);
    assert(data.skip(8) =~= bytes::le16(conn.src_port) + from_dst);
    assert(data.skip(14) =~= bytes::le16(conn.dst_port) + rest);
    let read = conn_at(data);
    assert(read.src_ip =~= conn.src_ip) by {
        assert forall|i: int| 0 <= i < 4 implies read.src_ip[i] == conn.src_ip[i] by {
            assert(data[4 + i] == conn.src_ip@[i]);
        }
    }
    assert(read.dst_ip =~= conn.dst_ip) by {
        assert forall|i: int| 0 <= i < 4 implies read.dst_ip[i] == conn.dst_ip[i] by {
            assert(data[10 + i] == conn.dst_ip@[i]);
        }
    }
}

proof fn lemma_counted_roundtrip(before: Seq<u8>, b: Seq<u8>, rest: Seq<u8>)
    requires
        b.len() <= u64::MAX,
    ensures
        ({
            let data = before + codec::counted_bytes(b) + rest;
            let at = before.len() as int;
            &&& codec::has_counted_bytes(data, at)
            &&& codec::counted_at(data, at) == b
        }),
{
    let data = before + codec::counted_bytes(b) + rest;
    let at = before.len() as int;
    bytes::lemma_le64_roundtrip(b.len() as u64, b + rest);
    assert(data.skip(at) =~= bytes::le64(b.len() as u64) + (b + rest));
    assert(codec::counted_at(data, at) =~= b);
}

proof fn lemma_pair_roundtrip(tag: u32, first: u64, second: u64, rest: Seq<u8>)
    ensures
        ({
            let data = bytes::le32(tag) + bytes::le64(first) + bytes::le64(second) + rest;
            &&& data.len() == 20 + rest.len()
            &&& bytes::from_le32(data) == tag
            &&& bytes::from_le64(data.skip(4)) == first
            &&& bytes::from_le64(data.skip(12)) == second
        }),
{
    let data = bytes::le32(tag) + bytes::le64(first) + bytes::le64(second) + rest;
    let from_first = bytes::le64(first) + bytes::le64(second) + rest;
    bytes::lemma_le32_roundtrip(tag, from_first);
    bytes::lemma_le64_roundtrip(first, bytes::le64(second) + rest);
    bytes::lemma_le64_roundtrip(second, rest);
    assert(data =~= bytes::le32(tag) + from_first);
    assert(data.skip(4) =~= bytes::le64(first) + (bytes::le64(second) + rest));
    assert(data.skip(12) =~= bytes::le64(second) + rest);
}

} // verus!
