//! What the bytes of a message are, one by one, and what they say of it.

use vstd::prelude::*;
use vstd::utf8;
use crate::bytes;
use crate::codec;
use crate::protocol::{self, ConnId};
use crate::text;

verus! {

/// Whether bytes hold, from position `at` on, a number, least significant byte first.
pub open spec fn holds_number(data: Seq<u8>, at: int, n: int) -> bool {
    &&& data.len() >= at + 8
    &&& data[at] + 0x100 * data[at + 1] + 0x1_0000 * data[at + 2] + 0x100_0000 * data[at + 3]
        + 0x1_0000_0000 * data[at + 4] + 0x100_0000_0000 * data[at + 5] + 0x1_0000_0000_0000
        * data[at + 6] + 0x100_0000_0000_0000 * data[at + 7] == n
}

/// Whether bytes hold a connection behind the first four: address and port of the
/// source, then of the destination, the ports least significant byte first.
pub open spec fn holds_conn(data: Seq<u8>, conn: ConnId) -> bool {
    &&& data.len() >= 16
    &&& data.subrange(4, 8) == conn.src_ip@
    &&& data[8] + 0x100 * data[9] == conn.src_port
    &&& data.subrange(10, 14) == conn.dst_ip@
    &&& data[14] + 0x100 * data[15] == conn.dst_port
}

/// Whether bytes begin with the number of a kind of message.
pub open spec fn holds_kind(data: Seq<u8>, kind: int) -> bool {
    &&& data.len() >= 4
    &&& data[0] == kind
    &&& data[1] == 0
    &&& data[2] == 0
    &&& data[3] == 0
}

/// Whether bytes are those of a message: four bytes of which the first numbers the
/// kind of message, then the connection, then what a payload or a reason has, a length
/// and the bytes; or, for a probe and its answer, two numbers.
pub open spec fn is_wire_form(b: Seq<u8>, msg: protocol::Message) -> bool {
    match msg {
        protocol::Message::Connect(conn) => {
            &&& b.len() == 16
            &&& holds_kind(b, 0)
            &&& holds_conn(b, conn)
        },
        protocol::Message::Connected(conn) => {
            &&& b.len() == 16
            &&& holds_kind(b, 1)
            &&& holds_conn(b, conn)
        },
        protocol::Message::ConnectFailed { conn, reason } => {
            let text = utf8::encode_utf8(reason);
            &&& holds_kind(b, 2)
            &&& holds_conn(b, conn)
            &&& holds_number(b, 16, text.len() as int)
            &&& b.skip(24) == text
        },
        protocol::Message::Data { conn, payload } => {
            &&& holds_kind(b, 3)
            &&& holds_conn(b, conn)
            &&& holds_number(b, 16, payload.len() as int)
            &&& b.skip(24) == payload
        },
        protocol::Message::Shutdown(conn) => {
            &&& b.len() == 16
            &&& holds_kind(b, 4)
            &&& holds_conn(b, conn)
        },
        protocol::Message::Reset(conn) => {
            &&& b.len() == 16
            &&& holds_kind(b, 5)
            &&& holds_conn(b, conn)
        },
        protocol::Message::Ping { seq, timestamp_ms } => {
            &&& b.len() == 20
            &&& holds_kind(b, 6)
            &&& holds_number(b, 4, seq as int)
            &&& holds_number(b, 12, timestamp_ms as int)
        },
        protocol::Message::Pong { seq, client_timestamp_ms } => {
            &&& b.len() == 20
            &&& holds_kind(b, 7)
            &&& holds_number(b, 4, seq as int)
            &&& holds_number(b, 12, client_timestamp_ms as int)
        },
    }
}

proof fn lemma_kind(word: Seq<u8>, kind: u32, rest: Seq<u8>)
    requires
        kind < 0x100,
        word.len() == 4,
        word[0] + 0x100 * word[1] + 0x1_0000 * word[2] + 0x100_0000 * word[3] == kind,
    ensures
        holds_kind(word + rest, kind as int),
{
}

proof fn lemma_number(before: Seq<u8>, word: Seq<u8>, rest: Seq<u8>, n: int)
    requires
        word.len() == 8,
        holds_number(word, 0, n),
    ensures
        holds_number(before + word + rest, before.len() as int, n),
{
    let data = before + word + rest;
    let at = before.len() as int;
    assert(data[at] == word[0] && data[at + 1] == word[1]);
    assert(data[at + 2] == word[2] && data[at + 3] == word[3]);
    assert(data[at + 4] == word[4] && data[at + 5] == word[5]);
    assert(data[at + 6] == word[6] && data[at + 7] == word[7]);
}

proof fn lemma_le64_holds(n: u64)
    ensures
        bytes::le64(n).len() == 8,
        holds_number(bytes::le64(n), 0, n as int),
{
    bytes::lemma_byte_order(0, 0, n);
}

proof fn lemma_le32_holds(kind: u32)
    ensures
        bytes::le32(kind).len() == 4,
        ({
            let word = bytes::le32(kind);
            word[0] + 0x100 * word[1] + 0x1_0000 * word[2] + 0x100_0000 * word[3] == kind
        }),
{
    bytes::lemma_byte_order(0, kind, 0);
}

proof fn lemma_le16_holds(port: u16)
    ensures
        bytes::le16(port).len() == 2,
        bytes::le16(port)[0] + 0x100 * bytes::le16(port)[1] == port,
{
}

proof fn lemma_endpoints(
    word: Seq<u8>,
    conn: ConnId,
    src_port: Seq<u8>,
    dst_port: Seq<u8>,
    rest: Seq<u8>,
)
    requires
        word.len() == 4,
        src_port.len() == 2,
        dst_port.len() == 2,
        src_port[0] + 0x100 * src_port[1] == conn.src_port,
        dst_port[0] + 0x100 * dst_port[1] == conn.dst_port,
    ensures
        holds_conn(
            word + (conn.src_ip@ + src_port + conn.dst_ip@ + dst_port) + rest,
            conn,
        ),
{
    let data = word + (conn.src_ip@ + src_port + conn.dst_ip@ + dst_port) + rest;
    assert(data.subrange(4, 8) =~= conn.src_ip@);
    assert(data.subrange(10, 14) =~= conn.dst_ip@);
    assert(data[8] == src_port[0] && data[9] == src_port[1]);
    assert(data[14] == dst_port[0] && data[15] == dst_port[1]);
}

proof fn lemma_conn_wire(kind: u32, conn: ConnId, rest: Seq<u8>)
    requires
        kind < 0x100,
    ensures
        ({
            let data = bytes::le32(kind) + conn.wire() + rest;
            &&& data.len() == 16 + rest.len()
            &&& holds_kind(data, kind as int)
            &&& holds_conn(data, conn)
        }),
{
    let word = bytes::le32(kind);
    lemma_le32_holds(kind);
    lemma_le16_holds(conn.src_port);
    lemma_le16_holds(conn.dst_port);
    lemma_endpoints(word, conn, bytes::le16(conn.src_port), bytes::le16(conn.dst_port), rest);
    lemma_kind(word, kind, conn.wire() + rest);
    assert(word + conn.wire() + rest =~= word + (conn.wire() + rest));
}

proof fn lemma_counted_wire(kind: u32, conn: ConnId, b: Seq<u8>)
    requires
        kind < 0x100,
        b.len() <= u64::MAX,
    ensures
        ({
            let data = bytes::le32(kind) + conn.wire() + codec::counted_bytes(b);
            &&& holds_kind(data, kind as int)
            &&& holds_conn(data, conn)
            &&& holds_number(data, 16, b.len() as int)
            &&& data.skip(24) == b
        }),
{
    let head = bytes::le32(kind) + conn.wire();
    let len = bytes::le64(b.len() as u64);
    lemma_le64_holds(b.len() as u64);
    lemma_le32_holds(kind);
    lemma_conn_wire(kind, conn, codec::counted_bytes(b));
    lemma_counted(head, len, b);
}

proof fn lemma_counted(head: Seq<u8>, len: Seq<u8>, b: Seq<u8>)
    requires
        head.len() == 16,
        len.len() == 8,
        holds_number(len, 0, b.len() as int),
    ensures
        holds_number(head + (len + b), 16, b.len() as int),
        (head + (len + b)).skip(24) == b,
{
    lemma_number(head, len, b, b.len() as int);
    assert(head + (len + b) =~= head + len + b);
    assert((head + (len + b)).skip(24) =~= b);
}

proof fn lemma_pair_wire(kind: u32, first: u64, second: u64)
    requires
        kind < 0x100,
    ensures
        ({
            let data = bytes::le32(kind) + bytes::le64(first) + bytes::le64(second);
            &&& data.len() == 20
            &&& holds_kind(data, kind as int)
            &&& holds_number(data, 4, first as int)
            &&& holds_number(data, 12, second as int)
        }),
{
    lemma_le32_holds(kind);
    lemma_le64_holds(first);
    lemma_le64_holds(second);
    lemma_pair(bytes::le32(kind), kind, bytes::le64(first), first, bytes::le64(second), second);
}

proof fn lemma_pair(
    word: Seq<u8>,
    kind: u32,
    first: Seq<u8>,
    a: u64,
    second: Seq<u8>,
    b: u64,
)
    requires
        kind < 0x100,
        word.len() == 4,
        word[0] + 0x100 * word[1] + 0x1_0000 * word[2] + 0x100_0000 * word[3] == kind,
        first.len() == 8,
        holds_number(first, 0, a as int),
        second.len() == 8,
        holds_number(second, 0, b as int),
    ensures
        ({
            let data = word + first + second;
            &&& data.len() == 20
            &&& holds_kind(data, kind as int)
            &&& holds_number(data, 4, a as int)
            &&& holds_number(data, 12, b as int)
        }),
{
    let data = word + first + second;
    lemma_kind(word, kind, first + second);
    lemma_number(word, first, second, a as int);
    lemma_number(word + first, second, Seq::empty(), b as int);
    assert(word + (first + second) =~= data);
    assert(data + Seq::<u8>::empty() =~= data);
}

/// The wire form of a message is its number, its fields and its bytes in their places.
pub proof fn lemma_wire_form(msg: protocol::Message)
    requires
        msg matches protocol::Message::ConnectFailed { reason, .. } ==> utf8::encode_utf8(
            reason,
        ).len() <= u64::MAX,
        msg matches protocol::Message::Data { payload, .. } ==> payload.len() <= u64::MAX,
    ensures
        is_wire_form(protocol::message_bytes(msg), msg),
{
    match msg {
        protocol::Message::Connect(conn) => lemma_bare_wire(0, conn),
        protocol::Message::Connected(conn) => lemma_bare_wire(1, conn),
        protocol::Message::ConnectFailed { conn, reason } => lemma_counted_wire(
            2,
            conn,
            utf8::encode_utf8(reason),
        ),
        protocol::Message::Data { conn, payload } => lemma_counted_wire(3, conn, payload),
        protocol::Message::Shutdown(conn) => lemma_bare_wire(4, conn),
        protocol::Message::Reset(conn) => lemma_bare_wire(5, conn),
        protocol::Message::Ping { seq, timestamp_ms } => lemma_pair_wire(6, seq, timestamp_ms),
        protocol::Message::Pong { seq, client_timestamp_ms } => lemma_pair_wire(
            7,
            seq,
            client_timestamp_ms,
        ),
    }
}

proof fn lemma_bare_wire(kind: u32, conn: ConnId)
    requires
        kind < 0x100,
    ensures
        ({
            let data = bytes::le32(kind) + conn.wire();
            &&& data.len() == 16
            &&& holds_kind(data, kind as int)
            &&& holds_conn(data, conn)
        }),
{
    let data = bytes::le32(kind) + conn.wire();
    lemma_conn_wire(kind, conn, Seq::empty());
    assert(data + Seq::<u8>::empty() =~= data);
}

/// Different messages have different wire forms.
pub proof fn lemma_wire_forms_differ(a: protocol::Message, b: protocol::Message)
    requires
        protocol::message_bytes(a) == protocol::message_bytes(b),
        protocol::message_bytes(a).len() <= u64::MAX,
    ensures
        a == b,
{
    protocol::lemma_message_len(a);
    protocol::lemma_message_len(b);
    protocol::lemma_message_roundtrip(a, Seq::empty());
    protocol::lemma_message_roundtrip(b, Seq::empty());
}

proof fn lemma_three_parts(data: Seq<u8>, a: Seq<u8>, b: Seq<u8>, c: Seq<u8>)
    requires
        data.len() >= 20,
        a == data.take(4),
        b == data.skip(4).take(8),
        c == data.skip(12).take(8),
    ensures
        a + b + c == data.take(20),
{
    assert(a + b + c =~= data.take(20));
}

proof fn lemma_pair_written(data: Seq<u8>)
    requires
        data.len() >= 20,
    ensures
        bytes::le32(bytes::from_le32(data)) + bytes::le64(bytes::from_le64(data.skip(4)))
            + bytes::le64(bytes::from_le64(data.skip(12))) == data.take(20),
{
    bytes::lemma_from_le_roundtrip(data);
    bytes::lemma_from_le_roundtrip(data.skip(4));
    bytes::lemma_from_le_roundtrip(data.skip(12));
    lemma_three_parts(
        data,
        bytes::le32(bytes::from_le32(data)),
        bytes::le64(bytes::from_le64(data.skip(4))),
        bytes::le64(bytes::from_le64(data.skip(12))),
    );
}

proof fn lemma_five_parts(
    data: Seq<u8>,
    word: Seq<u8>,
    src_ip: Seq<u8>,
    src_port: Seq<u8>,
    dst_ip: Seq<u8>,
    dst_port: Seq<u8>,
)
    requires
        data.len() >= 16,
        word == data.take(4),
        src_ip == data.subrange(4, 8),
        src_port == data.skip(8).take(2),
        dst_ip == data.subrange(10, 14),
        dst_port == data.skip(14).take(2),
    ensures
        word + (src_ip + src_port + dst_ip + dst_port) == data.take(16),
{
    assert(word + (src_ip + src_port + dst_ip + dst_port) =~= data.take(16));
}

proof fn lemma_conn_written(data: Seq<u8>)
    requires
        data.len() >= 16,
    ensures
        bytes::le32(bytes::from_le32(data)) + protocol::conn_at(data).wire() == data.take(16),
{
    let conn = protocol::conn_at(data);
    bytes::lemma_from_le_roundtrip(data);
    bytes::lemma_from_le_roundtrip(data.skip(8));
    bytes::lemma_from_le_roundtrip(data.skip(14));
    assert(conn.src_ip@ =~= data.subrange(4, 8));
    assert(conn.dst_ip@ =~= data.subrange(10, 14));
    lemma_five_parts(
        data,
        bytes::le32(bytes::from_le32(data)),
        conn.src_ip@,
        bytes::le16(conn.src_port),
        conn.dst_ip@,
        bytes::le16(conn.dst_port),
    );
}

proof fn lemma_counted_written(data: Seq<u8>)
    requires
        codec::has_counted_bytes(data, 16),
    ensures
        ({
            let b = codec::counted_at(data, 16);
            &&& 24 + b.len() <= data.len()
            &&& data.take(16) + codec::counted_bytes(b) == data.take(24 + b.len() as int)
        }),
{
    let b = codec::counted_at(data, 16);
    bytes::lemma_from_le_roundtrip(data.skip(16));
    assert(b.len() == bytes::from_le64(data.skip(16)));
    lemma_counted_parts(data, bytes::le64(b.len() as u64), b);
}

proof fn lemma_counted_parts(data: Seq<u8>, len: Seq<u8>, b: Seq<u8>)
    requires
        data.len() >= 24 + b.len(),
        len == data.skip(16).take(8),
        b == data.subrange(24, 24 + b.len() as int),
    ensures
        data.take(16) + (len + b) == data.take(24 + b.len() as int),
{
    assert(data.take(16) + (len + b) =~= data.take(24 + b.len() as int));
}

/// Bytes from which a message is read begin with the wire form of that message.
pub proof fn lemma_parsed_is_written(data: Seq<u8>)
    ensures
        protocol::parse_message(data) matches Some(msg) ==> {
            let n = protocol::message_bytes(msg).len() as int;
            n <= data.len() && data.take(n) == protocol::message_bytes(msg)
        },
{
    if let Some(msg) = protocol::parse_message(data) {
        match msg {
            protocol::Message::Ping { .. } => lemma_pair_written(data),
            protocol::Message::Pong { .. } => lemma_pair_written(data),
            protocol::Message::ConnectFailed { .. } => {
                lemma_conn_written(data);
                utf8::decode_utf8_encode_utf8(codec::counted_at(data, 16));
                lemma_counted_written(data);
            },
            protocol::Message::Data { .. } => {
                lemma_conn_written(data);
                lemma_counted_written(data);
            },
            _ => lemma_conn_written(data),
        }
    }
}

/// How large payloads and packets get.
pub proof fn lemma_sizes()
    ensures
        protocol::MAX_PAYLOAD_SIZE == 1280,
        protocol::MAX_PACKET_SIZE == 2048,
{
}

/// Why bytes are no message is told by their kind: bytes too few for a kind, a kind
/// that no message has, or the fields of their kind, of which too few follow or which
/// are none.
pub proof fn lemma_decode_error(data: Seq<u8>)
    ensures
        data.len() < 4 ==> protocol::decode_error_text(data) == codec::tag_read_error(data),
        holds_kind(data, 2) ==> protocol::decode_error_text(data) == codec::text_read_error(
            data,
            usize::BITS,
        ),
        holds_kind(data, 3) ==> protocol::decode_error_text(data) == codec::bytes_read_error(
            data,
            usize::BITS,
        ),
        holds_kind(data, 6) || holds_kind(data, 7) ==> protocol::decode_error_text(data)
            == codec::pair_read_error(data),
        holds_kind(data, 0) || holds_kind(data, 1) || holds_kind(data, 4) || holds_kind(data, 5)
            ==> protocol::decode_error_text(data) == codec::endpoints_read_error(data),
        data.len() >= 4 && (data[0] > 7 || data[1] != 0 || data[2] != 0 || data[3] != 0) ==> {
            let kind = data[0] + 0x100 * data[1] + 0x1_0000 * data[2] + 0x100_0000 * data[3];
            &&& protocol::parse_message(data) is None
            &&& protocol::decode_error_text(data) == "invalid value: integer `"@ + text::decimal(
                kind as nat,
            ) + "`, expected variant index 0 <= i < 8"@
        },
{
}

} // verus!
