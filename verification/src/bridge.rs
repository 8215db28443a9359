//! The two halves of a connection to a game server: what the relay writes to it,
//! and what it makes of what it reads from it.

use vstd::prelude::*;
use vstd::string::StringExecFns;
use crate::cipher;
use crate::crypto::KeyId;
use crate::hex::{self, hex_encode};
use crate::protocol::{self, ConnId, TunnelMessage};
use crate::relay::{self, Delivery, RelayState};

verus! {

/// How far the writing half of a connection is.
#[derive(Debug, Clone, Copy, PartialEq, Eq, Structural)]
pub enum WriterPhase {
    /// Payloads are written as they come.
    Open,
    /// The client is done sending: what is still queued is written.
    Draining,
    /// Nothing more is written.
    Done,
}

/// What happens to the writing half of a connection.
pub enum WriterEvent {
    /// A payload came out of the queue.
    Payload(Vec<u8>),
    /// Nothing is left in the queue.
    QueueEmpty,
    /// The queue was closed.
    QueueClosed,
    /// The client is done sending.
    ShutdownRequested,
    /// Writing a payload failed.
    WriteFailed,
}

/// What the writing half of a connection does next.
pub enum WriterAction {
    /// Write a payload.
    Write(Vec<u8>),
    /// Take the next payload out of the queue, if one is there.
    Drain,
    /// Tell the game server that nothing more comes, and stop.
    Finish,
    /// Stop.
    Stop,
}

/// What a [`WriterEvent`] says.
pub ghost enum WriterInput {
    Payload(Seq<u8>),
    QueueEmpty,
    QueueClosed,
    ShutdownRequested,
    WriteFailed,
}

impl View for WriterEvent {
    type V = WriterInput;

    open spec fn view(&self) -> WriterInput {
        match self {
            WriterEvent::Payload(payload) => WriterInput::Payload(payload@),
            WriterEvent::QueueEmpty => WriterInput::QueueEmpty,
            WriterEvent::QueueClosed => WriterInput::QueueClosed,
            WriterEvent::ShutdownRequested => WriterInput::ShutdownRequested,
            WriterEvent::WriteFailed => WriterInput::WriteFailed,
        }
    }
}

/// What a [`WriterAction`] says.
pub ghost enum WriterOutput {
    Write(Seq<u8>),
    Drain,
    Finish,
    Stop,
}

impl View for WriterAction {
    type V = WriterOutput;

    open spec fn view(&self) -> WriterOutput {
        match self {
            WriterAction::Write(payload) => WriterOutput::Write(payload@),
            WriterAction::Drain => WriterOutput::Drain,
            WriterAction::Finish => WriterOutput::Finish,
            WriterAction::Stop => WriterOutput::Stop,
        }
    }
}

/// Whether something can happen in a phase: the end of the queue is only found
/// while it is drained, and the queue is then no longer waited for.
pub open spec fn can_happen(phase: WriterPhase, input: WriterInput) -> bool {
    match phase {
        WriterPhase::Open => input !is QueueEmpty,
        WriterPhase::Draining => input is Payload || input is QueueEmpty || input is WriteFailed,
        WriterPhase::Done => false,
    }
}

/// The phase after something happened.
pub open spec fn phase_after(phase: WriterPhase, input: WriterInput) -> WriterPhase {
    match input {
        WriterInput::Payload(_) => phase,
        WriterInput::ShutdownRequested => WriterPhase::Draining,
        _ => WriterPhase::Done,
    }
}

/// What is done about something that happened.
pub open spec fn output_for(phase: WriterPhase, input: WriterInput) -> WriterOutput {
    match input {
        WriterInput::Payload(payload) => WriterOutput::Write(payload),
        WriterInput::ShutdownRequested => WriterOutput::Drain,
        _ => if phase == WriterPhase::Draining {
            WriterOutput::Finish
        } else {
            WriterOutput::Stop
        },
    }
}

/// The writing half of a connection.
pub struct Writer {
    pub phase: WriterPhase,
    /// The bytes handed to the connection so far.
    pub bytes_written: u64,
    /// The payloads handed to the connection so far.
    pub write_msgs: u64,
}

impl Writer {
    /// The writing half of a new connection.
    pub fn new() -> (writer: Self)
        ensures
            writer == (Writer { phase: WriterPhase::Open, bytes_written: 0, write_msgs: 0 }),
    {
        Writer { phase: WriterPhase::Open, bytes_written: 0, write_msgs: 0 }
    }

    /// Decides what is done about something that happened.
    pub fn step(&mut self, event: WriterEvent) -> (action: WriterAction)
        requires
            can_happen(old(self).phase, event@),
        ensures
            action@ == output_for(old(self).phase, event@),
            final(self).phase == phase_after(old(self).phase, event@),
            match event@ {
                WriterInput::Payload(payload) => {
                    &&& final(self).bytes_written == (old(self).bytes_written + payload.len())
                        % 0x1_0000_0000_0000_0000
                    &&& final(self).write_msgs == (old(self).write_msgs + 1)
                        % 0x1_0000_0000_0000_0000
                },
                _ => {
                    &&& final(self).bytes_written == old(self).bytes_written
                    &&& final(self).write_msgs == old(self).write_msgs
                },
            },
            match action@ {
                WriterOutput::Write(payload) => {
                    &&& (final(self).bytes_written - old(self).bytes_written - payload.len())
                        % 0x1_0000_0000_0000_0000 == 0
                    &&& (final(self).write_msgs - old(self).write_msgs - 1)
                        % 0x1_0000_0000_0000_0000 == 0
                },
                _ => {
                    &&& final(self).bytes_written == old(self).bytes_written
                    &&& final(self).write_msgs == old(self).write_msgs
                },
            },
    {
        match event {
            WriterEvent::Payload(payload) => {
                self.bytes_written = self.bytes_written.wrapping_add(payload.len() as u64);
                self.write_msgs = self.write_msgs.wrapping_add(1);
                WriterAction::Write(payload)
            },
            WriterEvent::ShutdownRequested => {
                self.phase = WriterPhase::Draining;
                WriterAction::Drain
            },
            _ => {
                let draining: bool = self.phase == WriterPhase::Draining;
                self.phase = WriterPhase::Done;
                if draining {
                    WriterAction::Finish
                } else {
                    WriterAction::Stop
                }
            },
        }
    }
}

/// The phase after several things happened in turn.
pub open spec fn phase_after_all(phase: WriterPhase, inputs: Seq<WriterInput>) -> WriterPhase
    decreases inputs.len(),
{
    if inputs.len() == 0 {
        phase
    } else {
        phase_after(phase_after_all(phase, inputs.drop_last()), inputs.last())
    }
}

/// Whether several things can happen in turn.
pub open spec fn can_all_happen(phase: WriterPhase, inputs: Seq<WriterInput>) -> bool
    decreases inputs.len(),
{
    inputs.len() > 0 ==> {
        &&& can_all_happen(phase, inputs.drop_last())
        &&& can_happen(phase_after_all(phase, inputs.drop_last()), inputs.last())
    }
}

/// What is done about several things that happened in turn.
pub open spec fn outputs_for(phase: WriterPhase, inputs: Seq<WriterInput>) -> Seq<WriterOutput>
    decreases inputs.len(),
{
    if inputs.len() == 0 {
        Seq::empty()
    } else {
        outputs_for(phase, inputs.drop_last()).push(
            output_for(phase_after_all(phase, inputs.drop_last()), inputs.last()),
        )
    }
}

/// Every payload that comes out of the queue is written, in order, and nothing
/// else is. The game server is told that nothing more comes at most once, as the
/// last thing; and then the queue was drained to its end or a write failed.
pub proof fn lemma_writer_drains_before_finish(inputs: Seq<WriterInput>)
    requires
        can_all_happen(WriterPhase::Open, inputs),
    ensures
        outputs_for(WriterPhase::Open, inputs).len() == inputs.len(),
        forall|i: int|
            0 <= i < inputs.len() ==> {
                match #[trigger] outputs_for(WriterPhase::Open, inputs)[i] {
                    WriterOutput::Write(p) => inputs[i] == WriterInput::Payload(p),
                    WriterOutput::Drain => inputs[i] is ShutdownRequested,
                    WriterOutput::Finish => {
                        &&& i == inputs.len() - 1
                        &&& inputs[i] is QueueEmpty || inputs[i] is WriteFailed
                        &&& exists|j: int| 0 <= j < i && #[trigger] inputs[j] is ShutdownRequested
                    },
                    WriterOutput::Stop => i == inputs.len() - 1,
                }
            },
        forall|i: int|
            0 <= i < inputs.len() && (#[trigger] inputs[i]) is Payload ==> outputs_for(
                WriterPhase::Open,
                inputs,
            )[i] == WriterOutput::Write(inputs[i]->Payload_0),
        phase_after_all(WriterPhase::Open, inputs) == WriterPhase::Draining ==> exists|j: int|
            0 <= j < inputs.len() && #[trigger] inputs[j] is ShutdownRequested,
        phase_after_all(WriterPhase::Open, inputs) != WriterPhase::Done ==> forall|i: int|
            0 <= i < inputs.len() ==> {
                let o = #[trigger] outputs_for(WriterPhase::Open, inputs)[i];
                o is Write || o is Drain
            },
    decreases inputs.len(),
{
    if inputs.len() > 0 {
        let init = inputs.drop_last();
        let n = inputs.len() - 1;
        lemma_writer_drains_before_finish(init);
        let before = phase_after_all(WriterPhase::Open, init);
        let outputs = outputs_for(WriterPhase::Open, inputs);
        assert forall|i: int| 0 <= i < n implies #[trigger] outputs[i] == outputs_for(
            WriterPhase::Open,
            init,
        )[i] && inputs[i] == init[i] by {}
        if before == WriterPhase::Draining {
            let j = choose|j: int| 0 <= j < init.len() && #[trigger] init[j] is ShutdownRequested;
            assert(inputs[j] is ShutdownRequested);
        }
        if inputs[n] is ShutdownRequested {
            assert(phase_after_all(WriterPhase::Open, inputs) == WriterPhase::Draining);
        }
    }
}

/// What comes of reading from a connection.
pub enum ReadEvent {
    /// These bytes were read. None at all mean that the game server is done
    /// sending.
    Read(Vec<u8>),
    /// Reading failed.
    Failed,
}

/// What the user is told about what was read.
pub open spec fn read_message(event: ReadEvent, conn: ConnId) -> protocol::Message {
    match event {
        ReadEvent::Read(b) => if b@.len() == 0 {
            protocol::Message::Shutdown(conn)
        } else {
            protocol::Message::Data { conn, payload: b@ }
        },
        ReadEvent::Failed => protocol::Message::Reset(conn),
    }
}

/// Whether reading goes on after what was read.
pub open spec fn reads_on(event: ReadEvent) -> bool {
    event matches ReadEvent::Read(b) && b@.len() > 0
}

/// The reading half of a connection.
pub struct Reader {
    /// The bytes read so far.
    pub bytes_read: u64,
    /// The pieces in which they came.
    pub read_msgs: u64,
    /// The last of these pieces.
    pub last_data: Vec<u8>,
}

impl Reader {
    /// The reading half of a new connection.
    pub fn new() -> (reader: Self)
        ensures
            reader.bytes_read == 0,
            reader.read_msgs == 0,
            reader.last_data@ == Seq::<u8>::empty(),
    {
        Reader { bytes_read: 0, read_msgs: 0, last_data: Vec::new() }
    }

    /// Turns what was read into a message to the user, and says whether reading
    /// goes on.
    pub fn step(&mut self, relay: &RelayState, key_id: KeyId, conn: ConnId, event: ReadEvent) -> (r:
        (Delivery, bool))
        requires
            event matches ReadEvent::Read(b) ==> {
                &&& cipher::cipher_returns(24 + b@.len())
                &&& old(self).bytes_read + b@.len() <= u64::MAX
                &&& b@.len() > 0 ==> old(self).read_msgs < u64::MAX
            },
        ensures
            relay::delivers(r.0, relay.people(), key_id, read_message(event, conn)),
            r.1 == reads_on(event),
            if reads_on(event) {
                &&& final(self).bytes_read == old(self).bytes_read + event->Read_0@.len()
                &&& final(self).read_msgs == old(self).read_msgs + 1
                &&& final(self).last_data@ == event->Read_0@
            } else {
                *final(self) == *old(self)
            },
            r.1 <==> read_message(event, conn) is Data,
            final(self).bytes_read - old(self).bytes_read == payload_in(
                read_message(event, conn),
            ).len(),
            final(self).read_msgs - old(self).read_msgs == if r.1 {
                1int
            } else {
                0int
            },
            final(self).last_data@ == if r.1 {
                payload_in(read_message(event, conn))
            } else {
                old(self).last_data@
            },
    {
        match event {
            ReadEvent::Read(b) => {
                if b.len() == 0 {
                    (relay.send_to_user(key_id, &TunnelMessage::Shutdown(conn)), false)
                } else {
                    self.bytes_read = self.bytes_read + (b.len() as u64);
                    self.read_msgs = self.read_msgs + 1;
                    self.last_data = b.clone();
                    assert(self.last_data@ =~= b@);
                    let msg = TunnelMessage::Data { conn, payload: b };
                    (relay.send_to_user(key_id, &msg), true)
                }
            },
            ReadEvent::Failed => (relay.send_to_user(key_id, &TunnelMessage::Reset(conn)), false),
        }
    }

    /// What [`Reader::last_bytes`] gives.
    pub open spec fn last_bytes_text(self, n: nat) -> Seq<char>
        decreases n,
    {
        if n == 0 {
            Seq::empty()
        } else {
            let one = hex::hex_text(seq![self.last_data@[n - 1]]);
            if n == 1 {
                one
            } else {
                self.last_bytes_text((n - 1) as nat) + " "@ + one
            }
        }
    }

    /// The first bytes of the last piece, at most sixty-four, in hexadecimal and
    /// with a space between two.
    pub fn last_bytes(&self) -> (text: String)
        ensures
            text@ == self.last_bytes_text(
                if self.last_data@.len() < 64 {
                    self.last_data@.len()
                } else {
                    64
                },
            ),
    {
        let n: usize = if self.last_data.len() < 64 {
            self.last_data.len()
        } else {
            64
        };
        let mut out = String::new();
        let mut i: usize = 0;
        while i < n
            invariant
                0 <= i <= n <= self.last_data.len(),
                out@ == self.last_bytes_text(i as nat),
            decreases n - i,
        {
            if i > 0 {
                out.append(" ");
            }
            let one: [u8; 1] = [self.last_data[i]];
            assert(one@ =~= seq![self.last_data@[i as int]]);
            out.append(hex_encode(one.as_slice()).as_str());
            i = i + 1;
            assert(out@ =~= self.last_bytes_text(i as nat));
        }
        out
    }
}

/// The bytes of what was read.
pub open spec fn bytes_in(event: ReadEvent) -> Seq<u8> {
    match event {
        ReadEvent::Read(b) => b@,
        ReadEvent::Failed => Seq::empty(),
    }
}

/// The payload of a message, if it has one.
pub open spec fn payload_in(msg: protocol::Message) -> Seq<u8> {
    match msg {
        protocol::Message::Data { payload, .. } => payload,
        _ => Seq::empty(),
    }
}

/// Whether some reads can follow each other: reading goes on after all but the
/// last.
pub open spec fn is_run(events: Seq<ReadEvent>) -> bool {
    forall|i: int| 0 <= i < events.len() - 1 ==> reads_on(#[trigger] events[i])
}

/// What the user is told about some reads, in order.
pub open spec fn told(events: Seq<ReadEvent>, conn: ConnId) -> Seq<protocol::Message> {
    events.map_values(|event: ReadEvent| read_message(event, conn))
}

/// The count of bytes read after some reads.
pub open spec fn bytes_read_after(before: nat, events: Seq<ReadEvent>) -> nat
    decreases events.len(),
{
    if events.len() == 0 {
        before
    } else {
        let so_far = bytes_read_after(before, events.drop_last());
        if reads_on(events.last()) {
            so_far + bytes_in(events.last()).len()
        } else {
            so_far
        }
    }
}

/// The payloads that the user is sent make up, in order, the bytes that were read,
/// whose number is counted. Every message but the last carries such a payload; the
/// last carries one too as long as reading goes on, and else, and only then, says
/// that the game server is done sending or that the connection was reset.
pub proof fn lemma_reads_are_passed_on(events: Seq<ReadEvent>, conn: ConnId, before: nat)
    requires
        is_run(events),
    ensures
        told(events, conn).map_values(|m: protocol::Message| payload_in(m)).flatten()
            == events.map_values(|e: ReadEvent| bytes_in(e)).flatten(),
        bytes_read_after(before, events) == before + events.map_values(
            |e: ReadEvent| bytes_in(e),
        ).flatten().len(),
        forall|i: int|
            0 <= i < events.len() ==> {
                let msg = #[trigger] told(events, conn)[i];
                if i < events.len() - 1 || reads_on(events[i]) {
                    msg matches protocol::Message::Data { conn: c, payload } && c == conn
                        && payload == bytes_in(events[i]) && payload.len() > 0
                } else {
                    msg == protocol::Message::Shutdown(conn) || msg == protocol::Message::Reset(conn)
                }
            },
    decreases events.len(),
{
    let read = events.map_values(|e: ReadEvent| bytes_in(e));
    let sent = told(events, conn).map_values(|m: protocol::Message| payload_in(m));
    assert(sent =~= read) by {
        assert forall|i: int| 0 <= i < events.len() implies sent[i] == read[i] by {
            assert(told(events, conn)[i] == read_message(events[i], conn));
            assert(bytes_in(events[i]).len() == 0 ==> bytes_in(events[i]) =~= Seq::<u8>::empty());
        }
    }
    if events.len() > 0 {
        let init = events.drop_last();
        assert forall|i: int| 0 <= i < init.len() - 1 implies reads_on(#[trigger] init[i]) by {
            assert(init[i] == events[i]);
        }
        lemma_reads_are_passed_on(init, conn, before);
        assert(read.drop_last() =~= init.map_values(|e: ReadEvent| bytes_in(e)));
        read.lemma_flatten_and_flatten_alt_are_equivalent();
        read.drop_last().lemma_flatten_and_flatten_alt_are_equivalent();
        assert(read.last() == bytes_in(events.last()));
    } else {
        assert(read.flatten() =~= Seq::<u8>::empty());
    }
}

/// Whether the client has said among some inputs that it is done sending.
pub open spec fn is_draining(inputs: Seq<WriterInput>) -> bool {
    exists|i: int| 0 <= i < inputs.len() && (#[trigger] inputs[i]) is ShutdownRequested
}

proof fn lemma_phase_of(inputs: Seq<WriterInput>)
    requires
        can_all_happen(WriterPhase::Open, inputs),
    ensures
        ({
            let phase = phase_after_all(WriterPhase::Open, inputs);
            &&& phase == WriterPhase::Open ==> !is_draining(inputs)
            &&& phase == WriterPhase::Draining ==> is_draining(inputs)
        }),
    decreases inputs.len(),
{
    if inputs.len() > 0 {
        let init = inputs.drop_last();
        let n = inputs.len() - 1;
        lemma_phase_of(init);
        assert(forall|i: int| 0 <= i < n ==> inputs[i] == init[i]);
        if is_draining(init) {
            let i = choose|i: int| 0 <= i < init.len() && (#[trigger] init[i]) is ShutdownRequested;
            assert(inputs[i] is ShutdownRequested);
        }
        if is_draining(inputs) && !(inputs[n] is ShutdownRequested) {
            let i = choose|i: int|
                0 <= i < inputs.len() && (#[trigger] inputs[i]) is ShutdownRequested;
            assert(init[i] is ShutdownRequested);
        }
        assert(inputs[n] == inputs.last());
    }
}

/// The writing half ends when its queue ends or a write fails, and only then; and the
/// game server is told that nothing more comes if and only if the client has said so
/// before.
pub proof fn lemma_writer_ends(inputs: Seq<WriterInput>)
    requires
        can_all_happen(WriterPhase::Open, inputs),
        inputs.len() > 0,
    ensures
        ({
            let output = outputs_for(WriterPhase::Open, inputs).last();
            let ends = inputs.last() is QueueEmpty || inputs.last() is QueueClosed || inputs.last()
                is WriteFailed;
            &&& phase_after_all(WriterPhase::Open, inputs) == WriterPhase::Done <==> ends
            &&& output is Finish <==> ends && is_draining(inputs)
            &&& output is Stop <==> ends && !is_draining(inputs)
            &&& output is Drain <==> inputs.last() is ShutdownRequested
            &&& output is Write <==> inputs.last() is Payload
        }),
{
    let init = inputs.drop_last();
    let n = inputs.len() - 1;
    lemma_phase_of(init);
    assert(forall|i: int| 0 <= i < n ==> inputs[i] == init[i]);
    if is_draining(init) {
        let i = choose|i: int| 0 <= i < init.len() && (#[trigger] init[i]) is ShutdownRequested;
        assert(inputs[i] is ShutdownRequested);
    }
    if is_draining(inputs) && !(inputs[n] is ShutdownRequested) {
        let i = choose|i: int| 0 <= i < inputs.len() && (#[trigger] inputs[i]) is ShutdownRequested;
        assert(init[i] is ShutdownRequested);
    }
}

/// The user is told that the game server is done sending if nothing at all was read,
/// and that the connection was reset if reading failed; what was read goes to the user
/// as it is.
pub proof fn lemma_end_of_reading(event: ReadEvent, conn: ConnId)
    ensures
        read_message(event, conn) == protocol::Message::Reset(conn) <==> event is Failed,
        read_message(event, conn) == protocol::Message::Shutdown(conn) <==> (
        event matches ReadEvent::Read(b) && b@.len() == 0),
        read_message(event, conn) is Data <==> reads_on(event),
        reads_on(event) <==> (event matches ReadEvent::Read(b) && b@.len() > 0),
        event matches ReadEvent::Read(b) ==> b@.len() > 0 ==> read_message(event, conn)
            == (protocol::Message::Data { conn, payload: b@ }),
{
}

/// The text of some bytes has two digits for each, with a space between two.
pub proof fn lemma_last_bytes(reader: Reader, n: nat, i: int)
    requires
        0 <= i < n <= reader.last_data@.len(),
    ensures
        ({
            let t = reader.last_bytes_text(n);
            &&& t.len() == 3 * n - 1
            &&& hex::digit_value(t[3 * i]) == Some((reader.last_data@[i] / 16) as u8)
            &&& hex::digit_value(t[3 * i + 1]) == Some((reader.last_data@[i] % 16) as u8)
            &&& i < n - 1 ==> t[3 * i + 2] == ' '
        }),
    decreases n,
{
    reveal_strlit(" ");
    let one = seq![reader.last_data@[n - 1]];
    hex::lemma_hex_text_digits(one, 0);
    hex::lemma_hex_text_is_hex(one);
    if n > 1 {
        let before = reader.last_bytes_text((n - 1) as nat);
        if i < n - 1 {
            lemma_last_bytes(reader, (n - 1) as nat, i);
        } else {
            lemma_last_bytes(reader, (n - 1) as nat, 0);
        }
        let t = reader.last_bytes_text(n);
        assert(t == before + " "@ + hex::hex_text(one));
        assert(before.len() == 3 * n - 4);
        assert(t[3 * n - 4] == ' ');
        assert(t[3 * n - 3] == hex::hex_text(one)[0]);
        assert(t[3 * n - 2] == hex::hex_text(one)[1]);
    }
}

} // verus!
