//! The relay's side of the tunnel: its users and their connections, and what it
//! does with what it receives.

use vstd::prelude::*;
use vstd::string::StringExecFns;
use crate::addr::PeerAddr;
use crate::cipher;
use crate::crypto::{self, open, peek_key_id, seal, CryptoError, KeyId, TunnelKey};
use crate::hex::{self, hex_encode};
use crate::keys::{self, KeyRing};
use crate::protocol::{self, ConnId, TunnelMessage};
use crate::table::Table;
use crate::tunnel;

verus! {

/// Per-user state.
pub struct UserState {
    pub key: TunnelKey,
    pub name: String,
    /// The user's latest address, learned from packets.
    pub addr: Option<PeerAddr>,
    /// The channel of the user's stream transport, if there is one.
    pub tcp: Option<u64>,
}

/// What a [`UserState`] says.
pub ghost struct User {
    pub key: TunnelKey,
    pub name: Seq<char>,
    pub addr: Option<PeerAddr>,
    pub tcp: Option<u64>,
}

impl View for UserState {
    type V = User;

    open spec fn view(&self) -> User {
        User { key: self.key, name: self.name@, addr: self.addr, tcp: self.tcp }
    }
}

/// The state of a relay.
pub struct RelayState {
    /// The users by the id of their key.
    pub users: Table<KeyId, UserState>,
    /// The channels of the open connections to game servers.
    pub conns: Table<ConnId, u64>,
}

/// What becomes of a datagram.
pub enum UdpOutcome {
    /// It is too short to name a key.
    NoKeyId(CryptoError),
    /// It names a key that no user has.
    UnknownKey(KeyId),
    /// It does not open under its user's key.
    Rejected { user: String, error: CryptoError },
    /// It holds a message. `moved` is the user's name if the user was last seen
    /// at another address, or never.
    Accepted { key_id: KeyId, msg: TunnelMessage, moved: Option<String> },
}

/// Why a stream is refused.
pub enum HelloError {
    /// Its first packet cannot be read.
    Unreadable(CryptoError),
    /// Its first packet names a key that no user has.
    UnknownKey(KeyId),
}

impl HelloError {
    /// What [`HelloError::to_text`] gives.
    pub open spec fn text(self) -> Seq<char> {
        match self {
            HelloError::Unreadable(e) => e.text(),
            HelloError::UnknownKey(id) => "unknown key_id "@ + hex::hex_text(id@),
        }
    }

    /// The error in words.
    pub fn to_text(&self) -> (text: String)
        ensures
            text@ == self.text(),
    {
        match self {
            HelloError::Unreadable(e) => e.to_text(),
            HelloError::UnknownKey(id) => {
                let mut out = "unknown key_id ".to_owned();
                out.append(hex_encode(id.as_slice()).as_str());
                out
            },
        }
    }
}

/// What becomes of a packet on a stream.
pub enum TcpOutcome {
    /// It names no key, or one that no user has.
    Skipped,
    /// It does not open under its user's key.
    Rejected(CryptoError),
    /// It holds a message.
    Accepted { key_id: KeyId, msg: TunnelMessage },
}

/// How a packet for a user is sent.
pub enum Delivery {
    /// There is no such user.
    NoUser,
    /// It could not be encrypted.
    Failed(CryptoError),
    /// Over the user's stream.
    Tcp { channel: u64, packet: Vec<u8> },
    /// As a datagram.
    Udp { addr: PeerAddr, packet: Vec<u8> },
    /// Not at all: nothing is known of where the user is.
    NoAddress,
}

/// What a relay does about a message.
pub enum RelayAction {
    /// Connect to the game server.
    Dial(ConnId),
    /// Hand a payload to a connection.
    Forward { channel: u64, payload: Vec<u8> },
    /// Tell a connection that the client is done sending.
    HalfClose { channel: u64 },
    /// Forget a connection, whose channel is given if it had one.
    Forget { conn: ConnId, had: Option<u64> },
    /// Answer the user.
    Reply(Delivery),
    /// Nothing: the connection is not open.
    Drop(ConnId),
    /// Nothing: the client sent what only a relay sends.
    Unexpected,
}

/// What is known of a user who had an id before, or not.
pub open spec fn known_addr(users: Map<KeyId, User>, id: KeyId) -> Option<PeerAddr> {
    if users.dom().contains(id) {
        users[id].addr
    } else {
        None
    }
}

/// The stream of a user who had an id before, or not.
pub open spec fn known_tcp(users: Map<KeyId, User>, id: KeyId) -> Option<u64> {
    if users.dom().contains(id) {
        users[id].tcp
    } else {
        None
    }
}

/// The users after some keys were entered one after the other: the keys are
/// those of the list and no others; a user whose key id stays keeps address and
/// stream.
pub open spec fn users_from(
    before: Map<KeyId, User>,
    entries: Seq<(String, TunnelKey)>,
) -> Map<KeyId, User>
    decreases entries.len(),
{
    if entries.len() == 0 {
        Map::empty()
    } else {
        let (name, key) = entries.last();
        users_from(before, entries.drop_last()).insert(
            key.key_id,
            User {
                key,
                name: name@,
                addr: known_addr(before, key.key_id),
                tcp: known_tcp(before, key.key_id),
            },
        )
    }
}

/// Whether the users are those of a ring of keys: each key of the ring has a
/// user under its id, each user has a key of the ring under its name, and who
/// had the id before left address and stream. (Of two keys of one id either may
/// stand.)
pub open spec fn users_match(
    before: Map<KeyId, User>,
    ring: Map<Seq<char>, TunnelKey>,
    after: Map<KeyId, User>,
) -> bool {
    &&& forall|name: Seq<char>| #[trigger]
        ring.dom().contains(name) ==> after.dom().contains(ring[name].key_id)
    &&& forall|id: KeyId| #[trigger]
        after.dom().contains(id) ==> {
            let user = after[id];
            &&& ring.dom().contains(user.name)
            &&& user.key == ring[user.name]
            &&& user.key.key_id == id
            &&& user.addr == known_addr(before, id)
            &&& user.tcp == known_tcp(before, id)
        }
}

impl RelayState {
    /// The users, and what is known of each.
    pub open spec fn people(self) -> Map<KeyId, User> {
        self.users@.map_values(|u: UserState| u@)
    }

    /// A relay without users and connections.
    pub fn new() -> (state: Self)
        ensures
            state.people() == Map::<KeyId, User>::empty(),
            state.conns@ == Map::<ConnId, u64>::empty(),
    {
        let state = RelayState { users: Table::new(), conns: Table::new() };
        assert(state.people() =~= Map::<KeyId, User>::empty());
        state
    }

    /// Takes over the keys of a ring, in place of those that were there.
    pub fn load_keys(&mut self, keys: KeyRing)
        ensures
            final(self).conns == old(self).conns,
            users_match(old(self).people(), keys@, final(self).people()),
    {
        let entries: Vec<(String, TunnelKey)> = keys.into_entries();
        let mut users: Table<KeyId, UserState> = Table::new();
        let mut i: usize = 0;
        assert(entries@.take(0) =~= Seq::<(String, TunnelKey)>::empty());
        assert(users@.map_values(|u: UserState| u@) =~= Map::<KeyId, User>::empty());
        while i < entries.len()
            invariant
                0 <= i <= entries.len(),
                *self == *old(self),
                users@.map_values(|u: UserState| u@) == users_from(
                    self.people(),
                    entries@.take(i as int),
                ),
            decreases entries.len() - i,
        {
            let key: TunnelKey = entries[i].1;
            let name: String = entries[i].0.clone();
            let addr: Option<PeerAddr> = match self.users.get(key.key_id) {
                Some(user) => user.addr,
                None => None,
            };
            let tcp: Option<u64> = match self.users.get(key.key_id) {
                Some(user) => user.tcp,
                None => None,
            };
            proof {
                let upto = entries@.take(i + 1);
                assert(upto.drop_last() =~= entries@.take(i as int));
                assert(upto.last() == entries@[i as int]);
            }
            let ghost before = users@;
            let user = UserState { key, name, addr, tcp };
            let ghost said = user@;
            users.insert(key.key_id, user);
            assert(users@.map_values(|u: UserState| u@) =~= before.map_values(
                |u: UserState| u@,
            ).insert(key.key_id, said));
            i = i + 1;
        }
        proof {
            assert(entries@.take(i as int) =~= entries@);
            lemma_users_from(self.people(), entries@, keys@);
        }
        self.users = users;
    }

    /// Takes in a datagram. One that opens is its user's latest address.
    pub fn receive_udp(&mut self, packet: &[u8], peer: PeerAddr) -> (outcome: UdpOutcome)
        requires
            packet@.len() >= 44 ==> cipher::cipher_returns((packet@.len() - 44) as nat),
        ensures
            final(self).conns == old(self).conns,
            final(self).people() == match opened_by_user(old(self).people(), packet@) {
                Some(_) => {
                    let id = packet_id(packet@);
                    old(self).people().insert(
                        id,
                        User { addr: Some(peer), ..old(self).people()[id] },
                    )
                },
                None => old(self).people(),
            },
            match outcome {
                UdpOutcome::Accepted { key_id, .. } => {
                    &&& key_id@ == packet@.take(4)
                    &&& old(self).people().dom().contains(key_id)
                    &&& only_user_changed(old(self).people(), final(self).people(), key_id)
                    &&& final(self).people()[key_id].addr == Some(peer)
                    &&& final(self).people()[key_id].tcp == old(self).people()[key_id].tcp
                },
                _ => final(self).people() == old(self).people(),
            },
            outcome is Accepted <==> opened_by_user(old(self).people(), packet@) is Some,
            match outcome {
                UdpOutcome::NoKeyId(e) => packet@.len() < 44 && e == CryptoError::NoKeyId,
                UdpOutcome::UnknownKey(id) => {
                    &&& packet@.len() >= 44
                    &&& id == packet_id(packet@)
                    &&& !old(self).people().dom().contains(id)
                },
                UdpOutcome::Rejected { user, error } => {
                    let id = packet_id(packet@);
                    let known = old(self).people()[id];
                    &&& packet@.len() >= 44
                    &&& old(self).people().dom().contains(id)
                    &&& crypto::opened(known.key, packet@) is None
                    &&& crypto::is_open_error(error, known.key, packet@)
                    &&& user@ == known.name
                },
                UdpOutcome::Accepted { key_id, msg, moved } => {
                    let known = old(self).people()[key_id];
                    &&& opened_by_user(old(self).people(), packet@) == Some(msg@)
                    &&& key_id == packet_id(packet@)
                    &&& match moved {
                        Some(name) => known.addr != Some(peer) && name@ == known.name,
                        None => known.addr == Some(peer),
                    }
                },
            },
    {
        let key_id: KeyId = match peek_key_id(packet) {
            Ok(id) => id,
            Err(e) => return UdpOutcome::NoKeyId(e),
        };
        assert(key_id =~= packet_id(packet@));
        let need_update: bool;
        let msg: TunnelMessage;
        match self.users.get(key_id) {
            Some(user) => {
                match open(&user.key, packet) {
                    Ok(m) => {
                        msg = m;
                    },
                    Err(error) => {
                        return UdpOutcome::Rejected { user: user.name.clone(), error };
                    },
                }
                need_update = match user.addr {
                    Some(addr) => addr != peer,
                    None => true,
                };
            },
            None => return UdpOutcome::UnknownKey(key_id),
        }
        let mut moved: Option<String> = None;
        if need_update {
            match self.users.remove(key_id) {
                Some(user) => {
                    moved = Some(user.name.clone());
                    self.users.insert(
                        key_id,
                        UserState {
                            key: user.key,
                            name: user.name,
                            addr: Some(peer),
                            tcp: user.tcp,
                        },
                    );
                },
                None => {},
            }
        }
        assert(self.people() =~= old(self).people().insert(
            key_id,
            User { addr: Some(peer), ..old(self).people()[key_id] },
        ));
        assert(only_user_changed(old(self).people(), self.people(), key_id));
        UdpOutcome::Accepted { key_id, msg, moved }
    }

    /// Takes in the first packet of a stream, which says whose stream it is. From
    /// then on the user is answered over this stream.
    pub fn tcp_hello(&mut self, packet: &[u8], peer: PeerAddr, channel: u64) -> (r: Result<
        (KeyId, String, TunnelMessage),
        HelloError,
    >)
        requires
            packet@.len() >= 44 ==> cipher::cipher_returns((packet@.len() - 44) as nat),
        ensures
            final(self).conns == old(self).conns,
            final(self).people() == match opened_by_user(old(self).people(), packet@) {
                Some(_) => {
                    let id = packet_id(packet@);
                    old(self).people().insert(
                        id,
                        User {
                            addr: Some(peer),
                            tcp: Some(channel),
                            ..old(self).people()[id]
                        },
                    )
                },
                None => old(self).people(),
            },
            match r {
                Ok((key_id, _, _)) => {
                    &&& key_id@ == packet@.take(4)
                    &&& old(self).people().dom().contains(key_id)
                    &&& only_user_changed(old(self).people(), final(self).people(), key_id)
                    &&& final(self).people()[key_id].addr == Some(peer)
                    &&& final(self).people()[key_id].tcp == Some(channel)
                },
                Err(_) => final(self).people() == old(self).people(),
            },
            r is Ok <==> opened_by_user(old(self).people(), packet@) is Some,
            match r {
                Ok((key_id, name, msg)) => {
                    &&& opened_by_user(old(self).people(), packet@) == Some(msg@)
                    &&& key_id == packet_id(packet@)
                    &&& name@ == old(self).people()[key_id].name
                },
                Err(HelloError::UnknownKey(id)) => {
                    &&& packet@.len() >= 44
                    &&& id == packet_id(packet@)
                    &&& !old(self).people().dom().contains(id)
                },
                Err(HelloError::Unreadable(e)) => if packet@.len() < 44 {
                    e == CryptoError::NoKeyId
                } else {
                    let id = packet_id(packet@);
                    let key = old(self).people()[id].key;
                    &&& old(self).people().dom().contains(id)
                    &&& crypto::opened(key, packet@) is None
                    &&& crypto::is_open_error(e, key, packet@)
                },
            },
    {
        let key_id: KeyId = match peek_key_id(packet) {
            Ok(id) => id,
            Err(e) => return Err(HelloError::Unreadable(e)),
        };
        assert(key_id =~= packet_id(packet@));
        let msg: TunnelMessage = match self.users.get(key_id) {
            Some(user) => match open(&user.key, packet) {
                Ok(m) => m,
                Err(e) => return Err(HelloError::Unreadable(e)),
            },
            None => return Err(HelloError::UnknownKey(key_id)),
        };
        match self.users.remove(key_id) {
            Some(user) => {
                let name: String = user.name.clone();
                self.users.insert(
                    key_id,
                    UserState {
                        key: user.key,
                        name: user.name,
                        addr: Some(peer),
                        tcp: Some(channel),
                    },
                );
                assert(self.people() =~= old(self).people().insert(
                    key_id,
                    User { addr: Some(peer), tcp: Some(channel), ..old(self).people()[key_id] },
                ));
                assert(only_user_changed(old(self).people(), self.people(), key_id));
                Ok((key_id, name, msg))
            },
            None => Err(HelloError::UnknownKey(key_id)),
        }
    }

    /// Takes in a later packet of a stream.
    pub fn tcp_receive(&self, packet: &[u8]) -> (outcome: TcpOutcome)
        requires
            packet@.len() >= 44 ==> cipher::cipher_returns((packet@.len() - 44) as nat),
        ensures
            match outcome {
                TcpOutcome::Skipped => packet@.len() < 44 || !self.people().dom().contains(
                    packet_id(packet@),
                ),
                TcpOutcome::Rejected(e) => {
                    let id = packet_id(packet@);
                    let key = self.people()[id].key;
                    &&& packet@.len() >= 44
                    &&& self.people().dom().contains(id)
                    &&& crypto::opened(key, packet@) is None
                    &&& crypto::is_open_error(e, key, packet@)
                },
                TcpOutcome::Accepted { key_id, msg } => {
                    &&& opened_by_user(self.people(), packet@) == Some(msg@)
                    &&& key_id == packet_id(packet@)
                },
            },
            outcome is Accepted <==> opened_by_user(self.people(), packet@) is Some,
    {
        let key_id: KeyId = match peek_key_id(packet) {
            Ok(id) => id,
            Err(_) => return TcpOutcome::Skipped,
        };
        assert(key_id =~= packet_id(packet@));
        match self.users.get(key_id) {
            Some(user) => match open(&user.key, packet) {
                Ok(msg) => TcpOutcome::Accepted { key_id, msg },
                Err(e) => TcpOutcome::Rejected(e),
            },
            None => TcpOutcome::Skipped,
        }
    }

    /// Forgets the stream of a user.
    pub fn tcp_close(&mut self, key_id: KeyId)
        ensures
            final(self).conns == old(self).conns,
            final(self).people() == if old(self).people().dom().contains(key_id) {
                old(self).people().insert(key_id, User { tcp: None, ..old(self).people()[key_id] })
            } else {
                old(self).people()
            },
            only_user_changed(old(self).people(), final(self).people(), key_id),
            old(self).people().dom().contains(key_id) ==> {
                &&& final(self).people()[key_id].tcp is None
                &&& final(self).people()[key_id].addr == old(self).people()[key_id].addr
            },
    {
        match self.users.remove(key_id) {
            Some(user) => {
                self.users.insert(
                    key_id,
                    UserState { key: user.key, name: user.name, addr: user.addr, tcp: None },
                );
                assert(self.people() =~= old(self).people().insert(
                    key_id,
                    User { tcp: None, ..old(self).people()[key_id] },
                ));
            },
            None => {
                assert(self.people() =~= old(self).people());
            },
        }
    }

    /// Seals a message for a user, and says how it is sent.
    pub fn send_to_user(&self, key_id: KeyId, msg: &TunnelMessage) -> (delivery: Delivery)
        requires
            cipher::cipher_returns(protocol::message_len(msg@)),
        ensures
            delivers(delivery, self.people(), key_id, msg@),
    {
        match self.users.get(key_id) {
            Some(user) => {
                let packet: Vec<u8> = match seal(&user.key, msg) {
                    Ok(packet) => packet,
                    Err(e) => return Delivery::Failed(e),
                };
                // A stream is reliable and in order: it goes before datagrams.
                if let Some(channel) = user.tcp {
                    return Delivery::Tcp { channel, packet };
                }
                match user.addr {
                    Some(addr) => Delivery::Udp { addr, packet },
                    None => Delivery::NoAddress,
                }
            },
            None => Delivery::NoUser,
        }
    }

    /// Takes in a message of a user.
    pub fn handle_message(&mut self, msg: TunnelMessage, key_id: KeyId) -> (action: RelayAction)
        ensures
            final(self).users == old(self).users,
            final(self).conns@ == match msg@ {
                protocol::Message::Reset(conn) => old(self).conns@.remove(conn),
                _ => old(self).conns@,
            },
            acts(action, old(self).people(), old(self).conns@, msg@, key_id),
            only_reset_forgets(old(self).conns@, final(self).conns@, msg@),
    {
        match msg {
            TunnelMessage::Connect(conn) => RelayAction::Dial(conn),
            TunnelMessage::Data { conn, payload } => match self.conns.get(conn) {
                Some(channel) => RelayAction::Forward { channel: *channel, payload },
                None => RelayAction::Drop(conn),
            },
            TunnelMessage::Shutdown(conn) => match self.conns.get(conn) {
                Some(channel) => RelayAction::HalfClose { channel: *channel },
                None => RelayAction::Drop(conn),
            },
            TunnelMessage::Reset(conn) => {
                let had: Option<u64> = self.conns.remove(conn);
                RelayAction::Forget { conn, had }
            },
            TunnelMessage::Ping { seq, timestamp_ms } => {
                let reply = TunnelMessage::Pong { seq, client_timestamp_ms: timestamp_ms };
                RelayAction::Reply(self.send_to_user(key_id, &reply))
            },
            _ => RelayAction::Unexpected,
        }
    }

    /// Tells a user what came of connecting to the game server.
    pub fn connect_reply(&self, key_id: KeyId, conn: ConnId, outcome: Result<(), String>) -> (d:
        Delivery)
        requires
            cipher::cipher_returns(protocol::message_len(connect_message(conn, outcome))),
        ensures
            delivers(d, self.people(), key_id, connect_message(conn, outcome)),
    {
        match outcome {
            Ok(()) => self.send_to_user(key_id, &TunnelMessage::Connected(conn)),
            Err(reason) => {
                let msg = TunnelMessage::ConnectFailed { conn, reason };
                self.send_to_user(key_id, &msg)
            },
        }
    }

    /// Enters the channel of a connection, in place of the one that was there,
    /// which is given back.
    pub fn register(&mut self, conn: ConnId, channel: u64) -> (had: Option<u64>)
        ensures
            final(self).users == old(self).users,
            final(self).conns@ == old(self).conns@.insert(conn, channel),
            had == if old(self).conns@.dom().contains(conn) {
                Some(old(self).conns@[conn])
            } else {
                None
            },
            forall|other: ConnId| #[trigger]
                final(self).conns@.dom().contains(other) <==> other == conn || old(
                    self,
                ).conns@.dom().contains(other),
            forall|other: ConnId|
                old(self).conns@.dom().contains(other) && other != conn
                    ==> #[trigger] final(self).conns@[other] == old(self).conns@[other],
            final(self).conns@[conn] == channel,
    {
        let had: Option<u64> = self.conns.remove(conn);
        self.conns.insert(conn, channel);
        assert(self.conns@ =~= old(self).conns@.insert(conn, channel));
        had
    }

    /// Forgets a connection.
    pub fn unregister(&mut self, conn: ConnId) -> (channel: Option<u64>)
        ensures
            final(self).users == old(self).users,
            final(self).conns@ == old(self).conns@.remove(conn),
            channel == if old(self).conns@.dom().contains(conn) {
                Some(old(self).conns@[conn])
            } else {
                None
            },
            forall|other: ConnId| #[trigger]
                final(self).conns@.dom().contains(other) <==> other != conn && old(
                    self,
                ).conns@.dom().contains(other),
            forall|other: ConnId|
                old(self).conns@.dom().contains(other) && other != conn
                    ==> #[trigger] final(self).conns@[other] == old(self).conns@[other],
    {
        self.conns.remove(conn)
    }
}

/// What a user is told about connecting to a game server.
pub open spec fn connect_message(conn: ConnId, outcome: Result<(), String>) -> protocol::Message {
    match outcome {
        Ok(()) => protocol::Message::Connected(conn),
        Err(reason) => protocol::Message::ConnectFailed { conn, reason: reason@ },
    }
}

/// The key id in front of a packet.
pub open spec fn packet_id(packet: Seq<u8>) -> KeyId {
    [packet[0], packet[1], packet[2], packet[3]]
}

/// The message in a packet, if its key id is that of a user and it opens under
/// that user's key.
pub open spec fn opened_by_user(people: Map<KeyId, User>, packet: Seq<u8>) -> Option<
    protocol::Message,
> {
    if packet.len() >= 44 && people.dom().contains(packet_id(packet)) {
        crypto::opened(people[packet_id(packet)].key, packet)
    } else {
        None
    }
}

/// Whether a packet is a message sealed for a user.
pub open spec fn sealed_for(user: User, msg: protocol::Message, packet: Seq<u8>) -> bool {
    &&& crypto::is_sealed(user.key, msg, packet)
    &&& crypto::opens_only_as(user.key, msg, packet)
}

/// Whether a message to a user is sent as it should be: over the user's stream if
/// there is one, else to the user's latest address.
pub open spec fn delivers(
    d: Delivery,
    people: Map<KeyId, User>,
    key_id: KeyId,
    msg: protocol::Message,
) -> bool {
    if !people.dom().contains(key_id) {
        d == Delivery::NoUser
    } else if !cipher::cipher_takes(protocol::message_len(msg)) {
        d == Delivery::Failed(CryptoError::EncryptionFailed)
    } else {
        let user = people[key_id];
        match (user.tcp, user.addr) {
            (Some(c), _) => d matches Delivery::Tcp { channel, packet } && channel == c
                && sealed_for(user, msg, packet@),
            (None, Some(a)) => d matches Delivery::Udp { addr, packet } && addr == a && sealed_for(
                user,
                msg,
                packet@,
            ),
            (None, None) => d == Delivery::NoAddress,
        }
    }
}

/// Whether an action is what a relay does about a message of a user.
pub open spec fn acts(
    action: RelayAction,
    people: Map<KeyId, User>,
    conns: Map<ConnId, u64>,
    msg: protocol::Message,
    key_id: KeyId,
) -> bool {
    match msg {
        protocol::Message::Connect(conn) => action == RelayAction::Dial(conn),
        protocol::Message::Data { conn, payload } => if conns.dom().contains(conn) {
            action matches RelayAction::Forward { channel, payload: p } && channel == conns[conn]
                && p@ == payload
        } else {
            action == RelayAction::Drop(conn)
        },
        protocol::Message::Shutdown(conn) => if conns.dom().contains(conn) {
            action == RelayAction::HalfClose { channel: conns[conn] }
        } else {
            action == RelayAction::Drop(conn)
        },
        protocol::Message::Reset(conn) => action == RelayAction::Forget {
            conn,
            had: if conns.dom().contains(conn) {
                Some(conns[conn])
            } else {
                None
            },
        },
        protocol::Message::Ping { seq, timestamp_ms } => {
            action matches RelayAction::Reply(d) && delivers(
                d,
                people,
                key_id,
                protocol::Message::Pong { seq, client_timestamp_ms: timestamp_ms },
            )
        },
        _ => action == RelayAction::Unexpected,
    }
}

/// A latency probe comes back to its client as an answer from which the client
/// takes the time since the probe was sent.
pub proof fn lemma_ping_measures_round_trip(
    people: Map<KeyId, User>,
    conns: Map<ConnId, u64>,
    key_id: KeyId,
    seq: u64,
    timestamp_ms: u64,
    action: RelayAction,
    rtt_ms: u64,
    now_ms: u64,
)
    requires
        acts(action, people, conns, protocol::Message::Ping { seq, timestamp_ms }, key_id),
        people.dom().contains(key_id),
        people[key_id].tcp is Some || people[key_id].addr is Some,
    ensures
        ({
            let packet = match action {
                RelayAction::Reply(Delivery::Tcp { packet, .. }) => packet@,
                RelayAction::Reply(Delivery::Udp { packet, .. }) => packet@,
                _ => Seq::empty(),
            };
            match crypto::opened(people[key_id].key, packet) {
                Some(msg) => {
                    &&& msg == protocol::Message::Pong { seq, client_timestamp_ms: timestamp_ms }
                    &&& tunnel::rtt_after(rtt_ms, msg, now_ms) == tunnel::elapsed(
                        now_ms,
                        timestamp_ms,
                    )
                },
                None => false,
            }
        }),
{
}

/// A packet that a client sealed is taken by the relay as that client's message,
/// if the client's key is a user's.
pub proof fn lemma_sealed_packet_is_accepted(
    people: Map<KeyId, User>,
    key: TunnelKey,
    msg: protocol::Message,
    packet: Seq<u8>,
)
    requires
        crypto::is_sealed(key, msg, packet),
        crypto::opens_only_as(key, msg, packet),
        people.dom().contains(key.key_id),
        people[key.key_id].key == key,
    ensures
        packet_id(packet) == key.key_id,
        opened_by_user(people, packet) == Some(msg),
{
    assert(packet_id(packet) =~= key.key_id) by {
        assert forall|i: int| 0 <= i < 4 implies packet_id(packet)[i] == key.key_id[i] by {
            assert(packet.take(4)[i] == packet[i]);
            assert(packet.take(4)[i] == key.key_id@[i]);
        }
    }
}

/// A payload that a client sealed goes, as it was, to the channel of its
/// connection.
pub proof fn lemma_data_reaches_game_server(
    people: Map<KeyId, User>,
    conns: Map<ConnId, u64>,
    key: TunnelKey,
    conn: ConnId,
    payload: Seq<u8>,
    packet: Seq<u8>,
    action: RelayAction,
)
    requires
        crypto::is_sealed(key, protocol::Message::Data { conn, payload }, packet),
        crypto::opens_only_as(key, protocol::Message::Data { conn, payload }, packet),
        people.dom().contains(key.key_id),
        people[key.key_id].key == key,
        conns.dom().contains(conn),
        opened_by_user(people, packet) matches Some(msg) ==> acts(
            action,
            people,
            conns,
            msg,
            packet_id(packet),
        ),
    ensures
        action matches RelayAction::Forward { channel, payload: p } && channel == conns[conn] && p@
            == payload,
{
    lemma_sealed_packet_is_accepted(
        people,
        key,
        protocol::Message::Data { conn, payload },
        packet,
    );
}

/// A payload that a relay sends to a user who can be reached is, once its packet
/// has arrived, at the end of what the user's connection has received.
pub proof fn lemma_data_reaches_client(
    people: Map<KeyId, User>,
    key_id: KeyId,
    conn: ConnId,
    payload: Seq<u8>,
    delivery: Delivery,
    links: Map<ConnId, tunnel::Conn>,
)
    requires
        payload.len() <= protocol::MAX_PAYLOAD_SIZE,
        delivers(delivery, people, key_id, protocol::Message::Data { conn, payload }),
        people.dom().contains(key_id),
        people[key_id].tcp is Some || people[key_id].addr is Some,
        links.dom().contains(conn),
    ensures
        ({
            let packet = match delivery {
                Delivery::Tcp { packet, .. } => packet@,
                Delivery::Udp { packet, .. } => packet@,
                _ => Seq::empty(),
            };
            match crypto::opened(people[key_id].key, packet) {
                Some(msg) => tunnel::conns_after(links, msg)[conn].rx == links[conn].rx + payload,
                None => false,
            }
        }),
{
}

/// Whoever keeps a key id over a reload keeps address and stream.
pub proof fn lemma_reload_keeps_addresses(
    before: Map<KeyId, User>,
    ring: Map<Seq<char>, TunnelKey>,
    after: Map<KeyId, User>,
    id: KeyId,
)
    requires
        users_match(before, ring, after),
        before.dom().contains(id),
        after.dom().contains(id),
    ensures
        after[id].addr == before[id].addr,
        after[id].tcp == before[id].tcp,
{
}

/// Loading the keys again that were loaded last changes nothing, if no two of
/// them share an id.
pub proof fn lemma_reload_same_keys(
    first: Map<KeyId, User>,
    ring: Map<Seq<char>, TunnelKey>,
    before: Map<KeyId, User>,
    after: Map<KeyId, User>,
)
    requires
        users_match(first, ring, before),
        users_match(before, ring, after),
        forall|a: Seq<char>, b: Seq<char>|
            ring.dom().contains(a) && ring.dom().contains(b) && (#[trigger] ring[a]).key_id == (
            #[trigger] ring[b]).key_id ==> a == b,
    ensures
        after == before,
{
    assert forall|id: KeyId| after.dom().contains(id) implies before.dom().contains(id) by {
        assert(ring.dom().contains(after[id].name));
    }
    assert forall|id: KeyId| before.dom().contains(id) implies after.dom().contains(id) by {
        assert(ring.dom().contains(before[id].name));
    }
    assert forall|id: KeyId| before.dom().contains(id) implies after[id] == before[id] by {
        assert(after.dom().contains(id));
        let (a, b) = (after[id].name, before[id].name);
        assert(ring[a].key_id == id && ring[b].key_id == id);
    }
    assert(after =~= before);
}

proof fn lemma_users_from(
    before: Map<KeyId, User>,
    entries: Seq<(String, TunnelKey)>,
    ring: Map<Seq<char>, TunnelKey>,
)
    requires
        keys::is_listing(entries, ring),
    ensures
        users_match(before, ring, users_from(before, entries)),
{
    let after = users_from(before, entries);
    lemma_users_from_each(before, entries);
    assert forall|name: Seq<char>| #[trigger]
        ring.dom().contains(name) implies after.dom().contains(ring[name].key_id) by {
        let i = choose|i: int| 0 <= i < entries.len() && (#[trigger] entries[i]).0@ == name;
        assert(entries[i].1 == ring[name]);
        assert(after.dom().contains(entries[i].1.key_id));
    }
    assert forall|id: KeyId| #[trigger] after.dom().contains(id) implies {
        let user = after[id];
        &&& ring.dom().contains(user.name)
        &&& user.key == ring[user.name]
        &&& user.key.key_id == id
        &&& user.addr == known_addr(before, id)
        &&& user.tcp == known_tcp(before, id)
    } by {
        let i = choose|i: int|
            0 <= i < entries.len() && (#[trigger] entries[i]).1.key_id == id && after[id] == (User {
                key: entries[i].1,
                name: entries[i].0@,
                addr: known_addr(before, id),
                tcp: known_tcp(before, id),
            });
        assert(ring.dom().contains(entries[i].0@));
    }
}

proof fn lemma_users_from_each(before: Map<KeyId, User>, entries: Seq<(String, TunnelKey)>)
    ensures
        ({
            let after = users_from(before, entries);
            &&& forall|i: int|
                0 <= i < entries.len() ==> after.dom().contains((#[trigger] entries[i]).1.key_id)
            &&& forall|id: KeyId| #[trigger]
                after.dom().contains(id) ==> exists|i: int|
                    0 <= i < entries.len() && (#[trigger] entries[i]).1.key_id == id && after[id]
                        == (User {
                        key: entries[i].1,
                        name: entries[i].0@,
                        addr: known_addr(before, id),
                        tcp: known_tcp(before, id),
                    })
        }),
    decreases entries.len(),
{
    if entries.len() > 0 {
        let init = entries.drop_last();
        let n = entries.len() - 1;
        lemma_users_from_each(before, init);
        let after = users_from(before, entries);
        assert forall|i: int| 0 <= i < entries.len() implies after.dom().contains(
            (#[trigger] entries[i]).1.key_id,
        ) by {
            if i < n {
                assert(init[i] == entries[i]);
            }
        }
        assert forall|id: KeyId| #[trigger] after.dom().contains(id) implies exists|i: int|
            0 <= i < entries.len() && (#[trigger] entries[i]).1.key_id == id && after[id] == (User {
                key: entries[i].1,
                name: entries[i].0@,
                addr: known_addr(before, id),
                tcp: known_tcp(before, id),
            }) by {
            if id == entries[n].1.key_id {
                assert(after[id].key == entries[n].1);
            } else {
                assert(users_from(before, init).dom().contains(id));
                let i = choose|i: int|
                    0 <= i < init.len() && (#[trigger] init[i]).1.key_id == id && after[id] == (
                    User {
                        key: init[i].1,
                        name: init[i].0@,
                        addr: known_addr(before, id),
                        tcp: known_tcp(before, id),
                    });
                assert(entries[i] == init[i]);
            }
        }
    }
}

/// Whether at most one user changed, and of that user neither key nor name: nobody
/// came and nobody went.
pub open spec fn only_user_changed(
    before: Map<KeyId, User>,
    after: Map<KeyId, User>,
    id: KeyId,
) -> bool {
    &&& forall|other: KeyId| #[trigger]
        after.dom().contains(other) <==> before.dom().contains(other)
    &&& forall|other: KeyId|
        before.dom().contains(other) && other != id ==> #[trigger] after[other] == before[other]
    &&& before.dom().contains(id) ==> {
        &&& after[id].key == before[id].key
        &&& after[id].name == before[id].name
    }
}

/// A packet is a user's if and only if it begins with the id of a user's key and
/// opens under that key, whoever else there is.
pub proof fn lemma_packet_of_user(people: Map<KeyId, User>, packet: Seq<u8>)
    ensures
        packet.len() < 44 ==> opened_by_user(people, packet) is None,
        forall|id: KeyId| #[trigger]
            people.dom().contains(id) && packet.len() >= 44 && packet.take(4) == id@
                ==> opened_by_user(people, packet) == crypto::opened(people[id].key, packet),
        packet.len() >= 44 && (forall|id: KeyId| #[trigger]
            people.dom().contains(id) ==> packet.take(4) != id@) ==> opened_by_user(people, packet)
            is None,
{
    if packet.len() >= 44 {
        let own = packet_id(packet);
        assert(own@ =~= packet.take(4));
        assert forall|id: KeyId| #[trigger]
            people.dom().contains(id) && packet.take(4) == id@ implies opened_by_user(people, packet)
            == crypto::opened(people[id].key, packet) by {
            assert(id =~= own) by {
                assert forall|i: int| 0 <= i < 4 implies id[i] == own[i] by {
                    assert(id@[i] == own@[i]);
                }
            }
        }
    }
}

/// A message to a user goes over the user's stream if there is one, else to the
/// user's latest address, else nowhere; and what goes out begins with the id of the
/// user's key and opens under that key to the message.
pub proof fn lemma_stream_goes_before_datagrams(
    d: Delivery,
    people: Map<KeyId, User>,
    key_id: KeyId,
    msg: protocol::Message,
)
    requires
        delivers(d, people, key_id, msg),
        protocol::message_bytes(msg).len() <= 274_877_906_816,
    ensures
        d is NoUser <==> !people.dom().contains(key_id),
        !(d is Failed),
        d is Tcp <==> people.dom().contains(key_id) && people[key_id].tcp is Some,
        d is Udp <==> people.dom().contains(key_id) && people[key_id].tcp is None
            && people[key_id].addr is Some,
        d is NoAddress <==> people.dom().contains(key_id) && people[key_id].tcp is None
            && people[key_id].addr is None,
        d matches Delivery::Tcp { channel, packet } ==> {
            &&& people[key_id].tcp == Some(channel)
            &&& packet@.take(4) == people[key_id].key.key_id@
            &&& crypto::opened(people[key_id].key, packet@) == Some(msg)
        },
        d matches Delivery::Udp { addr, packet } ==> {
            &&& people[key_id].addr == Some(addr)
            &&& packet@.take(4) == people[key_id].key.key_id@
            &&& crypto::opened(people[key_id].key, packet@) == Some(msg)
        },
{
    protocol::lemma_message_len(msg);
}

/// What a relay does is of the kind of the message and about its connection: data and
/// the end of sending go to the channel of an open connection, with the payload
/// unchanged, and are dropped for any other.
pub proof fn lemma_action_matches_message(
    action: RelayAction,
    people: Map<KeyId, User>,
    conns: Map<ConnId, u64>,
    msg: protocol::Message,
    key_id: KeyId,
)
    requires
        acts(action, people, conns, msg, key_id),
    ensures
        action is Dial <==> msg is Connect,
        action is Forget <==> msg is Reset,
        action is Reply <==> msg is Ping,
        action is Unexpected <==> msg is Connected || msg is ConnectFailed || msg is Pong,
        msg is Data ==> action is Forward || action is Drop,
        msg is Shutdown ==> action is HalfClose || action is Drop,
        match action {
            RelayAction::Dial(conn) => tunnel::about(msg) == Some(conn),
            RelayAction::Forward { channel, payload } => {
                &&& tunnel::about(msg) matches Some(conn)
                &&& conns.dom().contains(conn)
                &&& channel == conns[conn]
                &&& msg == protocol::Message::Data { conn, payload: payload@ }
            },
            RelayAction::HalfClose { channel } => {
                &&& tunnel::about(msg) matches Some(conn)
                &&& conns.dom().contains(conn)
                &&& channel == conns[conn]
                &&& msg is Shutdown
            },
            RelayAction::Forget { conn, had } => {
                &&& tunnel::about(msg) == Some(conn)
                &&& had is Some <==> conns.dom().contains(conn)
                &&& had matches Some(channel) ==> channel == conns[conn]
            },
            RelayAction::Drop(conn) => {
                &&& tunnel::about(msg) == Some(conn)
                &&& !conns.dom().contains(conn)
                &&& msg is Data || msg is Shutdown
            },
            RelayAction::Reply(d) => msg matches protocol::Message::Ping { seq, timestamp_ms }
                && delivers(
                d,
                people,
                key_id,
                protocol::Message::Pong { seq, client_timestamp_ms: timestamp_ms },
            ),
            RelayAction::Unexpected => true,
        },
{
}

/// A user is told that a connection is established if and only if it is, and of a
/// failure the reason.
pub proof fn lemma_connect_message(conn: ConnId, outcome: Result<(), String>)
    ensures
        tunnel::about(connect_message(conn, outcome)) == Some(conn),
        connect_message(conn, outcome) is Connected <==> outcome is Ok,
        outcome matches Err(text) ==> (connect_message(
            conn,
            outcome,
        ) matches protocol::Message::ConnectFailed { reason, .. } && reason == text@),
{
}

/// After a reload the users are exactly those whose keys are in the ring, if no two of
/// them share an id; whoever is new has neither address nor stream; and packets under
/// other ids are nobody's.
pub proof fn lemma_reload_is_exact(
    before: Map<KeyId, User>,
    ring: Map<Seq<char>, TunnelKey>,
    after: Map<KeyId, User>,
    name: Seq<char>,
    packet: Seq<u8>,
)
    requires
        users_match(before, ring, after),
        forall|a: Seq<char>, b: Seq<char>|
            ring.dom().contains(a) && ring.dom().contains(b) && (#[trigger] ring[a]).key_id == (
            #[trigger] ring[b]).key_id ==> a == b,
    ensures
        ring.dom().contains(name) ==> {
            let id = ring[name].key_id;
            &&& after.dom().contains(id)
            &&& after[id].name == name
            &&& after[id].key == ring[name]
            &&& !before.dom().contains(id) ==> after[id].addr is None && after[id].tcp is None
        },
        (forall|n: Seq<char>| #[trigger]
            ring.dom().contains(n) ==> ring[n].key_id@ != packet.take(4)) ==> opened_by_user(
            after,
            packet,
        ) is None,
{
    if ring.dom().contains(name) {
        let id = ring[name].key_id;
        assert(after.dom().contains(id));
        let other = after[id].name;
        assert(ring[other].key_id == ring[name].key_id);
    }
    if forall|n: Seq<char>| #[trigger]
        ring.dom().contains(n) ==> ring[n].key_id@ != packet.take(4) {
        if packet.len() >= 44 {
            assert(packet_id(packet)@ =~= packet.take(4));
            if after.dom().contains(packet_id(packet)) {
                assert(ring.dom().contains(after[packet_id(packet)].name));
            }
        }
    }
}

/// Only a reset takes a connection out of a relay's table, and only its own; no
/// message puts one in.
pub open spec fn only_reset_forgets(
    before: Map<ConnId, u64>,
    after: Map<ConnId, u64>,
    msg: protocol::Message,
) -> bool {
    forall|conn: ConnId|
        {
            &&& #[trigger] after.dom().contains(conn) <==> {
                &&& before.dom().contains(conn)
                &&& !(msg is Reset && tunnel::about(msg) == Some(conn))
            }
            &&& after.dom().contains(conn) ==> after[conn] == before[conn]
        }
}

} // verus!
