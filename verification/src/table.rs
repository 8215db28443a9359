//! Tables keyed by connections and by key ids.

use vstd::prelude::*;
use std::collections::HashMap;
use std::marker::PhantomData;
use crate::bytes::{self, u32_from_be};
use crate::protocol::ConnId;

verus! {

broadcast use vstd::std_specs::hash::group_hash_axioms;

/// A value that a table can be keyed by: it is told apart by a number.
pub trait TableKey: Copy {
    /// The number of a key.
    spec fn number(self) -> u128;

    /// Different keys have different numbers.
    proof fn lemma_number_injective(self, other: Self)
        requires
            self.number() == other.number(),
        ensures
            self == other,
    ;

    /// The number of a key.
    fn to_number(self) -> (n: u128)
        ensures
            n == self.number(),
    ;
}

impl TableKey for [u8; 4] {
    open spec fn number(self) -> u128 {
        bytes::from_be32(self@) as u128
    }

    proof fn lemma_number_injective(self, other: Self) {
        let (a, b) = (bytes::from_be32(self@), bytes::from_be32(other@));
        assert(self.number() == a as u128);
        assert(other.number() == b as u128);
        assert(a == b);
        bytes::lemma_from_be32_injective(self@, other@);
        assert(self =~= other);
    }

    fn to_number(self) -> (n: u128) {
        u32_from_be(&self) as u128
    }
}

/// Two addresses and two ports as one number.
pub open spec fn packed(src_ip: u32, src_port: u16, dst_ip: u32, dst_port: u16) -> u128 {
    (((src_ip * 0x1_0000 + src_port) * 0x1_0000_0000 + dst_ip) * 0x1_0000 + dst_port) as u128
}

proof fn lemma_packed_injective(
    a_ip: u32,
    a_port: u16,
    b_ip: u32,
    b_port: u16,
    c_ip: u32,
    c_port: u16,
    d_ip: u32,
    d_port: u16,
)
    requires
        packed(a_ip, a_port, b_ip, b_port) == packed(c_ip, c_port, d_ip, d_port),
    ensures
        a_ip == c_ip,
        a_port == c_port,
        b_ip == d_ip,
        b_port == d_port,
{
    let x: int = (a_ip * 0x1_0000 + a_port) * 0x1_0000_0000 + b_ip;
    let y: int = (c_ip * 0x1_0000 + c_port) * 0x1_0000_0000 + d_ip;
    assert(x * 0x1_0000 + b_port == y * 0x1_0000 + d_port);
    assert(b_port == d_port && x == y);
    assert(b_ip == d_ip);
    assert(a_ip * 0x1_0000 + a_port == c_ip * 0x1_0000 + c_port);
    assert(a_port == c_port);
}

impl TableKey for ConnId {
    open spec fn number(self) -> u128 {
        packed(
            bytes::from_be32(self.src_ip@),
            self.src_port,
            bytes::from_be32(self.dst_ip@),
            self.dst_port,
        )
    }

    proof fn lemma_number_injective(self, other: Self) {
        lemma_packed_injective(
            bytes::from_be32(self.src_ip@),
            self.src_port,
            bytes::from_be32(self.dst_ip@),
            self.dst_port,
            bytes::from_be32(other.src_ip@),
            other.src_port,
            bytes::from_be32(other.dst_ip@),
            other.dst_port,
        );
        self.src_ip.lemma_number_injective(other.src_ip);
        self.dst_ip.lemma_number_injective(other.dst_ip);
        assert(self == other);
    }

    fn to_number(self) -> (n: u128) {
        (((u32_from_be(&self.src_ip) as u128) * 0x1_0000 + (self.src_port as u128)) * 0x1_0000_0000
            + (u32_from_be(&self.dst_ip) as u128)) * 0x1_0000 + (self.dst_port as u128)
    }
}

/// A table from keys to values.
pub struct Table<K: TableKey, V> {
    entries: HashMap<u128, V>,
    keys: PhantomData<K>,
}

impl<K: TableKey, V> View for Table<K, V> {
    type V = Map<K, V>;

    closed spec fn view(&self) -> Map<K, V> {
        Map::new(
            |k: K| self.entries@.dom().contains(k.number()),
            |k: K| self.entries@[k.number()],
        )
    }
}

impl<K: TableKey, V> Table<K, V> {
    /// An empty table.
    pub fn new() -> (table: Self)
        ensures
            table@ == Map::<K, V>::empty(),
    {
        let table = Table { entries: HashMap::new(), keys: PhantomData };
        assert(table@ =~= Map::<K, V>::empty());
        table
    }

    /// Enters a value, in place of the one that was there.
    pub fn insert(&mut self, key: K, value: V)
        ensures
            final(self)@ == old(self)@.insert(key, value),
    {
        self.entries.insert(key.to_number(), value);
        proof {
            assert forall|k: K| k.number() == key.number() implies k == key by {
                k.lemma_number_injective(key);
            }
            assert(self@ =~= old(self)@.insert(key, value));
        }
    }

    /// Takes an entry out.
    pub fn remove(&mut self, key: K) -> (value: Option<V>)
        ensures
            final(self)@ == old(self)@.remove(key),
            match value {
                Some(v) => old(self)@.dom().contains(key) && v == old(self)@[key],
                None => !old(self)@.dom().contains(key),
            },
    {
        let value = self.entries.remove(&key.to_number());
        proof {
            assert forall|k: K| k.number() == key.number() implies k == key by {
                k.lemma_number_injective(key);
            }
            assert(self@ =~= old(self)@.remove(key));
        }
        value
    }

    /// Looks an entry up.
    pub fn get(&self, key: K) -> (value: Option<&V>)
        ensures
            match value {
                Some(v) => self@.dom().contains(key) && *v == self@[key],
                None => !self@.dom().contains(key),
            },
    {
        self.entries.get(&key.to_number())
    }

    /// Whether there is an entry.
    pub fn contains(&self, key: K) -> (r: bool)
        ensures
            r == self@.dom().contains(key),
    {
        self.entries.contains_key(&key.to_number())
    }
}

} // verus!
