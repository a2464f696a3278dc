//! Identities, counters and values kept by the server.

use vstd::prelude::*;

use crate::frc_type::{type_code, FrcType, FrcTypeExt};
use crate::msgpack::{append_bytes, array_len_bytes, encode_value_message, flatten, value_header};
use crate::protocol::messages::{Close, NTMessage};
use crate::protocol::metatopic::{entry_count, meta_entries, ClientMetaValue, MetaTopicValue};
use std::collections::HashMap;
use vstd::std_specs::hash::obeys_key_model;

verus! {

broadcast use vstd::std_specs::hash::group_hash_axioms;

/// The server's index of a topic; also its id on the wire.
pub type TopicIdx = u32;

/// The server's index of a subscription.
pub type SubIdx = u32;

/// The server's index of a connected client.
pub type ClientIdx = u32;

/// A client's id of one of its publishers.
pub type PubUID = u32;

/// A client's id of one of its subscriptions.
pub type SubUID = u32;

/// A connected client: its address (as `host:port`) and its name.
#[derive(Debug)]
pub struct ClientIdentity {
    pub addr: String,
    pub name: String,
}

impl Clone for ClientIdentity {
    fn clone(&self) -> (c: Self)
        ensures
            c == *self,
    {
        ClientIdentity { addr: self.addr.clone(), name: self.name.clone() }
    }
}

/// Two identities are the same client when address and name are the same.
pub open spec fn same_identity(a: ClientIdentity, b: ClientIdentity) -> bool {
    a.addr@ == b.addr@ && a.name@ == b.name@
}

/// The text of an identity: `name@addr`.
pub open spec fn identity_text(c: ClientIdentity) -> Seq<char> {
    c.name@ + "@"@ + c.addr@
}

impl ClientIdentity {
    pub fn new(addr: String, name: String) -> (c: Self)
        ensures
            c.addr == addr,
            c.name == name,
    {
        ClientIdentity { addr, name }
    }

    /// The identity of the server itself: the unspecified address and an
    /// empty name.
    pub fn server() -> (c: Self)
        ensures
            c.addr@ == "0.0.0.0:0"@,
            c.name@ == Seq::<char>::empty(),
    {
        ClientIdentity { addr: "0.0.0.0:0".to_string(), name: String::new() }
    }

    pub fn addr(&self) -> (a: &String)
        ensures
            *a == self.addr,
    {
        &self.addr
    }

    pub fn name(&self) -> (n: &String)
        ensures
            *n == self.name,
    {
        &self.name
    }

    pub fn update_name(&mut self, name: String)
        ensures
            final(self).name == name,
            final(self).addr == old(self).addr,
    {
        self.name = name;
    }

    /// The close message of this client.
    pub fn as_close(self) -> (m: NTMessage)
        ensures
            m == NTMessage::Close(Close { addr: self.addr, name: self.name }),
    {
        NTMessage::Close(Close { addr: self.addr, name: self.name })
    }

    /// The `$clients` entry of this client.
    pub fn to_mte(&self) -> (e: ClientMetaValue)
        ensures
            e.id == self.name,
            e.conn == self.addr,
    {
        ClientMetaValue { id: self.name.clone(), conn: self.addr.clone() }
    }

    /// The text of this identity: `name@addr`.
    pub fn to_display(&self) -> (s: String)
        ensures
            s@ == identity_text(*self),
    {
        self.name.clone().concat("@").concat(self.addr.as_str())
    }

    /// Whether `other` is the same client.
    pub fn same_as(&self, other: &ClientIdentity) -> (b: bool)
        ensures
            b == same_identity(*self, *other),
    {
        self.addr == other.addr && self.name == other.name
    }
}

/// The counters from which the server draws fresh indices.
#[derive(Debug, Clone, Copy, PartialEq, Eq)]
pub struct Counter {
    pub topic_idx: TopicIdx,
    pub sub_idx: SubIdx,
    pub client_idx: ClientIdx,
}

impl Default for Counter {
    fn default() -> (c: Self)
        ensures
            c.topic_idx == 0,
            c.sub_idx == 0,
            c.client_idx == 0,
    {
        Counter { topic_idx: 0, sub_idx: 0, client_idx: 0 }
    }
}

/// The indices that `n` successive calls of `Counter::next_topic_idx` hand out
/// from counter `c` (each call as its contract states), and the counter after
/// them.
pub open spec fn topic_indices(c: Counter, n: nat) -> (Seq<TopicIdx>, Counter)
    decreases n,
{
    if n == 0 {
        (Seq::empty(), c)
    } else {
        let (ids, c1) = topic_indices(c, (n - 1) as nat);
        (ids.push(c1.topic_idx), Counter { topic_idx: (c1.topic_idx + 1) as u32, ..c1 })
    }
}

/// A counter hands out topic indices in order: `n` calls from a counter at
/// `k` give `k`, `k + 1`, ..., `k + n - 1` and leave it at `k + n`, its
/// other indices as they were.
pub proof fn law_counter_hands_out_in_order(c: Counter, n: nat)
    requires
        c.topic_idx + n <= u32::MAX,
    ensures
        topic_indices(c, n).0.len() == n,
        forall|i: int| 0 <= i < n ==> #[trigger] topic_indices(c, n).0[i] == c.topic_idx + i,
        topic_indices(c, n).1 == (Counter { topic_idx: (c.topic_idx + n) as u32, ..c }),
    decreases n,
{
    if n > 0 {
        law_counter_hands_out_in_order(c, (n - 1) as nat);
        let (ids, c1) = topic_indices(c, (n - 1) as nat);
        assert forall|i: int| 0 <= i < n implies #[trigger] topic_indices(c, n).0[i] == c.topic_idx + i by {
            if i < n - 1 {
                assert(topic_indices(c, n).0[i] == ids[i]);
            }
        }
    }
}

/// The indices that `n` successive calls of `Counter::next_sub_idx` hand out
/// from counter `c` (each call as its contract states), and the counter after
/// them.
pub open spec fn sub_indices(c: Counter, n: nat) -> (Seq<SubIdx>, Counter)
    decreases n,
{
    if n == 0 {
        (Seq::empty(), c)
    } else {
        let (ids, c1) = sub_indices(c, (n - 1) as nat);
        (ids.push(c1.sub_idx), Counter { sub_idx: (c1.sub_idx + 1) as u32, ..c1 })
    }
}

/// A counter hands out subscription indices in order: `n` calls from a
/// counter at `k` give `k`, `k + 1`, ..., `k + n - 1` and leave it at `k + n`,
/// its other indices as they were.
pub proof fn law_counter_hands_out_subs_in_order(c: Counter, n: nat)
    requires
        c.sub_idx + n <= u32::MAX,
    ensures
        sub_indices(c, n).0.len() == n,
        forall|i: int| 0 <= i < n ==> #[trigger] sub_indices(c, n).0[i] == c.sub_idx + i,
        sub_indices(c, n).1 == (Counter { sub_idx: (c.sub_idx + n) as u32, ..c }),
    decreases n,
{
    if n > 0 {
        law_counter_hands_out_subs_in_order(c, (n - 1) as nat);
        let (ids, c1) = sub_indices(c, (n - 1) as nat);
        assert forall|i: int| 0 <= i < n implies #[trigger] sub_indices(c, n).0[i] == c.sub_idx + i by {
            if i < n - 1 {
                assert(sub_indices(c, n).0[i] == ids[i]);
            }
        }
    }
}

/// The indices that `n` successive calls of `Counter::next_client_idx` hand
/// out from counter `c` (each call as its contract states), and the counter
/// after them.
pub open spec fn client_indices(c: Counter, n: nat) -> (Seq<ClientIdx>, Counter)
    decreases n,
{
    if n == 0 {
        (Seq::empty(), c)
    } else {
        let (ids, c1) = client_indices(c, (n - 1) as nat);
        (ids.push(c1.client_idx), Counter { client_idx: (c1.client_idx + 1) as u32, ..c1 })
    }
}

/// A counter hands out client indices in order: `n` calls from a counter at
/// `k` give `k`, `k + 1`, ..., `k + n - 1` and leave it at `k + n`, its other
/// indices as they were.
pub proof fn law_counter_hands_out_clients_in_order(c: Counter, n: nat)
    requires
        c.client_idx + n <= u32::MAX,
    ensures
        client_indices(c, n).0.len() == n,
        forall|i: int| 0 <= i < n ==> #[trigger] client_indices(c, n).0[i] == c.client_idx + i,
        client_indices(c, n).1 == (Counter { client_idx: (c.client_idx + n) as u32, ..c }),
    decreases n,
{
    if n > 0 {
        law_counter_hands_out_clients_in_order(c, (n - 1) as nat);
        let (ids, c1) = client_indices(c, (n - 1) as nat);
        assert forall|i: int| 0 <= i < n implies #[trigger] client_indices(c, n).0[i] == c.client_idx + i by {
            if i < n - 1 {
                assert(client_indices(c, n).0[i] == ids[i]);
            }
        }
    }
}

impl Counter {
    /// A fresh topic index.
    pub fn next_topic_idx(&mut self) -> (idx: TopicIdx)
        requires
            old(self).topic_idx < u32::MAX,
        ensures
            idx == old(self).topic_idx,
            *final(self) == (Counter { topic_idx: (idx + 1) as u32, ..*old(self) }),
    {
        let idx = self.topic_idx;
        self.topic_idx = self.topic_idx + 1;
        idx
    }

    /// A fresh subscription index.
    pub fn next_sub_idx(&mut self) -> (idx: SubIdx)
        requires
            old(self).sub_idx < u32::MAX,
        ensures
            idx == old(self).sub_idx,
            *final(self) == (Counter { sub_idx: (idx + 1) as u32, ..*old(self) }),
    {
        let idx = self.sub_idx;
        self.sub_idx = self.sub_idx + 1;
        idx
    }

    /// A fresh client index.
    pub fn next_client_idx(&mut self) -> (idx: ClientIdx)
        requires
            old(self).client_idx < u32::MAX,
        ensures
            idx == old(self).client_idx,
            *final(self) == (Counter { client_idx: (idx + 1) as u32, ..*old(self) }),
    {
        let idx = self.client_idx;
        self.client_idx = self.client_idx + 1;
        idx
    }
}

/// A value of a topic with the time it was set, in microseconds. The value is
/// held as its MessagePack encoding, with its type.
#[derive(Debug)]
pub struct TimestampedValue {
    pub timestamp: u64,
    pub ty: FrcType,
    pub value: Vec<u8>,
}

/// A copy of some bytes.
pub fn clone_bytes(bytes: &Vec<u8>) -> (c: Vec<u8>)
    ensures
        c@ == bytes@,
{
    let mut c: Vec<u8> = Vec::new();
    append_bytes(&mut c, bytes.as_slice());
    c
}

impl TimestampedValue {
    /// A copy of this value.
    pub fn copy(&self) -> (c: Self)
        ensures
            c.timestamp == self.timestamp,
            c.ty == self.ty,
            c.value@ == self.value@,
    {
        TimestampedValue { timestamp: self.timestamp, ty: self.ty.clone(), value: clone_bytes(&self.value) }
    }
}

/// The value message of a timestamped value for a topic id.
pub open spec fn value_message(topic_id: i32, v: TimestampedValue) -> Seq<u8> {
    value_header(topic_id, v.timestamp, type_code(v.ty)) + v.value@
}

/// Encoding and replacing timestamped values.
pub trait FrcTimestampedValueExt {
    fn as_bytes(&self, topic_id: i32) -> Vec<u8>;

    fn replace_inplace(&mut self, other: Self) where Self: std::marker::Sized;
}

impl FrcTimestampedValueExt for TimestampedValue {
    /// The value message of this value for topic `topic_id`.
    fn as_bytes(&self, topic_id: i32) -> (buf: Vec<u8>)
        ensures
            buf@ == value_message(topic_id, *self),
    {
        encode_value_message(topic_id, self.timestamp, self.ty.as_u8(), self.value.as_slice())
    }

    /// Takes the timestamp and the value of `other`.
    fn replace_inplace(&mut self, other: Self)
        ensures
            *final(self) == other,
    {
        self.timestamp = other.timestamp;
        self.ty = other.ty;
        self.value = other.value;
    }
}

/// A value the server sends to subscribers.
#[derive(Debug)]
pub enum ServerSendableValue {
    /// A normal timestamped value.
    NormalValue(TimestampedValue),
    /// A meta-topic value.
    MTEValue(MetaTopicValue),
}

impl ServerSendableValue {
    pub fn new_normal(value: TimestampedValue) -> (v: Self)
        ensures
            v == ServerSendableValue::NormalValue(value),
    {
        ServerSendableValue::NormalValue(value)
    }

    pub fn new_mte(mte: MetaTopicValue) -> (v: Self)
        ensures
            v == ServerSendableValue::MTEValue(mte),
    {
        ServerSendableValue::MTEValue(mte)
    }

    /// The value message of this value for topic `topic_id`: for a normal
    /// value its message; for a meta-topic value its message stamped with the
    /// server clock (see `MetaTopicValue::as_bytes`), `None` if the clock
    /// cannot be read.
    pub fn as_bytes(&self, topic_id: i32) -> (buf: Option<Vec<u8>>)
        ensures
            match *self {
                ServerSendableValue::NormalValue(v) => buf matches Some(b) && b@ == value_message(
                    topic_id,
                    v,
                ),
                ServerSendableValue::MTEValue(m) => buf matches Some(b) ==> exists|t: u64|
                    b@ == #[trigger] value_header(topic_id, t, 5) + array_len_bytes(entry_count(m) as u32) + flatten(
                        meta_entries(m),
                    ),
            },
    {
        match self {
            ServerSendableValue::NormalValue(value) => Some(value.as_bytes(topic_id)),
            ServerSendableValue::MTEValue(mte) => mte.as_bytes(topic_id),
        }
    }
}

/// The keys of a map, each once, in the map's iteration order.
/// Calls `HashMap::keys` and copies the keys out.
#[verifier::external_body]
pub(crate) fn hash_map_keys<K: Copy + Eq + std::hash::Hash, V>(m: &HashMap<K, V>) -> (keys: Vec<K>)
    requires
        obeys_key_model::<K>(),
    ensures
        keys@.to_set() == m@.dom(),
        keys@.no_duplicates(),
{
    m.keys().copied().collect()
}

/// The values kept for a subscription until its next period.
#[derive(Debug)]
pub enum StoredSubValue {
    /// Keeps every value of each topic.
    All(HashMap<TopicIdx, Vec<ServerSendableValue>>),
    /// Keeps only the latest value of each topic.
    One(HashMap<TopicIdx, ServerSendableValue>),
}

impl StoredSubValue {
    pub fn new_all() -> (s: Self)
        ensures
            s matches StoredSubValue::All(m) && m@ == Map::<TopicIdx, Vec<ServerSendableValue>>::empty(),
    {
        StoredSubValue::All(HashMap::new())
    }

    pub fn new_one() -> (s: Self)
        ensures
            s matches StoredSubValue::One(m) && m@ == Map::<TopicIdx, ServerSendableValue>::empty(),
    {
        StoredSubValue::One(HashMap::new())
    }

    /// Keeps `value` for `topic_idx`: after the values kept before, or in
    /// place of the value kept before.
    pub fn add_value(&mut self, topic_idx: TopicIdx, value: ServerSendableValue)
        ensures
            match (*old(self), *final(self)) {
                (StoredSubValue::All(a), StoredSubValue::All(b)) => {
                    &&& b@.dom() == a@.dom().insert(topic_idx)
                    &&& forall|t: TopicIdx| #[trigger] b@.contains_key(t) && t != topic_idx ==> b@[t] == a@[t]
                    &&& a@.contains_key(topic_idx) ==> b@[topic_idx]@ == a@[topic_idx]@.push(value)
                    &&& !a@.contains_key(topic_idx) ==> b@[topic_idx]@ == seq![value]
                },
                (StoredSubValue::One(a), StoredSubValue::One(b)) => b@ == a@.insert(topic_idx, value),
                _ => false,
            },
    {
        match self {
            StoredSubValue::All(map) => {
                match map.remove(&topic_idx) {
                    Some(mut vec) => {
                        vec.push(value);
                        map.insert(topic_idx, vec);
                    },
                    None => {
                        let mut vec: Vec<ServerSendableValue> = Vec::new();
                        vec.push(value);
                        map.insert(topic_idx, vec);
                    },
                }
            },
            StoredSubValue::One(map) => {
                map.insert(topic_idx, value);
            },
        }
    }

    /// Hands out the kept values, each topic's as a list, and keeps nothing.
    pub fn take_values(&mut self) -> (taken: HashMap<TopicIdx, Vec<ServerSendableValue>>)
        ensures
            match *old(self) {
                StoredSubValue::All(a) => {
                    &&& taken@ == a@
                    &&& *final(self) matches StoredSubValue::All(b) && b@ == Map::<
                        TopicIdx,
                        Vec<ServerSendableValue>,
                    >::empty()
                },
                StoredSubValue::One(a) => {
                    &&& taken@.dom() == a@.dom()
                    &&& forall|t: TopicIdx| #[trigger] taken@.contains_key(t) ==> taken@[t]@ == seq![a@[t]]
                    &&& *final(self) matches StoredSubValue::One(b) && b@ == Map::<
                        TopicIdx,
                        ServerSendableValue,
                    >::empty()
                },
            },
    {
        match self {
            StoredSubValue::All(map) => {
                let mut taken: HashMap<TopicIdx, Vec<ServerSendableValue>> = HashMap::new();
                std::mem::swap(&mut taken, map);
                taken
            },
            StoredSubValue::One(map) => {
                let ghost start = map@;
                let keys = hash_map_keys(map);
                let mut taken: HashMap<TopicIdx, Vec<ServerSendableValue>> = HashMap::new();
                let mut i: usize = 0;
                while i < keys.len()
                    invariant
                        i <= keys@.len(),
                        keys@.to_set() == start.dom(),
                        keys@.no_duplicates(),
                        map@.dom() == start.dom().difference(keys@.subrange(0, i as int).to_set()),
                        forall|t: TopicIdx| #[trigger] map@.contains_key(t) ==> map@[t] == start[t],
                        taken@.dom() == keys@.subrange(0, i as int).to_set(),
                        forall|t: TopicIdx| #[trigger] taken@.contains_key(t) ==> taken@[t]@ == seq![start[t]],
                    decreases keys@.len() - i,
                {
                    let k = keys[i];
                    proof {
                        assert(keys@.to_set().contains(keys@[i as int]));
                        assert(!keys@.subrange(0, i as int).to_set().contains(k)) by {
                            if keys@.subrange(0, i as int).to_set().contains(k) {
                                let j = choose|j: int| 0 <= j < i && keys@.subrange(0, i as int)[j] == k;
                                assert(keys@[j] == keys@[i as int]);
                            }
                        }
                        assert(keys@.subrange(0, i + 1).to_set() == keys@.subrange(0, i as int).to_set().insert(k)) by {
                            assert(keys@.subrange(0, i + 1) == keys@.subrange(0, i as int).push(k));
                            keys@.subrange(0, i as int).lemma_push_to_set_commute(k);
                        }
                    }
                    let v = map.remove(&k).unwrap();
                    let mut list: Vec<ServerSendableValue> = Vec::new();
                    list.push(v);
                    taken.insert(k, list);
                    i = i + 1;
                }
                assert(keys@.subrange(0, keys@.len() as int) == keys@);
                assert(map@.dom() =~= Set::<TopicIdx>::empty());
                assert(map@ =~= Map::<TopicIdx, ServerSendableValue>::empty());
                taken
            },
        }
    }
}

} // verus!
