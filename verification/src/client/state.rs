//! What a client keeps: the topics its server announced, the topics it
//! publishes, its subscriptions, its ids and its offset to the server's
//! clock; and the messages it sends and the decisions on those it receives.

use vstd::prelude::*;

use crate::client::naming::{clean_name, cleaned};
use crate::frc_type::{type_code, type_of_code, type_string, FrcType, FrcTypeExt};
use crate::msgpack::{append_bytes, array_len_bytes, i32_bytes, u32_bytes, u8_bytes, uint_bytes, write_array_len, write_i32, write_u32, write_u8, write_uint};
use crate::protocol::messages::{Announce, NTMessage, PublishTopic, SetProperties, Subscribe, UnAnnounce, Unsubscribe};
use crate::protocol::subscription::{cares, texts, Subscription};
use crate::protocol::topic::{PublishedTopic, Topic};
use crate::protocol::{PublishProperties, SubscriptionOptions};
use crate::server::util::hash_map_keys;
use std::collections::HashMap;

verus! {

broadcast use vstd::std_specs::hash::group_hash_axioms;

/// The id of the time topic, under which time-sync values travel.
pub const TIME_TOPIC_ID: i32 = -1;

/// The state a client keeps about its connection.
#[derive(Debug)]
pub struct ClientState {
    /// The topics the server announced, by id.
    pub announced_topics: HashMap<i32, Topic>,
    /// The topics this client publishes, by publisher id.
    pub client_published_topics: HashMap<u32, PublishedTopic>,
    /// This client's subscriptions, by subscription id.
    pub subscriptions: HashMap<i32, Subscription>,
    /// The server's clock minus this client's, in microseconds.
    pub server_time_offset: u64,
    /// The last subscription id handed out.
    pub sub_counter: i32,
    /// The last publisher id handed out.
    pub topic_counter: u32,
}

/// The next id after `current`: one more, or 1 after the largest.
pub open spec fn next_u32_id(current: u32) -> u32 {
    if current == u32::MAX {
        1
    } else {
        (current + 1) as u32
    }
}

/// The next id after `current`: one more, or 1 after the largest.
pub open spec fn next_i32_id(current: i32) -> i32 {
    if current == i32::MAX {
        1
    } else {
        (current + 1) as i32
    }
}

/// The server clock's offset to this client's found by a time sync: the
/// client sent its time `client_time` (read as unsigned), the server answered
/// with its time `server_time`, and the answer came at client time
/// `receive_time`. The server's time at receipt is its answer plus half the
/// round trip; `None` where a step would go below 0.
pub open spec fn synced_offset(receive_time: u64, server_time: u64, client_time: i64) -> Option<u64> {
    let sent = client_time as u64;
    if receive_time < sent {
        None
    } else {
        let half = ((receive_time - sent) as u64) / 2;
        if server_time < half {
            None
        } else {
            let at_receive = (server_time - half) as u64;
            if at_receive < receive_time {
                None
            } else {
                Some((at_receive - receive_time) as u64)
            }
        }
    }
}

/// The time topic that a fresh connection announces to itself.
pub open spec fn time_topic(t: Topic) -> bool {
    t.name@ == "Time"@ && t.ty@ == "int"@ && t.properties is None
}

/// `m` asks the server to publish `t`.
pub open spec fn publish_request(m: NTMessage, t: PublishedTopic) -> bool {
    m matches NTMessage::Publish(p) && p.name@ == t.name@ && p.pubuid == t.pubuid && p.ty@ == type_string(t.ty)
        && p.properties == t.properties
}

/// `m` asks the server for subscription `s`.
pub open spec fn subscribe_request(m: NTMessage, s: Subscription) -> bool {
    m matches NTMessage::Subscribe(x) && x.subuid == s.subuid && texts(x.topics@) == texts(s.topics@) && x.options == s.options
}

/// `keys` lists the keys of `m`, each once.
pub open spec fn lists<K, V>(keys: Seq<K>, m: Map<K, V>) -> bool {
    keys.no_duplicates() && keys.to_set() == m.dom()
}

/// The messages that set a fresh connection up: a publish request for each
/// published topic, in the order `pl`, then a subscription request for each
/// subscription, in the order `sl`.
pub open spec fn opening_messages(
    msgs: Seq<NTMessage>,
    published: Map<u32, PublishedTopic>,
    pl: Seq<u32>,
    subs: Map<i32, Subscription>,
    sl: Seq<i32>,
) -> bool {
    &&& lists(pl, published)
    &&& lists(sl, subs)
    &&& msgs.len() == pl.len() + sl.len()
    &&& forall|i: int| 0 <= i < pl.len() ==> #[trigger] publish_request(msgs[i], published[pl[i]])
    &&& forall|j: int| 0 <= j < sl.len() ==> #[trigger] subscribe_request(msgs[pl.len() + j], subs[sl[j]])
}

/// What a client does with a text message from its server.
#[derive(Debug)]
pub enum ClientEvent {
    /// A topic is announced; this is the topic now known under its id.
    Announced(Topic),
    /// A topic is withdrawn; this is what was known under its id, if anything.
    Unannounced(Option<Topic>),
    /// Properties changed; nothing is kept of them.
    PropertiesChanged,
    /// A message that a server does not send.
    Unexpected,
}

/// What a client reads of a MessagePack array its server sent: the array's
/// length, its first three items as integers where they are, and its fourth
/// as an integer where it is.
#[derive(Debug, Clone, Copy)]
pub struct ValueArray {
    pub len: usize,
    /// The id, where it is an integer that fits an `i64`.
    pub id: Option<i64>,
    /// The timestamp, where it is an integer that fits a `u64`.
    pub timestamp: Option<u64>,
    /// The type code, where it is an integer that fits a `u64`.
    pub type_idx: Option<u64>,
    /// The value, where it is an integer that fits an `i64`.
    pub data_int: Option<i64>,
}

/// What becomes of a value array from the server.
#[derive(Debug)]
pub enum ValueFate {
    /// Dropped: malformed, of an unknown type, not announced, or of an id
    /// below -1.
    Drop,
    /// A value of an announced topic, for the subscriptions that care about
    /// the topic's name.
    Deliver { topic: Topic, timestamp: u32, ty: FrcType },
    /// A time-sync answer: the server's time and, if it is an integer, the
    /// client time it echoes.
    TimeSync { server_time: u64, client_time: Option<i64> },
}

/// The fate of value array `a` given the announced topics: an array of other
/// than four items, or whose id or timestamp is missing, is dropped. A
/// non-negative id with a known type code (read as a byte) is delivered if
/// the id is announced, and dropped otherwise; -1 is a time sync; anything
/// else is dropped. The id is read as 32 bits, the timestamp as its low 32.
pub open spec fn value_fate(announced: Map<i32, Topic>, a: ValueArray) -> ValueFate {
    if a.len != 4 || a.id is None || a.timestamp is None {
        ValueFate::Drop
    } else {
        let id = a.id->0 as i32;
        let ts = a.timestamp->0;
        if id >= 0 {
            match a.type_idx {
                Some(code) => match type_of_code(code as u8) {
                    Some(ty) => if announced.contains_key(id) {
                        ValueFate::Deliver { topic: announced[id], timestamp: ts as u32, ty }
                    } else {
                        ValueFate::Drop
                    },
                    None => ValueFate::Drop,
                },
                None => ValueFate::Drop,
            }
        } else if id == -1 {
            ValueFate::TimeSync { server_time: ts, client_time: a.data_int }
        } else {
            ValueFate::Drop
        }
    }
}

/// The id a client writes at the head of a value message: its publisher id,
/// or -1 for the time topic.
#[derive(Debug, Clone, Copy)]
pub enum UnsignedIntOrNegativeOne {
    NegativeOne,
    UnsignedInt(u32),
}

/// The bytes of such an id.
pub open spec fn id_bytes(id: UnsignedIntOrNegativeOne) -> Seq<u8> {
    match id {
        UnsignedIntOrNegativeOne::NegativeOne => i32_bytes(-1i32),
        UnsignedIntOrNegativeOne::UnsignedInt(u) => u32_bytes(u),
    }
}

impl UnsignedIntOrNegativeOne {
    /// Writes the id to `buf`: -1 as a 32-bit signed integer, a publisher id
    /// as a 32-bit unsigned one.
    pub fn write_to_buf(&self, buf: &mut Vec<u8>)
        ensures
            final(buf)@ == old(buf)@ + id_bytes(*self),
    {
        match self {
            UnsignedIntOrNegativeOne::NegativeOne => write_i32(buf, -1),
            UnsignedIntOrNegativeOne::UnsignedInt(u) => write_u32(buf, *u),
        }
    }
}

/// The value message a client sends: a four-item array of the id, the
/// timestamp, the type code and the value, already MessagePack-encoded.
pub open spec fn client_value_message(id: UnsignedIntOrNegativeOne, ty: FrcType, timestamp: u32, value: Seq<u8>) -> Seq<u8> {
    array_len_bytes(4) + id_bytes(id) + uint_bytes(timestamp as u64) + u8_bytes(type_code(ty)) + value
}

/// Frames a value that is already MessagePack-encoded as a client's value
/// message.
pub fn encode_client_value(id: UnsignedIntOrNegativeOne, ty: &FrcType, timestamp: u32, value: &[u8]) -> (buf: Vec<u8>)
    ensures
        buf@ == client_value_message(id, *ty, timestamp, value@),
{
    let mut buf: Vec<u8> = Vec::new();
    write_array_len(&mut buf, 4);
    id.write_to_buf(&mut buf);
    write_uint(&mut buf, timestamp as u64);
    write_u8(&mut buf, ty.as_u8());
    append_bytes(&mut buf, value);
    buf
}

/// A copy of a list of strings.
fn copy_strings(v: &Vec<String>) -> (c: Vec<String>)
    ensures
        c@ == v@,
{
    let mut c: Vec<String> = Vec::new();
    let mut i: usize = 0;
    while i < v.len()
        invariant
            i <= v@.len(),
            c@ == v@.subrange(0, i as int),
        decreases v@.len() - i,
    {
        c.push(v[i].clone());
        proof {
            assert(v@.subrange(0, i + 1) =~= v@.subrange(0, i as int).push(v@[i as int]));
        }
        i = i + 1;
    }
    assert(v@.subrange(0, v@.len() as int) == v@);
    c
}

/// The texts of `names` without repeats, the first of each kept in order.
pub open spec fn distinct_texts(names: Seq<Seq<char>>) -> Seq<Seq<char>>
    decreases names.len(),
{
    if names.len() == 0 {
        Seq::empty()
    } else {
        let before = distinct_texts(names.drop_last());
        if before.contains(names.last()) {
            before
        } else {
            before.push(names.last())
        }
    }
}

/// The names without repeats, the first of each kept in order.
fn dedup_names(names: &Vec<String>) -> (out: Vec<String>)
    ensures
        texts(out@) == distinct_texts(texts(names@)),
{
    let mut out: Vec<String> = Vec::new();
    let mut i: usize = 0;
    while i < names.len()
        invariant
            i <= names@.len(),
            texts(out@) == distinct_texts(texts(names@.subrange(0, i as int))),
        decreases names@.len() - i,
    {
        let ghost before = texts(out@);
        let mut seen = false;
        let mut j: usize = 0;
        while j < out.len()
            invariant
                j <= out@.len(),
                before == texts(out@),
                seen == exists|k: int| 0 <= k < j && texts(out@)[k] == names@[i as int]@,
                i < names@.len(),
            decreases out@.len() - j,
        {
            if out[j] == names[i] {
                seen = true;
            }
            proof {
                if seen && !(exists|k: int| 0 <= k < j && texts(out@)[k] == names@[i as int]@) {
                    assert(texts(out@)[j as int] == names@[i as int]@);
                }
            }
            j = j + 1;
        }
        proof {
            let s1 = texts(names@.subrange(0, i + 1));
            assert(s1.drop_last() =~= texts(names@.subrange(0, i as int)));
            assert(s1.last() == names@[i as int]@);
            assert(seen == before.contains(names@[i as int]@)) by {
                if before.contains(names@[i as int]@) {
                    let k = choose|k: int| 0 <= k < before.len() && before[k] == names@[i as int]@;
                    assert(texts(out@)[k] == names@[i as int]@);
                }
            }
        }
        if !seen {
            out.push(names[i].clone());
            proof {
                assert(texts(out@) =~= before.push(names@[i as int]@));
            }
        }
        i = i + 1;
    }
    assert(names@.subrange(0, names@.len() as int) == names@);
    out
}

impl ClientState {
    /// A client that knows nothing yet.
    pub fn new() -> (s: Self)
        ensures
            s.announced_topics@ == Map::<i32, Topic>::empty(),
            s.client_published_topics@ == Map::<u32, PublishedTopic>::empty(),
            s.subscriptions@ == Map::<i32, Subscription>::empty(),
            s.server_time_offset == 0,
            s.sub_counter == 0,
            s.topic_counter == 0,
    {
        ClientState {
            announced_topics: HashMap::new(),
            client_published_topics: HashMap::new(),
            subscriptions: HashMap::new(),
            server_time_offset: 0,
            sub_counter: 0,
            topic_counter: 0,
        }
    }

    /// A fresh publisher id.
    pub fn new_topic_id(&mut self) -> (id: u32)
        ensures
            id == next_u32_id(old(self).topic_counter),
            *final(self) == (ClientState { topic_counter: id, ..*old(self) }),
    {
        let new_id = match self.topic_counter.checked_add(1) {
            Some(n) => n,
            None => 1,
        };
        self.topic_counter = new_id;
        new_id
    }

    /// A fresh subscription id.
    pub fn new_sub_id(&mut self) -> (id: i32)
        ensures
            id == next_i32_id(old(self).sub_counter),
            *final(self) == (ClientState { sub_counter: id, ..*old(self) }),
    {
        let new_id = match self.sub_counter.checked_add(1) {
            Some(n) => n,
            None => 1,
        };
        self.sub_counter = new_id;
        new_id
    }

    /// Takes a time-sync answer: the server's time `server_timestamp`, the
    /// echoed client time, and the client time `receive_time` at which the
    /// answer came. With no echoed time nothing changes; otherwise the offset
    /// becomes the synced one (see `synced_offset`), and `None` reports that
    /// a step went below 0, with nothing changed.
    pub fn handle_new_timestamp(&mut self, receive_time: u64, server_timestamp: u64, client_timestamp: Option<i64>) -> (r: Option<()>)
        ensures
            match client_timestamp {
                None => r is Some && *final(self) == *old(self),
                Some(ct) => match synced_offset(receive_time, server_timestamp, ct) {
                    None => r is None && *final(self) == *old(self),
                    Some(o) => r is Some && *final(self) == (ClientState { server_time_offset: o, ..*old(self) }),
                },
            },
    {
        if let Some(client_timestamp) = client_timestamp {
            #[verifier::truncate]
            let sent = client_timestamp as u64;
            let round_trip_time = match receive_time.checked_sub(sent) {
                Some(t) => t,
                None => {
                    return None;
                },
            };
            let server_time_at_receive = match server_timestamp.checked_sub(round_trip_time / 2) {
                Some(t) => t,
                None => {
                    return None;
                },
            };
            let offset = match server_time_at_receive.checked_sub(receive_time) {
                Some(t) => t,
                None => {
                    return None;
                },
            };
            self.server_time_offset = offset;
        }
        Some(())
    }

    /// The server's time at client time `client_time`.
    pub fn server_time_at(&self, client_time: u64) -> (t: u64)
        requires
            client_time + self.server_time_offset <= u64::MAX,
        ensures
            t == client_time + self.server_time_offset,
    {
        client_time + self.server_time_offset
    }

    /// Sets up a fresh connection: the announced topics are forgotten but for
    /// the time topic, the clock offset goes back to 0, and the returned
    /// messages ask again to publish each published topic and for each
    /// subscription.
    pub fn on_open(&mut self) -> (msgs: Vec<NTMessage>)
        ensures
            final(self).announced_topics@.dom() == set![TIME_TOPIC_ID],
            time_topic(final(self).announced_topics@[TIME_TOPIC_ID]),
            final(self).server_time_offset == 0,
            final(self).client_published_topics == old(self).client_published_topics,
            final(self).subscriptions == old(self).subscriptions,
            final(self).sub_counter == old(self).sub_counter,
            final(self).topic_counter == old(self).topic_counter,
            exists|pl: Seq<u32>, sl: Seq<i32>| opening_messages(
                msgs@,
                old(self).client_published_topics@,
                pl,
                old(self).subscriptions@,
                sl,
            ),
    {
        self.announced_topics = HashMap::new();
        let time = Topic { name: "Time".to_string(), ty: "int".to_string(), properties: None };
        self.announced_topics.insert(TIME_TOPIC_ID, time);
        proof {
            assert(self.announced_topics@.dom() =~= set![TIME_TOPIC_ID]);
        }
        let mut msgs: Vec<NTMessage> = Vec::new();
        let pkeys = hash_map_keys(&self.client_published_topics);
        let ghost published = self.client_published_topics@;
        let mut i: usize = 0;
        while i < pkeys.len()
            invariant
                i <= pkeys@.len(),
                published == self.client_published_topics@,
                pkeys@.to_set() == published.dom(),
                msgs@.len() == i,
                forall|k: int| 0 <= k < i ==> #[trigger] publish_request(msgs@[k], published[pkeys@[k]]),
            decreases pkeys@.len() - i,
        {
            proof {
                assert(pkeys@.to_set().contains(pkeys@[i as int]));
            }
            let t = self.client_published_topics.get(&pkeys[i]).unwrap();
            msgs.push(
                NTMessage::Publish(
                    PublishTopic { name: t.name.clone(), pubuid: t.pubuid, ty: t.ty.stringify(), properties: t.properties },
                ),
            );
            i = i + 1;
        }
        let skeys = hash_map_keys(&self.subscriptions);
        let ghost subs = self.subscriptions@;
        let n = msgs.len();
        let mut j: usize = 0;
        while j < skeys.len()
            invariant
                j <= skeys@.len(),
                subs == self.subscriptions@,
                skeys@.to_set() == subs.dom(),
                n == pkeys@.len(),
                msgs@.len() == n + j,
                forall|k: int| 0 <= k < n ==> #[trigger] publish_request(msgs@[k], published[pkeys@[k]]),
                forall|k: int| 0 <= k < j ==> #[trigger] subscribe_request(msgs@[n + k], subs[skeys@[k]]),
            decreases skeys@.len() - j,
        {
            proof {
                assert(skeys@.to_set().contains(skeys@[j as int]));
            }
            let s = self.subscriptions.get(&skeys[j]).unwrap();
            msgs.push(NTMessage::Subscribe(Subscribe { subuid: s.subuid, topics: copy_strings(&s.topics), options: s.options }));
            j = j + 1;
        }
        self.server_time_offset = 0;
        proof {
            assert(opening_messages(msgs@, published, pkeys@, subs, skeys@));
        }
        msgs
    }

    /// The time-sync request to send, at client time `client_time`: a value
    /// message of the time topic, with timestamp 0, of type int, whose value
    /// is the client time; `None` if the time topic is not announced.
    pub fn time_update(&self, client_time: u64) -> (frame: Option<Vec<u8>>)
        ensures
            self.announced_topics@.contains_key(TIME_TOPIC_ID) ==> (frame matches Some(b) && b@ == client_value_message(
                UnsignedIntOrNegativeOne::NegativeOne,
                FrcType::Int,
                0,
                uint_bytes(client_time),
            )),
            !self.announced_topics@.contains_key(TIME_TOPIC_ID) ==> frame is None,
    {
        if self.announced_topics.contains_key(&TIME_TOPIC_ID) {
            let mut value: Vec<u8> = Vec::new();
            write_uint(&mut value, client_time);
            Some(encode_client_value(UnsignedIntOrNegativeOne::NegativeOne, &FrcType::Int, 0, value.as_slice()))
        } else {
            None
        }
    }

    /// Takes a text message from the server: an announcement is kept unless
    /// its id is known, and reports the topic known under the id; a
    /// withdrawal forgets the id and reports what was known; properties are
    /// noted and nothing else is expected.
    pub fn handle_server_message(&mut self, msg: NTMessage) -> (e: ClientEvent)
        ensures
            match msg {
                NTMessage::Announce(a) => {
                    let t = Topic { name: a.name, ty: a.ty, properties: Some(a.properties) };
                    &&& final(self).announced_topics@ == if old(self).announced_topics@.contains_key(a.id) {
                        old(self).announced_topics@
                    } else {
                        old(self).announced_topics@.insert(a.id, t)
                    }
                    &&& e == ClientEvent::Announced(final(self).announced_topics@[a.id])
                },
                NTMessage::UnAnnounce(u) => {
                    &&& final(self).announced_topics@ == old(self).announced_topics@.remove(u.id as i32)
                    &&& e == ClientEvent::Unannounced(
                        if old(self).announced_topics@.contains_key(u.id as i32) {
                            Some(old(self).announced_topics@[u.id as i32])
                        } else {
                            None
                        },
                    )
                },
                NTMessage::Properties(_) => e == ClientEvent::PropertiesChanged && final(self).announced_topics
                    == old(self).announced_topics,
                _ => e == ClientEvent::Unexpected && final(self).announced_topics == old(self).announced_topics,
            },
            final(self).client_published_topics == old(self).client_published_topics,
            final(self).subscriptions == old(self).subscriptions,
            final(self).server_time_offset == old(self).server_time_offset,
            final(self).sub_counter == old(self).sub_counter,
            final(self).topic_counter == old(self).topic_counter,
    {
        match msg {
            NTMessage::Announce(Announce { name, id, ty, pubuid: _, properties }) => {
                if !self.announced_topics.contains_key(&id) {
                    self.announced_topics.insert(id, Topic { name, ty, properties: Some(properties) });
                }
                let t = self.announced_topics.get(&id).unwrap().clone();
                ClientEvent::Announced(t)
            },
            NTMessage::UnAnnounce(UnAnnounce { name: _, id }) => {
                #[verifier::truncate]
                let key = id as i32;
                let removed = self.announced_topics.remove(&key);
                ClientEvent::Unannounced(removed)
            },
            NTMessage::Properties(_) => ClientEvent::PropertiesChanged,
            _ => ClientEvent::Unexpected,
        }
    }

    /// The fate of value array `a` (see `value_fate`).
    pub fn value_fate(&self, a: ValueArray) -> (f: ValueFate)
        ensures
            f == value_fate(self.announced_topics@, a),
    {
        if a.len != 4 {
            return ValueFate::Drop;
        }
        let id = match a.id {
            Some(n) => {
                #[verifier::truncate]
                let id = n as i32;
                id
            },
            None => {
                return ValueFate::Drop;
            },
        };
        let ts = match a.timestamp {
            Some(t) => t,
            None => {
                return ValueFate::Drop;
            },
        };
        if id >= 0 {
            match a.type_idx {
                Some(code) => {
                    #[verifier::truncate]
                    let byte = code as u8;
                    match FrcType::from_u8(byte) {
                        Some(ty) => match self.announced_topics.get(&id) {
                            Some(topic) => {
                                #[verifier::truncate]
                                let ts32 = ts as u32;
                                ValueFate::Deliver { topic: topic.clone(), timestamp: ts32, ty }
                            },
                            None => ValueFate::Drop,
                        },
                        None => ValueFate::Drop,
                    }
                },
                None => ValueFate::Drop,
            }
        } else if id == -1 {
            ValueFate::TimeSync { server_time: ts, client_time: a.data_int }
        } else {
            ValueFate::Drop
        }
    }

    /// The ids of the subscriptions that care about the topic `topic_name`,
    /// each once.
    pub fn matching_subscriptions(&self, topic_name: &String) -> (ids: Vec<i32>)
        ensures
            ids@.no_duplicates(),
            ids@.to_set() == Set::new(|s: i32| self.subscriptions@.contains_key(s) && cares(
                texts(self.subscriptions@[s].topics@),
                self.subscriptions@[s].options,
                topic_name@,
            )),
    {
        let keys = hash_map_keys(&self.subscriptions);
        let ghost subs = self.subscriptions@;
        let ghost want = Set::new(|s: i32| subs.contains_key(s) && cares(texts(subs[s].topics@), subs[s].options, topic_name@));
        let mut ids: Vec<i32> = Vec::new();
        let mut i: usize = 0;
        while i < keys.len()
            invariant
                i <= keys@.len(),
                subs == self.subscriptions@,
                keys@.to_set() == subs.dom(),
                keys@.no_duplicates(),
                want == Set::new(|s: i32| subs.contains_key(s) && cares(texts(subs[s].topics@), subs[s].options, topic_name@)),
                ids@.no_duplicates(),
                ids@.to_set() == want.intersect(keys@.subrange(0, i as int).to_set()),
            decreases keys@.len() - i,
        {
            let k = keys[i];
            proof {
                assert(keys@.to_set().contains(k));
            }
            let s = self.subscriptions.get(&k).unwrap();
            let ghost before = ids@;
            proof {
                assert(!keys@.subrange(0, i as int).to_set().contains(k)) by {
                    if keys@.subrange(0, i as int).to_set().contains(k) {
                        let j = choose|j: int| 0 <= j < i && keys@.subrange(0, i as int)[j] == k;
                        assert(keys@[j] == keys@[i as int]);
                    }
                }
                assert(keys@.subrange(0, i + 1) =~= keys@.subrange(0, i as int).push(k));
                keys@.subrange(0, i as int).lemma_push_to_set_commute(k);
            }
            if s.cares_about(topic_name) {
                ids.push(k);
                proof {
                    assert(!before.contains(k)) by {
                        if before.contains(k) {
                            assert(before.to_set().contains(k));
                        }
                    }
                    assert forall|a: int, b: int| 0 <= a < b < ids@.len() implies ids@[a] != ids@[b] by {
                        if b == ids@.len() - 1 {
                            assert(before.contains(before[a]));
                        }
                    }
                    before.lemma_push_to_set_commute(k);
                    assert(ids@.to_set() =~= want.intersect(keys@.subrange(0, i + 1).to_set()));
                }
            } else {
                proof {
                    assert(ids@.to_set() =~= want.intersect(keys@.subrange(0, i + 1).to_set()));
                }
            }
            i = i + 1;
        }
        proof {
            assert(keys@.subrange(0, keys@.len() as int) == keys@);
            assert(ids@.to_set() =~= want);
        }
        ids
    }

    /// Starts publishing the topic `name` (cleaned, see `clean_name`) with
    /// type `ty` and `properties` under a fresh publisher id: returns the
    /// request to publish, followed by one to set the properties if there are
    /// any, and the published topic, which is kept.
    pub fn publish_topic(&mut self, name: &str, ty: FrcType, properties: Option<PublishProperties>) -> (r: (
        Vec<NTMessage>,
        PublishedTopic,
    ))
        ensures
            ({
                let (msgs, topic) = r;
                &&& topic.pubuid == next_u32_id(old(self).topic_counter)
                &&& topic.name@ == cleaned(name@)
                &&& topic.ty == ty
                &&& topic.properties == properties
                &&& final(self).topic_counter == topic.pubuid
                &&& final(self).client_published_topics@ == old(self).client_published_topics@.insert(topic.pubuid, topic)
                &&& msgs@.len() == if properties is Some { 2int } else { 1int }
                &&& publish_request(msgs@[0], topic)
                &&& properties matches Some(p) ==> (msgs@[1] matches NTMessage::SetProperties(s) && s.name@ == topic.name@
                    && s.update == p)
            }),
            final(self).announced_topics == old(self).announced_topics,
            final(self).subscriptions == old(self).subscriptions,
            final(self).server_time_offset == old(self).server_time_offset,
            final(self).sub_counter == old(self).sub_counter,
    {
        let pubuid = self.new_topic_id();
        let clean = clean_name(name);
        let mut msgs: Vec<NTMessage> = Vec::new();
        msgs.push(NTMessage::Publish(PublishTopic { name: clean.clone(), pubuid, ty: ty.stringify(), properties }));
        if let Some(p) = properties {
            msgs.push(NTMessage::SetProperties(SetProperties { name: clean.clone(), update: p }));
        }
        let topic = PublishedTopic { name: clean.clone(), pubuid, ty: ty.clone(), properties };
        let kept = PublishedTopic { name: clean, pubuid, ty, properties };
        self.client_published_topics.insert(pubuid, kept);
        (msgs, topic)
    }

    /// Subscribes to the topics `topic_names` (their names, or prefixes with
    /// the prefix option) with `options` under a fresh subscription id: a
    /// name given twice counts once. Returns the request and the id; the
    /// subscription is kept.
    pub fn subscribe_w_options(&mut self, topic_names: &Vec<String>, options: Option<SubscriptionOptions>) -> (r: (
        NTMessage,
        i32,
    ))
        ensures
            ({
                let (msg, subuid) = r;
                let s = final(self).subscriptions@[subuid];
                &&& subuid == next_i32_id(old(self).sub_counter)
                &&& final(self).sub_counter == subuid
                &&& final(self).subscriptions@.dom() == old(self).subscriptions@.dom().insert(subuid)
                &&& forall|k: i32| #[trigger] final(self).subscriptions@.contains_key(k) && k != subuid ==> final(self).subscriptions@[k]
                    == old(self).subscriptions@[k]
                &&& s.subuid == subuid
                &&& texts(s.topics@) == distinct_texts(texts(topic_names@))
                &&& s.options == options
                &&& subscribe_request(msg, s)
            }),
            final(self).announced_topics == old(self).announced_topics,
            final(self).client_published_topics == old(self).client_published_topics,
            final(self).server_time_offset == old(self).server_time_offset,
            final(self).topic_counter == old(self).topic_counter,
    {
        let subuid = self.new_sub_id();
        let topics = dedup_names(topic_names);
        let msg = NTMessage::Subscribe(Subscribe { subuid, topics: copy_strings(&topics), options });
        self.subscriptions.insert(subuid, Subscription { subuid, topics, options });
        (msg, subuid)
    }

    /// Ends subscription `subuid`: the request to unsubscribe; the
    /// subscription is forgotten.
    pub fn unsubscribe(&mut self, subuid: i32) -> (msg: NTMessage)
        ensures
            msg == NTMessage::Unsubscribe(Unsubscribe { subuid }),
            final(self).subscriptions@ == old(self).subscriptions@.remove(subuid),
            final(self).announced_topics == old(self).announced_topics,
            final(self).client_published_topics == old(self).client_published_topics,
            final(self).server_time_offset == old(self).server_time_offset,
            final(self).sub_counter == old(self).sub_counter,
            final(self).topic_counter == old(self).topic_counter,
    {
        self.subscriptions.remove(&subuid);
        NTMessage::Unsubscribe(Unsubscribe { subuid })
    }
}

} // verus!
