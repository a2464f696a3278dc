//! Meta-topics: the lists of clients, publishers and subscriptions that the
//! server publishes about itself.

use vstd::prelude::*;

use crate::msgpack::{
    array_len_bytes, bool_bytes, encode_meta_message, f64_bits_bytes, flatten, map_len_bytes, str_bytes, uint_bytes,
    value_header, views, write_array_len, write_bool, write_f64_bits, write_map_len, write_str, write_uint,
};
use crate::protocol::SubscriptionOptions;

verus! {

/// An entry of a meta-topic list, with the equality that decides which
/// entries a reduction removes.
pub trait MetaEntry: Sized {
    /// The entries stand for the same thing.
    spec fn same(&self, other: &Self) -> bool;

    fn is_same(&self, other: &Self) -> (b: bool)
        ensures
            b == self.same(other);

    /// An entry is the same as itself.
    proof fn lemma_same_reflexive(&self)
        ensures
            self.same(self);

    /// The entry as MessagePack: a map from its field names to its fields,
    /// in the order of the fields.
    spec fn entry_bytes(&self) -> Seq<u8>;

    /// Appends the entry as MessagePack.
    fn write_entry(&self, buf: &mut Vec<u8>)
        ensures
            final(buf)@ == old(buf)@ + self.entry_bytes();
}

/// An optional field of a map: its name and value if it is present.
pub open spec fn optional_field(name: Seq<char>, value: Option<Seq<u8>>) -> Seq<u8> {
    match value {
        Some(v) => str_bytes(name) + v,
        None => Seq::empty(),
    }
}

/// The number of options that are set.
pub open spec fn options_set(o: SubscriptionOptions) -> u32 {
    ((if o.periodic is Some { 1int } else { 0int }) + (if o.all is Some { 1int } else { 0int }) + (if o.topics_only
        is Some { 1int } else { 0int }) + (if o.prefix is Some { 1int } else { 0int })) as u32
}

/// Subscription options as MessagePack: a map of the options that are set.
pub open spec fn options_bytes(o: SubscriptionOptions) -> Seq<u8> {
    map_len_bytes(options_set(o)) + optional_field(
        "periodic"@,
        match o.periodic {
            Some(b) => Some(f64_bits_bytes(b)),
            None => None,
        },
    ) + optional_field(
        "all"@,
        flag_value(o.all),
    ) + optional_field("topics_only"@, flag_value(o.topics_only)) + optional_field("prefix"@, flag_value(o.prefix))
}

/// The encoding of an optional flag.
pub open spec fn flag_value(b: Option<bool>) -> Option<Seq<u8>> {
    match b {
        Some(v) => Some(bool_bytes(v)),
        None => None,
    }
}

/// Appends the optional flag `name` if it is set.
fn write_optional_flag(buf: &mut Vec<u8>, name: &str, b: Option<bool>)
    ensures
        final(buf)@ == old(buf)@ + optional_field(name@, flag_value(b)),
{
    match b {
        Some(v) => {
            write_str(buf, name);
            write_bool(buf, v);
        },
        None => {
            assert(buf@ =~= old(buf)@ + Seq::<u8>::empty());
        },
    }
}

/// Appends subscription options as MessagePack.
fn write_options(buf: &mut Vec<u8>, o: SubscriptionOptions)
    ensures
        final(buf)@ == old(buf)@ + options_bytes(o),
{
    let ghost start = buf@;
    let mut count: u32 = 0;
    if o.periodic.is_some() {
        count = count + 1;
    }
    if o.all.is_some() {
        count = count + 1;
    }
    if o.topics_only.is_some() {
        count = count + 1;
    }
    if o.prefix.is_some() {
        count = count + 1;
    }
    assert(count == options_set(o));
    write_map_len(buf, count);
    let ghost p = match o.periodic {
        Some(b) => Some(f64_bits_bytes(b)),
        None => None,
    };
    match o.periodic {
        Some(b) => {
            write_str(buf, "periodic");
            write_f64_bits(buf, b);
        },
        None => {},
    }
    assert(buf@ =~= start + map_len_bytes(options_set(o)) + optional_field("periodic"@, p));
    write_optional_flag(buf, "all", o.all);
    write_optional_flag(buf, "topics_only", o.topics_only);
    write_optional_flag(buf, "prefix", o.prefix);
    assert(buf@ =~= start + options_bytes(o));
}

/// Topic names as MessagePack: an array of strings.
pub open spec fn names_bytes(ts: Seq<String>) -> Seq<u8> {
    array_len_bytes(ts.len() as u32) + flatten(ts.map_values(|t: String| str_bytes(t@)))
}

/// Appends topic names as MessagePack.
fn write_names(buf: &mut Vec<u8>, ts: &Vec<String>)
    ensures
        final(buf)@ == old(buf)@ + names_bytes(ts@),
{
    #[verifier::truncate]
    let n: u32 = ts.len() as u32;
    write_array_len(buf, n);
    let ghost head = buf@;
    let mut i: usize = 0;
    while i < ts.len()
        invariant
            i <= ts@.len(),
            buf@ == head + flatten(ts@.subrange(0, i as int).map_values(|t: String| str_bytes(t@))),
        decreases ts@.len() - i,
    {
        write_str(buf, ts[i].as_str());
        proof {
            let q = ts@.subrange(0, i + 1).map_values(|t: String| str_bytes(t@));
            assert(q.drop_last() =~= ts@.subrange(0, i as int).map_values(|t: String| str_bytes(t@)));
            assert(q.last() == str_bytes(ts@[i as int]@));
        }
        i = i + 1;
    }
    assert(ts@.subrange(0, ts@.len() as int) =~= ts@);
}

/// A connected client (`$clients`).
#[derive(Debug)]
pub struct ClientMetaValue {
    pub id: String,
    /// Connection information about the client; typically host:port.
    pub conn: String,
}

/// A subscription of a client (`$clientsub$<client>`), or of the server
/// (`$serversub`).
#[derive(Debug)]
pub struct ClientSubscriptionMetaValue {
    /// The client-generated identifier of the subscription.
    pub uid: u32,
    /// The topic names, or prefixes with the `prefix` option.
    pub topics: Vec<String>,
    pub options: SubscriptionOptions,
}

/// The same as [`ClientSubscriptionMetaValue`], kept by the server for its own
/// subscriptions.
pub type ServerSubscriptionMetaValue = ClientSubscriptionMetaValue;

/// A subscriber of a topic (`$sub$<topic>`).
#[derive(Debug)]
pub struct SubscriptionMetaValue {
    /// The empty string for server subscriptions.
    pub client: String,
    /// The client-generated identifier of the subscription.
    pub subuid: u32,
    pub options: SubscriptionOptions,
}

/// A publisher of a client (`$clientpub$<client>`), or of the server
/// (`$serverpub`).
#[derive(Debug)]
pub struct ClientPublisherMetaValue {
    pub topic: String,
    /// The client-generated identifier of the publisher.
    pub uid: u32,
}

/// The same as [`ClientPublisherMetaValue`], kept by the server for its own
/// publishers.
pub type ServerPublisherMetaValue = ClientPublisherMetaValue;

/// A publisher of a topic (`$pub$<topic>`).
#[derive(Debug)]
pub struct PublisherMetaValue {
    /// The empty string for server publishers.
    pub client: String,
    /// The client-generated identifier of the publisher.
    pub pubuid: u32,
}

/// The same names in the same order.
pub open spec fn same_names(a: Seq<String>, b: Seq<String>) -> bool {
    a.len() == b.len() && forall|i: int| 0 <= i < a.len() ==> #[trigger] a[i]@ == b[i]@
}

fn names_equal(a: &Vec<String>, b: &Vec<String>) -> (r: bool)
    ensures
        r == same_names(a@, b@),
{
    if a.len() != b.len() {
        return false;
    }
    let mut i: usize = 0;
    while i < a.len()
        invariant
            a@.len() == b@.len(),
            i <= a@.len(),
            forall|k: int| 0 <= k < i ==> #[trigger] a@[k]@ == b@[k]@,
        decreases a@.len() - i,
    {
        if a[i] != b[i] {
            return false;
        }
        i = i + 1;
    }
    true
}

impl MetaEntry for ClientMetaValue {
    open spec fn same(&self, other: &Self) -> bool {
        self.id@ == other.id@ && self.conn@ == other.conn@
    }

    fn is_same(&self, other: &Self) -> (b: bool) {
        self.id == other.id && self.conn == other.conn
    }
    proof fn lemma_same_reflexive(&self) {
    }

    open spec fn entry_bytes(&self) -> Seq<u8> {
        map_len_bytes(2) + str_bytes("id"@) + str_bytes(self.id@) + str_bytes("conn"@) + str_bytes(self.conn@)
    }

    fn write_entry(&self, buf: &mut Vec<u8>) {
        let ghost start = buf@;
        write_map_len(buf, 2);
        write_str(buf, "id");
        write_str(buf, self.id.as_str());
        write_str(buf, "conn");
        write_str(buf, self.conn.as_str());
        assert(buf@ =~= start + self.entry_bytes());
    }
}

/// Two subscription entries are the same when their ids and topics are; the
/// options do not count.
impl MetaEntry for ClientSubscriptionMetaValue {
    open spec fn same(&self, other: &Self) -> bool {
        self.uid == other.uid && same_names(self.topics@, other.topics@)
    }

    fn is_same(&self, other: &Self) -> (b: bool) {
        self.uid == other.uid && names_equal(&self.topics, &other.topics)
    }
    proof fn lemma_same_reflexive(&self) {
    }

    open spec fn entry_bytes(&self) -> Seq<u8> {
        map_len_bytes(3) + str_bytes("uid"@) + uint_bytes(self.uid as u64) + str_bytes("topics"@) + names_bytes(
            self.topics@,
        ) + str_bytes("options"@) + options_bytes(self.options)
    }

    fn write_entry(&self, buf: &mut Vec<u8>) {
        let ghost start = buf@;
        write_map_len(buf, 3);
        write_str(buf, "uid");
        write_uint(buf, self.uid as u64);
        write_str(buf, "topics");
        write_names(buf, &self.topics);
        write_str(buf, "options");
        write_options(buf, self.options);
        assert(buf@ =~= start + self.entry_bytes());
    }
}

/// Two subscriber entries are the same when their clients and ids are; the
/// options do not count.
impl MetaEntry for SubscriptionMetaValue {
    open spec fn same(&self, other: &Self) -> bool {
        self.client@ == other.client@ && self.subuid == other.subuid
    }

    fn is_same(&self, other: &Self) -> (b: bool) {
        self.client == other.client && self.subuid == other.subuid
    }
    proof fn lemma_same_reflexive(&self) {
    }

    open spec fn entry_bytes(&self) -> Seq<u8> {
        map_len_bytes(3) + str_bytes("client"@) + str_bytes(self.client@) + str_bytes("subuid"@) + uint_bytes(
            self.subuid as u64,
        ) + str_bytes("options"@) + options_bytes(self.options)
    }

    fn write_entry(&self, buf: &mut Vec<u8>) {
        let ghost start = buf@;
        write_map_len(buf, 3);
        write_str(buf, "client");
        write_str(buf, self.client.as_str());
        write_str(buf, "subuid");
        write_uint(buf, self.subuid as u64);
        write_str(buf, "options");
        write_options(buf, self.options);
        assert(buf@ =~= start + self.entry_bytes());
    }
}

impl MetaEntry for ClientPublisherMetaValue {
    open spec fn same(&self, other: &Self) -> bool {
        self.topic@ == other.topic@ && self.uid == other.uid
    }

    fn is_same(&self, other: &Self) -> (b: bool) {
        self.topic == other.topic && self.uid == other.uid
    }
    proof fn lemma_same_reflexive(&self) {
    }

    open spec fn entry_bytes(&self) -> Seq<u8> {
        map_len_bytes(2) + str_bytes("topic"@) + str_bytes(self.topic@) + str_bytes("uid"@) + uint_bytes(self.uid as u64)
    }

    fn write_entry(&self, buf: &mut Vec<u8>) {
        let ghost start = buf@;
        write_map_len(buf, 2);
        write_str(buf, "topic");
        write_str(buf, self.topic.as_str());
        write_str(buf, "uid");
        write_uint(buf, self.uid as u64);
        assert(buf@ =~= start + self.entry_bytes());
    }
}

impl MetaEntry for PublisherMetaValue {
    open spec fn same(&self, other: &Self) -> bool {
        self.client@ == other.client@ && self.pubuid == other.pubuid
    }

    fn is_same(&self, other: &Self) -> (b: bool) {
        self.client == other.client && self.pubuid == other.pubuid
    }
    proof fn lemma_same_reflexive(&self) {
    }

    open spec fn entry_bytes(&self) -> Seq<u8> {
        map_len_bytes(2) + str_bytes("client"@) + str_bytes(self.client@) + str_bytes("pubuid"@) + uint_bytes(
            self.pubuid as u64,
        )
    }

    fn write_entry(&self, buf: &mut Vec<u8>) {
        let ghost start = buf@;
        write_map_len(buf, 2);
        write_str(buf, "client");
        write_str(buf, self.client.as_str());
        write_str(buf, "pubuid");
        write_uint(buf, self.pubuid as u64);
        assert(buf@ =~= start + self.entry_bytes());
    }
}

/// Some entry of `list` is the same as `x`.
pub open spec fn listed<T: MetaEntry>(list: Seq<T>, x: T) -> bool {
    exists|j: int| 0 <= j < list.len() && (#[trigger] list[j]).same(&x)
}

/// No entry of `list` is the same as the argument.
pub open spec fn unlisted_in<T: MetaEntry>(list: Seq<T>) -> spec_fn(T) -> bool {
    |x: T| !listed(list, x)
}

/// The entries of `entries` that no entry of `list` is the same as, in order.
pub open spec fn without<T: MetaEntry>(entries: Seq<T>, list: Seq<T>) -> Seq<T> {
    entries.filter(unlisted_in(list))
}

fn is_listed<T: MetaEntry>(list: &Vec<T>, x: &T) -> (b: bool)
    ensures
        b == listed(list@, *x),
{
    let mut j: usize = 0;
    while j < list.len()
        invariant
            j <= list@.len(),
            forall|k: int| 0 <= k < j ==> !(#[trigger] list@[k]).same(x),
        decreases list@.len() - j,
    {
        if list[j].is_same(x) {
            return true;
        }
        j = j + 1;
    }
    false
}

/// Keeps the entries of `entries` that no entry of `list` is the same as.
fn retain_unlisted<T: MetaEntry>(entries: &mut Vec<T>, list: &Vec<T>)
    ensures
        final(entries)@ == without(old(entries)@, list@),
{
    let ghost start = entries@;
    assert(start.len() == entries.len());
    let mut rest: Vec<T> = Vec::new();
    std::mem::swap(&mut rest, entries);
    let mut kept: Vec<T> = Vec::new();
    let mut i: usize = 0;
    while rest.len() > 0
        invariant
            i <= start.len(),
            start.len() <= usize::MAX,
            rest@ == start.subrange(i as int, start.len() as int),
            kept@ == without(start.subrange(0, i as int), list@),
        decreases rest@.len(),
    {
        let x = rest.remove(0);
        proof {
            reveal_with_fuel(Seq::filter, 1);
            assert(start.subrange(0, i + 1).drop_last() == start.subrange(0, i as int));
            assert(start.subrange(0, i + 1).last() == x);
        }
        if !is_listed(list, &x) {
            kept.push(x);
        }
        i = i + 1;
    }
    assert(start.subrange(0, start.len() as int) == start);
    *entries = kept;
}

/// The value of a meta-topic: a list of entries of the meta-topic's kind.
#[derive(Debug)]
pub enum MetaTopicValue {
    Publisher(Vec<PublisherMetaValue>),
    ClientPublisher(Vec<ClientPublisherMetaValue>),
    ServerPublisher(Vec<ServerPublisherMetaValue>),
    Subscription(Vec<SubscriptionMetaValue>),
    ClientSubscription(Vec<ClientSubscriptionMetaValue>),
    ServerSubscription(Vec<ServerSubscriptionMetaValue>),
    Client(Vec<ClientMetaValue>),
}

/// `after` is `before` with the entries of `other` added at the end, when
/// both are of the same kind, and `before` otherwise.
pub open spec fn is_merge(before: MetaTopicValue, other: MetaTopicValue, after: MetaTopicValue) -> bool {
    match (before, other) {
        (MetaTopicValue::Publisher(a), MetaTopicValue::Publisher(b)) =>
            after matches MetaTopicValue::Publisher(c) && c@ == a@ + b@,
        (MetaTopicValue::ClientPublisher(a), MetaTopicValue::ClientPublisher(b)) =>
            after matches MetaTopicValue::ClientPublisher(c) && c@ == a@ + b@,
        (MetaTopicValue::ServerPublisher(a), MetaTopicValue::ServerPublisher(b)) =>
            after matches MetaTopicValue::ServerPublisher(c) && c@ == a@ + b@,
        (MetaTopicValue::Subscription(a), MetaTopicValue::Subscription(b)) =>
            after matches MetaTopicValue::Subscription(c) && c@ == a@ + b@,
        (MetaTopicValue::ClientSubscription(a), MetaTopicValue::ClientSubscription(b)) =>
            after matches MetaTopicValue::ClientSubscription(c) && c@ == a@ + b@,
        (MetaTopicValue::ServerSubscription(a), MetaTopicValue::ServerSubscription(b)) =>
            after matches MetaTopicValue::ServerSubscription(c) && c@ == a@ + b@,
        (MetaTopicValue::Client(a), MetaTopicValue::Client(b)) =>
            after matches MetaTopicValue::Client(c) && c@ == a@ + b@,
        _ => after == before,
    }
}

/// `after` is `before` without the entries that are the same as some entry of
/// `other`, when both are of the same kind, and `before` otherwise.
pub open spec fn is_reduction(before: MetaTopicValue, other: MetaTopicValue, after: MetaTopicValue) -> bool {
    match (before, other) {
        (MetaTopicValue::Publisher(a), MetaTopicValue::Publisher(b)) =>
            after matches MetaTopicValue::Publisher(c) && c@ == without(a@, b@),
        (MetaTopicValue::ClientPublisher(a), MetaTopicValue::ClientPublisher(b)) =>
            after matches MetaTopicValue::ClientPublisher(c) && c@ == without(a@, b@),
        (MetaTopicValue::ServerPublisher(a), MetaTopicValue::ServerPublisher(b)) =>
            after matches MetaTopicValue::ServerPublisher(c) && c@ == without(a@, b@),
        (MetaTopicValue::Subscription(a), MetaTopicValue::Subscription(b)) =>
            after matches MetaTopicValue::Subscription(c) && c@ == without(a@, b@),
        (MetaTopicValue::ClientSubscription(a), MetaTopicValue::ClientSubscription(b)) =>
            after matches MetaTopicValue::ClientSubscription(c) && c@ == without(a@, b@),
        (MetaTopicValue::ServerSubscription(a), MetaTopicValue::ServerSubscription(b)) =>
            after matches MetaTopicValue::ServerSubscription(c) && c@ == without(a@, b@),
        (MetaTopicValue::Client(a), MetaTopicValue::Client(b)) =>
            after matches MetaTopicValue::Client(c) && c@ == without(a@, b@),
        _ => after == before,
    }
}

impl MetaTopicValue {
    /// Adds the entries of `other` if it is of the same kind; does nothing
    /// otherwise.
    pub fn merge(&mut self, other: Self)
        ensures
            is_merge(*old(self), other, *final(self)),
    {
        match self {
            MetaTopicValue::Publisher(inner) => {
                if let MetaTopicValue::Publisher(mut other_inner) = other {
                    inner.append(&mut other_inner);
                }
            },
            MetaTopicValue::ClientPublisher(inner) => {
                if let MetaTopicValue::ClientPublisher(mut other_inner) = other {
                    inner.append(&mut other_inner);
                }
            },
            MetaTopicValue::ServerPublisher(inner) => {
                if let MetaTopicValue::ServerPublisher(mut other_inner) = other {
                    inner.append(&mut other_inner);
                }
            },
            MetaTopicValue::Subscription(inner) => {
                if let MetaTopicValue::Subscription(mut other_inner) = other {
                    inner.append(&mut other_inner);
                }
            },
            MetaTopicValue::ClientSubscription(inner) => {
                if let MetaTopicValue::ClientSubscription(mut other_inner) = other {
                    inner.append(&mut other_inner);
                }
            },
            MetaTopicValue::ServerSubscription(inner) => {
                if let MetaTopicValue::ServerSubscription(mut other_inner) = other {
                    inner.append(&mut other_inner);
                }
            },
            MetaTopicValue::Client(inner) => {
                if let MetaTopicValue::Client(mut other_inner) = other {
                    inner.append(&mut other_inner);
                }
            },
        }
    }

    /// Removes the entries that are the same as some entry of `other`, if
    /// `other` is of the same kind; does nothing otherwise.
    pub fn reduce(&mut self, other: Self)
        ensures
            is_reduction(*old(self), other, *final(self)),
    {
        match self {
            MetaTopicValue::Publisher(inner) => {
                if let MetaTopicValue::Publisher(other_inner) = other {
                    retain_unlisted(inner, &other_inner);
                }
            },
            MetaTopicValue::ClientPublisher(inner) => {
                if let MetaTopicValue::ClientPublisher(other_inner) = other {
                    retain_unlisted(inner, &other_inner);
                }
            },
            MetaTopicValue::ServerPublisher(inner) => {
                if let MetaTopicValue::ServerPublisher(other_inner) = other {
                    retain_unlisted(inner, &other_inner);
                }
            },
            MetaTopicValue::Subscription(inner) => {
                if let MetaTopicValue::Subscription(other_inner) = other {
                    retain_unlisted(inner, &other_inner);
                }
            },
            MetaTopicValue::ClientSubscription(inner) => {
                if let MetaTopicValue::ClientSubscription(other_inner) = other {
                    retain_unlisted(inner, &other_inner);
                }
            },
            MetaTopicValue::ServerSubscription(inner) => {
                if let MetaTopicValue::ServerSubscription(other_inner) = other {
                    retain_unlisted(inner, &other_inner);
                }
            },
            MetaTopicValue::Client(inner) => {
                if let MetaTopicValue::Client(other_inner) = other {
                    retain_unlisted(inner, &other_inner);
                }
            },
        }
    }

    /// The number of entries.
    pub fn len(&self) -> (n: usize)
        ensures
            n == entry_count(*self),
    {
        match self {
            MetaTopicValue::Publisher(inner) => inner.len(),
            MetaTopicValue::ClientPublisher(inner) => inner.len(),
            MetaTopicValue::ServerPublisher(inner) => inner.len(),
            MetaTopicValue::Subscription(inner) => inner.len(),
            MetaTopicValue::ClientSubscription(inner) => inner.len(),
            MetaTopicValue::ServerSubscription(inner) => inner.len(),
            MetaTopicValue::Client(inner) => inner.len(),
        }
    }

    /// The value message of this value for topic `topic_id` at time
    /// `timestamp`: a raw-typed value whose value is the array of the entries,
    /// each as MessagePack (see `meta_entries`).
    pub fn message_at(&self, topic_id: i32, timestamp: u64) -> (buf: Vec<u8>)
        ensures
            buf@ == value_header(topic_id, timestamp, 5) + array_len_bytes(entry_count(*self) as u32) + flatten(
                meta_entries(*self),
            ),
    {
        let entries = match self {
            MetaTopicValue::Publisher(inner) => entries_of(inner),
            MetaTopicValue::ClientPublisher(inner) => entries_of(inner),
            MetaTopicValue::ServerPublisher(inner) => entries_of(inner),
            MetaTopicValue::Subscription(inner) => entries_of(inner),
            MetaTopicValue::ClientSubscription(inner) => entries_of(inner),
            MetaTopicValue::ServerSubscription(inner) => entries_of(inner),
            MetaTopicValue::Client(inner) => entries_of(inner),
        };
        encode_meta_message(topic_id, timestamp, &entries)
    }

    /// The value message of this value for topic `topic_id`, stamped with the
    /// server clock (see `message_at`). `None` if the clock cannot be read.
    pub fn as_bytes(&self, topic_id: i32) -> (buf: Option<Vec<u8>>)
        ensures
            buf matches Some(b) ==> exists|t: u64| b@ == #[trigger] value_header(topic_id, t, 5) + array_len_bytes(
                entry_count(*self) as u32,
            ) + flatten(meta_entries(*self)),
    {
        match crate::now() {
            Some(t) => Some(self.message_at(topic_id, t)),
            None => None,
        }
    }
}

/// `after` is the value at a publishers meta-topic after the entry of topic
/// `name` and publisher id `uid` was merged into `before` (a value of the
/// server's kind if `server`, of a client's kind otherwise; none if the
/// meta-topic had no value yet).
pub open spec fn publisher_added(before: Option<MetaTopicValue>, after: MetaTopicValue, server: bool, name: Seq<char>, uid: u32) -> bool {
    match before {
        None => if server {
            after matches MetaTopicValue::ServerPublisher(c) && c@.len() == 1 && c@[0].topic@ == name && c@[0].uid == uid
        } else {
            after matches MetaTopicValue::ClientPublisher(c) && c@.len() == 1 && c@[0].topic@ == name && c@[0].uid == uid
        },
        Some(MetaTopicValue::ServerPublisher(a)) => if server {
            after matches MetaTopicValue::ServerPublisher(c) && c@.len() == a@.len() + 1 && c@.subrange(0, a@.len() as int)
                == a@ && c@.last().topic@ == name && c@.last().uid == uid
        } else {
            after == MetaTopicValue::ServerPublisher(a)
        },
        Some(MetaTopicValue::ClientPublisher(a)) => if !server {
            after matches MetaTopicValue::ClientPublisher(c) && c@.len() == a@.len() + 1 && c@.subrange(0, a@.len() as int)
                == a@ && c@.last().topic@ == name && c@.last().uid == uid
        } else {
            after == MetaTopicValue::ClientPublisher(a)
        },
        Some(v) => after == v,
    }
}

/// `after` is the map of meta-topic values after the entry of topic `name` and
/// publisher id `uid` was merged into the value at `k`.
pub open spec fn publisher_added_at(before: Map<u32, MetaTopicValue>, after: Map<u32, MetaTopicValue>, k: u32, server: bool, name: Seq<char>, uid: u32) -> bool {
    &&& after.dom() == before.dom().insert(k)
    &&& forall|j: u32| #[trigger] after.contains_key(j) && j != k ==> after[j] == before[j]
    &&& publisher_added(if before.contains_key(k) { Some(before[k]) } else { None }, after[k], server, name, uid)
}

/// The publisher entries other than that of topic `name` and id `uid`.
pub open spec fn other_publishers(a: Seq<ClientPublisherMetaValue>, name: Seq<char>, uid: u32) -> Seq<ClientPublisherMetaValue> {
    a.filter(not_publisher(name, uid))
}

/// The argument is not the entry of topic `name` and id `uid`.
pub open spec fn not_publisher(name: Seq<char>, uid: u32) -> spec_fn(ClientPublisherMetaValue) -> bool {
    |x: ClientPublisherMetaValue| !(x.topic@ == name && x.uid == uid)
}

/// Removing the publishers listed as one entry removes those of its topic and
/// id.
pub proof fn lemma_without_one_publisher(a: Seq<ClientPublisherMetaValue>, e: ClientPublisherMetaValue)
    ensures
        without(a, seq![e]) == other_publishers(a, e.topic@, e.uid),
{
    assert forall|x: ClientPublisherMetaValue| #[trigger] unlisted_in(seq![e])(x) == not_publisher(e.topic@, e.uid)(x) by {
        if listed(seq![e], x) {
            let j = choose|j: int| 0 <= j < 1 && (#[trigger] seq![e][j]).same(&x);
            assert(seq![e][j] == e);
        } else {
            assert(seq![e][0] == e);
        }
    }
    assert(unlisted_in(seq![e]) =~= not_publisher(e.topic@, e.uid));
}

/// Removing the entries listed as one client entry removes those of its
/// address and name.
pub proof fn lemma_without_one_client(a: Seq<ClientMetaValue>, e: ClientMetaValue)
    ensures
        without(a, seq![e]) == a.filter(|x: ClientMetaValue| !(x.id@ == e.id@ && x.conn@ == e.conn@)),
{
    let p = |x: ClientMetaValue| !(x.id@ == e.id@ && x.conn@ == e.conn@);
    assert forall|x: ClientMetaValue| #[trigger] unlisted_in(seq![e])(x) == p(x) by {
        if listed(seq![e], x) {
            let j = choose|j: int| 0 <= j < 1 && (#[trigger] seq![e][j]).same(&x);
            assert(seq![e][j] == e);
        } else {
            assert(seq![e][0] == e);
        }
    }
    assert(unlisted_in(seq![e]) =~= p);
}

/// `after` is the value at a publishers meta-topic after the entry of topic
/// `name` and publisher id `uid` was removed from `before` (a value of the
/// server's kind if `server`, of a client's kind otherwise; none if the
/// meta-topic had no value yet).
pub open spec fn publisher_removed(before: Option<MetaTopicValue>, after: MetaTopicValue, server: bool, name: Seq<char>, uid: u32) -> bool {
    match before {
        None => if server {
            after matches MetaTopicValue::ServerPublisher(c) && c@.len() == 0
        } else {
            after matches MetaTopicValue::ClientPublisher(c) && c@.len() == 0
        },
        Some(MetaTopicValue::ServerPublisher(a)) => if server {
            after matches MetaTopicValue::ServerPublisher(c) && c@ == other_publishers(a@, name, uid)
        } else {
            after == MetaTopicValue::ServerPublisher(a)
        },
        Some(MetaTopicValue::ClientPublisher(a)) => if !server {
            after matches MetaTopicValue::ClientPublisher(c) && c@ == other_publishers(a@, name, uid)
        } else {
            after == MetaTopicValue::ClientPublisher(a)
        },
        Some(v) => after == v,
    }
}

/// `after` is the map of meta-topic values after the entry of topic `name` and
/// publisher id `uid` was removed from the value at `k`.
pub open spec fn publisher_removed_at(before: Map<u32, MetaTopicValue>, after: Map<u32, MetaTopicValue>, k: u32, server: bool, name: Seq<char>, uid: u32) -> bool {
    &&& after.dom() == before.dom().insert(k)
    &&& forall|j: u32| #[trigger] after.contains_key(j) && j != k ==> after[j] == before[j]
    &&& publisher_removed(if before.contains_key(k) { Some(before[k]) } else { None }, after[k], server, name, uid)
}

/// No entry of `a` is the same as an entry of `list`.
pub open spec fn apart<T: MetaEntry>(a: Seq<T>, list: Seq<T>) -> bool {
    forall|i: int| 0 <= i < a.len() ==> !listed(list, #[trigger] a[i])
}

/// Removing what `list` lists keeps every entry of a list apart from it.
proof fn lemma_filter_keeps<T: MetaEntry>(a: Seq<T>, list: Seq<T>)
    requires
        apart(a, list),
    ensures
        a.filter(unlisted_in(list)) == a,
    decreases a.len(),
{
    reveal_with_fuel(Seq::filter, 1);
    if a.len() > 0 {
        assert(apart(a.drop_last(), list)) by {
            assert forall|i: int| 0 <= i < a.drop_last().len() implies !listed(list, #[trigger] a.drop_last()[i]) by {
                assert(a.drop_last()[i] == a[i]);
            }
        }
        lemma_filter_keeps(a.drop_last(), list);
        assert(!listed(list, a[a.len() - 1]));
        assert(a.drop_last().push(a.last()) =~= a);
    }
}

/// Removing what `list` lists from `a` followed by entries that `list` lists
/// gives back `a`, when `a` is apart from `list`.
proof fn lemma_filter_drops<T: MetaEntry>(a: Seq<T>, b: Seq<T>, list: Seq<T>)
    requires
        apart(a, list),
        forall|j: int| 0 <= j < b.len() ==> listed(list, #[trigger] b[j]),
    ensures
        (a + b).filter(unlisted_in(list)) == a,
    decreases b.len(),
{
    reveal_with_fuel(Seq::filter, 1);
    if b.len() == 0 {
        assert(a + b =~= a);
        lemma_filter_keeps(a, list);
    } else {
        assert((a + b).drop_last() =~= a + b.drop_last());
        assert((a + b).last() == b[b.len() - 1]);
        assert forall|j: int| 0 <= j < b.drop_last().len() implies listed(list, #[trigger] b.drop_last()[j]) by {
            assert(b.drop_last()[j] == b[j]);
        }
        lemma_filter_drops(a, b.drop_last(), list);
    }
}

/// The two values are of one kind and list the same entries.
pub open spec fn same_lists(x: MetaTopicValue, y: MetaTopicValue) -> bool {
    match (x, y) {
        (MetaTopicValue::Publisher(a), MetaTopicValue::Publisher(b)) => a@ == b@,
        (MetaTopicValue::ClientPublisher(a), MetaTopicValue::ClientPublisher(b)) => a@ == b@,
        (MetaTopicValue::ServerPublisher(a), MetaTopicValue::ServerPublisher(b)) => a@ == b@,
        (MetaTopicValue::Subscription(a), MetaTopicValue::Subscription(b)) => a@ == b@,
        (MetaTopicValue::ClientSubscription(a), MetaTopicValue::ClientSubscription(b)) => a@ == b@,
        (MetaTopicValue::ServerSubscription(a), MetaTopicValue::ServerSubscription(b)) => a@ == b@,
        (MetaTopicValue::Client(a), MetaTopicValue::Client(b)) => a@ == b@,
        _ => false,
    }
}

/// The entries of `other` are apart from those of `before`, when both are of
/// one kind.
pub open spec fn merge_apart(before: MetaTopicValue, other: MetaTopicValue) -> bool {
    match (before, other) {
        (MetaTopicValue::Publisher(a), MetaTopicValue::Publisher(b)) => apart(a@, b@),
        (MetaTopicValue::ClientPublisher(a), MetaTopicValue::ClientPublisher(b)) => apart(a@, b@),
        (MetaTopicValue::ServerPublisher(a), MetaTopicValue::ServerPublisher(b)) => apart(a@, b@),
        (MetaTopicValue::Subscription(a), MetaTopicValue::Subscription(b)) => apart(a@, b@),
        (MetaTopicValue::ClientSubscription(a), MetaTopicValue::ClientSubscription(b)) => apart(a@, b@),
        (MetaTopicValue::ServerSubscription(a), MetaTopicValue::ServerSubscription(b)) => apart(a@, b@),
        (MetaTopicValue::Client(a), MetaTopicValue::Client(b)) => apart(a@, b@),
        _ => true,
    }
}

/// Removing the entries of `b` from `a` followed by `b` gives back `a`, when
/// `a` is apart from `b`.
proof fn lemma_without_merged<T: MetaEntry>(a: Seq<T>, b: Seq<T>)
    requires
        apart(a, b),
    ensures
        without(a + b, b) == a,
{
    assert forall|j: int| 0 <= j < b.len() implies listed(b, #[trigger] b[j]) by {
        b[j].lemma_same_reflexive();
    }
    lemma_filter_drops(a, b, b);
}

/// Reducing by what was merged gives the entries back: when `mid` is what
/// `merge(other)` makes of `before` (`is_merge`, its contract) and `after` is
/// what `reduce(other)` then makes of `mid` (`is_reduction`), `after` is of
/// the kind of `before` and lists its entries, in the same order, provided
/// none of them is the same as an entry of `other`. Where the kinds differ,
/// both calls leave the value as it was.
#[verifier::spinoff_prover]
#[verifier::rlimit(60)]
pub proof fn law_reduce_undoes_merge(before: MetaTopicValue, other: MetaTopicValue, mid: MetaTopicValue, after: MetaTopicValue)
    requires
        is_merge(before, other, mid),
        is_reduction(mid, other, after),
        merge_apart(before, other),
    ensures
        same_lists(after, before),
{
    match (before, other) {
        (MetaTopicValue::Publisher(a), MetaTopicValue::Publisher(b)) => lemma_without_merged(a@, b@),
        (MetaTopicValue::ClientPublisher(a), MetaTopicValue::ClientPublisher(b)) => lemma_without_merged(a@, b@),
        (MetaTopicValue::ServerPublisher(a), MetaTopicValue::ServerPublisher(b)) => lemma_without_merged(a@, b@),
        (MetaTopicValue::Subscription(a), MetaTopicValue::Subscription(b)) => lemma_without_merged(a@, b@),
        (MetaTopicValue::ClientSubscription(a), MetaTopicValue::ClientSubscription(b)) => lemma_without_merged(a@, b@),
        (MetaTopicValue::ServerSubscription(a), MetaTopicValue::ServerSubscription(b)) => lemma_without_merged(a@, b@),
        (MetaTopicValue::Client(a), MetaTopicValue::Client(b)) => lemma_without_merged(a@, b@),
        _ => {},
    }
}

/// The entries of a list, each as MessagePack.
pub open spec fn entries_bytes<T: MetaEntry>(list: Seq<T>) -> Seq<Seq<u8>> {
    list.map_values(|e: T| e.entry_bytes())
}

/// The entries of a meta-topic value, each as MessagePack.
pub open spec fn meta_entries(v: MetaTopicValue) -> Seq<Seq<u8>> {
    match v {
        MetaTopicValue::Publisher(a) => entries_bytes(a@),
        MetaTopicValue::ClientPublisher(a) => entries_bytes(a@),
        MetaTopicValue::ServerPublisher(a) => entries_bytes(a@),
        MetaTopicValue::Subscription(a) => entries_bytes(a@),
        MetaTopicValue::ClientSubscription(a) => entries_bytes(a@),
        MetaTopicValue::ServerSubscription(a) => entries_bytes(a@),
        MetaTopicValue::Client(a) => entries_bytes(a@),
    }
}

/// Each entry of a meta-topic value is written as a MessagePack map from the
/// names of its fields to their values, in the order of the fields: a
/// publisher entry as `{"client", "pubuid"}`, a client's or the server's
/// publisher entry as `{"topic", "uid"}`, a subscriber entry as `{"client",
/// "subuid", "options"}`, a client's or the server's subscriber entry as
/// `{"uid", "topics", "options"}`, and a `$clients` entry as `{"id", "conn"}`;
/// there is one written entry per entry.
pub proof fn law_meta_entries_are_named_maps(v: MetaTopicValue)
    ensures
        meta_entries(v).len() == entry_count(v),
        match v {
            MetaTopicValue::Publisher(a) => forall|i: int| 0 <= i < a@.len() ==> #[trigger] meta_entries(v)[i]
                == map_len_bytes(2) + str_bytes("client"@) + str_bytes(a@[i].client@) + str_bytes("pubuid"@)
                + uint_bytes(a@[i].pubuid as u64),
            MetaTopicValue::ClientPublisher(a) => forall|i: int| 0 <= i < a@.len() ==> #[trigger] meta_entries(v)[i]
                == map_len_bytes(2) + str_bytes("topic"@) + str_bytes(a@[i].topic@) + str_bytes("uid"@) + uint_bytes(
                a@[i].uid as u64,
            ),
            MetaTopicValue::ServerPublisher(a) => forall|i: int| 0 <= i < a@.len() ==> #[trigger] meta_entries(v)[i]
                == map_len_bytes(2) + str_bytes("topic"@) + str_bytes(a@[i].topic@) + str_bytes("uid"@) + uint_bytes(
                a@[i].uid as u64,
            ),
            MetaTopicValue::Subscription(a) => forall|i: int| 0 <= i < a@.len() ==> #[trigger] meta_entries(v)[i]
                == map_len_bytes(3) + str_bytes("client"@) + str_bytes(a@[i].client@) + str_bytes("subuid"@)
                + uint_bytes(a@[i].subuid as u64) + str_bytes("options"@) + options_bytes(a@[i].options),
            MetaTopicValue::ClientSubscription(a) => forall|i: int| 0 <= i < a@.len() ==> #[trigger] meta_entries(v)[i]
                == map_len_bytes(3) + str_bytes("uid"@) + uint_bytes(a@[i].uid as u64) + str_bytes("topics"@)
                + names_bytes(a@[i].topics@) + str_bytes("options"@) + options_bytes(a@[i].options),
            MetaTopicValue::ServerSubscription(a) => forall|i: int| 0 <= i < a@.len() ==> #[trigger] meta_entries(v)[i]
                == map_len_bytes(3) + str_bytes("uid"@) + uint_bytes(a@[i].uid as u64) + str_bytes("topics"@)
                + names_bytes(a@[i].topics@) + str_bytes("options"@) + options_bytes(a@[i].options),
            MetaTopicValue::Client(a) => forall|i: int| 0 <= i < a@.len() ==> #[trigger] meta_entries(v)[i]
                == map_len_bytes(2) + str_bytes("id"@) + str_bytes(a@[i].id@) + str_bytes("conn"@) + str_bytes(
                a@[i].conn@,
            ),
        },
{
}

/// The entries of a list, each as MessagePack.
fn entries_of<T: MetaEntry>(list: &Vec<T>) -> (r: Vec<Vec<u8>>)
    ensures
        views(r@) == entries_bytes(list@),
{
    let mut r: Vec<Vec<u8>> = Vec::new();
    let mut i: usize = 0;
    while i < list.len()
        invariant
            i <= list@.len(),
            views(r@) == entries_bytes(list@.subrange(0, i as int)),
        decreases list@.len() - i,
    {
        let mut buf: Vec<u8> = Vec::new();
        list[i].write_entry(&mut buf);
        let ghost before = r@;
        r.push(buf);
        proof {
            assert(buf@ =~= list@[i as int].entry_bytes());
            assert(views(r@) =~= views(before).push(buf@));
            assert(entries_bytes(list@.subrange(0, i + 1)) =~= entries_bytes(list@.subrange(0, i as int)).push(
                list@[i as int].entry_bytes(),
            ));
        }
        i = i + 1;
    }
    assert(list@.subrange(0, list@.len() as int) =~= list@);
    r
}

/// The number of entries of a meta-topic value.
pub open spec fn entry_count(v: MetaTopicValue) -> nat {
    match v {
        MetaTopicValue::Publisher(a) => a@.len(),
        MetaTopicValue::ClientPublisher(a) => a@.len(),
        MetaTopicValue::ServerPublisher(a) => a@.len(),
        MetaTopicValue::Subscription(a) => a@.len(),
        MetaTopicValue::ClientSubscription(a) => a@.len(),
        MetaTopicValue::ServerSubscription(a) => a@.len(),
        MetaTopicValue::Client(a) => a@.len(),
    }
}

} // verus!
