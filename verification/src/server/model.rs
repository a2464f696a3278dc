//! The mathematical model of the server's state, of the messages it sends, and
//! of the transitions that its operations make.

use vstd::prelude::*;

use crate::frc_type::{type_string, FrcType};
use crate::protocol::subscription::cares;
use crate::protocol::topic::implicit_publisher;
use crate::protocol::{PublishProperties, SubscriptionOptions};
use crate::server::util::{value_message, ClientIdx, Counter, SubIdx, TopicIdx, TimestampedValue};
use crate::protocol::subscription::options_or_default;
use crate::protocol::flag;
use crate::protocol::metatopic::MetaTopicValue;
use crate::server::error::ErrorKind;
use crate::server::session_model::{removal_withdrawals, unmark_removed};

verus! {

/// A topic: name, type string, properties.
pub struct TopicModel {
    pub name: Seq<char>,
    pub ty: Seq<char>,
    pub properties: Option<PublishProperties>,
}

/// A subscription: id, topic names (or prefixes), options.
pub struct SubModel {
    pub subuid: i32,
    pub topics: Seq<Seq<char>>,
    pub options: Option<SubscriptionOptions>,
}

/// A connected client.
pub struct ClientModel {
    pub addr: Seq<char>,
    pub name: Seq<char>,
    /// Publisher id to topic index, and back.
    pub pubs: Map<u32, TopicIdx>,
    pub pubs_rev: Map<TopicIdx, u32>,
    /// Subscription id to subscription index, and back.
    pub subs: Map<u32, SubIdx>,
    pub subs_rev: Map<SubIdx, u32>,
    /// Whether messages can be sent to the client; false for the server's own
    /// client.
    pub has_output: bool,
    /// The topics announced to the client.
    pub announced: Set<TopicIdx>,
}

/// A value kept for a subscription.
pub enum ValueModel {
    Normal { timestamp: u64, ty: FrcType, value: Seq<u8> },
    Meta(MetaTopicValue),
}

/// The values kept for a subscription until its next period.
pub enum StoredModel {
    All(Map<TopicIdx, Seq<ValueModel>>),
    One(Map<TopicIdx, ValueModel>),
}

/// A text message the server sends.
pub enum MsgModel {
    Announce { name: Seq<char>, id: i32, ty: Seq<char>, pubuid: Option<i32>, properties: PublishProperties },
    UnAnnounce { name: Seq<char>, id: u32 },
    Properties { name: Seq<char>, ack: Option<bool> },
    /// A message the server never sends.
    Other,
}

/// Something the server asks its caller to send to a client.
pub enum ActionModel {
    /// Text messages, sent together as one JSON array.
    Messages(ClientIdx, Seq<MsgModel>),
    /// Binary value messages.
    Binary(ClientIdx, Seq<u8>),
    /// A flush of the client's connection.
    Flush(ClientIdx),
}

/// The state of the server, without the values of its meta-topics.
pub struct ServerModel {
    pub topics: Map<TopicIdx, TopicModel>,
    pub topic_map: Map<Seq<char>, TopicIdx>,
    pub pub_count: Map<TopicIdx, u16>,
    pub values: Map<TopicIdx, TimestampedValue>,
    pub client_map: Map<(Seq<char>, Seq<char>), ClientIdx>,
    pub clients: Map<ClientIdx, ClientModel>,
    pub client_meta: Map<ClientIdx, (TopicIdx, TopicIdx)>,
    pub subscriptions: Map<SubIdx, (SubModel, ClientIdx)>,
    pub topic_subs: Map<TopicIdx, Seq<SubIdx>>,
    pub sub_values: Map<SubIdx, StoredModel>,
    pub counters: Counter,
}

/// The properties announced for a topic: its own, or none set.
pub open spec fn announced_properties(p: Option<PublishProperties>) -> PublishProperties {
    match p {
        Some(p) => p,
        None => PublishProperties { persistent: None, retained: None },
    }
}

/// The announcement of topic `t` of index `idx`.
pub open spec fn announcement(idx: TopicIdx, t: TopicModel, pubuid: Option<i32>) -> MsgModel {
    MsgModel::Announce {
        name: t.name,
        id: idx as i32,
        ty: t.ty,
        pubuid,
        properties: announced_properties(t.properties),
    }
}

/// The clients with a subscription that cares about the topic `name`.
pub open spec fn interested_clients(subs: Map<SubIdx, (SubModel, ClientIdx)>, name: Seq<char>) -> Set<ClientIdx> {
    Set::new(|c: ClientIdx| exists|s: SubIdx| #[trigger] subs.contains_key(s) && subs[s].1 == c
        && cares(subs[s].0.topics, subs[s].0.options, name))
}

/// The clients after topic `t` was announced to those of `targets`.
pub open spec fn mark_announced(clients: Map<ClientIdx, ClientModel>, targets: Set<ClientIdx>, t: TopicIdx) -> Map<ClientIdx, ClientModel> {
    Map::new(
        |c: ClientIdx| clients.contains_key(c),
        |c: ClientIdx| if targets.contains(c) {
            ClientModel { announced: clients[c].announced.insert(t), ..clients[c] }
        } else {
            clients[c]
        },
    )
}

/// The messages `msg` sent to the clients of `targets` among the first `k`
/// client indices, in the order of the indices: to those that are connected and
/// can be sent to.
pub open spec fn broadcast(k: nat, clients: Map<ClientIdx, ClientModel>, targets: Set<ClientIdx>, msgs: Seq<MsgModel>) -> Seq<ActionModel>
    decreases k,
{
    if k == 0 {
        Seq::empty()
    } else {
        let c = (k - 1) as ClientIdx;
        broadcast((k - 1) as nat, clients, targets, msgs) + if targets.contains(c) && clients.contains_key(c)
            && clients[c].has_output {
            seq![ActionModel::Messages(c, msgs)]
        } else {
            Seq::empty()
        }
    }
}

/// The effect of announcing topic `t`: an error if the topic does not exist;
/// with `response`, an error if the responding client does not exist, else
/// the announcement with its publisher id to that client, even if the topic
/// was announced to it before; then the announcement to every client that some
/// subscription of cares about the topic's name.
pub open spec fn announce_spec(m: ServerModel, t: TopicIdx, response: Option<(u32, ClientIdx)>) -> (ServerModel, Result<(), ErrorKind>, Seq<ActionModel>) {
    if !m.topics.contains_key(t) {
        (m, Err(ErrorKind::TopicDoesNotExist), Seq::empty())
    } else {
        let topic = m.topics[t];
        match response {
            Some((pubuid, c)) => {
                if !m.clients.contains_key(c) {
                    (m, Err(ErrorKind::ClientDoesNotExist), Seq::empty())
                } else {
                    let first = if !m.clients[c].has_output {
                        Seq::empty()
                    } else {
                        seq![ActionModel::Messages(c, seq![announcement(t, topic, Some(pubuid as i32))])]
                    };
                    let clients1 = m.clients.insert(c, ClientModel { announced: m.clients[c].announced.insert(t), ..m.clients[c] });
                    let targets = interested_clients(m.subscriptions, topic.name);
                    (
                        ServerModel { clients: mark_announced(clients1, targets, t), ..m },
                        Ok(()),
                        first + broadcast(m.counters.client_idx as nat, clients1, targets, seq![announcement(t, topic, None)]),
                    )
                }
            },
            None => {
                let targets = interested_clients(m.subscriptions, topic.name);
                (
                    ServerModel { clients: mark_announced(m.clients, targets, t), ..m },
                    Ok(()),
                    broadcast(m.counters.client_idx as nat, m.clients, targets, seq![announcement(t, topic, None)]),
                )
            },
        }
    }
}

/// A meta-topic of the given name: type `raw`, no properties.
pub open spec fn meta_topic(name: Seq<char>) -> TopicModel {
    TopicModel { name, ty: "raw"@, properties: None }
}

/// The effect of adding topic `t` alone: if its name is taken, nothing, and the
/// index of that name; otherwise the topic gets the next topic index, a
/// publisher count of 2 if it keeps living without publishers and 1
/// otherwise, its name, and an empty list of subscriptions.
pub open spec fn add_single_spec(m: ServerModel, t: TopicModel) -> (ServerModel, TopicIdx) {
    if m.topic_map.contains_key(t.name) {
        (m, m.topic_map[t.name])
    } else {
        let i = m.counters.topic_idx;
        (
            ServerModel {
                topics: m.topics.insert(i, t),
                pub_count: m.pub_count.insert(i, if implicit_publisher(t.properties) { 2u16 } else { 1u16 }),
                topic_map: m.topic_map.insert(t.name, i),
                topic_subs: m.topic_subs.insert(i, Seq::empty()),
                counters: Counter { topic_idx: (i + 1) as u32, ..m.counters },
                ..m
            },
            i,
        )
    }
}

/// The effect of adding the meta-topic `name` and announcing it.
pub open spec fn add_meta_spec(m: ServerModel, name: Seq<char>) -> (ServerModel, Result<(), ErrorKind>, Seq<ActionModel>) {
    let (m1, i) = add_single_spec(m, meta_topic(name));
    announce_spec(m1, i, None)
}

/// The name of the meta-topic of the publishers of topic `name`.
pub open spec fn pub_meta_name(name: Seq<char>) -> Seq<char> {
    "$pub$"@ + name
}

/// The name of the meta-topic of the subscribers of topic `name`.
pub open spec fn sub_meta_name(name: Seq<char>) -> Seq<char> {
    "$sub$"@ + name
}

/// The effect of adding topic `t`: if its name is taken, nothing, and the
/// index of that name. Otherwise the topic is added; a topic whose name holds
/// a `$` is a meta-topic and that is all; for any other, its publisher and
/// subscriber meta-topics are added and announced, in that order, stopping at
/// the first error.
pub open spec fn add_topic_spec(m: ServerModel, t: TopicModel) -> (ServerModel, Result<TopicIdx, ErrorKind>, Seq<ActionModel>) {
    let (m1, i) = add_single_spec(m, t);
    if m.topic_map.contains_key(t.name) || t.name.contains('$') {
        (m1, Ok(i), Seq::empty())
    } else {
        let (m2, r2, a2) = add_meta_spec(m1, pub_meta_name(t.name));
        match r2 {
            Err(e) => (m2, Err(e), a2),
            Ok(_) => {
                let (m3, r3, a3) = add_meta_spec(m2, sub_meta_name(t.name));
                match r3 {
                    Err(e) => (m3, Err(e), a2 + a3),
                    Ok(_) => (m3, Ok(i), a2 + a3),
                }
            },
        }
    }
}

/// The effect of removing topic `idx`: an error if it does not exist; else the
/// topic goes; an error if its publisher meta-topic's name is not mapped; else
/// that name goes; an error if its subscriber meta-topic's name is not
/// mapped; else that name and the topic's name go, the topic's and both
/// meta-topics' entries and subscription lists go, and the topic's value goes.
pub open spec fn remove_topic_spec(m: ServerModel, idx: TopicIdx) -> (ServerModel, Result<(), ErrorKind>) {
    if !m.topics.contains_key(idx) {
        (m, Err(ErrorKind::TopicDoesNotExist))
    } else {
        let name = m.topics[idx].name;
        let m1 = ServerModel { topics: m.topics.remove(idx), ..m };
        if !m.topic_map.contains_key(pub_meta_name(name)) {
            (m1, Err(ErrorKind::TopicDoesNotExist))
        } else {
            let ip = m.topic_map[pub_meta_name(name)];
            let tm = m.topic_map.remove(pub_meta_name(name));
            let m2 = ServerModel { topic_map: tm, ..m1 };
            if !tm.contains_key(sub_meta_name(name)) {
                (m2, Err(ErrorKind::TopicDoesNotExist))
            } else {
                let is = tm[sub_meta_name(name)];
                (
                    ServerModel {
                        topic_map: tm.remove(sub_meta_name(name)).remove(name),
                        topics: m1.topics.remove(ip).remove(is),
                        topic_subs: m.topic_subs.remove(idx).remove(ip).remove(is),
                        values: m.values.remove(idx),
                        ..m
                    },
                    Ok(()),
                )
            }
        }
    }
}

/// The effect of removing a meta-topic of a client, `idx`: an error if it does
/// not exist; else it goes, with its name, its subscription list, its value
/// and its publisher count.
pub open spec fn remove_meta_topic_spec(m: ServerModel, idx: TopicIdx) -> (ServerModel, Result<(), ErrorKind>) {
    if !m.topics.contains_key(idx) {
        (m, Err(ErrorKind::TopicDoesNotExist))
    } else {
        (
            ServerModel {
                topics: m.topics.remove(idx),
                topic_map: m.topic_map.remove(m.topics[idx].name),
                topic_subs: m.topic_subs.remove(idx),
                values: m.values.remove(idx),
                pub_count: m.pub_count.remove(idx),
                ..m
            },
            Ok(()),
        )
    }
}

/// Removing a client's meta-topic keeps the invariant.
pub proof fn lemma_remove_meta_topic_wf(m: ServerModel, idx: TopicIdx)
    requires
        model_wf(m),
    ensures
        model_wf(remove_meta_topic_spec(m, idx).0),
        remove_meta_topic_spec(m, idx).0.clients == m.clients,
        remove_meta_topic_spec(m, idx).0.counters == m.counters,
        remove_meta_topic_spec(m, idx).0.client_meta == m.client_meta,
{
    if m.topics.contains_key(idx) {
        let name = m.topics[idx].name;
        let m1 = remove_meta_topic_spec(m, idx).0;
        assert forall|n: Seq<char>| #[trigger] m1.topic_map.contains_key(n) implies m1.topic_map[n] < m1.counters.topic_idx
            && m1.topic_subs.contains_key(m1.topic_map[n]) by {
            assert(m.topic_map.contains_key(n));
            if m.topic_map[n] == idx {
                assert(m.topics[m.topic_map[n]].name == n);
            }
        }
        assert forall|x: TopicIdx, k: int| #[trigger] m1.topic_subs.contains_key(x) && 0 <= k < m1.topic_subs[x].len()
            implies m1.sub_values.contains_key(#[trigger] m1.topic_subs[x][k]) by {
            assert(m.topic_subs.contains_key(x));
        }
        assert forall|n1: Seq<char>, n2: Seq<char>| #[trigger] m1.topic_map.contains_key(n1) && #[trigger] m1.topic_map.contains_key(n2)
            && n1 != n2 implies m1.topic_map[n1] != m1.topic_map[n2] by {
            assert(m.topic_map.contains_key(n1) && m.topic_map.contains_key(n2));
        }
        assert forall|n: Seq<char>| #[trigger] m1.topic_map.contains_key(n) && m1.topics.contains_key(m1.topic_map[n])
            implies m1.topics[m1.topic_map[n]].name == n by {
            assert(m.topic_map.contains_key(n));
        }
    }
}

/// The indices of the publisher and subscriber meta-topics that removing topic
/// `idx` removes, when it succeeds.
pub open spec fn removed_metas(m: ServerModel, idx: TopicIdx) -> (TopicIdx, TopicIdx) {
    let name = m.topics[idx].name;
    (m.topic_map[pub_meta_name(name)], m.topic_map.remove(pub_meta_name(name))[sub_meta_name(name)])
}

/// The values kept for a subscription after `v` is added for topic `t`.
pub open spec fn stored_add(s: StoredModel, t: TopicIdx, v: ValueModel) -> StoredModel {
    match s {
        StoredModel::All(m) => StoredModel::All(
            if m.contains_key(t) { m.insert(t, m[t].push(v)) } else { m.insert(t, seq![v]) },
        ),
        StoredModel::One(m) => StoredModel::One(m.insert(t, v)),
    }
}

/// The values kept for the subscriptions of `subs`, in order, after `v` is
/// added to each for topic `t`.
pub open spec fn stored_add_all(sv: Map<SubIdx, StoredModel>, subs: Seq<SubIdx>, t: TopicIdx, v: ValueModel) -> Map<SubIdx, StoredModel>
    decreases subs.len(),
{
    if subs.len() == 0 {
        sv
    } else {
        let before = stored_add_all(sv, subs.drop_last(), t, v);
        before.insert(subs.last(), stored_add(before[subs.last()], t, v))
    }
}

/// The effect of setting the value of topic `t` to `v`: an error if the
/// topic does not exist or is a meta-topic. A value whose type is not the
/// topic's type, or that is older than the topic's latest value, is ignored.
/// Otherwise `v` is kept for each subscription of the topic, and becomes the
/// topic's latest value unless that one has the same timestamp.
pub open spec fn set_value_spec(m: ServerModel, v: TimestampedValue, t: TopicIdx) -> (ServerModel, Result<(), ErrorKind>) {
    if !m.topics.contains_key(t) {
        (m, Err(ErrorKind::TopicDoesNotExist))
    } else if m.topics[t].name.contains('$') {
        (m, Err(ErrorKind::NotNormalTopic))
    } else if type_string(v.ty) != m.topics[t].ty || (m.values.contains_key(t) && v.timestamp < m.values[t].timestamp) {
        (m, Ok(()))
    } else {
        (
            ServerModel {
                sub_values: stored_add_all(
                    m.sub_values,
                    m.topic_subs[t],
                    t,
                    ValueModel::Normal { timestamp: v.timestamp, ty: v.ty, value: v.value@ },
                ),
                values: if m.values.contains_key(t) && m.values[t].timestamp == v.timestamp {
                    m.values
                } else {
                    m.values.insert(t, v)
                },
                ..m
            },
            Ok(()),
        )
    }
}

/// The messages that updating the properties of topic `name` sends: where the
/// update goes through, a `Properties` message to each client with a
/// subscription that cares about the name and that can be sent to, in the
/// order of the client indices; nothing otherwise.
pub open spec fn properties_notices(m: ServerModel, name: Seq<char>) -> Seq<ActionModel> {
    if set_properties_spec(m, name, PublishProperties { persistent: None, retained: None }).1 is Ok {
        broadcast(
            m.counters.client_idx as nat,
            m.clients,
            interested_clients(m.subscriptions, name),
            seq![MsgModel::Properties { name, ack: None }],
        )
    } else {
        Seq::empty()
    }
}

/// The properties of a topic after an update: the update if it had none,
/// else each property the update sets.
pub open spec fn updated_properties(p: Option<PublishProperties>, update: PublishProperties) -> Option<PublishProperties> {
    match p {
        None => Some(update),
        Some(old) => Some(PublishProperties {
            retained: if update.retained is Some { update.retained } else { old.retained },
            persistent: if update.persistent is Some { update.persistent } else { old.persistent },
        }),
    }
}

/// The effect of updating the properties of the topic `name`: an error if the
/// name is not mapped, or is mapped to no topic; else the topic's properties
/// are updated.
pub open spec fn set_properties_spec(m: ServerModel, name: Seq<char>, update: PublishProperties) -> (ServerModel, Result<(), ErrorKind>) {
    if !m.topic_map.contains_key(name) || !m.topics.contains_key(m.topic_map[name]) {
        (m, Err(ErrorKind::TopicDoesNotExist))
    } else {
        let t = m.topic_map[name];
        (
            ServerModel {
                topics: m.topics.insert(t, TopicModel { properties: updated_properties(m.topics[t].properties, update), ..m.topics[t] }),
                ..m
            },
            Ok(()),
        )
    }
}

/// The effect of a client's request to publish topic `t` with publisher id
/// `pubuid`: the topic is added (or found); it is announced, answering the
/// client; the client's publisher id is mapped to the topic, and a topic that
/// existed counts one publisher more; an error at the end if the client is not
/// the server's own and has no meta-topics.
pub open spec fn publish_spec(m: ServerModel, t: TopicModel, pubuid: u32, c: ClientIdx) -> (ServerModel, Result<TopicIdx, ErrorKind>, Seq<ActionModel>) {
    let (m1, r1, a1) = add_topic_spec(m, t);
    match r1 {
        Err(e) => (m1, Err(e), a1),
        Ok(i) => {
            let (m2, r2, a2) = announce_spec(m1, i, Some((pubuid, c)));
            match r2 {
                Err(e) => (m2, Err(e), a1 + a2),
                Ok(_) => {
                    let client = m2.clients[c];
                    let m3 = ServerModel {
                        clients: m2.clients.insert(
                            c,
                            ClientModel { pubs: client.pubs.insert(pubuid, i), pubs_rev: client.pubs_rev.insert(i, pubuid), ..client },
                        ),
                        pub_count: counted_again(m2.pub_count, m.topic_map.contains_key(t.name), i),
                        ..m2
                    };
                    if c == 0 || m3.client_meta.contains_key(c) {
                        (m3, Ok(i), a1 + a2)
                    } else {
                        (m3, Err(ErrorKind::TopicDoesNotExist), a1 + a2)
                    }
                },
            }
        },
    }
}

/// The publisher counts after a further publisher of topic `i`: one more if
/// the topic already existed (and has a count), else unchanged.
pub open spec fn counted_again(counts: Map<TopicIdx, u16>, existed: bool, i: TopicIdx) -> Map<TopicIdx, u16> {
    if existed && counts.contains_key(i) {
        counts.insert(i, (counts[i] + 1) as u16)
    } else {
        counts
    }
}

/// Publishing topic `name` keeps its publisher count within its bounds: an
/// existing topic's count is below the largest count.
pub open spec fn publish_safe(m: ServerModel, name: Seq<char>) -> bool {
    m.topic_map.contains_key(name) && m.pub_count.contains_key(m.topic_map[name]) ==> m.pub_count[m.topic_map[name]]
        < u16::MAX
}

/// The effect of a client's request to stop publishing with publisher id
/// `pubuid`: an error if the client does not exist, or the id is not mapped;
/// else the id is unmapped, an error if the topic has no publisher count; else
/// the count goes down by one, and at 0 the topic is removed (stopping at an
/// error), its count goes and no client has it announced any more (see
/// `unpublish_withdrawals` for the messages); an error at the end if the
/// client is not the server's own and has no meta-topics.
pub open spec fn unpublish_spec(m: ServerModel, pubuid: u32, c: ClientIdx) -> (ServerModel, Result<(), ErrorKind>) {
    if !m.clients.contains_key(c) {
        (m, Err(ErrorKind::ClientDoesNotExist))
    } else if !m.clients[c].pubs.contains_key(pubuid) {
        (m, Err(ErrorKind::TopicDoesNotExist))
    } else {
        let client = m.clients[c];
        let t = client.pubs[pubuid];
        let m1 = ServerModel { clients: m.clients.insert(c, ClientModel { pubs: client.pubs.remove(pubuid), ..client }), ..m };
        if !m1.pub_count.contains_key(t) {
            (m1, Err(ErrorKind::TopicDoesNotExist))
        } else {
            let n = (m1.pub_count[t] - 1) as u16;
            let m2 = ServerModel { pub_count: m1.pub_count.insert(t, n), ..m1 };
            let (m4, r4) = if n == 0 {
                let (m3, r3) = remove_topic_spec(m2, t);
                match r3 {
                    Err(e) => (m3, Err(e)),
                    Ok(_) => (
                        ServerModel {
                            pub_count: m3.pub_count.remove(t),
                            clients: unmark_removed(m3.clients, t, removed_metas(m2, t).0, removed_metas(m2, t).1),
                            ..m3
                        },
                        Ok(()),
                    ),
                }
            } else {
                (m2, Ok(()))
            };
            match r4 {
                Err(e) => (m4, Err(e)),
                Ok(_) => if c == 0 || m4.client_meta.contains_key(c) {
                    (m4, Ok(()))
                } else {
                    (m4, Err(ErrorKind::TopicDoesNotExist))
                },
            }
        }
    }
}

/// The withdrawals that unpublishing sends: where the topic's count reaches
/// 0 and it is removed, an `UnAnnounce` of it to each client it was announced
/// to (see `withdrawals`); nothing otherwise.
pub open spec fn unpublish_withdrawals(m: ServerModel, pubuid: u32, c: ClientIdx) -> Seq<ActionModel> {
    if m.clients.contains_key(c) && m.clients[c].pubs.contains_key(pubuid) {
        let client = m.clients[c];
        let t = client.pubs[pubuid];
        let clients1 = m.clients.insert(c, ClientModel { pubs: client.pubs.remove(pubuid), ..client });
        if m.pub_count.contains_key(t) && (m.pub_count[t] - 1) as u16 == 0 && remove_topic_spec(m, t).1 is Ok {
            removal_withdrawals(
                m.counters.client_idx as nat,
                clients1,
                m.topics[t].name,
                t,
                removed_metas(m, t).0,
                removed_metas(m, t).1,
            )
        } else {
            Seq::empty()
        }
    } else {
        Seq::empty()
    }
}

/// Unpublishing reaches the update of the publishers meta-topic: the client
/// and the id exist, the topic has a count, and removing the topic, if its
/// count reaches 0, succeeds.
pub open spec fn unpublish_reaches_meta(m: ServerModel, pubuid: u32, c: ClientIdx) -> bool {
    &&& m.clients.contains_key(c)
    &&& m.clients[c].pubs.contains_key(pubuid)
    &&& m.pub_count.contains_key(m.clients[c].pubs[pubuid])
    &&& m.pub_count[m.clients[c].pubs[pubuid]] == 1 ==> remove_topic_spec(m, m.clients[c].pubs[pubuid]).1 is Ok
}

/// The invariant of the server's state: indices are below their counters;
/// each topic, and each mapped name's index, has a subscription list; a
/// mapped name's topic, if present, has that name; names map to distinct
/// indices; every listed subscription, and every subscription, keeps values;
/// subscription indices that keep values or are listed are below the
/// subscription counter.
pub open spec fn model_wf(m: ServerModel) -> bool {
    &&& forall|c: ClientIdx| #[trigger] m.clients.contains_key(c) ==> c < m.counters.client_idx
    &&& forall|t: TopicIdx| #[trigger] m.topics.contains_key(t) ==> t < m.counters.topic_idx && m.topic_subs.contains_key(t)
    &&& forall|t: TopicIdx| #[trigger] m.topic_subs.contains_key(t) ==> t < m.counters.topic_idx
    &&& forall|n: Seq<char>| #[trigger] m.topic_map.contains_key(n) ==> m.topic_map[n] < m.counters.topic_idx
        && m.topic_subs.contains_key(m.topic_map[n])
    &&& forall|n: Seq<char>| #[trigger] m.topic_map.contains_key(n) && m.topics.contains_key(m.topic_map[n])
        ==> m.topics[m.topic_map[n]].name == n
    &&& forall|n1: Seq<char>, n2: Seq<char>| #[trigger] m.topic_map.contains_key(n1) && #[trigger] m.topic_map.contains_key(n2)
        && n1 != n2 ==> m.topic_map[n1] != m.topic_map[n2]
    &&& forall|t: TopicIdx, i: int| #[trigger] m.topic_subs.contains_key(t) && 0 <= i < m.topic_subs[t].len()
        ==> m.sub_values.contains_key(#[trigger] m.topic_subs[t][i])
    &&& forall|s: SubIdx| #[trigger] m.subscriptions.contains_key(s) ==> m.sub_values.contains_key(s)
    &&& forall|s: SubIdx| #[trigger] m.sub_values.contains_key(s) ==> s < m.counters.sub_idx
    &&& forall|t: TopicIdx, i: int| #[trigger] m.topic_subs.contains_key(t) && 0 <= i < m.topic_subs[t].len()
        ==> #[trigger] m.topic_subs[t][i] < m.counters.sub_idx
}

/// Marking an announcement keeps the connected clients.
pub proof fn lemma_mark_dom(clients: Map<ClientIdx, ClientModel>, targets: Set<ClientIdx>, t: TopicIdx)
    ensures
        mark_announced(clients, targets, t).dom() == clients.dom(),
{
    assert(mark_announced(clients, targets, t).dom() =~= clients.dom());
}

/// Announcing keeps the invariant.
pub proof fn lemma_announce_wf(m: ServerModel, t: TopicIdx, response: Option<(u32, ClientIdx)>)
    requires
        model_wf(m),
    ensures
        model_wf(announce_spec(m, t, response).0),
        announce_spec(m, t, response).0.clients.dom() == m.clients.dom(),
        announce_spec(m, t, response).0 == (ServerModel { clients: announce_spec(m, t, response).0.clients, ..m }),
{
    if m.topics.contains_key(t) {
        match response {
            Some((p, c)) => {
                if m.clients.contains_key(c) {
                    let clients1 = m.clients.insert(c, ClientModel { announced: m.clients[c].announced.insert(t), ..m.clients[c] });
                    assert(clients1.dom() =~= m.clients.dom());
                    lemma_mark_dom(clients1, interested_clients(m.subscriptions, m.topics[t].name), t);
                }
            },
            None => {
                lemma_mark_dom(m.clients, interested_clients(m.subscriptions, m.topics[t].name), t);
            },
        }
    }
}

/// Adding a topic alone keeps the invariant.
pub proof fn lemma_add_single_wf(m: ServerModel, t: TopicModel)
    requires
        model_wf(m),
        m.counters.topic_idx < u32::MAX,
    ensures
        model_wf(add_single_spec(m, t).0),
        add_single_spec(m, t).0.counters.topic_idx <= m.counters.topic_idx + 1,
        add_single_spec(m, t).0.counters.client_idx == m.counters.client_idx,
        add_single_spec(m, t).0.clients == m.clients,
        add_single_spec(m, t).0.subscriptions == m.subscriptions,
        add_single_spec(m, t).0.topics.contains_key(add_single_spec(m, t).1) || m.topic_map.contains_key(t.name),
{
    if !m.topic_map.contains_key(t.name) {
        let (m1, i) = add_single_spec(m, t);
        assert forall|n: Seq<char>| #[trigger] m1.topic_map.contains_key(n) && m1.topics.contains_key(m1.topic_map[n])
            implies m1.topics[m1.topic_map[n]].name == n by {
            if n != t.name {
                assert(m.topic_map[n] < i);
            }
        }
        assert forall|n1: Seq<char>, n2: Seq<char>| #[trigger] m1.topic_map.contains_key(n1) && #[trigger] m1.topic_map.contains_key(n2)
            && n1 != n2 implies m1.topic_map[n1] != m1.topic_map[n2] by {
            if n1 != t.name && n2 != t.name {
                assert(m.topic_map.contains_key(n1) && m.topic_map.contains_key(n2));
            } else if n1 == t.name {
                assert(m.topic_map[n2] < i);
            } else {
                assert(m.topic_map[n1] < i);
            }
        }
        assert forall|x: TopicIdx, k: int| #[trigger] m1.topic_subs.contains_key(x) && 0 <= k < m1.topic_subs[x].len()
            implies m1.sub_values.contains_key(#[trigger] m1.topic_subs[x][k]) by {
            if x != i {
                assert(m.topic_subs.contains_key(x));
                assert(m1.topic_subs[x] == m.topic_subs[x]);
            }
        }
    }
}

/// Adding the meta-topic `name` and announcing it keeps the invariant.
pub proof fn lemma_add_meta_wf(m: ServerModel, name: Seq<char>)
    requires
        model_wf(m),
        m.counters.topic_idx < u32::MAX,
    ensures
        model_wf(add_meta_spec(m, name).0),
        add_meta_spec(m, name).0.counters.topic_idx <= m.counters.topic_idx + 1,
        add_meta_spec(m, name).0.clients.dom() == m.clients.dom(),
        add_meta_spec(m, name).0.subscriptions == m.subscriptions,
{
    let (m1, i) = add_single_spec(m, meta_topic(name));
    lemma_add_single_wf(m, meta_topic(name));
    lemma_announce_wf(m1, i, None);
}

/// Adding a topic keeps the invariant.
pub proof fn lemma_add_topic_wf(m: ServerModel, t: TopicModel)
    requires
        model_wf(m),
        m.counters.topic_idx + 3 <= u32::MAX,
    ensures
        model_wf(add_topic_spec(m, t).0),
        add_topic_spec(m, t).0.counters.topic_idx <= m.counters.topic_idx + 3,
        add_topic_spec(m, t).0.clients.dom() == m.clients.dom(),
        add_topic_spec(m, t).0.subscriptions == m.subscriptions,
{
    let (m1, i) = add_single_spec(m, t);
    lemma_add_single_wf(m, t);
    if !(m.topic_map.contains_key(t.name) || t.name.contains('$')) {
        let (m2, r2, a2) = add_meta_spec(m1, pub_meta_name(t.name));
        lemma_add_meta_wf(m1, pub_meta_name(t.name));
        if r2 is Ok {
            lemma_add_meta_wf(m2, sub_meta_name(t.name));
        }
    }
}

/// Removing a topic keeps the invariant.
pub proof fn lemma_remove_topic_wf(m: ServerModel, idx: TopicIdx)
    requires
        model_wf(m),
    ensures
        model_wf(remove_topic_spec(m, idx).0),
        remove_topic_spec(m, idx).0.clients == m.clients,
        remove_topic_spec(m, idx).0.counters == m.counters,
        remove_topic_spec(m, idx).0.subscriptions == m.subscriptions,
        remove_topic_spec(m, idx).0.sub_values == m.sub_values,
        remove_topic_spec(m, idx).0.pub_count == m.pub_count,
        remove_topic_spec(m, idx).0.client_meta == m.client_meta,
{
    if m.topics.contains_key(idx) {
        let name = m.topics[idx].name;
        if m.topic_map.contains_key(pub_meta_name(name)) {
            let ip = m.topic_map[pub_meta_name(name)];
            let tm = m.topic_map.remove(pub_meta_name(name));
            if tm.contains_key(sub_meta_name(name)) {
                let is = tm[sub_meta_name(name)];
                let m3 = remove_topic_spec(m, idx).0;
                assert forall|n: Seq<char>| #[trigger] m3.topic_map.contains_key(n) implies m3.topic_map[n] < m3.counters.topic_idx
                    && m3.topic_subs.contains_key(m3.topic_map[n]) by {
                    assert(m.topic_map.contains_key(n));
                    assert(n != pub_meta_name(name) && n != sub_meta_name(name) && n != name);
                    assert(m.topic_map[n] != ip);
                    assert(m.topic_map[n] != is);
                    if m.topic_map[n] == idx {
                        assert(m.topics[m.topic_map[n]].name == n);
                    }
                }
                assert forall|x: TopicIdx, k: int| #[trigger] m3.topic_subs.contains_key(x) && 0 <= k < m3.topic_subs[x].len()
                    implies m3.sub_values.contains_key(#[trigger] m3.topic_subs[x][k]) by {
                    assert(m.topic_subs.contains_key(x));
                    assert(m3.topic_subs[x] == m.topic_subs[x]);
                }
                assert forall|n1: Seq<char>, n2: Seq<char>| #[trigger] m3.topic_map.contains_key(n1) && #[trigger] m3.topic_map.contains_key(n2)
                    && n1 != n2 implies m3.topic_map[n1] != m3.topic_map[n2] by {
                    assert(m.topic_map.contains_key(n1) && m.topic_map.contains_key(n2));
                }
                assert forall|n: Seq<char>| #[trigger] m3.topic_map.contains_key(n) && m3.topics.contains_key(m3.topic_map[n])
                    implies m3.topics[m3.topic_map[n]].name == n by {
                    assert(m.topic_map.contains_key(n));
                }
            } else {
                let m2 = remove_topic_spec(m, idx).0;
                assert forall|n1: Seq<char>, n2: Seq<char>| #[trigger] m2.topic_map.contains_key(n1) && #[trigger] m2.topic_map.contains_key(n2)
                    && n1 != n2 implies m2.topic_map[n1] != m2.topic_map[n2] by {
                    assert(m.topic_map.contains_key(n1) && m.topic_map.contains_key(n2));
                }
                assert forall|n: Seq<char>| #[trigger] m2.topic_map.contains_key(n) && m2.topics.contains_key(m2.topic_map[n])
                    implies m2.topics[m2.topic_map[n]].name == n by {
                    assert(m.topic_map.contains_key(n));
                }
            }
        }
    }
}

/// Adding values for the subscriptions of a list keeps the subscriptions that
/// keep values.
pub proof fn lemma_stored_add_all_dom(sv: Map<SubIdx, StoredModel>, subs: Seq<SubIdx>, t: TopicIdx, v: ValueModel)
    requires
        forall|i: int| 0 <= i < subs.len() ==> sv.contains_key(#[trigger] subs[i]),
    ensures
        stored_add_all(sv, subs, t, v).dom() == sv.dom(),
    decreases subs.len(),
{
    if subs.len() > 0 {
        lemma_stored_add_all_dom(sv, subs.drop_last(), t, v);
        assert(sv.contains_key(subs[subs.len() - 1]));
        assert(stored_add_all(sv, subs, t, v).dom() =~= sv.dom());
    }
}

/// Setting a value keeps the invariant.
pub proof fn lemma_set_value_wf(m: ServerModel, v: TimestampedValue, t: TopicIdx)
    requires
        model_wf(m),
    ensures
        model_wf(set_value_spec(m, v, t).0),
{
    if m.topics.contains_key(t) && !m.topics[t].name.contains('$') {
        assert(m.topic_subs.contains_key(t));
        assert forall|i: int| 0 <= i < m.topic_subs[t].len() implies m.sub_values.contains_key(#[trigger] m.topic_subs[t][i]) by {}
        lemma_stored_add_all_dom(m.sub_values, m.topic_subs[t], t, ValueModel::Normal { timestamp: v.timestamp, ty: v.ty, value: v.value@ });
    }
}

/// Updating properties keeps the invariant.
pub proof fn lemma_set_properties_wf(m: ServerModel, name: Seq<char>, update: PublishProperties)
    requires
        model_wf(m),
    ensures
        model_wf(set_properties_spec(m, name, update).0),
        set_properties_spec(m, name, update).0.clients == m.clients,
{
    if m.topic_map.contains_key(name) && m.topics.contains_key(m.topic_map[name]) {
        let m1 = set_properties_spec(m, name, update).0;
        assert(m1.topics.dom() =~= m.topics.dom());
        assert forall|n: Seq<char>| #[trigger] m1.topic_map.contains_key(n) && m1.topics.contains_key(m1.topic_map[n])
            implies m1.topics[m1.topic_map[n]].name == n by {
            assert(m.topics.contains_key(m.topic_map[n]));
        }
    }
}

/// Publishing keeps the invariant.
pub proof fn lemma_publish_wf(m: ServerModel, t: TopicModel, pubuid: u32, c: ClientIdx)
    requires
        model_wf(m),
        m.counters.topic_idx + 3 <= u32::MAX,
    ensures
        model_wf(publish_spec(m, t, pubuid, c).0),
        publish_spec(m, t, pubuid, c).0.counters.topic_idx <= m.counters.topic_idx + 3,
{
    let (m1, r1, a1) = add_topic_spec(m, t);
    lemma_add_topic_wf(m, t);
    if let Ok(i) = r1 {
        lemma_announce_wf(m1, i, Some((pubuid, c)));
        let (m2, r2, a2) = announce_spec(m1, i, Some((pubuid, c)));
        if r2 is Ok {
            let client = m2.clients[c];
            let cl = m2.clients.insert(
                c,
                ClientModel { pubs: client.pubs.insert(pubuid, i), pubs_rev: client.pubs_rev.insert(i, pubuid), ..client },
            );
            assert(cl.dom() =~= m2.clients.dom());
        }
    }
}

/// Unpublishing keeps the invariant.
pub proof fn lemma_unpublish_wf(m: ServerModel, pubuid: u32, c: ClientIdx)
    requires
        model_wf(m),
    ensures
        model_wf(unpublish_spec(m, pubuid, c).0),
        unpublish_spec(m, pubuid, c).0.counters == m.counters,
{
    if m.clients.contains_key(c) && m.clients[c].pubs.contains_key(pubuid) {
        let client = m.clients[c];
        let t = client.pubs[pubuid];
        let m1 = ServerModel { clients: m.clients.insert(c, ClientModel { pubs: client.pubs.remove(pubuid), ..client }), ..m };
        assert(m1.clients.dom() =~= m.clients.dom());
        assert(model_wf(m1));
        if m1.pub_count.contains_key(t) {
            let n = (m1.pub_count[t] - 1) as u16;
            let m2 = ServerModel { pub_count: m1.pub_count.insert(t, n), ..m1 };
            assert(model_wf(m2));
            if n == 0 {
                lemma_remove_topic_wf(m2, t);
            }
        }
    }
}

/// The argument is not the subscription `s`.
pub open spec fn other_than(s: SubIdx) -> spec_fn(SubIdx) -> bool {
    |x: SubIdx| x != s
}

/// The effect of a client's request to stop the subscription of id `subuid`:
/// an error if the client does not exist or the id is not mapped; else the id
/// is unmapped, and the subscription leaves every topic's list, the
/// subscriptions and the kept values.
pub open spec fn unsubscribe_spec(m: ServerModel, subuid: i32, c: ClientIdx) -> (ServerModel, Result<(), ErrorKind>) {
    if !m.clients.contains_key(c) {
        (m, Err(ErrorKind::ClientDoesNotExist))
    } else if !m.clients[c].subs.contains_key(subuid as u32) {
        (m, Err(ErrorKind::SubscriptionDoesNotExist))
    } else {
        let client = m.clients[c];
        let s = client.subs[subuid as u32];
        (
            ServerModel {
                clients: m.clients.insert(c, ClientModel { subs: client.subs.remove(subuid as u32), ..client }),
                topic_subs: m.topic_subs.map_values(|l: Seq<SubIdx>| l.filter(other_than(s))),
                subscriptions: m.subscriptions.remove(s),
                sub_values: m.sub_values.remove(s),
                ..m
            },
            Ok(()),
        )
    }
}

/// Unsubscribing keeps the invariant.
pub proof fn lemma_unsubscribe_wf(m: ServerModel, subuid: i32, c: ClientIdx)
    requires
        model_wf(m),
    ensures
        model_wf(unsubscribe_spec(m, subuid, c).0),
{
    if m.clients.contains_key(c) && m.clients[c].subs.contains_key(subuid as u32) {
        let client = m.clients[c];
        let s = client.subs[subuid as u32];
        let m1 = unsubscribe_spec(m, subuid, c).0;
        assert(m1.clients.dom() =~= m.clients.dom());
        assert forall|t: TopicIdx, i: int| #[trigger] m1.topic_subs.contains_key(t) && 0 <= i < m1.topic_subs[t].len()
            implies m1.sub_values.contains_key(#[trigger] m1.topic_subs[t][i]) by {
            let l = m.topic_subs[t];
            assert(m1.topic_subs[t] == l.filter(other_than(s)));
            let x = m1.topic_subs[t][i];
            assert(l.filter(other_than(s))[i] == x);
            assert(l.filter(other_than(s)).contains(x));
            l.lemma_filter_pred(other_than(s), i);
            l.lemma_filter_contains_rev(other_than(s), x);
            let k = choose|k: int| 0 <= k < l.len() && l[k] == x;
            assert(m.sub_values.contains_key(l[k]));
            assert(x != s);
        }
    }
}

/// The entries, in order, whose names the subscription cares about.
pub open spec fn interested_topics(order: Seq<(Seq<char>, TopicIdx)>, sub: SubModel) -> Seq<(Seq<char>, TopicIdx)> {
    order.filter(caring(sub))
}

/// The subscription cares about the entry's name.
pub open spec fn caring(sub: SubModel) -> spec_fn((Seq<char>, TopicIdx)) -> bool {
    |e: (Seq<char>, TopicIdx)| cares(sub.topics, sub.options, e.0)
}

/// The lists of subscriptions after `s` joined the list of each topic of
/// `topics`, in order.
pub open spec fn append_sub(ts: Map<TopicIdx, Seq<SubIdx>>, topics: Seq<(Seq<char>, TopicIdx)>, s: SubIdx) -> Map<TopicIdx, Seq<SubIdx>>
    decreases topics.len(),
{
    if topics.len() == 0 {
        ts
    } else {
        let before = append_sub(ts, topics.drop_last(), s);
        let t = topics.last().1;
        before.insert(t, before[t].push(s))
    }
}

/// The type string announced to a new subscriber of topic `t` named `name`:
/// `raw` for a meta-topic, the type of its value if it has one, its own type
/// otherwise, none if it has neither value nor entry.
pub open spec fn subscriber_type(m: ServerModel, t: TopicIdx, name: Seq<char>) -> Option<Seq<char>> {
    if name.contains('$') {
        Some("raw"@)
    } else if m.values.contains_key(t) {
        Some(type_string(m.values[t].ty))
    } else if m.topics.contains_key(t) {
        Some(m.topics[t].ty)
    } else {
        None
    }
}

/// The announcements to a new subscriber of the topics of `topics`, in order.
pub open spec fn announcements_for(m: ServerModel, topics: Seq<(Seq<char>, TopicIdx)>) -> Seq<MsgModel>
    decreases topics.len(),
{
    if topics.len() == 0 {
        Seq::empty()
    } else {
        let (name, t) = topics.last();
        announcements_for(m, topics.drop_last()) + match subscriber_type(m, t, name) {
            Some(ty) => seq![MsgModel::Announce {
                name,
                id: t as i32,
                ty,
                pubuid: None,
                properties: if m.topics.contains_key(t) { announced_properties(m.topics[t].properties) } else {
                    PublishProperties { persistent: None, retained: None }
                },
            }],
            None => Seq::empty(),
        }
    }
}

/// The indices of the topics of `topics` that a new subscriber is sent an
/// announcement of, in order.
pub open spec fn announced_idxs(m: ServerModel, topics: Seq<(Seq<char>, TopicIdx)>) -> Seq<TopicIdx>
    decreases topics.len(),
{
    if topics.len() == 0 {
        Seq::empty()
    } else {
        let (name, t) = topics.last();
        announced_idxs(m, topics.drop_last()) + if subscriber_type(m, t, name) is Some {
            seq![t]
        } else {
            Seq::empty()
        }
    }
}

/// The value messages sent to a new subscriber: the latest value of each topic
/// of `topics` that has one, in order.
pub open spec fn values_for(m: ServerModel, topics: Seq<(Seq<char>, TopicIdx)>) -> Seq<u8>
    decreases topics.len(),
{
    if topics.len() == 0 {
        Seq::empty()
    } else {
        let t = topics.last().1;
        values_for(m, topics.drop_last()) + if m.values.contains_key(t) {
            value_message(t as i32, m.values[t])
        } else {
            Seq::empty()
        }
    }
}

/// The values kept for a new subscription: all of them with the `all` option,
/// the latest otherwise.
pub open spec fn new_stored(options: Option<crate::protocol::SubscriptionOptions>) -> StoredModel {
    if flag(options_or_default(options).all) {
        StoredModel::All(Map::empty())
    } else {
        StoredModel::One(Map::empty())
    }
}

/// The effect of a client's subscription `sub`, the server's names being
/// listed in `order`: an error if the client does not exist; a subscription
/// of the client with the same id is first dropped (as by unsubscribing), so
/// that the new one replaces it; then `add_subscription_spec`.
pub open spec fn subscribe_spec(m: ServerModel, order: Seq<(Seq<char>, TopicIdx)>, sub: SubModel, c: ClientIdx) -> (ServerModel, Result<(), ErrorKind>, Seq<ActionModel>) {
    if !m.clients.contains_key(c) {
        (m, Err(ErrorKind::ClientDoesNotExist), Seq::empty())
    } else if m.clients[c].subs.contains_key(sub.subuid as u32) {
        add_subscription_spec(unsubscribe_spec(m, sub.subuid, c).0, order, sub, c)
    } else {
        add_subscription_spec(m, order, sub, c)
    }
}

/// The effect of adding client `c`'s subscription `sub`, the server's names
/// being listed in `order`: an error if the client does not exist; else the
/// subscription gets the next subscription index, joins the list of each topic
/// whose name it cares about, keeps values, and its id is mapped; the client
/// is sent the announcements of those topics, then their latest values, and
/// the topics announced are marked as announced to it.
pub open spec fn add_subscription_spec(m: ServerModel, order: Seq<(Seq<char>, TopicIdx)>, sub: SubModel, c: ClientIdx) -> (ServerModel, Result<(), ErrorKind>, Seq<ActionModel>) {
    if !m.clients.contains_key(c) {
        (m, Err(ErrorKind::ClientDoesNotExist), Seq::empty())
    } else {
        let it = interested_topics(order, sub);
        let s = m.counters.sub_idx;
        let client = m.clients[c];
        (
            ServerModel {
                topic_subs: append_sub(m.topic_subs, it, s),
                sub_values: m.sub_values.insert(s, new_stored(sub.options)),
                subscriptions: m.subscriptions.insert(s, (sub, c)),
                clients: m.clients.insert(
                    c,
                    ClientModel {
                        subs: client.subs.insert(sub.subuid as u32, s),
                        subs_rev: client.subs_rev.insert(s, sub.subuid as u32),
                        announced: client.announced.union(announced_idxs(m, it).to_set()),
                        ..client
                    },
                ),
                counters: Counter { sub_idx: (s + 1) as u32, ..m.counters },
                ..m
            },
            Ok(()),
            if client.has_output {
                seq![ActionModel::Messages(c, announcements_for(m, it)), ActionModel::Binary(c, values_for(m, it))]
            } else {
                Seq::empty()
            },
        )
    }
}

/// Joining lists keeps the topics that have lists.
pub proof fn lemma_append_sub_dom(ts: Map<TopicIdx, Seq<SubIdx>>, topics: Seq<(Seq<char>, TopicIdx)>, s: SubIdx)
    requires
        forall|i: int| 0 <= i < topics.len() ==> ts.contains_key(#[trigger] topics[i].1),
    ensures
        append_sub(ts, topics, s).dom() == ts.dom(),
        forall|t: TopicIdx, i: int| #[trigger] append_sub(ts, topics, s).contains_key(t) && 0 <= i < append_sub(ts, topics, s)[t].len()
            ==> append_sub(ts, topics, s)[t][i] == s || (ts.contains_key(t) && ts[t].contains(#[trigger] append_sub(ts, topics, s)[t][i])),
    decreases topics.len(),
{
    if topics.len() > 0 {
        lemma_append_sub_dom(ts, topics.drop_last(), s);
        let before = append_sub(ts, topics.drop_last(), s);
        let t = topics.last().1;
        assert(ts.contains_key(topics[topics.len() - 1].1));
        assert(append_sub(ts, topics, s).dom() =~= ts.dom());
        assert forall|x: TopicIdx, i: int| #[trigger] append_sub(ts, topics, s).contains_key(x) && 0 <= i < append_sub(ts, topics, s)[x].len()
            implies append_sub(ts, topics, s)[x][i] == s || (ts.contains_key(x) && ts[x].contains(#[trigger] append_sub(ts, topics, s)[x][i])) by {
            if x == t && i == before[t].len() {
            } else if x == t {
                assert(append_sub(ts, topics, s)[x][i] == before[x][i]);
            } else {
                assert(append_sub(ts, topics, s)[x] == before[x]);
            }
        }
    }
}

/// Subscribing keeps the invariant.
pub proof fn lemma_subscribe_wf(m: ServerModel, order: Seq<(Seq<char>, TopicIdx)>, sub: SubModel, c: ClientIdx)
    requires
        model_wf(m),
        m.counters.sub_idx < u32::MAX,
        forall|i: int| 0 <= i < order.len() ==> m.topic_map.contains_key(#[trigger] order[i].0) && m.topic_map[order[i].0] == order[i].1,
    ensures
        model_wf(subscribe_spec(m, order, sub, c).0),
{
    if m.clients.contains_key(c) && m.clients[c].subs.contains_key(sub.subuid as u32) {
        lemma_unsubscribe_wf(m, sub.subuid, c);
        lemma_add_subscription_wf(unsubscribe_spec(m, sub.subuid, c).0, order, sub, c);
    } else {
        lemma_add_subscription_wf(m, order, sub, c);
    }
}

/// Adding a subscription keeps the invariant.
pub proof fn lemma_add_subscription_wf(m: ServerModel, order: Seq<(Seq<char>, TopicIdx)>, sub: SubModel, c: ClientIdx)
    requires
        model_wf(m),
        m.counters.sub_idx < u32::MAX,
        forall|i: int| 0 <= i < order.len() ==> m.topic_map.contains_key(#[trigger] order[i].0) && m.topic_map[order[i].0] == order[i].1,
    ensures
        model_wf(add_subscription_spec(m, order, sub, c).0),
{
    if m.clients.contains_key(c) {
        let it = interested_topics(order, sub);
        let s = m.counters.sub_idx;
        assert forall|i: int| 0 <= i < it.len() implies m.topic_subs.contains_key(#[trigger] it[i].1) by {
            order.lemma_filter_pred(caring(sub), i);
            order.lemma_filter_contains_rev(caring(sub), it[i]);
            let k = choose|k: int| 0 <= k < order.len() && order[k] == it[i];
            assert(m.topic_map.contains_key(order[k].0));
        }
        lemma_append_sub_dom(m.topic_subs, it, s);
        let m1 = add_subscription_spec(m, order, sub, c).0;
        assert(m1.clients.dom() =~= m.clients.dom());
        assert forall|t: TopicIdx, i: int| #[trigger] m1.topic_subs.contains_key(t) && 0 <= i < m1.topic_subs[t].len()
            implies m1.sub_values.contains_key(#[trigger] m1.topic_subs[t][i]) by {
            let x = m1.topic_subs[t][i];
            if x != s {
                let k = choose|k: int| 0 <= k < m.topic_subs[t].len() && m.topic_subs[t][k] == x;
                assert(m.sub_values.contains_key(m.topic_subs[t][k]));
            }
        }
    }
}

} // verus!
