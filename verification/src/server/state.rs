//! The server's state and the operations that change it.
//!
//! Each operation takes the state and its arguments, changes the state, and
//! appends to a list the messages to send to clients; the caller sends them.

use vstd::prelude::*;

use crate::bimap::PrimBiMap;
use crate::frc_type::FrcTypeExt;
use crate::msgpack::append_bytes;
use crate::int_map::{int_map_contains, int_map_get, int_map_insert, int_map_keys, int_map_remove, int_set_contains, int_set_insert};
use crate::name_map::NameMap;
use crate::protocol::messages::{Announce, NTMessage, Properties, PublishTopic, SetProperties, Subscribe, UnAnnounce, UnpublishTopic, Unsubscribe};
use crate::protocol::metatopic::{lemma_without_one_publisher, MetaEntry, listed, publisher_removed_at, publisher_added_at, ClientPublisherMetaValue, MetaTopicValue};
use crate::protocol::subscription::{texts, Subscription};
use crate::protocol::topic::Topic;
use crate::protocol::PublishProperties;
use crate::server::error::{kind, ErrorKind, NTServerError};
use crate::server::identity_map::IdentityMap;
use crate::server::model::{caring, interested_topics, append_sub, lemma_append_sub_dom, announcements_for, values_for, new_stored, subscribe_spec, add_subscription_spec, lemma_add_subscription_wf, announced_idxs, other_than, unsubscribe_spec, lemma_unsubscribe_wf, lemma_add_meta_wf, model_wf, lemma_announce_wf, lemma_add_topic_wf, lemma_remove_topic_wf, lemma_set_value_wf, lemma_set_properties_wf, lemma_publish_wf, lemma_unpublish_wf, unpublish_spec, unpublish_withdrawals, unpublish_reaches_meta, publish_spec, publish_safe, stored_add, stored_add_all, set_value_spec, set_properties_spec, properties_notices, remove_topic_spec, remove_meta_topic_spec, lemma_remove_meta_topic_wf, removed_metas, pub_meta_name, sub_meta_name, add_meta_spec, add_single_spec, add_topic_spec, meta_topic, announce_spec, announcement, broadcast, interested_clients, mark_announced, ActionModel, ClientModel, MsgModel, ServerModel, StoredModel, SubModel, TopicModel, ValueModel};
use crate::protocol::subscription::cares;
use crate::server::util::{FrcTimestampedValueExt, ClientIdentity, ClientIdx, Counter, PubUID, ServerSendableValue, StoredSubValue, SubIdx, SubUID, TimestampedValue, TopicIdx};
use crate::text::{contains_char, same_text, to_decimal};
use crate::NtSuccess;
use nohash_hasher::{IntMap, IntSet};

verus! {

broadcast use vstd::std_specs::hash::group_hash_axioms;

/// A client connected to the server.
#[derive(Debug)]
pub struct ConnectedClient {
    pub identity: ClientIdentity,
    /// The client's publisher ids and the topics they publish.
    pub pubuid_to_topicidx: PrimBiMap<PubUID, TopicIdx>,
    /// The client's subscription ids and the server's subscriptions.
    pub subuid_to_subidx: PrimBiMap<SubUID, SubIdx>,
    pub subs: Vec<Subscription>,
    /// Whether messages can be sent to the client; false for the server's own
    /// client.
    pub has_output: bool,
    /// The topics announced to the client.
    pub announced_topics: IntSet<TopicIdx>,
}

impl ConnectedClient {
    /// A newly connected client, to which messages can be sent.
    pub fn new(identity: ClientIdentity) -> (c: Self)
        ensures
            client_model(c) == (ClientModel {
                addr: identity.addr@,
                name: identity.name@,
                pubs: Map::empty(),
                pubs_rev: Map::empty(),
                subs: Map::empty(),
                subs_rev: Map::empty(),
                has_output: true,
                announced: Set::empty(),
            }),
    {
        ConnectedClient {
            identity,
            pubuid_to_topicidx: PrimBiMap::with_capacity(32),
            subuid_to_subidx: PrimBiMap::with_capacity(16),
            subs: Vec::new(),
            has_output: true,
            announced_topics: IntSet::default(),
        }
    }
}

/// What the server asks its caller to send to a client.
#[derive(Debug)]
pub enum ServerAction {
    /// Text messages, sent together as one JSON array.
    Messages(ClientIdx, Vec<NTMessage>),
    /// Binary value messages.
    Binary(ClientIdx, Vec<u8>),
    /// A flush of the client's connection.
    Flush(ClientIdx),
}

/// The model of a topic.
pub open spec fn topic_model(t: Topic) -> TopicModel {
    TopicModel { name: t.name@, ty: t.ty@, properties: t.properties }
}

/// The model of a subscription.
pub open spec fn sub_model(s: Subscription) -> SubModel {
    SubModel { subuid: s.subuid, topics: texts(s.topics@), options: s.options }
}

/// Adds each topic of `marks` to the set `set`.
fn mark_all(set: &mut IntSet<TopicIdx>, marks: &Vec<TopicIdx>)
    ensures
        final(set)@ == old(set)@.union(marks@.to_set()),
{
    let ghost set0 = set@;
    let mut j: usize = 0;
    while j < marks.len()
        invariant
            j <= marks@.len(),
            set@ == set0.union(Set::new(|t: TopicIdx| exists|k: int| 0 <= k < j && marks@[k] == t)),
        decreases marks@.len() - j,
    {
        int_set_insert(set, marks[j]);
        proof {
            assert(set@ =~= set0.union(Set::new(|t: TopicIdx| exists|k: int| 0 <= k < j + 1 && marks@[k] == t)));
        }
        j = j + 1;
    }
    proof {
        assert(set@ =~= set0.union(marks@.to_set()));
    }
}

/// The model of a connected client.
pub open spec fn client_model(c: ConnectedClient) -> ClientModel {
    ClientModel {
        addr: c.identity.addr@,
        name: c.identity.name@,
        pubs: c.pubuid_to_topicidx.left_to_right(),
        pubs_rev: c.pubuid_to_topicidx.right_to_left(),
        subs: c.subuid_to_subidx.left_to_right(),
        subs_rev: c.subuid_to_subidx.right_to_left(),
        has_output: c.has_output,
        announced: c.announced_topics@,
    }
}

/// The model of a value kept for a subscription.
pub open spec fn value_model(v: ServerSendableValue) -> ValueModel {
    match v {
        ServerSendableValue::NormalValue(t) => ValueModel::Normal { timestamp: t.timestamp, ty: t.ty, value: t.value@ },
        ServerSendableValue::MTEValue(m) => ValueModel::Meta(m),
    }
}

/// The model of the values kept for a subscription.
pub open spec fn stored_model(s: StoredSubValue) -> StoredModel {
    match s {
        StoredSubValue::All(m) => StoredModel::All(m@.map_values(|v: Vec<ServerSendableValue>| v@.map_values(|x: ServerSendableValue| value_model(x)))),
        StoredSubValue::One(m) => StoredModel::One(m@.map_values(|x: ServerSendableValue| value_model(x))),
    }
}

/// The model of a message.
pub open spec fn msg_model(m: NTMessage) -> MsgModel {
    match m {
        NTMessage::Announce(a) => MsgModel::Announce {
            name: a.name@,
            id: a.id,
            ty: a.ty@,
            pubuid: a.pubuid,
            properties: a.properties,
        },
        NTMessage::UnAnnounce(u) => MsgModel::UnAnnounce { name: u.name@, id: u.id },
        NTMessage::Properties(p) => MsgModel::Properties { name: p.name@, ack: p.ack },
        _ => MsgModel::Other,
    }
}

/// The model of an action.
pub open spec fn action_model(a: ServerAction) -> ActionModel {
    match a {
        ServerAction::Messages(c, msgs) => ActionModel::Messages(c, msgs@.map_values(|m: NTMessage| msg_model(m))),
        ServerAction::Binary(c, bytes) => ActionModel::Binary(c, bytes@),
        ServerAction::Flush(c) => ActionModel::Flush(c),
    }
}

/// The models of a list of actions.
pub open spec fn action_models(actions: Seq<ServerAction>) -> Seq<ActionModel> {
    actions.map_values(|a: ServerAction| action_model(a))
}

/// The state of a NetworkTables server.
#[derive(Debug)]
pub struct ServerState {
    /// The topics by index.
    pub topics: IntMap<TopicIdx, Topic>,
    /// The index of each topic name.
    pub topic_map: NameMap,
    /// The number of publishers of each topic; a topic whose count reaches 0 is
    /// removed.
    pub pub_count: IntMap<TopicIdx, u16>,
    /// The latest value of each topic, sent to new subscribers.
    pub topic_value_map: IntMap<TopicIdx, TimestampedValue>,
    /// The values of the meta-topics.
    pub metatopic_value_map: IntMap<TopicIdx, MetaTopicValue>,
    /// The index of each connected client's identity.
    pub client_map: IdentityMap,
    /// The connected clients by index.
    pub clients: IntMap<ClientIdx, ConnectedClient>,
    /// The publisher and subscription meta-topics of each client.
    pub client_metatopic_map: IntMap<ClientIdx, (TopicIdx, TopicIdx)>,
    /// The subscriptions by index, with the client that made each.
    pub subscriptions: IntMap<SubIdx, (Subscription, ClientIdx)>,
    /// The subscriptions to notify of each topic's values.
    pub topic_sub_map: IntMap<TopicIdx, Vec<SubIdx>>,
    /// The values kept for each subscription until its next period.
    pub sub_values: IntMap<SubIdx, StoredSubValue>,
    /// The counters of fresh indices.
    pub counters: Counter,
}

/// The index of the `$clients` meta-topic.
pub const CLIENT_METATOPIC: TopicIdx = 0;

/// The index of the `$serversub` meta-topic.
pub const SERVER_SUB_METATOPIC: TopicIdx = 1;

/// The index of the `$serverpub` meta-topic.
pub const SERVER_PUB_METATOPIC: TopicIdx = 2;

/// The index of the server's own client.
pub const SERVER_CLIENT_IDX: ClientIdx = 0;

/// The names of a list of names and indices.
pub open spec fn name_order(list: Seq<(String, TopicIdx)>) -> Seq<(Seq<char>, TopicIdx)> {
    list.map_values(|e: (String, TopicIdx)| (e.0@, e.1))
}

/// The members of `targets` below `k`.
pub open spec fn below(targets: Set<ClientIdx>, k: nat) -> Set<ClientIdx> {
    Set::new(|x: ClientIdx| targets.contains(x) && x < k)
}

/// Marking the targets below `c + 1` adds, to marking those below `c`, the
/// marking of `c` if it is a connected target.
proof fn lemma_mark_extend(cl: Map<ClientIdx, ClientModel>, targets: Set<ClientIdx>, c: ClientIdx, t: TopicIdx)
    ensures
        !(targets.contains(c) && cl.contains_key(c)) ==> mark_announced(cl, below(targets, (c + 1) as nat), t)
            == mark_announced(cl, below(targets, c as nat), t),
        targets.contains(c) && cl.contains_key(c) ==> mark_announced(cl, below(targets, (c + 1) as nat), t)
            == mark_announced(cl, below(targets, c as nat), t).insert(
            c,
            ClientModel { announced: cl[c].announced.insert(t), ..cl[c] },
        ),
{
    if targets.contains(c) && cl.contains_key(c) {
        assert(mark_announced(cl, below(targets, (c + 1) as nat), t) =~= mark_announced(cl, below(targets, c as nat), t).insert(
            c,
            ClientModel { announced: cl[c].announced.insert(t), ..cl[c] },
        ));
    } else {
        assert(mark_announced(cl, below(targets, (c + 1) as nat), t) =~= mark_announced(cl, below(targets, c as nat), t));
    }
}

impl ServerState {
    /// The model of the state.
    pub open spec fn model(&self) -> ServerModel {
        ServerModel {
            topics: self.topics@.map_values(|t: Topic| topic_model(t)),
            topic_map: self.topic_map.view(),
            pub_count: self.pub_count@,
            values: self.topic_value_map@,
            client_map: self.client_map.view(),
            clients: self.clients@.map_values(|c: ConnectedClient| client_model(c)),
            client_meta: self.client_metatopic_map@,
            subscriptions: self.subscriptions@.map_values(|p: (Subscription, ClientIdx)| (sub_model(p.0), p.1)),
            topic_subs: self.topic_sub_map@.map_values(|v: Vec<SubIdx>| v@),
            sub_values: self.sub_values@.map_values(|s: StoredSubValue| stored_model(s)),
            counters: self.counters,
        }
    }

    /// The invariant of the state.
    pub open spec fn wf(&self) -> bool {
        model_wf(self.model())
    }

    /// Every connected client has an index below the client counter.
    pub open spec fn clients_counted(&self) -> bool {
        forall|c: ClientIdx| #[trigger] self.clients@.contains_key(c) ==> c < self.counters.client_idx
    }

    pub(crate) proof fn lemma_wf_counted(&self)
        requires
            self.wf(),
        ensures
            self.clients_counted(),
            self.values_routable(),
    {
        assert forall|c: ClientIdx| #[trigger] self.clients@.contains_key(c) implies c < self.counters.client_idx by {
            assert(self.model().clients.contains_key(c));
        }
        assert forall|t: TopicIdx| #[trigger] self.topics@.contains_key(t) implies self.topic_sub_map@.contains_key(t) by {
            assert(self.model().topics.contains_key(t));
            assert(self.model().topic_subs.contains_key(t));
        }
        assert forall|t: TopicIdx, i: int|
            #[trigger] self.topic_sub_map@.contains_key(t) && 0 <= i < self.topic_sub_map@[t]@.len()
                implies self.sub_values@.contains_key(#[trigger] self.topic_sub_map@[t]@[i]) by {
            assert(self.model().topic_subs.contains_key(t));
            assert(self.model().topic_subs[t] == self.topic_sub_map@[t]@);
            assert(self.model().sub_values.contains_key(self.model().topic_subs[t][i]));
        }
    }

    /// Sends a `Properties` message for topic `name` to each client of
    /// `targets` that can be sent to, in the order of their indices.
    fn tell_properties(&self, targets: &IntSet<ClientIdx>, name: &String, actions: &mut Vec<ServerAction>)
        ensures
            action_models(final(actions)@) == action_models(old(actions)@) + broadcast(
                self.counters.client_idx as nat,
                self.model().clients,
                targets@,
                seq![MsgModel::Properties { name: name@, ack: None }],
            ),
    {
        let ghost a0 = actions@;
        let ghost msgs = seq![MsgModel::Properties { name: name@, ack: None }];
        let n = self.counters.client_idx;
        let mut c: ClientIdx = 0;
        while c < n
            invariant
                c <= n,
                n == self.counters.client_idx,
                msgs == seq![MsgModel::Properties { name: name@, ack: None }],
                action_models(actions@) == action_models(a0) + broadcast(c as nat, self.model().clients, targets@, msgs),
            decreases n - c,
        {
            let ghost acts = actions@;
            if int_set_contains(targets, &c) {
                match int_map_get(&self.clients, &c) {
                    Some(client) => {
                        proof {
                            assert(self.model().clients.contains_key(c));
                            assert(self.model().clients[c] == client_model(*client));
                        }
                        if client.has_output {
                            let mut list: Vec<NTMessage> = Vec::new();
                            list.push(NTMessage::Properties(Properties { name: name.clone(), ack: None }));
                            actions.push(ServerAction::Messages(c, list));
                            proof {
                                assert(list@.map_values(|m: NTMessage| msg_model(m)) =~= msgs);
                                assert(action_models(actions@) =~= action_models(acts).push(ActionModel::Messages(c, msgs)));
                            }
                        }
                    },
                    None => {},
                }
            }
            proof {
                assert(action_models(actions@) =~= action_models(a0) + broadcast((c + 1) as nat, self.model().clients, targets@, msgs));
            }
            c = c + 1;
        }
    }

    /// Announces topic `topic_idx` with `msg` to the clients of `targets`: marks
    /// it announced to each connected one, and sends `msg` to those that can be
    /// sent to, in the order of their indices.
    fn announce_to(&mut self, targets: &IntSet<ClientIdx>, topic_idx: TopicIdx, msg: &Announce, actions: &mut Vec<ServerAction>)
        requires
            old(self).clients_counted(),
        ensures
            final(self).model() == (ServerModel {
                clients: mark_announced(old(self).model().clients, targets@, topic_idx),
                ..old(self).model()
            }),
            final(self).metatopic_value_map == old(self).metatopic_value_map,
            final(self).clients_counted(),
            action_models(final(actions)@) == action_models(old(actions)@) + broadcast(
                old(self).counters.client_idx as nat,
                old(self).model().clients,
                targets@,
                seq![msg_model(NTMessage::Announce(*msg))],
            ),
    {
        let ghost m0 = self.model();
        let ghost a0 = actions@;
        let ghost msgs = seq![msg_model(NTMessage::Announce(*msg))];
        let n = self.counters.client_idx;
        let mut c: ClientIdx = 0;
        proof {
            assert(mark_announced(m0.clients, below(targets@, 0), topic_idx) =~= m0.clients);
            assert(self.model().clients =~= mark_announced(m0.clients, below(targets@, 0), topic_idx));
        }
        while c < n
            invariant
                c <= n,
                n == self.counters.client_idx,
                n == m0.counters.client_idx,
                self.clients_counted(),
                self.model() == (ServerModel {
                    clients: mark_announced(m0.clients, below(targets@, c as nat), topic_idx),
                    ..m0
                }),
                self.metatopic_value_map == old(self).metatopic_value_map,
                action_models(actions@) == action_models(a0) + broadcast(c as nat, m0.clients, targets@, msgs),
                msgs == seq![msg_model(NTMessage::Announce(*msg))],
            decreases n - c,
        {
            let ghost acts = actions@;
            let ghost cur = self.clients@;
            proof {
                lemma_mark_extend(m0.clients, targets@, c, topic_idx);
            }
            if int_set_contains(targets, &c) && int_map_contains(&self.clients, &c) {
                proof {
                    assert(self.model().clients.contains_key(c));
                    assert(!below(targets@, c as nat).contains(c));
                    assert(client_model(cur[c]) == self.model().clients[c]);
                }
                let mut client = int_map_remove(&mut self.clients, &c).unwrap();
                int_set_insert(&mut client.announced_topics, topic_idx);
                let out = client.has_output;
                int_map_insert(&mut self.clients, c, client);
                proof {
                    assert(m0.clients.contains_key(c));
                    assert(client_model(client) == ClientModel {
                        announced: m0.clients[c].announced.insert(topic_idx),
                        ..m0.clients[c]
                    });
                    assert(self.model().clients =~= mark_announced(m0.clients, below(targets@, c as nat), topic_idx).insert(c, client_model(client)));
                }
                if out {
                    let mut list: Vec<NTMessage> = Vec::new();
                    list.push(NTMessage::Announce(msg.clone()));
                    actions.push(ServerAction::Messages(c, list));
                    proof {
                        assert(list@.map_values(|m: NTMessage| msg_model(m)) =~= msgs);
                        assert(action_models(actions@) =~= action_models(acts).push(ActionModel::Messages(c, msgs)));
                    }
                }
            } else {
                proof {
                    assert(m0.clients.contains_key(c) == self.model().clients.contains_key(c));
                    assert(self.model().clients.contains_key(c) == cur.contains_key(c));
                    assert(!(targets@.contains(c) && m0.clients.contains_key(c)));
                }
            }
            proof {
                let t_new = below(targets@, (c + 1) as nat);
                assert(self.model().clients =~= mark_announced(m0.clients, t_new, topic_idx));
                assert(self.model() =~= ServerModel { clients: mark_announced(m0.clients, t_new, topic_idx), ..m0 });
                assert(action_models(actions@) =~= action_models(a0) + broadcast((c + 1) as nat, m0.clients, targets@, msgs));
            }
            c = c + 1;
        }
        proof {
            assert(mark_announced(m0.clients, below(targets@, n as nat), topic_idx) =~= mark_announced(m0.clients, targets@, topic_idx));
        }
    }

    /// Announces topic `topic_idx`; with `response_opt`, first answers the
    /// publish request of that client with the announcement carrying its
    /// publisher id.
    pub fn announce_topic(&mut self, topic_idx: TopicIdx, response_opt: Option<(PubUID, ClientIdx)>, actions: &mut Vec<ServerAction>) -> (r: Result<NtSuccess, NTServerError>)
        requires
            old(self).wf(),
        ensures
            ({
                let (m, res, emitted) = announce_spec(old(self).model(), topic_idx, response_opt);
                &&& final(self).model() == m
                &&& (r is Ok) == (res is Ok)
                &&& r matches Err(e) ==> res == Err::<(), ErrorKind>(kind(e))
                &&& action_models(final(actions)@) == action_models(old(actions)@) + emitted
            }),
            final(self).metatopic_value_map == old(self).metatopic_value_map,
            final(self).wf(),
    {
        let ghost m0 = self.model();
        proof {
            self.lemma_wf_counted();
            lemma_announce_wf(m0, topic_idx, response_opt);
        }
        let topic = match int_map_get(&self.topics, &topic_idx) {
            Some(t) => t,
            None => {
                return Err(NTServerError::TopicDoesNotExist(
                    "topic idx ".to_string().concat(to_decimal(topic_idx as u64).as_str()).concat(
                        " could not be announced [did not exist]",
                    ),
                ));
            },
        };
        let name = topic.name.clone();
        #[verifier::truncate]
        let id = topic_idx as i32;
        let announce_msg = Announce {
            name: topic.name.clone(),
            id,
            pubuid: None,
            ty: topic.ty.clone(),
            properties: match topic.properties {
                Some(p) => p,
                None => PublishProperties::default(),
            },
        };
        proof {
            assert(m0.topics[topic_idx] == topic_model(*topic));
            assert(msg_model(NTMessage::Announce(announce_msg)) == announcement(topic_idx, m0.topics[topic_idx], None));
        }
        if let Some((pubuid, client_idx)) = response_opt {
            if !int_map_contains(&self.clients, &client_idx) {
                return Err(NTServerError::ClientDoesNotExist(
                    "client idx ".to_string().concat(to_decimal(client_idx as u64).as_str()).concat(
                        " could not be announced to [did not exist]",
                    ),
                ));
            }
            let ghost a0 = actions@;
            let mut client = int_map_remove(&mut self.clients, &client_idx).unwrap();
            if client.has_output {
                    let mut new_msg = announce_msg.clone();
                    #[verifier::truncate]
                    let p = pubuid as i32;
                    new_msg.pubuid = Some(p);
                    let mut list: Vec<NTMessage> = Vec::new();
                    list.push(NTMessage::Announce(new_msg));
                    actions.push(ServerAction::Messages(client_idx, list));
                    proof {
                        assert(list@.map_values(|m: NTMessage| msg_model(m)) =~= seq![announcement(topic_idx, m0.topics[topic_idx], Some(pubuid as i32))]);
                        assert(action_models(actions@) =~= action_models(a0).push(ActionModel::Messages(client_idx, seq![announcement(topic_idx, m0.topics[topic_idx], Some(pubuid as i32))])));
                    }
            }
            int_set_insert(&mut client.announced_topics, topic_idx);
            int_map_insert(&mut self.clients, client_idx, client);
            proof {
                assert(self.model().clients =~= m0.clients.insert(
                    client_idx,
                    ClientModel { announced: m0.clients[client_idx].announced.insert(topic_idx), ..m0.clients[client_idx] },
                ));
            }
        }
        let targets = self.interested(&name);
        self.announce_to(&targets, topic_idx, &announce_msg, actions);
        Ok(NtSuccess)
    }

    /// Adds a topic alone, unless its name is taken; gives its index.
    pub(crate) fn add_single(&mut self, topic: Topic) -> (idx: TopicIdx)
        requires
            old(self).counters.topic_idx < u32::MAX,
        ensures
            (final(self).model(), idx) == add_single_spec(old(self).model(), topic_model(topic)),
            final(self).metatopic_value_map == old(self).metatopic_value_map,
            final(self).clients == old(self).clients,
            final(self).counters.client_idx == old(self).counters.client_idx,
    {
        let ghost m0 = self.model();
        if let Some(i) = self.topic_map.get(&topic.name) {
            return i;
        }
        let idx = self.counters.next_topic_idx();
        let name = topic.name.clone();
        let count: u16 = if topic.has_implicit_publisher() { 2 } else { 1 };
        let ghost tm = topic_model(topic);
        int_map_insert(&mut self.topics, idx, topic);
        int_map_insert(&mut self.pub_count, idx, count);
        self.topic_map.insert(name, idx);
        int_map_insert(&mut self.topic_sub_map, idx, Vec::new());
        proof {
            let (m1, i1) = add_single_spec(m0, tm);
            assert(self.model().topics =~= m1.topics);
            assert(self.model().topic_subs =~= m1.topic_subs);
            assert(self.model() =~= m1);
        }
        idx
    }

    /// Adds the meta-topic `name`, unless the name is taken, and announces it.
    fn add_meta(&mut self, name: String, actions: &mut Vec<ServerAction>) -> (r: Result<NtSuccess, NTServerError>)
        requires
            old(self).counters.topic_idx < u32::MAX,
            old(self).wf(),
        ensures
            ({
                let (m, res, emitted) = add_meta_spec(old(self).model(), name@);
                &&& final(self).model() == m
                &&& (r is Ok) == (res is Ok)
                &&& r matches Err(e) ==> res == Err::<(), ErrorKind>(kind(e))
                &&& action_models(final(actions)@) == action_models(old(actions)@) + emitted
            }),
            final(self).metatopic_value_map == old(self).metatopic_value_map,
            final(self).wf(),
            final(self).counters.topic_idx <= old(self).counters.topic_idx + 1,
    {
        proof {
            lemma_add_meta_wf(self.model(), name@);
            crate::server::model::lemma_add_single_wf(self.model(), meta_topic(name@));
        }
        let t = Topic::new_meta(name);
        let idx = self.add_single(t);
        self.announce_topic(idx, None, actions)
    }

    /// Adds a topic unless its name is taken, and gives the index of the
    /// name. A topic whose name holds no `$` also gets its publisher and
    /// subscriber meta-topics, which are announced.
    pub fn add_topic(&mut self, topic: Topic, actions: &mut Vec<ServerAction>) -> (r: Result<TopicIdx, NTServerError>)
        requires
            old(self).counters.topic_idx + 3 <= u32::MAX,
            old(self).wf(),
        ensures
            ({
                let (m, res, emitted) = add_topic_spec(old(self).model(), topic_model(topic));
                &&& final(self).model() == m
                &&& r matches Ok(i) ==> res == Ok::<TopicIdx, ErrorKind>(i)
                &&& r matches Err(e) ==> res == Err::<TopicIdx, ErrorKind>(kind(e))
                &&& action_models(final(actions)@) == action_models(old(actions)@) + emitted
            }),
            final(self).metatopic_value_map == old(self).metatopic_value_map,
            final(self).wf(),
            final(self).counters.topic_idx <= old(self).counters.topic_idx + 3,
    {
        let ghost m0 = self.model();
        let ghost a0 = actions@;
        proof {
            lemma_add_topic_wf(m0, topic_model(topic));
            crate::server::model::lemma_add_single_wf(m0, topic_model(topic));
        }
        let taken = self.topic_map.contains(&topic.name);
        let name = topic.name.clone();
        let topic_idx = self.add_single(topic);
        if taken || contains_char(name.as_str(), '$') {
            return Ok(topic_idx);
        }
        let ghost m1 = self.model();
        let meta_pub = "$pub$".to_string().concat(name.as_str());
        let meta_sub = "$sub$".to_string().concat(name.as_str());
        match self.add_meta(meta_pub, actions) {
            Ok(_) => {},
            Err(e) => {
                return Err(e);
            },
        }
        let ghost a2 = actions@;
        match self.add_meta(meta_sub, actions) {
            Ok(_) => {},
            Err(e) => {
                proof {
                    assert(action_models(actions@) =~= action_models(a0) + (action_models(a2).subrange(action_models(a0).len() as int, action_models(a2).len() as int) + action_models(actions@).subrange(action_models(a2).len() as int, action_models(actions@).len() as int)));
                }
                return Err(e);
            },
        }
        proof {
            assert(action_models(actions@) =~= action_models(a0) + (action_models(a2).subrange(action_models(a0).len() as int, action_models(a2).len() as int) + action_models(actions@).subrange(action_models(a2).len() as int, action_models(actions@).len() as int)));
        }
        Ok(topic_idx)
    }

    /// Removes topic `topic_idx`, with its publisher and subscriber
    /// meta-topics, their subscription lists, the topic's value and the
    /// meta-topics' values.
    pub fn remove_topic(&mut self, topic_idx: TopicIdx) -> (r: Result<(), NTServerError>)
        requires
            old(self).wf(),
        ensures
            final(self).wf(),
            ({
                let (m, res) = remove_topic_spec(old(self).model(), topic_idx);
                &&& final(self).model() == m
                &&& (r is Ok) == (res is Ok)
                &&& r matches Err(e) ==> res == Err::<(), ErrorKind>(kind(e))
            }),
            r is Ok ==> final(self).metatopic_value_map@ == old(self).metatopic_value_map@.remove(
                removed_metas(old(self).model(), topic_idx).0,
            ).remove(removed_metas(old(self).model(), topic_idx).1),
            r is Err ==> final(self).metatopic_value_map == old(self).metatopic_value_map,
            final(self).clients == old(self).clients,
            final(self).counters == old(self).counters,
    {
        let ghost m0 = self.model();
        proof {
            lemma_remove_topic_wf(m0, topic_idx);
        }
        let topic = match int_map_remove(&mut self.topics, &topic_idx) {
            Some(t) => t,
            None => {
                proof {
                    assert(self.topics@ =~= old(self).topics@);
                    assert(self.model() =~= m0);
                }
                return Err(NTServerError::TopicDoesNotExist(
                    "topic idx ".to_string().concat(to_decimal(topic_idx as u64).as_str()).concat(
                        " could not be removed [did not exist]",
                    ),
                ));
            },
        };
        proof {
            assert(self.model().topics =~= m0.topics.remove(topic_idx));
        }
        let meta_pub_name = "$pub$".to_string().concat(topic.name.as_str());
        let meta_sub_name = "$sub$".to_string().concat(topic.name.as_str());
        let meta_pub_idx = match self.topic_map.remove(&meta_pub_name) {
            Some(i) => i,
            None => {
                proof {
                    let (m, res) = remove_topic_spec(m0, topic_idx);
                    assert(self.model().topic_map =~= m.topic_map);
                    assert(self.model() =~= m);
                }
                return Err(NTServerError::TopicDoesNotExist(
                    "metatopic idx ".to_string().concat(to_decimal(topic_idx as u64).as_str()).concat(
                        " could not be removed [did not exist]",
                    ),
                ));
            },
        };
        let meta_sub_idx = match self.topic_map.remove(&meta_sub_name) {
            Some(i) => i,
            None => {
                proof {
                    let (m, res) = remove_topic_spec(m0, topic_idx);
                    assert(self.model().topic_map =~= m.topic_map);
                    assert(self.model() =~= m);
                }
                return Err(NTServerError::TopicDoesNotExist(
                    "metatopic idx ".to_string().concat(to_decimal(topic_idx as u64).as_str()).concat(
                        " could not be removed [did not exist]",
                    ),
                ));
            },
        };
        self.topic_map.remove(&topic.name);
        int_map_remove(&mut self.topics, &meta_pub_idx);
        int_map_remove(&mut self.topics, &meta_sub_idx);
        int_map_remove(&mut self.topic_sub_map, &topic_idx);
        int_map_remove(&mut self.topic_sub_map, &meta_pub_idx);
        int_map_remove(&mut self.topic_sub_map, &meta_sub_idx);
        int_map_remove(&mut self.topic_value_map, &topic_idx);
        int_map_remove(&mut self.metatopic_value_map, &meta_pub_idx);
        int_map_remove(&mut self.metatopic_value_map, &meta_sub_idx);
        proof {
            let (m, res) = remove_topic_spec(m0, topic_idx);
            assert(self.model().topics =~= m.topics);
            assert(self.model().topic_subs =~= m.topic_subs);
            assert(self.model() =~= m);
        }
        Ok(())
    }

    /// Removes a meta-topic of a client, `topic_idx`, with its name, its
    /// subscription list, its value, its publisher count and its meta-value.
    pub fn remove_meta_topic(&mut self, topic_idx: TopicIdx) -> (r: Result<(), NTServerError>)
        requires
            old(self).wf(),
        ensures
            final(self).wf(),
            ({
                let (m, res) = remove_meta_topic_spec(old(self).model(), topic_idx);
                &&& final(self).model() == m
                &&& (r is Ok) == (res is Ok)
                &&& r matches Err(e) ==> res == Err::<(), ErrorKind>(kind(e))
            }),
            r is Ok ==> final(self).metatopic_value_map@ == old(self).metatopic_value_map@.remove(topic_idx),
            r is Err ==> final(self).metatopic_value_map == old(self).metatopic_value_map,
            final(self).clients == old(self).clients,
            final(self).counters == old(self).counters,
    {
        let ghost m0 = self.model();
        proof {
            lemma_remove_meta_topic_wf(m0, topic_idx);
        }
        let topic = match int_map_remove(&mut self.topics, &topic_idx) {
            Some(t) => t,
            None => {
                proof {
                    assert(self.topics@ =~= old(self).topics@);
                    assert(self.model() =~= m0);
                }
                return Err(NTServerError::TopicDoesNotExist(
                    "topic idx ".to_string().concat(to_decimal(topic_idx as u64).as_str()).concat(
                        " could not be removed [did not exist]",
                    ),
                ));
            },
        };
        self.topic_map.remove(&topic.name);
        int_map_remove(&mut self.topic_sub_map, &topic_idx);
        int_map_remove(&mut self.topic_value_map, &topic_idx);
        int_map_remove(&mut self.pub_count, &topic_idx);
        int_map_remove(&mut self.metatopic_value_map, &topic_idx);
        proof {
            let (m, res) = remove_meta_topic_spec(m0, topic_idx);
            assert(self.model().topics =~= m.topics);
            assert(self.model().topic_subs =~= m.topic_subs);
            assert(self.model() =~= m);
        }
        Ok(())
    }

    /// The subscription lists of the topics are known, and every listed
    /// subscription keeps values.
    pub open spec fn values_routable(&self) -> bool {
        &&& forall|t: TopicIdx| #[trigger] self.topics@.contains_key(t) ==> self.topic_sub_map@.contains_key(t)
        &&& forall|t: TopicIdx, i: int|
            #[trigger] self.topic_sub_map@.contains_key(t) && 0 <= i < self.topic_sub_map@[t]@.len()
                ==> self.sub_values@.contains_key(#[trigger] self.topic_sub_map@[t]@[i])
    }

    /// Sets the value of topic `topic_idx`.
    ///
    /// A value of another type than the topic's, or older than the topic's
    /// latest value, is ignored. Otherwise it is kept for each subscription of
    /// the topic, and becomes the topic's latest value unless that one has the
    /// same timestamp.
    pub fn set_value(&mut self, value: TimestampedValue, topic_idx: TopicIdx) -> (r: Result<NtSuccess, NTServerError>)
        requires
            old(self).wf(),
        ensures
            final(self).wf(),
            ({
                let (m, res) = set_value_spec(old(self).model(), value, topic_idx);
                &&& final(self).model() == m
                &&& (r is Ok) == (res is Ok)
                &&& r matches Err(e) ==> res == Err::<(), ErrorKind>(kind(e))
            }),
            final(self).metatopic_value_map == old(self).metatopic_value_map,
            final(self).clients == old(self).clients,
            final(self).counters == old(self).counters,
            final(self).topics == old(self).topics,
            final(self).topic_sub_map == old(self).topic_sub_map,
    {
        let ghost m0 = self.model();
        proof {
            self.lemma_wf_counted();
            lemma_set_value_wf(m0, value, topic_idx);
        }
        match int_map_get(&self.topics, &topic_idx) {
            Some(topic) => {
                if contains_char(topic.name.as_str(), '$') {
                    return Err(NTServerError::NotNormalTopic(topic.name.clone()));
                }
                if !same_text(value.ty.stringify().as_str(), topic.ty.as_str()) {
                    return Ok(NtSuccess);
                }
            },
            None => {
                return Err(NTServerError::TopicDoesNotExist(
                    "topic idx ".to_string().concat(to_decimal(topic_idx as u64).as_str()).concat(
                        " could not be set [did not exist]",
                    ),
                ));
            },
        }
        let (older, newer) = match int_map_get(&self.topic_value_map, &topic_idx) {
            Some(old_value) => (value.timestamp < old_value.timestamp, old_value.timestamp < value.timestamp),
            None => (false, true),
        };
        if older {
            return Ok(NtSuccess);
        }
        let list = int_map_get(&self.topic_sub_map, &topic_idx).unwrap();
        let ghost vm = ValueModel::Normal { timestamp: value.timestamp, ty: value.ty, value: value.value@ };
        let mut i: usize = 0;
        while i < list.len()
            invariant
                i <= list@.len(),
                vm == (ValueModel::Normal { timestamp: value.timestamp, ty: value.ty, value: value.value@ }),
                *list == old(self).topic_sub_map@[topic_idx],
                self.topic_sub_map == old(self).topic_sub_map,
                self.topics == old(self).topics,
                forall|j: int| 0 <= j < list@.len() ==> self.sub_values@.contains_key(#[trigger] list@[j]),
                self.sub_values@.dom() == old(self).sub_values@.dom(),
                self.model() == (ServerModel {
                    sub_values: stored_add_all(m0.sub_values, list@.subrange(0, i as int), topic_idx, vm),
                    ..m0
                }),
                self.metatopic_value_map == old(self).metatopic_value_map,
                self.clients == old(self).clients,
                self.counters == old(self).counters,
                self.topic_value_map == old(self).topic_value_map,
            decreases list@.len() - i,
        {
            let sub_idx = list[i];
            let ghost before = self.model().sub_values;
            let mut stored = int_map_remove(&mut self.sub_values, &sub_idx).unwrap();
            let ghost stored0 = stored;
            let item = ServerSendableValue::new_normal(value.copy());
            let ghost itemg = item;
            assert(value_model(itemg) == vm);
            stored.add_value(topic_idx, item);
            int_map_insert(&mut self.sub_values, sub_idx, stored);
            proof {
                assert(list@.subrange(0, i + 1).drop_last() == list@.subrange(0, i as int));
                assert(stored_model(stored) == stored_add(stored_model(stored0), topic_idx, vm)) by {
                    match (stored0, stored) {
                        (StoredSubValue::All(a), StoredSubValue::All(b)) => {
                            let am = a@.map_values(|v: Vec<ServerSendableValue>| v@.map_values(|x: ServerSendableValue| value_model(x)));
                            let bm = b@.map_values(|v: Vec<ServerSendableValue>| v@.map_values(|x: ServerSendableValue| value_model(x)));
                            if a@.contains_key(topic_idx) {
                                assert(b@[topic_idx]@ == a@[topic_idx]@.push(itemg));
                                assert(bm[topic_idx] =~= am[topic_idx].push(vm));
                                assert(bm =~= am.insert(topic_idx, am[topic_idx].push(vm)));
                            } else {
                                assert(b@[topic_idx]@ == seq![itemg]);
                                assert(bm[topic_idx] =~= seq![vm]);
                                assert(bm =~= am.insert(topic_idx, seq![vm]));
                            }
                        },
                        (StoredSubValue::One(a), StoredSubValue::One(b)) => {
                            assert(b@ == a@.insert(topic_idx, itemg));
                            assert(b@.map_values(|x: ServerSendableValue| value_model(x)) =~= a@.map_values(|x: ServerSendableValue| value_model(x)).insert(topic_idx, vm));
                        },
                        _ => {},
                    }
                }
                assert(self.model().sub_values =~= before.insert(sub_idx, stored_add(before[sub_idx], topic_idx, vm)));
                assert(self.model() =~= ServerModel {
                    sub_values: stored_add_all(m0.sub_values, list@.subrange(0, i + 1), topic_idx, vm),
                    ..m0
                });
            }
            i = i + 1;
        }
        proof {
            assert(list@.subrange(0, list@.len() as int) == list@);
        }
        if newer {
            int_map_insert(&mut self.topic_value_map, topic_idx, value);
        }
        proof {
            let (m, res) = set_value_spec(m0, value, topic_idx);
            assert(self.model().values =~= m.values);
            assert(self.model() =~= m);
        }
        Ok(NtSuccess)
    }

    /// The index of the topic `topic_name`.
    pub fn get_topic_idx(&self, topic_name: &String) -> (r: Result<TopicIdx, NTServerError>)
        ensures
            self.model().topic_map.contains_key(topic_name@) ==> r == Ok::<TopicIdx, NTServerError>(self.model().topic_map[topic_name@]),
            !self.model().topic_map.contains_key(topic_name@) ==> (r matches Err(e) && kind(e) == ErrorKind::TopicDoesNotExist),
    {
        match self.topic_map.get(topic_name) {
            Some(i) => Ok(i),
            None => Err(NTServerError::TopicDoesNotExist(
                "topic name ".to_string().concat(topic_name.as_str()).concat(" could not be found [did not exist]"),
            )),
        }
    }

    /// The latest value of topic `topic_idx`.
    pub fn get_value(&self, topic_idx: TopicIdx) -> (r: Result<TimestampedValue, NTServerError>)
        ensures
            self.model().values.contains_key(topic_idx) ==> (r matches Ok(v) && v.timestamp == self.model().values[topic_idx].timestamp
                && v.ty == self.model().values[topic_idx].ty && v.value@ == self.model().values[topic_idx].value@),
            !self.model().values.contains_key(topic_idx) ==> (r matches Err(e) && kind(e) == ErrorKind::TopicDoesNotExist),
    {
        match int_map_get(&self.topic_value_map, &topic_idx) {
            Some(v) => Ok(v.copy()),
            None => Err(NTServerError::TopicDoesNotExist(
                "topic idx ".to_string().concat(to_decimal(topic_idx as u64).as_str()).concat(
                    " could not be found [did not exist]",
                ),
            )),
        }
    }

    /// Updates the properties of the topic that `set_properties` names, and
    /// tells each client subscribed to it.
    pub fn set_properties(&mut self, set_properties: SetProperties, actions: &mut Vec<ServerAction>) -> (r: Result<(), NTServerError>)
        requires
            old(self).wf(),
        ensures
            final(self).wf(),
            action_models(final(actions)@) == action_models(old(actions)@) + properties_notices(
                old(self).model(),
                set_properties.name@,
            ),
            ({
                let (m, res) = set_properties_spec(old(self).model(), set_properties.name@, set_properties.update);
                &&& final(self).model() == m
                &&& (r is Ok) == (res is Ok)
                &&& r matches Err(e) ==> res == Err::<(), ErrorKind>(kind(e))
            }),
            final(self).metatopic_value_map == old(self).metatopic_value_map,
            final(self).clients == old(self).clients,
            final(self).counters == old(self).counters,
            final(self).topics@.dom() == old(self).topics@.dom(),
            final(self).topic_sub_map == old(self).topic_sub_map,
            final(self).sub_values == old(self).sub_values,
    {
        let ghost m0 = self.model();
        proof {
            lemma_set_properties_wf(m0, set_properties.name@, set_properties.update);
        }
        let topic_idx = match self.topic_map.get(&set_properties.name) {
            Some(i) => i,
            None => {
                return Err(NTServerError::TopicDoesNotExist(set_properties.name));
            },
        };
        match int_map_remove(&mut self.topics, &topic_idx) {
            Some(mut topic) => {
                let update = set_properties.update;
                match topic.properties {
                    None => {
                        topic.properties = Some(update);
                    },
                    Some(mut properties) => {
                        if let Some(ret) = update.retained {
                            properties.retained = Some(ret);
                        }
                        if let Some(persistent) = update.persistent {
                            properties.persistent = Some(persistent);
                        }
                        topic.properties = Some(properties);
                    },
                }
                int_map_insert(&mut self.topics, topic_idx, topic);
                proof {
                    let (m, res) = set_properties_spec(m0, set_properties.name@, set_properties.update);
                    assert(self.model().topics =~= m.topics);
                    assert(self.model() =~= m);
                }
                let targets = self.interested(&set_properties.name);
                self.tell_properties(&targets, &set_properties.name, actions);
                Ok(())
            },
            None => {
                proof {
                    assert(self.topics@ =~= old(self).topics@);
                    assert(self.model() =~= m0);
                }
                Err(NTServerError::TopicDoesNotExist(set_properties.name))
            },
        }
    }

    /// Merges the publisher entry of topic `name` and id `uid` into the value of
    /// meta-topic `k`, of the server's kind if `server`.
    fn add_publisher_entry(&mut self, k: TopicIdx, server: bool, name: String, uid: u32)
        ensures
            publisher_added_at(old(self).metatopic_value_map@, final(self).metatopic_value_map@, k, server, name@, uid),
            final(self).model() == old(self).model(),
            final(self).clients == old(self).clients,
            final(self).counters == old(self).counters,
    {
        let ghost name_v = name@;
        let entry = ClientPublisherMetaValue { topic: name, uid };
        let mut entries: Vec<ClientPublisherMetaValue> = Vec::new();
        entries.push(entry);
        let mut value = match int_map_remove(&mut self.metatopic_value_map, &k) {
            Some(v) => v,
            None => if server {
                MetaTopicValue::ServerPublisher(Vec::new())
            } else {
                MetaTopicValue::ClientPublisher(Vec::new())
            },
        };
        let ghost v0 = value;
        if server {
            value.merge(MetaTopicValue::ServerPublisher(entries));
        } else {
            value.merge(MetaTopicValue::ClientPublisher(entries));
        }
        let ghost v1 = value;
        proof {
            assert(entries@ == seq![entry]);
            assert(entry.topic@ == name_v && entry.uid == uid);
            match v0 {
                MetaTopicValue::ServerPublisher(a) => {
                    if server {
                        if let MetaTopicValue::ServerPublisher(c) = v1 {
                            assert(c@ == a@ + seq![entry]);
                            assert(c@.subrange(0, a@.len() as int) =~= a@);
                            assert(c@.last() == entry);
                        }
                    }
                },
                MetaTopicValue::ClientPublisher(a) => {
                    if !server {
                        if let MetaTopicValue::ClientPublisher(c) = v1 {
                            assert(c@ == a@ + seq![entry]);
                            assert(c@.subrange(0, a@.len() as int) =~= a@);
                            assert(c@.last() == entry);
                        }
                    }
                },
                _ => {},
            }
        }
        int_map_insert(&mut self.metatopic_value_map, k, value);
        proof {
            assert(self.metatopic_value_map@.dom() =~= old(self).metatopic_value_map@.dom().insert(k));
            assert(self.metatopic_value_map@[k] == v1);
            if !old(self).metatopic_value_map@.contains_key(k) {
                if server {
                    if let MetaTopicValue::ServerPublisher(c) = v1 {
                        assert(c@[0] == entry);
                    }
                } else {
                    if let MetaTopicValue::ClientPublisher(c) = v1 {
                        assert(c@[0] == entry);
                    }
                }
            } else {
                assert(v0 == old(self).metatopic_value_map@[k]);
            }
        }
    }

    /// A client's request to publish a topic: the topic is added (or found)
    /// and announced, answering the client; the client's publisher id is
    /// mapped to the topic, and recorded in the client's (or the server's)
    /// publishers meta-topic. Gives the topic's index.
    pub fn inner_publish_topic(&mut self, pub_topic: PublishTopic, client_idx: ClientIdx, actions: &mut Vec<ServerAction>) -> (r: Result<TopicIdx, NTServerError>)
        requires
            old(self).counters.topic_idx + 3 <= u32::MAX,
            old(self).wf(),
            publish_safe(old(self).model(), pub_topic.name@),
        ensures
            final(self).wf(),
            ({
                let (m, res, emitted) = publish_spec(
                    old(self).model(),
                    TopicModel { name: pub_topic.name@, ty: pub_topic.ty@, properties: pub_topic.properties },
                    pub_topic.pubuid,
                    client_idx,
                );
                &&& final(self).model() == m
                &&& r matches Ok(i) ==> res == Ok::<TopicIdx, ErrorKind>(i)
                &&& r matches Err(e) ==> res == Err::<TopicIdx, ErrorKind>(kind(e))
                &&& action_models(final(actions)@) == action_models(old(actions)@) + emitted
                &&& if res is Ok && client_idx == SERVER_CLIENT_IDX {
                    publisher_added_at(old(self).metatopic_value_map@, final(self).metatopic_value_map@, SERVER_PUB_METATOPIC, true, pub_topic.name@, pub_topic.pubuid)
                } else if res is Ok {
                    publisher_added_at(old(self).metatopic_value_map@, final(self).metatopic_value_map@, m.client_meta[client_idx].0, false, pub_topic.name@, pub_topic.pubuid)
                } else {
                    final(self).metatopic_value_map == old(self).metatopic_value_map
                }
            }),
            final(self).counters.topic_idx <= old(self).counters.topic_idx + 3,
    {
        let ghost m0 = self.model();
        let ghost a0 = actions@;
        proof {
            lemma_publish_wf(m0, TopicModel { name: pub_topic.name@, ty: pub_topic.ty@, properties: pub_topic.properties }, pub_topic.pubuid, client_idx);
        }
        let pubuid = pub_topic.pubuid;
        let name = pub_topic.name.clone();
        let existed = self.topic_map.get(&pub_topic.name).is_some();
        let topic_idx = match self.add_topic(Topic::from_publish_topic(pub_topic), actions) {
            Ok(i) => i,
            Err(e) => {
                return Err(e);
            },
        };
        let ghost a1 = actions@;
        let ghost m1 = self.model();
        match self.announce_topic(topic_idx, Some((pubuid, client_idx)), actions) {
            Ok(_) => {},
            Err(e) => {
                proof {
                    assert(action_models(actions@) =~= action_models(a0) + (action_models(a1).subrange(action_models(a0).len() as int, action_models(a1).len() as int) + action_models(actions@).subrange(action_models(a1).len() as int, action_models(actions@).len() as int)));
                }
                return Err(e);
            },
        }
        proof {
            assert(action_models(actions@) =~= action_models(a0) + (action_models(a1).subrange(action_models(a0).len() as int, action_models(a1).len() as int) + action_models(actions@).subrange(action_models(a1).len() as int, action_models(actions@).len() as int)));
        }
        let ghost m2 = self.model();
        proof {
            assert(announce_spec(m1, topic_idx, Some((pubuid, client_idx))).1 is Ok);
            assert(m1.clients.contains_key(client_idx));
            assert(m2.clients.contains_key(client_idx));
            assert(self.clients@.contains_key(client_idx));
        }
        let mut client = int_map_remove(&mut self.clients, &client_idx).unwrap();
        client.pubuid_to_topicidx.insert(pubuid, topic_idx);
        int_map_insert(&mut self.clients, client_idx, client);
        proof {
            let c2 = m2.clients[client_idx];
            assert(self.model().clients =~= m2.clients.insert(
                client_idx,
                ClientModel { pubs: c2.pubs.insert(pubuid, topic_idx), pubs_rev: c2.pubs_rev.insert(topic_idx, pubuid), ..c2 },
            ));
        }
        if existed {
            let count = match int_map_get(&self.pub_count, &topic_idx) {
                Some(c) => Some(*c),
                None => None,
            };
            match count {
                Some(c) => {
                    int_map_insert(&mut self.pub_count, topic_idx, c + 1);
                },
                None => {},
            }
        }
        if client_idx == SERVER_CLIENT_IDX {
            self.add_publisher_entry(SERVER_PUB_METATOPIC, true, name, pubuid);
        } else {
            match int_map_get(&self.client_metatopic_map, &client_idx) {
                Some(metas) => {
                    let pub_idx = metas.0;
                    self.add_publisher_entry(pub_idx, false, name, pubuid);
                },
                None => {
                    return Err(NTServerError::TopicDoesNotExist(
                        "Client id ".to_string().concat(to_decimal(client_idx as u64).as_str()).concat(
                            " metatopic did not exist",
                        ),
                    ));
                },
            }
        }
        Ok(topic_idx)
    }

    /// Removes the publisher entry of topic `name` and id `uid` from the value of
    /// meta-topic `k`, of the server's kind if `server`.
    fn remove_publisher_entry(&mut self, k: TopicIdx, server: bool, name: String, uid: u32)
        ensures
            publisher_removed_at(old(self).metatopic_value_map@, final(self).metatopic_value_map@, k, server, name@, uid),
            final(self).model() == old(self).model(),
            final(self).clients == old(self).clients,
            final(self).counters == old(self).counters,
    {
        let ghost name_v = name@;
        let entry = ClientPublisherMetaValue { topic: name, uid };
        let ghost eg = entry;
        let mut entries: Vec<ClientPublisherMetaValue> = Vec::new();
        entries.push(entry);
        let mut value = match int_map_remove(&mut self.metatopic_value_map, &k) {
            Some(v) => v,
            None => if server {
                MetaTopicValue::ServerPublisher(Vec::new())
            } else {
                MetaTopicValue::ClientPublisher(Vec::new())
            },
        };
        let ghost v0 = value;
        if server {
            value.reduce(MetaTopicValue::ServerPublisher(entries));
        } else {
            value.reduce(MetaTopicValue::ClientPublisher(entries));
        }
        let ghost v1 = value;
        proof {
            assert(entries@ == seq![eg]);

            match v0 {
                MetaTopicValue::ServerPublisher(a) => {
                    lemma_without_one_publisher(a@, eg);
                    if !old(self).metatopic_value_map@.contains_key(k) {
                        assert(a@ == Seq::<ClientPublisherMetaValue>::empty());
                        reveal_with_fuel(Seq::filter, 1);
                    }
                },
                MetaTopicValue::ClientPublisher(a) => {
                    lemma_without_one_publisher(a@, eg);
                    if !old(self).metatopic_value_map@.contains_key(k) {
                        assert(a@ == Seq::<ClientPublisherMetaValue>::empty());
                        reveal_with_fuel(Seq::filter, 1);
                    }
                },
                _ => {},
            }
        }
        int_map_insert(&mut self.metatopic_value_map, k, value);
        proof {
            assert(self.metatopic_value_map@.dom() =~= old(self).metatopic_value_map@.dom().insert(k));
            assert(self.metatopic_value_map@[k] == v1);
        }
    }

    /// A client's request to stop publishing: the publisher id is unmapped;
    /// the topic's publisher count goes down, and at 0 the topic is removed
    /// and its announcement withdrawn from every client it was announced to;
    /// the entry leaves the client's (or the server's) publishers meta-topic.
    pub fn inner_unpublish_topic(&mut self, pub_topic: UnpublishTopic, client_idx: ClientIdx, actions: &mut Vec<ServerAction>) -> (r: Result<(), NTServerError>)
        requires
            old(self).wf(),
            old(self).model().clients.contains_key(client_idx) && old(self).model().clients[client_idx].pubs.contains_key(pub_topic.pubuid)
                && old(self).model().pub_count.contains_key(old(self).model().clients[client_idx].pubs[pub_topic.pubuid])
                ==> old(self).model().pub_count[old(self).model().clients[client_idx].pubs[pub_topic.pubuid]] > 0,
        ensures
            ({
                let (m, res) = unpublish_spec(old(self).model(), pub_topic.pubuid, client_idx);
                &&& final(self).model() == m
                &&& (r is Ok) == (res is Ok)
                &&& r matches Err(e) ==> res == Err::<(), ErrorKind>(kind(e))
            }),
            ({
                let m0 = old(self).model();
                let t = m0.clients[client_idx].pubs[pub_topic.pubuid];
                let name = if m0.topics.contains_key(t) { m0.topics[t].name } else { Seq::<char>::empty() };
                let metas = if m0.pub_count[t] == 1 {
                    old(self).metatopic_value_map@.remove(removed_metas(m0, t).0).remove(removed_metas(m0, t).1)
                } else {
                    old(self).metatopic_value_map@
                };
                if unpublish_reaches_meta(m0, pub_topic.pubuid, client_idx) && client_idx == SERVER_CLIENT_IDX {
                    publisher_removed_at(metas, final(self).metatopic_value_map@, SERVER_PUB_METATOPIC, true, name, pub_topic.pubuid)
                } else if unpublish_reaches_meta(m0, pub_topic.pubuid, client_idx) && m0.client_meta.contains_key(client_idx) {
                    publisher_removed_at(metas, final(self).metatopic_value_map@, m0.client_meta[client_idx].0, false, name, pub_topic.pubuid)
                } else if unpublish_reaches_meta(m0, pub_topic.pubuid, client_idx) {
                    final(self).metatopic_value_map@ == metas
                } else {
                    final(self).metatopic_value_map == old(self).metatopic_value_map
                }
            }),
            final(self).wf(),
            action_models(final(actions)@) == action_models(old(actions)@) + unpublish_withdrawals(
                old(self).model(),
                pub_topic.pubuid,
                client_idx,
            ),
            final(self).counters == old(self).counters,
    {
        let ghost m0 = self.model();
        proof {
            lemma_unpublish_wf(m0, pub_topic.pubuid, client_idx);
        }
        if !int_map_contains(&self.clients, &client_idx) {
            return Err(NTServerError::ClientDoesNotExist(
                "Client id: ".to_string().concat(to_decimal(client_idx as u64).as_str()),
            ));
        }
        let mut client = int_map_remove(&mut self.clients, &client_idx).unwrap();
        let ghost c0 = client;
        let removed = client.pubuid_to_topicidx.remove_by_left(&pub_topic.pubuid);
        int_map_insert(&mut self.clients, client_idx, client);
        assert(self.clients@.dom() =~= old(self).clients@.dom());
        let topic_idx = match removed {
            Some(t) => t,
            None => {
                proof {
                    assert(c0.pubuid_to_topicidx.left_to_right().remove(pub_topic.pubuid) =~= c0.pubuid_to_topicidx.left_to_right());
                    assert(client_model(client) == client_model(c0));
                    assert(self.model().clients =~= m0.clients);
                    assert(self.model() =~= m0);
                }
                return Err(NTServerError::TopicDoesNotExist(
                    "pubuid ".to_string().concat(to_decimal(pub_topic.pubuid as u64).as_str()).concat(
                        " related topic did not exist",
                    ),
                ));
            },
        };
        let ghost m1 = self.model();
        proof {
            let c0 = m0.clients[client_idx];
            assert(m1.clients =~= m0.clients.insert(client_idx, ClientModel { pubs: c0.pubs.remove(pub_topic.pubuid), ..c0 }));
        }
        let name = match int_map_get(&self.topics, &topic_idx) {
            Some(t) => t.name.clone(),
            None => String::new(),
        };
        let count = match int_map_get(&self.pub_count, &topic_idx) {
            Some(c) => *c,
            None => {
                return Err(NTServerError::TopicDoesNotExist(
                    "Topic idx ".to_string().concat(to_decimal(topic_idx as u64).as_str()).concat(
                        " did not exist in pub_count",
                    ),
                ));
            },
        };
        let n: u16 = count - 1;
        int_map_insert(&mut self.pub_count, topic_idx, n);
        if n == 0 {
            let ghost m2 = self.model();
            let pub_meta = "$pub$".to_string().concat(name.as_str());
            let sub_meta = "$sub$".to_string().concat(name.as_str());
            let pub_meta_idx = self.topic_map.get(&pub_meta);
            let sub_meta_idx = self.topic_map.get(&sub_meta);
            match self.remove_topic(topic_idx) {
                Ok(_) => {},
                Err(e) => {
                    return Err(e);
                },
            }
            int_map_remove(&mut self.pub_count, &topic_idx);
            proof {
                assert(removed_metas(m2, topic_idx) == removed_metas(m0, topic_idx));
                reveal_strlit("$pub$");
                reveal_strlit("$sub$");
                assert(pub_meta@[1] != sub_meta@[1]);
                assert(pub_meta@ == pub_meta_name(name@));
                assert(sub_meta@ == sub_meta_name(name@));
            }
            let _ = self.un_announce_topics(name.clone(), topic_idx, actions);
            match pub_meta_idx {
                Some(i) => {
                    let _ = self.un_announce_topics(pub_meta, i, actions);
                },
                None => {},
            }
            match sub_meta_idx {
                Some(i) => {
                    let _ = self.un_announce_topics(sub_meta, i, actions);
                },
                None => {},
            }
        }
        if client_idx == SERVER_CLIENT_IDX {
            self.remove_publisher_entry(SERVER_PUB_METATOPIC, true, name, pub_topic.pubuid);
        } else {
            match int_map_get(&self.client_metatopic_map, &client_idx) {
                Some(metas) => {
                    let pub_idx = metas.0;
                    self.remove_publisher_entry(pub_idx, false, name, pub_topic.pubuid);
                },
                None => {
                    return Err(NTServerError::TopicDoesNotExist(
                        "Client id ".to_string().concat(to_decimal(client_idx as u64).as_str()).concat(
                            " metatopic did not exist",
                        ),
                    ));
                },
            }
        }
        Ok(())
    }

    /// A client's request to stop a subscription: its id is unmapped, and the
    /// subscription leaves every topic's list, the subscriptions and the kept
    /// values.
    pub fn unsubscribe(&mut self, unsub: Unsubscribe, client_idx: ClientIdx) -> (r: Result<(), NTServerError>)
        requires
            old(self).wf(),
        ensures
            final(self).wf(),
            ({
                let (m, res) = unsubscribe_spec(old(self).model(), unsub.subuid, client_idx);
                &&& final(self).model() == m
                &&& (r is Ok) == (res is Ok)
                &&& r matches Err(e) ==> res == Err::<(), ErrorKind>(kind(e))
            }),
            final(self).metatopic_value_map == old(self).metatopic_value_map,
            final(self).topic_map == old(self).topic_map,
    {
        let ghost m0 = self.model();
        proof {
            lemma_unsubscribe_wf(m0, unsub.subuid, client_idx);
        }
        if !int_map_contains(&self.clients, &client_idx) {
            return Err(NTServerError::ClientDoesNotExist(
                "Client id: ".to_string().concat(to_decimal(client_idx as u64).as_str()),
            ));
        }
        #[verifier::truncate]
        let subuid = unsub.subuid as u32;
        let mut client = int_map_remove(&mut self.clients, &client_idx).unwrap();
        let ghost c0 = client;
        let removed = client.subuid_to_subidx.remove_by_left(&subuid);
        int_map_insert(&mut self.clients, client_idx, client);
        let subidx = match removed {
            Some(s) => s,
            None => {
                proof {
                    assert(c0.subuid_to_subidx.left_to_right().remove(subuid) =~= c0.subuid_to_subidx.left_to_right());
                    assert(client_model(client) == client_model(c0));
                    assert(self.model().clients =~= m0.clients);
                    assert(self.model() =~= m0);
                }
                return Err(NTServerError::SubscriptionDoesNotExist(
                    "Subuid: ".to_string().concat(to_decimal(subuid as u64).as_str()),
                ));
            },
        };
        let keys = int_map_keys(&self.topic_sub_map);
        let ghost ts0 = m0.topic_subs;
        let mut i: usize = 0;
        while i < keys.len()
            invariant
                i <= keys@.len(),
                keys@.to_set() == ts0.dom(),
                keys@.no_duplicates(),
                self.topic_sub_map@.dom() == ts0.dom(),
                forall|t: TopicIdx| #[trigger] self.topic_sub_map@.contains_key(t) ==> self.topic_sub_map@[t]@ == if keys@.subrange(0, i as int).contains(t) {
                    ts0[t].filter(other_than(subidx))
                } else {
                    ts0[t]
                },
                self.model().clients == m0.clients.insert(client_idx, ClientModel { subs: m0.clients[client_idx].subs.remove(subuid), ..m0.clients[client_idx] }),
                self.topics == old(self).topics,
                self.topic_map == old(self).topic_map,
                self.pub_count == old(self).pub_count,
                self.topic_value_map == old(self).topic_value_map,
                self.metatopic_value_map == old(self).metatopic_value_map,
                self.client_map == old(self).client_map,
                self.client_metatopic_map == old(self).client_metatopic_map,
                self.subscriptions == old(self).subscriptions,
                self.sub_values == old(self).sub_values,
                self.counters == old(self).counters,
            decreases keys@.len() - i,
        {
            let t = keys[i];
            proof {
                assert(keys@.to_set().contains(keys@[i as int]));
                assert(!keys@.subrange(0, i as int).contains(t)) by {
                    if keys@.subrange(0, i as int).contains(t) {
                        let j = choose|j: int| 0 <= j < i && #[trigger] keys@.subrange(0, i as int)[j] == t;
                        assert(keys@[j] == keys@[i as int]);
                    }
                }
                assert forall|x: TopicIdx| keys@.subrange(0, i + 1).contains(x) == (keys@.subrange(0, i as int).contains(x) || x == t) by {
                    if keys@.subrange(0, i + 1).contains(x) {
                        let j = choose|j: int| 0 <= j < i + 1 && #[trigger] keys@.subrange(0, i + 1)[j] == x;
                        if j < i {
                            assert(keys@.subrange(0, i as int)[j] == x);
                        }
                    }
                    if keys@.subrange(0, i as int).contains(x) {
                        let j = choose|j: int| 0 <= j < i && #[trigger] keys@.subrange(0, i as int)[j] == x;
                        assert(keys@.subrange(0, i + 1)[j] == x);
                    }
                    if x == t {
                        assert(keys@.subrange(0, i + 1)[i as int] == x);
                    }
                }
            }
            let list = int_map_remove(&mut self.topic_sub_map, &t).unwrap();
            let mut kept: Vec<SubIdx> = Vec::new();
            let mut j: usize = 0;
            while j < list.len()
                invariant
                    j <= list@.len(),
                    kept@ == list@.subrange(0, j as int).filter(other_than(subidx)),
                decreases list@.len() - j,
            {
                proof {
                    reveal_with_fuel(Seq::filter, 1);
                    assert(list@.subrange(0, j + 1).drop_last() == list@.subrange(0, j as int));
                }
                if list[j] != subidx {
                    kept.push(list[j]);
                }
                j = j + 1;
            }
            proof {
                assert(list@.subrange(0, list@.len() as int) == list@);
            }
            int_map_insert(&mut self.topic_sub_map, t, kept);
            i = i + 1;
        }
        int_map_remove(&mut self.subscriptions, &subidx);
        int_map_remove(&mut self.sub_values, &subidx);
        proof {
            let (m, res) = unsubscribe_spec(m0, unsub.subuid, client_idx);
            assert(keys@.subrange(0, keys@.len() as int) == keys@);
            assert forall|t: TopicIdx| ts0.contains_key(t) implies keys@.contains(t) by {
                assert(keys@.to_set().contains(t));
            }
            assert(self.model().topic_subs =~= m.topic_subs);
            assert(self.model().subscriptions =~= m.subscriptions);
            assert(self.model().sub_values =~= m.sub_values);
            let c0m = m0.clients[client_idx];
            assert(self.model().clients == m.clients);
            assert(self.model() =~= m);
        }
        Ok(())
    }

    /// A client's request to subscribe: a subscription of the client with the
    /// same id is replaced (dropped first, as by unsubscribing), then the new
    /// one is added (see `add_subscription`).
    pub fn subscribe(&mut self, sub: Subscribe, client_idx: ClientIdx, actions: &mut Vec<ServerAction>) -> (r: Result<(), NTServerError>)
        requires
            old(self).wf(),
            old(self).counters.sub_idx < u32::MAX,
        ensures
            final(self).wf(),
            ({
                let (m, res, emitted) = subscribe_spec(
                    old(self).model(),
                    name_order(old(self).topic_map.list()),
                    SubModel { subuid: sub.subuid, topics: texts(sub.topics@), options: sub.options },
                    client_idx,
                );
                &&& final(self).model() == m
                &&& (r is Ok) == (res is Ok)
                &&& r matches Err(e) ==> res == Err::<(), ErrorKind>(kind(e))
                &&& action_models(final(actions)@) == action_models(old(actions)@) + emitted
            }),
            final(self).metatopic_value_map == old(self).metatopic_value_map,
    {
        #[verifier::truncate]
        let subuid = sub.subuid as u32;
        let existing = match int_map_get(&self.clients, &client_idx) {
            Some(client) => client.subuid_to_subidx.contains_left(&subuid),
            None => false,
        };
        if existing {
            let _ = self.unsubscribe(Unsubscribe { subuid: sub.subuid }, client_idx);
        }
        self.add_subscription(sub, client_idx, actions)
    }

    /// A client's subscription: it gets the next subscription index, joins the
    /// list of each topic whose name it cares about, keeps values, and its id
    /// is mapped; the client is sent the announcements of those topics, then
    /// their latest values, and those topics are marked announced to it.
    fn add_subscription(&mut self, sub: Subscribe, client_idx: ClientIdx, actions: &mut Vec<ServerAction>) -> (r: Result<(), NTServerError>)
        requires
            old(self).wf(),
            old(self).counters.sub_idx < u32::MAX,
        ensures
            final(self).wf(),
            final(self).topic_map == old(self).topic_map,
            ({
                let (m, res, emitted) = add_subscription_spec(
                    old(self).model(),
                    name_order(old(self).topic_map.list()),
                    SubModel { subuid: sub.subuid, topics: texts(sub.topics@), options: sub.options },
                    client_idx,
                );
                &&& final(self).model() == m
                &&& (r is Ok) == (res is Ok)
                &&& r matches Err(e) ==> res == Err::<(), ErrorKind>(kind(e))
                &&& action_models(final(actions)@) == action_models(old(actions)@) + emitted
            }),
            final(self).metatopic_value_map == old(self).metatopic_value_map,
    {
        let ghost m0 = self.model();
        let ghost a0 = actions@;
        if !int_map_contains(&self.clients, &client_idx) {
            return Err(NTServerError::ClientDoesNotExist(
                "Client id: ".to_string().concat(to_decimal(client_idx as u64).as_str()),
            ));
        }
        let subscription = Subscription { topics: sub.topics, subuid: sub.subuid, options: sub.options };
        let ghost subm = sub_model(subscription);
        let sub_idx = self.counters.next_sub_idx();
        let entries = self.topic_map.entries();
        let ghost order = name_order(entries@);
        proof {
            assert forall|i: int| 0 <= i < order.len() implies m0.topic_map.contains_key(#[trigger] order[i].0) && m0.topic_map[order[i].0] == order[i].1 by {
                assert(order[i] == (entries@[i].0@, entries@[i].1));
            }
            lemma_add_subscription_wf(m0, order, subm, client_idx);
            self.lemma_wf_counted();
        }
        let mut announce_msgs: Vec<NTMessage> = Vec::new();
        let mut send_values: Vec<u8> = Vec::new();
        let mut marks: Vec<TopicIdx> = Vec::new();
        let mut i: usize = 0;
        while i < entries.len()
            invariant
                i <= entries@.len(),
                marks@ == announced_idxs(m0, interested_topics(order.subrange(0, i as int), subm)),
                order == name_order(entries@),
                subm == sub_model(subscription),
                sub_idx == m0.counters.sub_idx,
                model_wf(m0),
                forall|k: int| 0 <= k < order.len() ==> m0.topic_map.contains_key(#[trigger] order[k].0) && m0.topic_map[order[k].0] == order[k].1,
                self.model() == (ServerModel {
                    topic_subs: append_sub(m0.topic_subs, interested_topics(order.subrange(0, i as int), subm), sub_idx),
                    counters: Counter { sub_idx: (sub_idx + 1) as u32, ..m0.counters },
                    ..m0
                }),
                self.topic_map == old(self).topic_map,
                self.metatopic_value_map == old(self).metatopic_value_map,
                self.clients == old(self).clients,
                self.topics == old(self).topics,
                self.topic_value_map == old(self).topic_value_map,
                announce_msgs@.map_values(|m: NTMessage| msg_model(m)) == announcements_for(m0, interested_topics(order.subrange(0, i as int), subm)),
                send_values@ == values_for(m0, interested_topics(order.subrange(0, i as int), subm)),
            decreases entries@.len() - i,
        {
            let name = &entries[i].0;
            let t = entries[i].1;
            let ghost e = order[i as int];
            proof {
                assert(e == (name@, t));
                reveal_with_fuel(Seq::filter, 1);
                assert(order.subrange(0, i + 1).drop_last() == order.subrange(0, i as int));
                assert(order.subrange(0, i + 1).last() == e);
            }
            if subscription.cares_about(name) {
                let ghost before_it = interested_topics(order.subrange(0, i as int), subm);
                proof {
                    assert(interested_topics(order.subrange(0, i + 1), subm) == before_it.push(e));
                    assert(m0.topic_subs.contains_key(t));
                    assert(interested_topics(order.subrange(0, i + 1), subm).drop_last() == before_it);
                }
                let ghost ts_before = self.model().topic_subs;
                proof {
                    assert forall|k: int| 0 <= k < before_it.len() implies m0.topic_subs.contains_key(#[trigger] before_it[k].1) by {
                        order.subrange(0, i as int).lemma_filter_pred(caring(subm), k);
                        order.subrange(0, i as int).lemma_filter_contains_rev(caring(subm), before_it[k]);
                        let j = choose|j: int| 0 <= j < i && order.subrange(0, i as int)[j] == before_it[k];
                        assert(order[j] == before_it[k]);
                    }
                    lemma_append_sub_dom(m0.topic_subs, before_it, sub_idx);
                    assert(self.topic_sub_map@.contains_key(t));
                }
                let mut list = int_map_remove(&mut self.topic_sub_map, &t).unwrap();
                list.push(sub_idx);
                int_map_insert(&mut self.topic_sub_map, t, list);
                proof {
                    assert(self.model().topic_subs =~= ts_before.insert(t, ts_before[t].push(sub_idx)));
                }
                let ty: Option<String> = if contains_char(name.as_str(), '$') {
                    Some("raw".to_string())
                } else {
                    match int_map_get(&self.topic_value_map, &t) {
                        Some(v) => Some(v.ty.stringify()),
                        None => match int_map_get(&self.topics, &t) {
                            Some(topic) => Some(topic.ty.clone()),
                            None => None,
                        },
                    }
                };
                let ghost msgs_before = announce_msgs@;
                if let Some(ty) = ty {
                    let props = match int_map_get(&self.topics, &t) {
                        Some(topic) => match topic.properties {
                            Some(p) => p,
                            None => PublishProperties::default(),
                        },
                        None => PublishProperties::default(),
                    };
                    #[verifier::truncate]
                    let id = t as i32;
                    announce_msgs.push(NTMessage::Announce(Announce { name: name.clone(), id, ty, pubuid: None, properties: props }));
                    marks.push(t);
                    proof {
                        assert(announce_msgs@.map_values(|m: NTMessage| msg_model(m)) =~= msgs_before.map_values(|m: NTMessage| msg_model(m)).push(
                            msg_model(announce_msgs@.last()),
                        ));
                    }
                } else {
                    proof {
                        assert(announce_msgs@.map_values(|m: NTMessage| msg_model(m)) =~= msgs_before.map_values(|m: NTMessage| msg_model(m)));
                    }
                }
                if let Some(v) = int_map_get(&self.topic_value_map, &t) {
                    #[verifier::truncate]
                    let id = t as i32;
                    let bytes = v.as_bytes(id);
                    append_bytes(&mut send_values, bytes.as_slice());
                }
            } else {
                proof {
                    assert(interested_topics(order.subrange(0, i + 1), subm) == interested_topics(order.subrange(0, i as int), subm));
                }
            }
            i = i + 1;
        }
        proof {
            assert(order.subrange(0, order.len() as int) == order);
            assert(entries@.len() == order.len());
        }
        let all = match subscription.get_options().all {
            Some(b) => b,
            None => false,
        };
        let stored = if all { StoredSubValue::new_all() } else { StoredSubValue::new_one() };
        proof {
            if stored is All {
                assert(stored->All_0@.map_values(|v: Vec<ServerSendableValue>| v@.map_values(|x: ServerSendableValue| value_model(x))) =~= Map::empty());
            } else {
                assert(stored->One_0@.map_values(|x: ServerSendableValue| value_model(x)) =~= Map::empty());
            }
            assert(stored_model(stored) == new_stored(subm.options));
        }
        int_map_insert(&mut self.sub_values, sub_idx, stored);
        int_map_insert(&mut self.subscriptions, sub_idx, (subscription, client_idx));
        #[verifier::truncate]
        let subuid = sub.subuid as u32;
        let mut client = int_map_remove(&mut self.clients, &client_idx).unwrap();
        client.subuid_to_subidx.insert(subuid, sub_idx);
        mark_all(&mut client.announced_topics, &marks);
        let out = client.has_output;
        int_map_insert(&mut self.clients, client_idx, client);
        if out {
            actions.push(ServerAction::Messages(client_idx, announce_msgs));
            actions.push(ServerAction::Binary(client_idx, send_values));
        }
        proof {
            let (m, res, emitted) = add_subscription_spec(m0, order, subm, client_idx);
            assert(self.model().sub_values =~= m.sub_values);
            assert(self.model().subscriptions =~= m.subscriptions);
            assert(self.model().clients =~= m.clients);
            assert(self.model() =~= m);
            assert(action_models(actions@) =~= action_models(a0) + emitted);
        }
        Ok(())
    }

    /// The clients with a subscription that cares about the topic `name`.
    fn interested(&self, name: &String) -> (targets: IntSet<ClientIdx>)
        ensures
            targets@ == interested_clients(self.model().subscriptions, name@),
    {
        let keys = int_map_keys(&self.subscriptions);
        let mut targets: IntSet<ClientIdx> = IntSet::default();
        let ghost subs = self.model().subscriptions;
        let mut i: usize = 0;
        while i < keys.len()
            invariant
                i <= keys@.len(),
                keys@.to_set() == self.subscriptions@.dom(),
                subs == self.model().subscriptions,
                targets@ == Set::new(|c: ClientIdx| exists|j: int| 0 <= j < i && #[trigger] subs[keys@[j]].1 == c
                    && cares(subs[keys@[j]].0.topics, subs[keys@[j]].0.options, name@)),
            decreases keys@.len() - i,
        {
            let k = keys[i];
            assert(self.subscriptions@.contains_key(k)) by {
                assert(keys@.to_set().contains(keys@[i as int]));
            }
            let entry = int_map_get(&self.subscriptions, &k).unwrap();
            let ghost before = targets@;
            if entry.0.cares_about(name) {
                int_set_insert(&mut targets, entry.1);
            }
            i = i + 1;
            assert(targets@ =~= Set::new(|c: ClientIdx| exists|j: int| 0 <= j < i && #[trigger] subs[keys@[j]].1 == c
                    && cares(subs[keys@[j]].0.topics, subs[keys@[j]].0.options, name@))) by {
                assert forall|c: ClientIdx| targets@.contains(c) implies exists|j: int| 0 <= j < i && #[trigger] subs[keys@[j]].1 == c
                    && cares(subs[keys@[j]].0.topics, subs[keys@[j]].0.options, name@) by {
                    if !before.contains(c) {
                        assert(subs[keys@[i - 1]].1 == c);
                    }
                }
            }
        }
        assert(targets@ =~= interested_clients(subs, name@)) by {
            assert forall|c: ClientIdx| interested_clients(subs, name@).contains(c) implies targets@.contains(c) by {
                let s = choose|s: SubIdx| #[trigger] subs.contains_key(s) && subs[s].1 == c
                    && cares(subs[s].0.topics, subs[s].0.options, name@);
                assert(keys@.to_set().contains(s));
                let j = choose|j: int| 0 <= j < keys@.len() && keys@[j] == s;
                assert(subs[keys@[j]].1 == c);
            }
            assert forall|c: ClientIdx| targets@.contains(c) implies interested_clients(subs, name@).contains(c) by {
                let j = choose|j: int| 0 <= j < keys@.len() && #[trigger] subs[keys@[j]].1 == c
                    && cares(subs[keys@[j]].0.topics, subs[keys@[j]].0.options, name@);
                let s = keys@[j];
                assert(keys@.to_set().contains(s));
                assert(self.subscriptions@.contains_key(s));
                assert(subs.contains_key(s));
                assert(subs[s].1 == c && cares(subs[s].0.topics, subs[s].0.options, name@));
            }
        }
        targets
    }
}

} // verus!
