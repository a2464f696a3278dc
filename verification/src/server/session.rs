//! Starting the server, connecting and disconnecting clients, flushing, and
//! withdrawing announcements.

use vstd::prelude::*;

use crate::int_map::{int_map_contains, int_map_get, int_map_insert, int_map_remove, int_map_with_capacity, int_set_insert, int_set_remove};
use crate::name_map::NameMap;
use crate::protocol::messages::{Announce, NTMessage, UnAnnounce};
use crate::protocol::metatopic::{lemma_without_one_client, ClientMetaValue, MetaTopicValue};
use crate::protocol::topic::Topic;
use crate::protocol::PublishProperties;
use crate::NtSuccess;
use crate::server::error::{kind, outcome, ErrorKind, NTServerError};
use crate::server::identity_map::key_of;
use crate::server::identity_map::IdentityMap;
use crate::server::model::{meta_topic, model_wf, ActionModel, ClientModel, MsgModel, ServerModel};
use crate::server::session_model::{client_left_at, client_pub_meta_name, client_sub_meta_name, clients_joined, not_client, connect_spec, count_named, disconnect_safe, disconnected, disconnect_metas, disconnect_spec, disconnect_withdrawals, release_all_withdrawals, release_withdrawals, release_all_metas, release_metas, removal_metas, lemma_connect_wf, lemma_occurrences_count, listed_publishers, publishers_of, lemma_count_named_bound, lemma_release, lists_keys, occurrences, published, release, release_all, numbered_name, announce_all_spec, announceable, announcements_of, bare_model, flushes, initial_model, lemma_announce_all_wf, unmark_announced, withdrawals};
use crate::server::state::{action_models, client_model, msg_model, name_order, sub_model, ConnectedClient, ServerAction, ServerState, CLIENT_METATOPIC};
use crate::server::util::{ClientIdentity, ClientIdx, Counter, SubIdx, TopicIdx};

use crate::text::{contains_str, to_decimal};

verus! {

broadcast use vstd::std_specs::hash::group_hash_axioms;

/// Dropping publishers stops at the first error: once dropping those of a
/// prefix fails, dropping those of the whole sequence ends the same way.
proof fn lemma_release_all_stops(m: ServerModel, ts: Seq<TopicIdx>, k: int, metas: Map<TopicIdx, MetaTopicValue>)
    requires
        0 <= k <= ts.len(),
        release_all(m, ts.take(k)).1 is Err,
    ensures
        release_all(m, ts) == release_all(m, ts.take(k)),
        release_all_metas(metas, m, ts) == release_all_metas(metas, m, ts.take(k)),
        release_all_withdrawals(m, ts) == release_all_withdrawals(m, ts.take(k)),
    decreases ts.len(),
{
    if k < ts.len() {
        assert(ts.drop_last().take(k) =~= ts.take(k));
        lemma_release_all_stops(m, ts.drop_last(), k, metas);
    } else {
        assert(ts.take(k) =~= ts);
    }
}

/// Removing the client of identity `key`, and its mapping, keeps the
/// invariant.
proof fn lemma_disconnect_start(m: ServerModel, key: (Seq<char>, Seq<char>), c: ClientIdx)
    requires
        model_wf(m),
    ensures
        model_wf(ServerModel { client_map: m.client_map.remove(key), ..m }),
        model_wf(ServerModel { client_map: m.client_map.remove(key), clients: m.clients.remove(c), ..m }),
{
}

impl ServerState {
    /// Whether a client of identity `ident` is connected.
    pub fn is_client_connected(&self, ident: &ClientIdentity) -> (b: bool)
        ensures
            b == self.model().client_map.contains_key(key_of(*ident)),
    {
        self.client_map.contains(ident)
    }

    /// The identity of the client of index `client_idx`, if it is connected.
    pub fn get_client_ident(&self, client_idx: ClientIdx) -> (ident: Option<ClientIdentity>)
        ensures
            self.model().clients.contains_key(client_idx) ==> (ident matches Some(i) && i.addr@
                == self.model().clients[client_idx].addr && i.name@ == self.model().clients[client_idx].name),
            !self.model().clients.contains_key(client_idx) ==> ident is None,
    {
        match int_map_get(&self.clients, &client_idx) {
            Some(client) => Some(client.identity.clone()),
            None => None,
        }
    }

    /// Connects a client of identity `identity`, unless one of that identity
    /// is connected.
    ///
    /// If `n` connected clients have names that contain the client's name,
    /// `@` and `n` are appended to the name (which need not make it unique:
    /// a client may already carry the longer name). The client is added,
    /// listed in `$clients`, and given its publisher and subscriber
    /// meta-topics; its index is returned.
    pub fn connect_client(&mut self, identity: &mut ClientIdentity) -> (r: Result<ClientIdx, NTServerError>)
        requires
            old(self).wf(),
            old(self).counters.client_idx < u32::MAX,
            old(self).counters.topic_idx + 2 <= u32::MAX,
        ensures
            final(self).wf(),
            ({
                let (m, res, new_name) = connect_spec(old(self).model(), old(identity).addr@, old(identity).name@);
                &&& final(self).model() == m
                &&& outcome(r) == res
                &&& final(identity).addr == old(identity).addr
                &&& final(identity).name@ == new_name
            }),
            r is Err ==> final(self).metatopic_value_map == old(self).metatopic_value_map,
            r is Ok ==> final(self).metatopic_value_map@.contains_key(CLIENT_METATOPIC) && clients_joined(
                old(self).metatopic_value_map@.get(CLIENT_METATOPIC),
                final(self).metatopic_value_map@[CLIENT_METATOPIC],
                old(identity).addr@,
                final(identity).name@,
            ) && final(self).metatopic_value_map@.remove(CLIENT_METATOPIC) == old(self).metatopic_value_map@.remove(
                CLIENT_METATOPIC,
            ),
    {
        let ghost m0 = self.model();
        proof {
            lemma_connect_wf(m0, identity.addr@, identity.name@);
        }
        if self.client_map.contains(identity) {
            return Err(NTServerError::ClientAlreadyExists(identity.to_display()));
        }
        let n = self.counters.client_idx;
        let mut count: u64 = 0;
        let mut c: ClientIdx = 0;
        while c < n
            invariant
                c <= n,
                n == m0.counters.client_idx,
                m0 == self.model(),
                count == count_named(m0.clients, identity.name@, c as nat),
                count <= c,
            decreases n - c,
        {
            proof {
                lemma_count_named_bound(m0.clients, identity.name@, c as nat);
            }
            match int_map_get(&self.clients, &c) {
                Some(client) => {
                    assert(m0.clients[c] == client_model(*client));
                    if contains_str(client.identity.name.as_str(), identity.name.as_str()) {
                        count = count + 1;
                    }
                },
                None => {},
            }
            c = c + 1;
        }
        let ghost name0 = identity.name@;
        if count > 0 {
            let new_name = identity.name.clone().concat("@").concat(to_decimal(count).as_str());
            identity.update_name(new_name);
        }
        assert(identity.name@ == numbered_name(name0, count as nat));
        let client = ConnectedClient::new(identity.clone());
        let name = identity.name.clone();
        let mte = identity.to_mte();
        let idx = self.counters.next_client_idx();
        int_map_insert(&mut self.clients, idx, client);
        self.client_map.insert(identity.clone(), idx);
        let ghost meta0 = self.metatopic_value_map@;
        let mut value = match int_map_remove(&mut self.metatopic_value_map, &CLIENT_METATOPIC) {
            Some(v) => v,
            None => MetaTopicValue::Client(Vec::new()),
        };
        let ghost value0 = value;
        let mut list = Vec::new();
        list.push(mte);
        value.merge(MetaTopicValue::Client(list));
        proof {
            match meta0.get(CLIENT_METATOPIC) {
                Some(MetaTopicValue::Client(a)) => {
                    assert(value matches MetaTopicValue::Client(l) && l@.drop_last() =~= a@);
                },
                None => {
                    assert(value matches MetaTopicValue::Client(l) && l@ =~= seq![mte]);
                },
                Some(v) => {},
            }
            assert(clients_joined(meta0.get(CLIENT_METATOPIC), value, identity.addr@, identity.name@));
        }
        int_map_insert(&mut self.metatopic_value_map, CLIENT_METATOPIC, value);
        let ghost m1 = self.model();
        proof {
            let m1s = ServerModel {
                clients: m0.clients.insert(idx, client_model(client)),
                client_map: m0.client_map.insert(key_of(*identity), idx),
                counters: self.counters,
                ..m0
            };
            assert(self.model().clients =~= m1s.clients);
            assert(self.model() =~= m1s);
            assert(model_wf(self.model()));
            crate::server::model::lemma_add_single_wf(self.model(), meta_topic(client_pub_meta_name(name@)));
        }
        let pub_idx = self.add_single(Topic::new_meta("$clientpub$".to_string().concat(name.as_str())));
        proof {
            crate::server::model::lemma_add_single_wf(self.model(), meta_topic(client_sub_meta_name(name@)));
        }
        let sub_idx = self.add_single(Topic::new_meta("$clientsub$".to_string().concat(name.as_str())));
        int_map_insert(&mut self.client_metatopic_map, idx, (pub_idx, sub_idx));
        proof {
            let (m, res, new_name) = connect_spec(m0, old(identity).addr@, name0);
            assert(self.model() =~= m);
        }
        Ok(idx)
    }

    /// Disconnects the client of identity `ident`.
    ///
    /// The identity is unmapped and the client removed; one publisher of each
    /// topic the client published is dropped, and a topic left with none is
    /// removed and its announcement withdrawn; then the client's meta-topics are removed, and its entry
    /// leaves the `$clients` list. The first error ends the operation.
    pub fn disconnect_client(&mut self, ident: ClientIdentity, actions: &mut Vec<ServerAction>) -> (r: Result<(), NTServerError>)
        requires
            old(self).wf(),
            disconnect_safe(old(self).model(), key_of(ident)),
        ensures
            final(self).wf(),
            exists|keys: Seq<u32>|
                #![trigger disconnect_spec(old(self).model(), key_of(ident), keys)]
                disconnected(old(self).model(), key_of(ident), keys, final(self).model(), outcome(r))
                    && action_models(final(actions)@) == action_models(old(actions)@) + disconnect_withdrawals(
                    old(self).model(),
                    key_of(ident),
                    keys,
                ) && if r is Ok {
                    client_left_at(
                        disconnect_metas(old(self).metatopic_value_map@, old(self).model(), key_of(ident), keys),
                        final(self).metatopic_value_map@,
                        CLIENT_METATOPIC,
                        ident.addr@,
                        ident.name@,
                    )
                } else {
                    final(self).metatopic_value_map@ == disconnect_metas(
                        old(self).metatopic_value_map@,
                        old(self).model(),
                        key_of(ident),
                        keys,
                    )
                },
    {
        let ghost m0 = self.model();
        let ghost key = key_of(ident);
        let idx = match self.client_map.remove(&ident) {
            Some(i) => i,
            None => {
                proof {
                    assert(self.client_map.view() =~= m0.client_map);
                    assert(self.model() =~= m0);
                    assert(disconnected(m0, key, Seq::empty(), self.model(), Err(ErrorKind::ClientDoesNotExist)));
                }
                return Err(NTServerError::ClientDoesNotExist(ident.to_display()));
            },
        };
        proof {
            lemma_disconnect_start(m0, key, idx);
        }
        let client = match int_map_remove(&mut self.clients, &idx) {
            Some(c) => c,
            None => {
                proof {
                    assert(self.clients@ =~= old(self).clients@);
                    assert(self.model() =~= ServerModel { client_map: m0.client_map.remove(key), ..m0 });
                    assert(disconnected(m0, key, Seq::empty(), self.model(), Err(ErrorKind::ClientDoesNotExist)));
                }
                return Err(NTServerError::ClientDoesNotExist(ident.to_display()));
            },
        };
        let ghost m2 = ServerModel { client_map: m0.client_map.remove(key), clients: m0.clients.remove(idx), ..m0 };
        proof {
            assert(self.model().clients =~= m2.clients);
            assert(self.model() =~= m2);
        }
        let ghost pubs = m0.clients[idx].pubs;
        let pairs = client.pubuid_to_topicidx.iter_lr();
        let ghost keys = pairs@.map_values(|p: (u32, u32)| p.0);
        let ghost order = published(keys, pubs);
        proof {
            assert(client_model(client) == m0.clients[idx]);
            assert forall|i: int, j: int| 0 <= i < j < keys.len() implies keys[i] != keys[j] by {
                assert(pairs@[i].0 != pairs@[j].0);
            }
            assert(keys.to_set() =~= pubs.dom()) by {
                assert forall|p: u32| #[trigger] pubs.contains_key(p) implies keys.to_set().contains(p) by {
                    let i = choose|i: int| 0 <= i < pairs@.len() && pairs@[i].0 == p;
                    assert(keys[i] == p);
                }
                assert forall|p: u32| keys.to_set().contains(p) implies #[trigger] pubs.contains_key(p) by {
                    let i = choose|i: int| 0 <= i < keys.len() && keys[i] == p;
                    assert(pairs@[i].0 == p);
                }
            }
            assert(lists_keys(keys, pubs));
            assert forall|t: TopicIdx| #[trigger] self.pub_count@.contains_key(t) implies occurrences(order, t) <= self.pub_count@[t] by {
                lemma_occurrences_count(keys, pubs, t);
                assert(listed_publishers(keys, pubs, t) =~= publishers_of(pubs, t));
                assert(self.pub_count@ == m0.pub_count);
                assert(m0.client_map[key] == idx);
                assert(m0.pub_count.contains_key(t));
                assert(publishers_of(pubs, t).len() <= m0.pub_count[t]);
            }
            assert(order.take(0) =~= Seq::<TopicIdx>::empty());
            assert(order.skip(0) =~= order);
        }
        let mut i: usize = 0;
        while i < pairs.len()
            invariant
                i <= pairs@.len(),
                order.len() == pairs@.len(),
                forall|j: int| 0 <= j < pairs@.len() ==> #[trigger] order[j] == pairs@[j].1,
                self.wf(),
                release_all(m2, order.take(i as int)) == (self.model(), Ok::<(), ErrorKind>(())),
                action_models(actions@) == action_models(old(actions)@) + release_all_withdrawals(m2, order.take(i as int)),
                forall|t: TopicIdx| #[trigger] self.pub_count@.contains_key(t) ==> occurrences(order.skip(i as int), t)
                    <= self.pub_count@[t],
                self.metatopic_value_map@ == release_all_metas(old(self).metatopic_value_map@, m2, order.take(i as int)),
                lists_keys(keys, pubs),
                order == published(keys, pubs),
                m0.client_map.contains_key(key) && m0.client_map[key] == idx && m0.clients.contains_key(idx),
                m0.clients[idx].pubs == pubs,
                m2 == (ServerModel { client_map: m0.client_map.remove(key), clients: m0.clients.remove(idx), ..m0 }),
                key == key_of(ident),
                m0 == old(self).model(),
            decreases pairs@.len() - i,
        {
            let t = pairs[i].1;
            let ghost ms = self.model();
            proof {
                assert(order.take(i + 1).drop_last() =~= order.take(i as int));
                assert(order.take(i + 1).last() == t);
                assert(order.skip(i as int).drop_first() =~= order.skip(i + 1));
                assert(order.skip(i as int)[0] == t);
                lemma_release(ms, t);
            }
            match int_map_get(&self.pub_count, &t) {
                Some(count) => {
                    let n: u16 = *count - 1;
                    int_map_insert(&mut self.pub_count, t, n);
                    proof {
                        assert(self.model() =~= ServerModel { pub_count: ms.pub_count.insert(t, n), ..ms });
                    }
                    if n == 0 {
                        let name = match int_map_get(&self.topics, &t) {
                            Some(topic) => topic.name.clone(),
                            None => String::new(),
                        };
                        let pub_meta = "$pub$".to_string().concat(name.as_str());
                        let sub_meta = "$sub$".to_string().concat(name.as_str());
                        let pub_meta_idx = self.topic_map.get(&pub_meta);
                        let sub_meta_idx = self.topic_map.get(&sub_meta);
                        proof {
                            reveal_strlit("$pub$");
                            reveal_strlit("$sub$");
                            assert(pub_meta@[1] != sub_meta@[1]);
                        }
                        match self.remove_topic(t) {
                            Ok(()) => {
                                let _ = self.un_announce_topics(name, t, actions);
                                match pub_meta_idx {
                                    Some(ip) => {
                                        let _ = self.un_announce_topics(pub_meta, ip, actions);
                                    },
                                    None => {},
                                }
                                match sub_meta_idx {
                                    Some(is) => {
                                        let _ = self.un_announce_topics(sub_meta, is, actions);
                                    },
                                    None => {},
                                }
                            },
                            Err(e) => {
                                proof {
                                    assert(release_all(m2, order.take(i + 1)) == (self.model(), Err::<(), ErrorKind>(kind(e))));
                                    lemma_release_all_stops(m2, order, i + 1, old(self).metatopic_value_map@);
                                    assert(release_all_withdrawals(m2, order.take(i + 1)) =~= release_all_withdrawals(m2, order.take(i as int)));
                                    assert(release_all(m2, order) == (self.model(), Err::<(), ErrorKind>(kind(e))));
                                    assert(disconnect_spec(m0, key, keys) == (self.model(), Err::<(), ErrorKind>(kind(e))));
                                    assert(disconnected(m0, key, keys, self.model(), outcome::<()>(Err(e))));
                                }
                                return Err(e);
                            },
                        }
                    }
                },
                None => {},
            }
            proof {
                assert(release_all(m2, order.take(i + 1)) == (self.model(), Ok::<(), ErrorKind>(())));
                assert forall|u: TopicIdx| #[trigger] self.pub_count@.contains_key(u) implies occurrences(order.skip(i + 1), u)
                    <= self.pub_count@[u] by {
                    assert(self.pub_count@ == release(ms, t).0.pub_count);
                    if u != t {
                        assert(release(ms, t).0.pub_count.get(u) == ms.pub_count.get(u));
                    }
                }
            }
            i = i + 1;
        }
        proof {
            assert(order.take(pairs@.len() as int) =~= order);
        }
        let ghost m3 = self.model();
        let r = match int_map_remove(&mut self.client_metatopic_map, &idx) {
            Some((ip, is)) => {
                proof {
                    assert(self.model() =~= ServerModel { client_meta: m3.client_meta.remove(idx), ..m3 });
                }
                match self.remove_meta_topic(ip) {
                    Ok(()) => self.remove_meta_topic(is),
                    Err(e) => Err(e),
                }
            },
            None => {
                proof {
                    assert(self.client_metatopic_map@ =~= m3.client_meta);
                    assert(self.model() =~= m3);
                }
                Ok(())
            },
        };
        proof {
            assert(disconnected(m0, key, keys, self.model(), outcome(r)));
        }
        if r.is_ok() {
            self.remove_client_entry(&ident.addr, &ident.name);
        }
        r
    }

    /// Takes the entry of the client of address `addr` and name `name` out of
    /// the `$clients` list.
    fn remove_client_entry(&mut self, addr: &String, name: &String)
        requires
            old(self).wf(),
        ensures
            final(self).wf(),
            client_left_at(old(self).metatopic_value_map@, final(self).metatopic_value_map@, CLIENT_METATOPIC, addr@, name@),
            final(self).model() == old(self).model(),
    {
        let ghost before = self.metatopic_value_map@;
        match int_map_remove(&mut self.metatopic_value_map, &CLIENT_METATOPIC) {
            Some(mut value) => {
                let ghost v0 = value;
                let mut list: Vec<ClientMetaValue> = Vec::new();
                list.push(ClientMetaValue { id: name.clone(), conn: addr.clone() });
                let ghost e = list@[0];
                value.reduce(MetaTopicValue::Client(list));
                proof {
                    match v0 {
                        MetaTopicValue::Client(a) => {
                            lemma_without_one_client(a@, e);
                            assert(not_client(addr@, name@) =~= (|x: ClientMetaValue| !(x.id@ == e.id@ && x.conn@ == e.conn@)));
                        },
                        _ => {},
                    }
                }
                int_map_insert(&mut self.metatopic_value_map, CLIENT_METATOPIC, value);
                proof {
                    assert(self.metatopic_value_map@.dom() =~= before.dom());
                    if !(v0 is Client) {
                        assert(self.metatopic_value_map@ =~= before);
                    }
                }
            },
            None => {
                assert(self.metatopic_value_map@ =~= before);
            },
        }
    }

    /// A started server: its own client at index 0, to which nothing is
    /// sent, and the meta-topics `$clients`, `$serversub` and `$serverpub`.
    pub fn new() -> (s: Self)
        ensures
            s.wf(),
            s.model() == initial_model(),
            s.metatopic_value_map@ == Map::<TopicIdx, MetaTopicValue>::empty(),
    {
        let mut s = ServerState {
            topics: int_map_with_capacity(128),
            topic_map: NameMap::new(),
            pub_count: int_map_with_capacity(64),
            topic_value_map: int_map_with_capacity(64),
            metatopic_value_map: int_map_with_capacity(64),
            client_map: IdentityMap::new(),
            clients: int_map_with_capacity(8),
            client_metatopic_map: int_map_with_capacity(8),
            subscriptions: int_map_with_capacity(64),
            topic_sub_map: int_map_with_capacity(64),
            sub_values: int_map_with_capacity(64),
            counters: Counter { topic_idx: 0, sub_idx: 0, client_idx: 0 },
        };
        let idx = s.counters.next_client_idx();
        let mut server_client = ConnectedClient::new(ClientIdentity::server());
        server_client.has_output = false;
        int_map_insert(&mut s.clients, idx, server_client);
        proof {
            assert(s.model().clients =~= bare_model().clients);
            assert(s.model().topics =~= bare_model().topics);
            assert(s.model().subscriptions =~= bare_model().subscriptions);
            assert(s.model().topic_subs =~= bare_model().topic_subs);
            assert(s.model().sub_values =~= bare_model().sub_values);
            assert(s.model() =~= bare_model());
            crate::server::model::lemma_add_single_wf(s.model(), meta_topic("$clients"@));
        }
        s.add_single(Topic::new_meta("$clients".to_string()));
        proof {
            crate::server::model::lemma_add_single_wf(s.model(), meta_topic("$serversub"@));
        }
        s.add_single(Topic::new_meta("$serversub".to_string()));
        proof {
            crate::server::model::lemma_add_single_wf(s.model(), meta_topic("$serverpub"@));
        }
        s.add_single(Topic::new_meta("$serverpub".to_string()));
        s
    }

    /// Asks for a flush of every client that can be sent to.
    pub fn flush_all(&self, actions: &mut Vec<ServerAction>) -> (r: Result<(), NTServerError>)
        requires
            self.wf(),
        ensures
            r is Ok,
            action_models(final(actions)@) == action_models(old(actions)@) + flushes(
                self.counters.client_idx as nat,
                self.model().clients,
            ),
    {
        let ghost a0 = actions@;
        let n = self.counters.client_idx;
        let mut c: ClientIdx = 0;
        while c < n
            invariant
                c <= n,
                n == self.counters.client_idx,
                action_models(actions@) == action_models(a0) + flushes(c as nat, self.model().clients),
            decreases n - c,
        {
            let ghost before = actions@;
            match int_map_get(&self.clients, &c) {
                Some(client) => {
                    if client.has_output {
                        actions.push(ServerAction::Flush(c));
                        proof {
                            assert(action_models(actions@) =~= action_models(before).push(ActionModel::Flush(c)));
                        }
                    }
                },
                None => {},
            }
            proof {
                assert(action_models(actions@) =~= action_models(a0) + flushes((c + 1) as nat, self.model().clients));
            }
            c = c + 1;
        }
        Ok(())
    }

    /// Asks for a flush of client `client_idx`; an error if it is not
    /// connected.
    pub fn flush_client(&self, client_idx: ClientIdx, actions: &mut Vec<ServerAction>) -> (r: Result<(), NTServerError>)
        ensures
            !self.model().clients.contains_key(client_idx) ==> outcome(r) == Err::<(), ErrorKind>(
                ErrorKind::ClientDoesNotExist,
            ) && final(actions)@ == old(actions)@,
            self.model().clients.contains_key(client_idx) ==> r is Ok && action_models(final(actions)@) == action_models(
                old(actions)@,
            ) + if self.model().clients[client_idx].has_output {
                seq![ActionModel::Flush(client_idx)]
            } else {
                Seq::empty()
            },
    {
        let ghost a0 = actions@;
        match int_map_get(&self.clients, &client_idx) {
            Some(client) => {
                if client.has_output {
                    actions.push(ServerAction::Flush(client_idx));
                    proof {
                        assert(action_models(actions@) =~= action_models(a0).push(ActionModel::Flush(client_idx)));
                    }
                } else {
                    proof {
                        assert(action_models(actions@) =~= action_models(a0) + Seq::empty());
                    }
                }
                Ok(())
            },
            None => Err(NTServerError::ClientDoesNotExist(
                "Client id: ".to_string().concat(to_decimal(client_idx as u64).as_str()),
            )),
        }
    }

    /// Withdraws the announcement of topic `topic_idx`, named `topic_name`:
    /// every client to which it was announced forgets it and, if it can be sent
    /// to, is sent the withdrawal.
    pub fn un_announce_topics(&mut self, topic_name: String, topic_idx: TopicIdx, actions: &mut Vec<ServerAction>) -> (r: Result<NtSuccess, NTServerError>)
        requires
            old(self).wf(),
        ensures
            r is Ok,
            final(self).wf(),
            final(self).model() == (ServerModel { clients: unmark_announced(old(self).model().clients, topic_idx), ..old(self).model() }),
            action_models(final(actions)@) == action_models(old(actions)@) + withdrawals(
                old(self).counters.client_idx as nat,
                old(self).model().clients,
                topic_name@,
                topic_idx,
            ),
            final(self).metatopic_value_map == old(self).metatopic_value_map,
    {
        let ghost m0 = self.model();
        let ghost a0 = actions@;
        proof {
            self.lemma_wf_counted();
        }
        let n = self.counters.client_idx;
        let mut c: ClientIdx = 0;
        proof {
            assert(self.model().clients =~= Map::new(
                |k: ClientIdx| m0.clients.contains_key(k),
                |k: ClientIdx| if k < c { ClientModel { announced: m0.clients[k].announced.remove(topic_idx), ..m0.clients[k] } } else { m0.clients[k] },
            ));
        }
        while c < n
            invariant
                c <= n,
                n == m0.counters.client_idx,
                forall|k: ClientIdx| #[trigger] m0.clients.contains_key(k) ==> k < n,
                self.model() == (ServerModel {
                    clients: Map::new(
                        |k: ClientIdx| m0.clients.contains_key(k),
                        |k: ClientIdx| if k < c { ClientModel { announced: m0.clients[k].announced.remove(topic_idx), ..m0.clients[k] } } else { m0.clients[k] },
                    ),
                    ..m0
                }),
                self.metatopic_value_map == old(self).metatopic_value_map,
                action_models(actions@) == action_models(a0) + withdrawals(c as nat, m0.clients, topic_name@, topic_idx),
            decreases n - c,
        {
            let ghost before = actions@;
            let ghost cl = self.model().clients;
            let ghost cond = m0.clients.contains_key(c) && m0.clients[c].announced.contains(topic_idx) && m0.clients[c].has_output;
            let ghost msgs = seq![MsgModel::UnAnnounce { name: topic_name@, id: topic_idx }];
            if int_map_contains(&self.clients, &c) {
                assert(cl.contains_key(c));
                assert(m0.clients.contains_key(c));
                assert(cl[c] == m0.clients[c]);
                let mut client = int_map_remove(&mut self.clients, &c).unwrap();
                assert(client_model(client) == m0.clients[c]);
                let removed = int_set_remove(&mut client.announced_topics, &topic_idx);
                let out = client.has_output;
                int_map_insert(&mut self.clients, c, client);
                if removed && out {
                    let mut list: Vec<NTMessage> = Vec::new();
                    list.push(NTMessage::UnAnnounce(UnAnnounce { name: topic_name.clone(), id: topic_idx }));
                    actions.push(ServerAction::Messages(c, list));
                    proof {
                        assert(list@.map_values(|m: NTMessage| msg_model(m)) =~= seq![MsgModel::UnAnnounce { name: topic_name@, id: topic_idx }]);
                        assert(action_models(actions@) =~= action_models(before).push(
                            ActionModel::Messages(c, seq![MsgModel::UnAnnounce { name: topic_name@, id: topic_idx }]),
                        ));
                    }
                }
                proof {
                    assert(self.model().clients =~= cl.insert(c, client_model(client)));
                    if !cond {
                        assert(actions@ == before);
                    }
                }
            } else {
                assert(!self.model().clients.contains_key(c));
                assert(!m0.clients.contains_key(c));
            }
            proof {
                assert(action_models(actions@) =~= action_models(before) + if cond {
                    seq![ActionModel::Messages(c, msgs)]
                } else {
                    Seq::empty()
                });
                assert(self.model().clients =~= Map::new(
                    |k: ClientIdx| m0.clients.contains_key(k),
                    |k: ClientIdx| if k < c + 1 { ClientModel { announced: m0.clients[k].announced.remove(topic_idx), ..m0.clients[k] } } else { m0.clients[k] },
                ));
                assert(action_models(actions@) =~= action_models(a0) + withdrawals((c + 1) as nat, m0.clients, topic_name@, topic_idx));
            }
            c = c + 1;
        }
        proof {
            assert(self.model().clients =~= unmark_announced(m0.clients, topic_idx));
            assert(self.model() =~= ServerModel { clients: unmark_announced(m0.clients, topic_idx), ..m0 });
        }
        Ok(NtSuccess)
    }

    /// Announces to subscription `sub_idx` every topic it cares about, in the
    /// order of the topic map: the topics are marked announced to its client,
    /// which is sent their announcements together.
    pub fn announce_all_topics_for(&mut self, sub_idx: SubIdx, actions: &mut Vec<ServerAction>) -> (r: Result<NtSuccess, NTServerError>)
        requires
            old(self).wf(),
        ensures
            final(self).wf(),
            ({
                let (m, res, emitted) = announce_all_spec(old(self).model(), name_order(old(self).topic_map.list()), sub_idx);
                &&& final(self).model() == m
                &&& (r is Ok) == (res is Ok)
                &&& r matches Err(e) ==> res == Err::<(), ErrorKind>(kind(e))
                &&& action_models(final(actions)@) == action_models(old(actions)@) + emitted
            }),
            final(self).metatopic_value_map == old(self).metatopic_value_map,
    {
        let ghost m0 = self.model();
        let ghost a0 = actions@;
        proof {
            lemma_announce_all_wf(m0, name_order(self.topic_map.list()), sub_idx);
        }
        let entry = match int_map_get(&self.subscriptions, &sub_idx) {
            Some(e) => e,
            None => {
                return Err(NTServerError::SubscriptionDoesNotExist(
                    "subscription idx ".to_string().concat(to_decimal(sub_idx as u64).as_str()).concat(
                        " could not be announced to [did not exist]",
                    ),
                ));
            },
        };
        let subscription = &entry.0;
        let client_idx = entry.1;
        let ghost subm = sub_model(*subscription);
        let ghost pred = announceable(m0, subm);
        let entries = self.topic_map.entries();
        let ghost order = name_order(entries@);
        let mut announce_msgs: Vec<NTMessage> = Vec::new();
        let mut announce_idxs: Vec<TopicIdx> = Vec::new();
        let mut i: usize = 0;
        while i < entries.len()
            invariant
                i <= entries@.len(),
                order == name_order(entries@),
                m0 == self.model(),
                m0.subscriptions.contains_key(sub_idx),
                subm == m0.subscriptions[sub_idx].0,
                subm == sub_model(*subscription),
                pred == announceable(m0, subm),
                announce_msgs@.map_values(|m: NTMessage| msg_model(m)) == announcements_of(m0, order.subrange(0, i as int).filter(pred)),
                announce_idxs@ == order.subrange(0, i as int).filter(pred).map_values(|e: (Seq<char>, TopicIdx)| e.1),
            decreases entries@.len() - i,
        {
            let name = &entries[i].0;
            let t = entries[i].1;
            let ghost e = order[i as int];
            let ghost before_msgs = announce_msgs@;
            proof {
                assert(e == (name@, t));
                reveal_with_fuel(Seq::filter, 1);
                assert(order.subrange(0, i + 1).drop_last() == order.subrange(0, i as int));
                assert(order.subrange(0, i + 1).last() == e);
            }
            if subscription.cares_about(name) {
                match int_map_get(&self.topics, &t) {
                    Some(topic) => {
                        #[verifier::truncate]
                        let id = t as i32;
                        let msg = Announce {
                            name: name.clone(),
                            id,
                            pubuid: None,
                            ty: topic.ty.clone(),
                            properties: match topic.properties {
                                Some(p) => p,
                                None => PublishProperties::default(),
                            },
                        };
                        announce_msgs.push(NTMessage::Announce(msg));
                        announce_idxs.push(t);
                        proof {
                            assert(pred(e));
                            assert(order.subrange(0, i + 1).filter(pred) == order.subrange(0, i as int).filter(pred).push(e));
                            assert(announce_msgs@.map_values(|m: NTMessage| msg_model(m)) =~= before_msgs.map_values(|m: NTMessage| msg_model(m)).push(
                                msg_model(announce_msgs@.last()),
                            ));
                            assert(announce_msgs@.map_values(|m: NTMessage| msg_model(m)) =~= announcements_of(m0, order.subrange(0, i + 1).filter(pred)));
                            assert(announce_idxs@ =~= order.subrange(0, i + 1).filter(pred).map_values(|e: (Seq<char>, TopicIdx)| e.1));
                        }
                    },
                    None => {
                        proof {
                            assert(!pred(e));
                            assert(order.subrange(0, i + 1).filter(pred) == order.subrange(0, i as int).filter(pred));
                        }
                    },
                }
            } else {
                proof {
                    assert(!pred(e));
                    assert(order.subrange(0, i + 1).filter(pred) == order.subrange(0, i as int).filter(pred));
                }
            }
            i = i + 1;
        }
        proof {
            assert(order.subrange(0, order.len() as int) == order);
            assert(entries@.len() == order.len());
        }
        if !int_map_contains(&self.clients, &client_idx) {
            return Err(NTServerError::ClientDoesNotExist(
                "client idx ".to_string().concat(to_decimal(client_idx as u64).as_str()).concat(
                    " could not be announced to [did not exist]",
                ),
            ));
        }
        let mut client = int_map_remove(&mut self.clients, &client_idx).unwrap();
        let ghost announced0 = client.announced_topics@;
        let ghost client0 = client_model(client);
        let mut j: usize = 0;
        while j < announce_idxs.len()
            invariant
                j <= announce_idxs@.len(),
                client_model(client) == (ClientModel { announced: client.announced_topics@, ..client0 }),
                client.announced_topics@ == announced0 + announce_idxs@.subrange(0, j as int).to_set(),
            decreases announce_idxs@.len() - j,
        {
            int_set_insert(&mut client.announced_topics, announce_idxs[j]);
            proof {
                let s0 = announce_idxs@.subrange(0, j as int);
                let s1 = announce_idxs@.subrange(0, j + 1);
                let x = announce_idxs@[j as int];
                assert forall|a: TopicIdx| s1.to_set().contains(a) == s0.to_set().insert(x).contains(a) by {
                    if s0.contains(a) {
                        let k = choose|k: int| 0 <= k < s0.len() && s0[k] == a;
                        assert(s1[k] == a);
                    }
                    if s1.contains(a) {
                        let k = choose|k: int| 0 <= k < s1.len() && s1[k] == a;
                        if k < j {
                            assert(s0[k] == a);
                        }
                    }
                    assert(s1[j as int] == x);
                }
                assert(s1.to_set() =~= s0.to_set().insert(x));
                assert(client.announced_topics@ =~= announced0 + announce_idxs@.subrange(0, j + 1).to_set());
            }
            j = j + 1;
        }
        proof {
            assert(announce_idxs@.subrange(0, announce_idxs@.len() as int) == announce_idxs@);
        }
        let out = client.has_output;
        int_map_insert(&mut self.clients, client_idx, client);
        if out {
            actions.push(ServerAction::Messages(client_idx, announce_msgs));
        }
        proof {
            let (m, res, emitted) = announce_all_spec(m0, order, sub_idx);
            let listed = order.filter(pred);
            assert(m0.subscriptions[sub_idx].1 == client_idx);
            assert(announce_idxs@ == listed.map_values(|e: (Seq<char>, TopicIdx)| e.1));
            assert(client_model(client).announced == m0.clients[client_idx].announced + listed.map_values(|e: (Seq<char>, TopicIdx)| e.1).to_set());
            assert(self.model().clients =~= m.clients);
            assert(self.model() =~= m);
            assert(action_models(actions@) =~= action_models(a0) + emitted);
        }
        Ok(NtSuccess)
    }
}

} // verus!
