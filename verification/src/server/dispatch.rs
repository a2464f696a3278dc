//! What the server does with each text message a client sends, and the checks
//! that tell whether a request would drive a publisher count below 0.

use vstd::prelude::*;

use crate::int_map::int_map_get;
use crate::protocol::messages::{NTMessage, PublishTopic};
use crate::protocol::metatopic::{publisher_added_at, publisher_removed_at, MetaTopicValue};
use crate::protocol::subscription::texts;
use crate::server::error::{outcome, ErrorKind, NTServerError};
use crate::server::identity_map::key_of;
use crate::server::model::{
    publish_safe, publish_spec, properties_notices, removed_metas, unpublish_withdrawals, set_properties_spec, unpublish_reaches_meta, subscribe_spec, unpublish_spec, unsubscribe_spec, ActionModel, ServerModel,
    SubModel, TopicModel,
};
use crate::server::session_model::{
    client_left_at, disconnect_metas, disconnect_safe, disconnect_spec, disconnect_withdrawals, disconnected, lemma_occurrences_count, listed_publishers, lists_keys, occurrences, published,
    publishers_of,
};
use crate::server::state::{
    action_models, name_order, ServerAction, ServerState, CLIENT_METATOPIC, SERVER_CLIENT_IDX, SERVER_PUB_METATOPIC,
};
use crate::server::util::{ClientIdentity, ClientIdx, TopicIdx};

verus! {

broadcast use vstd::std_specs::hash::group_hash_axioms;

/// Dropping the publisher `pubuid` of client `c` leaves its topic's count at
/// or above 0: the count, if the client, the id and the count exist, is
/// positive.
pub open spec fn unpublish_safe(m: ServerModel, pubuid: u32, c: ClientIdx) -> bool {
    m.clients.contains_key(c) && m.clients[c].pubs.contains_key(pubuid) && m.pub_count.contains_key(m.clients[c].pubs[pubuid])
        ==> m.pub_count[m.clients[c].pubs[pubuid]] > 0
}

/// The meta-values after client `c` publishes `p` on server `m`: on success
/// the publisher is added to the server's publisher meta-value (for the
/// server itself) or to the client's; on failure they are unchanged.
pub open spec fn publish_metas(
    before: Map<TopicIdx, MetaTopicValue>,
    after: Map<TopicIdx, MetaTopicValue>,
    m: ServerModel,
    p: PublishTopic,
    c: ClientIdx,
) -> bool {
    let (m1, res, emitted) = publish_spec(
        m,
        TopicModel { name: p.name@, ty: p.ty@, properties: p.properties },
        p.pubuid,
        c,
    );
    if res is Ok && c == SERVER_CLIENT_IDX {
        publisher_added_at(before, after, SERVER_PUB_METATOPIC, true, p.name@, p.pubuid)
    } else if res is Ok {
        publisher_added_at(before, after, m1.client_meta[c].0, false, p.name@, p.pubuid)
    } else {
        after == before
    }
}

/// The meta-values after client `c` drops publisher `pubuid` on server `m`:
/// where the drop goes through, a topic left without publishers loses its
/// two meta-values and the publisher leaves the server's or the client's
/// publisher meta-value (the client's gone, nothing more changes); otherwise
/// they are unchanged.
pub open spec fn unpublish_metas(
    before: Map<TopicIdx, MetaTopicValue>,
    after: Map<TopicIdx, MetaTopicValue>,
    m: ServerModel,
    pubuid: u32,
    c: ClientIdx,
) -> bool {
    let t = m.clients[c].pubs[pubuid];
    let name = if m.topics.contains_key(t) {
        m.topics[t].name
    } else {
        Seq::<char>::empty()
    };
    let metas = if m.pub_count[t] == 1 {
        before.remove(removed_metas(m, t).0).remove(removed_metas(m, t).1)
    } else {
        before
    };
    if unpublish_reaches_meta(m, pubuid, c) && c == SERVER_CLIENT_IDX {
        publisher_removed_at(metas, after, SERVER_PUB_METATOPIC, true, name, pubuid)
    } else if unpublish_reaches_meta(m, pubuid, c) && m.client_meta.contains_key(c) {
        publisher_removed_at(metas, after, m.client_meta[c].0, false, name, pubuid)
    } else if unpublish_reaches_meta(m, pubuid, c) {
        after == metas
    } else {
        after == before
    }
}

/// The meta-values after a close request, given those that the
/// disconnection's removals leave (`mid`): on success the client also leaves
/// the `$clients` list; otherwise they are `mid`.
pub open spec fn closed_metas(
    mid: Map<TopicIdx, MetaTopicValue>,
    after: Map<TopicIdx, MetaTopicValue>,
    ok: bool,
    addr: Seq<char>,
    name: Seq<char>,
) -> bool {
    if ok {
        client_left_at(mid, after, CLIENT_METATOPIC, addr, name)
    } else {
        after == mid
    }
}

/// A result without its value.
pub open spec fn unit_outcome<T>(r: Result<T, ErrorKind>) -> Result<(), ErrorKind> {
    match r {
        Ok(_) => Ok(()),
        Err(e) => Err(e),
    }
}

/// What handling message `msg` of client `c` did, the topic map's entries
/// listed in `order`: publishing, unpublishing, setting properties,
/// subscribing, unsubscribing and closing act as their operations do; any
/// other message changes nothing and gets no result.
pub open spec fn handled(
    m: ServerModel,
    order: Seq<(Seq<char>, TopicIdx)>,
    msg: NTMessage,
    c: ClientIdx,
    after: ServerModel,
    r: Option<Result<(), ErrorKind>>,
    emitted: Seq<ActionModel>,
) -> bool {
    match msg {
        NTMessage::Publish(p) => {
            let (m1, r1, a1) = publish_spec(m, TopicModel { name: p.name@, ty: p.ty@, properties: p.properties }, p.pubuid, c);
            after == m1 && r == Some(unit_outcome(r1)) && emitted == a1
        },
        NTMessage::Unpublish(u) => {
            let (m1, r1) = unpublish_spec(m, u.pubuid, c);
            after == m1 && r == Some(r1) && emitted == unpublish_withdrawals(m, u.pubuid, c)
        },
        NTMessage::SetProperties(s) => {
            let (m1, r1) = set_properties_spec(m, s.name@, s.update);
            after == m1 && r == Some(r1) && emitted == properties_notices(m, s.name@)
        },
        NTMessage::Subscribe(s) => {
            let (m1, r1, a1) = subscribe_spec(m, order, SubModel { subuid: s.subuid, topics: texts(s.topics@), options: s.options }, c);
            after == m1 && r == Some(r1) && emitted == a1
        },
        NTMessage::Unsubscribe(u) => {
            let (m1, r1) = unsubscribe_spec(m, u.subuid, c);
            after == m1 && r == Some(r1) && emitted.len() == 0
        },
        NTMessage::Close(cl) => r is Some && (exists|keys: Seq<u32>|
            disconnected(m, (cl.addr@, cl.name@), keys, after, r->0) && emitted == disconnect_withdrawals(
                m,
                (cl.addr@, cl.name@),
                keys,
            )),
        _ => after == m && r is None && emitted.len() == 0,
    }
}

/// The requirements of handling `msg` from client `c`: no publisher count may
/// go below 0.
pub open spec fn handling_safe(m: ServerModel, msg: NTMessage, c: ClientIdx) -> bool {
    match msg {
        NTMessage::Publish(p) => publish_safe(m, p.name@),
        NTMessage::Unpublish(u) => unpublish_safe(m, u.pubuid, c),
        NTMessage::Close(cl) => disconnect_safe(m, (cl.addr@, cl.name@)),
        _ => true,
    }
}

/// The model of an optional result.
pub open spec fn optional_outcome(r: Option<Result<(), NTServerError>>) -> Option<Result<(), ErrorKind>> {
    match r {
        Some(x) => Some(outcome(x)),
        None => None,
    }
}

impl ServerState {
    /// Whether topic `name` can be published without its publisher count
    /// going past its largest value.
    pub fn can_publish(&self, name: &String) -> (b: bool)
        ensures
            b == publish_safe(self.model(), name@),
    {
        match self.topic_map.get(name) {
            Some(t) => match int_map_get(&self.pub_count, &t) {
                Some(count) => *count < 0xffffu16,
                None => true,
            },
            None => true,
        }
    }

    /// Whether client `client_idx` can stop publishing with id `pubuid`
    /// without its topic's count going below 0.
    pub fn can_unpublish(&self, pubuid: u32, client_idx: ClientIdx) -> (b: bool)
        ensures
            b == unpublish_safe(self.model(), pubuid, client_idx),
    {
        match int_map_get(&self.clients, &client_idx) {
            Some(client) => match client.pubuid_to_topicidx.get_by_left(&pubuid) {
                Some(t) => match int_map_get(&self.pub_count, t) {
                    Some(count) => *count > 0,
                    None => true,
                },
                None => true,
            },
            None => true,
        }
    }

    /// Whether the client of identity `ident` can disconnect without a
    /// publisher count going below 0.
    pub fn can_disconnect(&self, ident: &ClientIdentity) -> (b: bool)
        ensures
            b == disconnect_safe(self.model(), key_of(*ident)),
    {
        let ghost m = self.model();
        let ghost key = key_of(*ident);
        let idx = match self.client_map.get(ident) {
            Some(i) => i,
            None => {
                return true;
            },
        };
        let client = match int_map_get(&self.clients, &idx) {
            Some(c) => c,
            None => {
                return true;
            },
        };
        let ghost pubs = m.clients[idx].pubs;
        let pairs = client.pubuid_to_topicidx.iter_lr();
        let ghost keys = pairs@.map_values(|p: (u32, u32)| p.0);
        let ghost order = published(keys, pubs);
        proof {
            assert forall|i: int, j: int| 0 <= i < j < keys.len() implies keys[i] != keys[j] by {
                assert(pairs@[i].0 != pairs@[j].0);
            }
            assert(keys.to_set() =~= pubs.dom()) by {
                assert forall|p: u32| #[trigger] pubs.contains_key(p) implies keys.to_set().contains(p) by {
                    let i = choose|i: int| 0 <= i < pairs@.len() && pairs@[i].0 == p;
                    assert(keys[i] == p);
                }
                assert forall|p: u32| keys.to_set().contains(p) implies #[trigger] pubs.contains_key(p) by {
                    let i = choose|i: int| 0 <= i < keys.len() && keys[i] == p;
                    assert(pairs@[i].0 == p);
                }
            }
            assert(lists_keys(keys, pubs));
            assert forall|t: TopicIdx| #[trigger] listed_publishers(keys, pubs, t) == publishers_of(pubs, t) by {
                assert(listed_publishers(keys, pubs, t) =~= publishers_of(pubs, t));
            }
            assert forall|j: int| 0 <= j < pairs@.len() implies #[trigger] order[j] == pairs@[j].1 by {}
        }
        let n = pairs.len();
        let mut i: usize = 0;
        while i < n
            invariant
                i <= n,
                n == pairs@.len(),
                order.len() == n,
                forall|j: int| 0 <= j < n ==> #[trigger] order[j] == pairs@[j].1,
                m == self.model(),
                forall|k: int| 0 <= k < i ==> (#[trigger] m.pub_count.contains_key(order[k]) ==> occurrences(order, order[k])
                    <= m.pub_count[order[k]]),
                keys.no_duplicates(),
                key == key_of(*ident),
                m.client_map.contains_key(key) && m.client_map[key] == idx && m.clients.contains_key(idx),
                pubs == m.clients[idx].pubs,
                order == published(keys, pubs),
                forall|t: TopicIdx| #[trigger] listed_publishers(keys, pubs, t) == publishers_of(pubs, t),
            decreases n - i,
        {
            let t = pairs[i].1;
            let mut cnt: u64 = 0;
            let mut j: usize = n;
            proof {
                assert(order.skip(n as int) =~= Seq::<TopicIdx>::empty());
            }
            while j > 0
                invariant
                    j <= n,
                    n == pairs@.len(),
                    order.len() == n,
                    forall|k: int| 0 <= k < n ==> #[trigger] order[k] == pairs@[k].1,
                    cnt == occurrences(order.skip(j as int), t),
                    cnt <= n - j,
                decreases j,
            {
                j = j - 1;
                proof {
                    assert(order.skip(j as int).drop_first() =~= order.skip(j + 1));
                    assert(order.skip(j as int)[0] == order[j as int]);
                }
                if pairs[j].1 == t {
                    cnt = cnt + 1;
                }
            }
            proof {
                assert(order.skip(0) =~= order);
            }
            match int_map_get(&self.pub_count, &t) {
                Some(count) => {
                    if cnt > *count as u64 {
                        proof {
                            lemma_occurrences_count(keys, pubs, t);
                            assert(m.pub_count.contains_key(t));
                            assert(m.client_map[key] == idx);
                            assert(publishers_of(pubs, t).len() > m.pub_count[t]);
                        }
                        return false;
                    }
                },
                None => {},
            }
            i = i + 1;
        }
        proof {
            assert(m.client_map[key] == idx);
            assert forall|t: TopicIdx| #[trigger] m.pub_count.contains_key(t) implies publishers_of(pubs, t).len() <= m.pub_count[t] by {
                lemma_occurrences_count(keys, pubs, t);
                if exists|k: int| 0 <= k < n && order[k] == t {
                    let k = choose|k: int| 0 <= k < n && order[k] == t;
                    assert(m.pub_count.contains_key(order[k]));
                } else {
                    assert(listed_publishers(keys, pubs, t) =~= Set::<u32>::empty()) by {
                        assert forall|p: u32| !#[trigger] listed_publishers(keys, pubs, t).contains(p) by {
                            if listed_publishers(keys, pubs, t).contains(p) {
                                let k = choose|k: int| 0 <= k < keys.len() && keys[k] == p;
                                assert(order[k] == pubs[p]);
                            }
                        }
                    }
                }
            }
        }
        true
    }

    /// Handles text message `msg` of client `client_idx`: a publish,
    /// unpublish, set-properties, subscribe, unsubscribe or close request
    /// runs its operation, whose result is returned; any other message is not
    /// one a client sends, and gets `None`.
    pub fn handle_message(&mut self, client_idx: ClientIdx, msg: NTMessage, actions: &mut Vec<ServerAction>) -> (r: Option<
        Result<(), NTServerError>,
    >)
        requires
            old(self).wf(),
            old(self).counters.topic_idx + 3 <= u32::MAX,
            old(self).counters.sub_idx < u32::MAX,
            handling_safe(old(self).model(), msg, client_idx),
        ensures
            final(self).wf(),
            handled(
                old(self).model(),
                name_order(old(self).topic_map.list()),
                msg,
                client_idx,
                final(self).model(),
                optional_outcome(r),
                action_models(final(actions)@).subrange(action_models(old(actions)@).len() as int, action_models(final(actions)@).len() as int),
            ),
            action_models(final(actions)@).subrange(0, action_models(old(actions)@).len() as int) == action_models(old(actions)@),
            !(msg is Publish || msg is Unpublish || msg is Close) ==> final(self).metatopic_value_map == old(self).metatopic_value_map,
            msg matches NTMessage::Publish(p) ==> publish_metas(
                old(self).metatopic_value_map@,
                final(self).metatopic_value_map@,
                old(self).model(),
                p,
                client_idx,
            ),
            msg matches NTMessage::Unpublish(u) ==> unpublish_metas(
                old(self).metatopic_value_map@,
                final(self).metatopic_value_map@,
                old(self).model(),
                u.pubuid,
                client_idx,
            ),
            msg matches NTMessage::Close(cl) ==> exists|keys: Seq<u32>|
                #![trigger disconnect_metas(old(self).metatopic_value_map@, old(self).model(), (cl.addr@, cl.name@), keys)]
                disconnected(old(self).model(), (cl.addr@, cl.name@), keys, final(self).model(), optional_outcome(r)->0)
                    && closed_metas(
                    disconnect_metas(old(self).metatopic_value_map@, old(self).model(), (cl.addr@, cl.name@), keys),
                    final(self).metatopic_value_map@,
                    optional_outcome(r)->0 is Ok,
                    cl.addr@,
                    cl.name@,
                ),
    {
        let ghost a0 = action_models(actions@);
        let ghost m0 = self.model();
        let ghost msg0 = msg;
        let ghost order = name_order(self.topic_map.list());
        let r = match msg {
            NTMessage::Publish(p) => {
                let r1 = match self.inner_publish_topic(p, client_idx, actions) {
                    Ok(_) => Some(Ok(())),
                    Err(e) => Some(Err(e)),
                };
                proof {
                    let a1 = action_models(actions@);
                    let (mm, res, emitted) = publish_spec(m0, TopicModel { name: p.name@, ty: p.ty@, properties: p.properties }, p.pubuid, client_idx);
                    assert(a1.subrange(a0.len() as int, a1.len() as int) =~= emitted);
                    assert(optional_outcome(r1) == Some(unit_outcome(res)));
                }
                r1
            },
            NTMessage::Unpublish(u) => {
                let r1 = Some(self.inner_unpublish_topic(u, client_idx, actions));
                proof {
                    let (mm, res) = unpublish_spec(m0, u.pubuid, client_idx);
                    assert(optional_outcome(r1) == Some(res));
                    let a1 = action_models(actions@);
                    assert(a1.subrange(a0.len() as int, a1.len() as int) =~= unpublish_withdrawals(m0, u.pubuid, client_idx));
                }
                r1
            },
            NTMessage::SetProperties(s) => {
                let r1 = Some(self.set_properties(s, actions));
                proof {
                    let (mm, res) = set_properties_spec(m0, s.name@, s.update);
                    assert(optional_outcome(r1) == Some(res));
                    let a1 = action_models(actions@);
                    assert(a1.subrange(a0.len() as int, a1.len() as int) =~= properties_notices(m0, s.name@));
                }
                r1
            },
            NTMessage::Subscribe(s) => {
                let ghost sm = SubModel { subuid: s.subuid, topics: texts(s.topics@), options: s.options };
                let r1 = Some(self.subscribe(s, client_idx, actions));
                proof {
                    let a1 = action_models(actions@);
                    let (mm, res, emitted) = subscribe_spec(m0, order, sm, client_idx);
                    assert(a1.subrange(a0.len() as int, a1.len() as int) =~= emitted);
                    assert(optional_outcome(r1) == Some(res));
                }
                r1
            },
            NTMessage::Unsubscribe(u) => {
                let r1 = Some(self.unsubscribe(u, client_idx));
                proof {
                    let (mm, res) = unsubscribe_spec(m0, u.subuid, client_idx);
                    assert(optional_outcome(r1) == Some(res));
                }
                r1
            },
            NTMessage::Close(cl) => {
                let ghost key = (cl.addr@, cl.name@);
                let ident = ClientIdentity::new(cl.addr, cl.name);
                let r1 = self.disconnect_client(ident, actions);
                proof {
                    let k = choose|keys: Seq<u32>|
                        #![trigger disconnect_spec(m0, key, keys)]
                        disconnected(m0, key, keys, self.model(), outcome(r1)) && action_models(actions@) == a0
                            + disconnect_withdrawals(m0, key, keys) && if r1 is Ok {
                            client_left_at(
                                disconnect_metas(old(self).metatopic_value_map@, m0, key, keys),
                                self.metatopic_value_map@,
                                CLIENT_METATOPIC,
                                key.0,
                                key.1,
                            )
                        } else {
                            self.metatopic_value_map@ == disconnect_metas(old(self).metatopic_value_map@, m0, key, keys)
                        };
                    assert(disconnected(m0, key, k, self.model(), optional_outcome(Some(r1))->0));
                    let a1 = action_models(actions@);
                    assert(a1.subrange(a0.len() as int, a1.len() as int) =~= disconnect_withdrawals(m0, key, k));
                    assert(closed_metas(
                        disconnect_metas(old(self).metatopic_value_map@, m0, key, k),
                        self.metatopic_value_map@,
                        optional_outcome(Some(r1))->0 is Ok,
                        key.0,
                        key.1,
                    ));
                }
                Some(r1)
            },
            _ => None,
        };
        proof {
            let a1 = action_models(actions@);
            assert(a1.subrange(0, a0.len() as int) =~= a0);
            if !(msg0 is Publish || msg0 is Subscribe || msg0 is Unpublish || msg0 is SetProperties || msg0 is Close) {
                assert(a1.subrange(a0.len() as int, a1.len() as int).len() == 0);
            }
        }
        r
    }
}

} // verus!
