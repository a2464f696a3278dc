//! Values on their way through the server: a client's value reaching its
//! topic, and the values kept for a subscription leaving for its client.

use vstd::prelude::*;

use crate::frc_type::type_code;
use crate::int_map::{int_map_get, int_map_insert, int_map_remove};
use crate::msgpack::{append_bytes, flatten, value_header};
use crate::protocol::flag;
use crate::protocol::subscription::options_or_default;
use crate::server::error::{outcome, ErrorKind, NTServerError};
use crate::server::model::{set_value_spec, ActionModel, ServerModel, StoredModel, ValueModel};
use crate::server::state::{action_models, stored_model, value_model, ServerAction, ServerState};
use crate::server::util::{hash_map_keys, ClientIdx, FrcTimestampedValueExt, ServerSendableValue, StoredSubValue, SubIdx, TimestampedValue, TopicIdx};
use crate::NtSuccess;

verus! {

broadcast use vstd::std_specs::hash::group_hash_axioms;

/// The topic that client `c` publishes under id `pubuid`, if any.
pub open spec fn published_topic(m: ServerModel, c: ClientIdx, pubuid: u32) -> Option<TopicIdx> {
    if m.clients.contains_key(c) && m.clients[c].pubs.contains_key(pubuid) {
        Some(m.clients[c].pubs[pubuid])
    } else {
        None
    }
}

/// The lists of values kept for a subscription, by topic.
pub open spec fn kept_lists(s: StoredModel) -> Map<TopicIdx, Seq<ValueModel>> {
    match s {
        StoredModel::All(m) => m,
        StoredModel::One(m) => m.map_values(|v: ValueModel| seq![v]),
    }
}

/// The same kind of store, keeping nothing.
pub open spec fn emptied(s: StoredModel) -> StoredModel {
    match s {
        StoredModel::All(_) => StoredModel::All(Map::empty()),
        StoredModel::One(_) => StoredModel::One(Map::empty()),
    }
}

/// The bytes sent for a kept value of topic id `topic_id`: its value message.
/// Nothing is sent for a meta-topic value: no operation of the server keeps
/// one for a subscription, and its message would be stamped by the clock.
pub open spec fn value_bytes(topic_id: i32, v: ValueModel) -> Seq<u8> {
    match v {
        ValueModel::Normal { timestamp, ty, value } => value_header(topic_id, timestamp, type_code(ty)) + value,
        ValueModel::Meta(_) => Seq::empty(),
    }
}

/// The bytes sent for a list of kept values of topic id `topic_id`, in order.
pub open spec fn values_bytes(topic_id: i32, vs: Seq<ValueModel>) -> Seq<u8> {
    flatten(vs.map_values(|v: ValueModel| value_bytes(topic_id, v)))
}

/// Every topic with values kept for subscription `s` fits the wire's signed
/// topic ids.
pub open spec fn kept_fit(m: ServerModel, s: SubIdx) -> bool {
    m.sub_values.contains_key(s) ==> forall|t: TopicIdx| #[trigger] kept_lists(m.sub_values[s]).contains_key(t) ==> t <= i32::MAX
}

/// The effect of sending subscription `s` its kept values, the topics taken in
/// the order `listing`: nothing if the subscription, its store or its client
/// does not exist; else the store is emptied, and a client that can be sent
/// to gets one binary message per topic with the bytes of its values.
pub open spec fn send_kept_spec(m: ServerModel, s: SubIdx, listing: Seq<TopicIdx>) -> (ServerModel, Seq<ActionModel>) {
    if !m.subscriptions.contains_key(s) || !m.sub_values.contains_key(s) || !m.clients.contains_key(m.subscriptions[s].1) {
        (m, Seq::empty())
    } else {
        let c = m.subscriptions[s].1;
        let kept = kept_lists(m.sub_values[s]);
        (
            ServerModel { sub_values: m.sub_values.insert(s, emptied(m.sub_values[s])), ..m },
            if m.clients[c].has_output {
                listing.map_values(|t: TopicIdx| ActionModel::Binary(c, values_bytes(t as i32, kept[t])))
            } else {
                Seq::empty()
            },
        )
    }
}

/// What sending the kept values of subscription `s` did: `listing` lists the
/// kept topics, each once, and the state and messages are those of that
/// order.
pub open spec fn sent_kept(m: ServerModel, s: SubIdx, listing: Seq<TopicIdx>, after: ServerModel, emitted: Seq<ActionModel>) -> bool {
    &&& m.subscriptions.contains_key(s) && m.sub_values.contains_key(s) && m.clients.contains_key(m.subscriptions[s].1)
        ==> listing.no_duplicates() && listing.to_set() == kept_lists(m.sub_values[s]).dom()
    &&& send_kept_spec(m, s, listing) == (after, emitted)
}

impl ServerState {
    /// Routes a value that client `client_idx` published under id `topic_uid`
    /// to its topic: `None` if the client or the id is unknown; else the
    /// result of setting the topic's value.
    pub fn apply_value(&mut self, client_idx: ClientIdx, topic_uid: u32, value: TimestampedValue) -> (r: Option<
        Result<NtSuccess, NTServerError>,
    >)
        requires
            old(self).wf(),
        ensures
            final(self).wf(),
            match published_topic(old(self).model(), client_idx, topic_uid) {
                None => r is None && final(self).model() == old(self).model(),
                Some(t) => {
                    let (m, res) = set_value_spec(old(self).model(), value, t);
                    r matches Some(x) && outcome(x) == unit_result(res) && final(self).model() == m
                },
            },
            final(self).metatopic_value_map == old(self).metatopic_value_map,
    {
        let topic_idx = match int_map_get(&self.clients, &client_idx) {
            Some(client) => match client.pubuid_to_topicidx.get_by_left(&topic_uid) {
                Some(t) => *t,
                None => {
                    return None;
                },
            },
            None => {
                return None;
            },
        };
        let r = self.set_value(value, topic_idx);
        proof {
            let (m, res) = set_value_spec(old(self).model(), value, topic_idx);
            assert(outcome(r) == unit_result(res));
        }
        Some(r)
    }

    /// Whether subscription `sub_idx` gets values, not only announcements.
    pub fn wants_values(&self, sub_idx: SubIdx) -> (b: bool)
        ensures
            b == (self.model().subscriptions.contains_key(sub_idx) && !flag(
                options_or_default(self.model().subscriptions[sub_idx].0.options).topics_only,
            )),
    {
        match int_map_get(&self.subscriptions, &sub_idx) {
            Some(entry) => {
                let topics_only = match entry.0.get_options().topics_only {
                    Some(b) => b,
                    None => false,
                };
                !topics_only
            },
            None => false,
        }
    }

    /// Whether every topic with values kept for subscription `sub_idx` fits
    /// the wire's signed topic ids.
    pub fn kept_topics_fit(&self, sub_idx: SubIdx) -> (b: bool)
        ensures
            b == kept_fit(self.model(), sub_idx),
    {
        let stored = match int_map_get(&self.sub_values, &sub_idx) {
            Some(s) => s,
            None => {
                return true;
            },
        };
        let ghost km = kept_lists(stored_model(*stored));
        assert(self.model().sub_values[sub_idx] == stored_model(*stored));
        let keys = match stored {
            StoredSubValue::All(map) => hash_map_keys(map),
            StoredSubValue::One(map) => hash_map_keys(map),
        };
        proof {
            assert(keys@.to_set() =~= km.dom());
        }
        let mut i: usize = 0;
        while i < keys.len()
            invariant
                i <= keys@.len(),
                keys@.to_set() == km.dom(),
                forall|j: int| 0 <= j < i ==> keys@[j] <= i32::MAX,
                self.model().sub_values.contains_key(sub_idx),
                km == kept_lists(self.model().sub_values[sub_idx]),
            decreases keys@.len() - i,
        {
            if keys[i] > 0x7fff_ffffu32 {
                proof {
                    assert(keys@.to_set().contains(keys@[i as int]));
                    assert(km.contains_key(keys@[i as int]));
                }
                return false;
            }
            i = i + 1;
        }
        proof {
            assert forall|t: TopicIdx| #[trigger] km.contains_key(t) implies t <= i32::MAX by {
                assert(keys@.to_set().contains(t));
            }
        }
        true
    }

    /// Sends subscription `sub_idx` the values kept for it: if it, its store
    /// and its client exist, the store is emptied and the client, if it can
    /// be sent to, gets one binary message per topic with the value messages
    /// of that topic's kept values, in the order they were kept.
    pub fn send_kept_values(&mut self, sub_idx: SubIdx, actions: &mut Vec<ServerAction>)
        requires
            old(self).wf(),
            kept_fit(old(self).model(), sub_idx),
        ensures
            final(self).wf(),
            exists|listing: Seq<TopicIdx>| sent_kept(
                old(self).model(),
                sub_idx,
                listing,
                final(self).model(),
                action_models(final(actions)@).subrange(action_models(old(actions)@).len() as int, action_models(final(actions)@).len() as int),
            ),
            action_models(final(actions)@).subrange(0, action_models(old(actions)@).len() as int) == action_models(old(actions)@),
            final(self).metatopic_value_map == old(self).metatopic_value_map,
    {
        let ghost m0 = self.model();
        let ghost a0 = action_models(actions@);
        let client_idx = match int_map_get(&self.subscriptions, &sub_idx) {
            Some(entry) => entry.1,
            None => {
                proof {
                    assert(action_models(actions@).subrange(a0.len() as int, a0.len() as int) =~= Seq::<ActionModel>::empty());
                    assert(action_models(actions@).subrange(0, a0.len() as int) =~= a0);
                    assert(sent_kept(m0, sub_idx, Seq::empty(), self.model(), Seq::empty()));
                }
                return;
            },
        };
        let out = match int_map_get(&self.clients, &client_idx) {
            Some(client) => client.has_output,
            None => {
                proof {
                    assert(action_models(actions@).subrange(a0.len() as int, a0.len() as int) =~= Seq::<ActionModel>::empty());
                    assert(action_models(actions@).subrange(0, a0.len() as int) =~= a0);
                    assert(sent_kept(m0, sub_idx, Seq::empty(), self.model(), Seq::empty()));
                }
                return;
            },
        };
        let mut stored = match int_map_remove(&mut self.sub_values, &sub_idx) {
            Some(s) => s,
            None => {
                proof {
                    assert(self.sub_values@ =~= old(self).sub_values@);
                    assert(self.model() =~= m0);
                    assert(action_models(actions@).subrange(a0.len() as int, a0.len() as int) =~= Seq::<ActionModel>::empty());
                    assert(action_models(actions@).subrange(0, a0.len() as int) =~= a0);
                    assert(sent_kept(m0, sub_idx, Seq::empty(), self.model(), Seq::empty()));
                }
                return;
            },
        };
        let ghost s0 = stored_model(stored);
        let ghost kept = kept_lists(s0);
        assert(m0.sub_values[sub_idx] == s0);
        assert(m0.subscriptions[sub_idx].1 == client_idx);
        let taken = stored.take_values();
        proof {
            assert(stored_model(stored) == emptied(s0)) by {
                if stored is All {
                    assert(stored->All_0@.map_values(|v: Vec<ServerSendableValue>| v@.map_values(|x: ServerSendableValue| value_model(x))) =~= Map::empty());
                } else {
                    assert(stored->One_0@.map_values(|x: ServerSendableValue| value_model(x)) =~= Map::empty());
                }
            }
            assert forall|t: TopicIdx| #[trigger] taken@.contains_key(t) <==> kept.contains_key(t) by {}
            assert forall|t: TopicIdx| #[trigger] taken@.contains_key(t) implies taken@[t]@.map_values(|x: ServerSendableValue| value_model(x))
                =~= kept[t] by {}
        }
        int_map_insert(&mut self.sub_values, sub_idx, stored);
        proof {
            assert(self.model().sub_values =~= m0.sub_values.insert(sub_idx, emptied(s0)));
            assert(self.model() =~= ServerModel { sub_values: m0.sub_values.insert(sub_idx, emptied(s0)), ..m0 });
            assert(crate::server::model::model_wf(self.model()));
        }
        let keys = hash_map_keys(&taken);
        let ghost listing = keys@;
        let mut i: usize = 0;
        while i < keys.len()
            invariant
                i <= keys@.len(),
                listing == keys@,
                listing.to_set() == taken@.dom(),
                self.model() == (ServerModel { sub_values: m0.sub_values.insert(sub_idx, emptied(s0)), ..m0 }),
                m0.clients.contains_key(client_idx) && m0.clients[client_idx].has_output == out,
                m0.subscriptions.contains_key(sub_idx) && m0.subscriptions[sub_idx].1 == client_idx,
                m0.sub_values.contains_key(sub_idx) && m0.sub_values[sub_idx] == s0,
                kept == kept_lists(s0),
                taken@.dom() == kept.dom(),
                forall|t: TopicIdx| #[trigger] taken@.contains_key(t) ==> t <= i32::MAX,
                forall|t: TopicIdx| #[trigger] taken@.contains_key(t) ==> taken@[t]@.map_values(|x: ServerSendableValue| value_model(x))
                    == kept[t],
                action_models(actions@) == a0 + if out {
                    listing.subrange(0, i as int).map_values(|t: TopicIdx| ActionModel::Binary(client_idx, values_bytes(t as i32, kept[t])))
                } else {
                    Seq::empty()
                },
            decreases keys@.len() - i,
        {
            let t = keys[i];
            proof {
                assert(listing.to_set().contains(listing[i as int]));
            }
            let values = match taken.get(&t) {
                Some(v) => v,
                None => {
                    proof {
                        assert(false);
                    }
                    return;
                },
            };
            #[verifier::truncate]
            let id = t as i32;
            let mut buf: Vec<u8> = Vec::new();
            let mut j: usize = 0;
            while j < values.len()
                invariant
                    j <= values@.len(),
                    buf@ == flatten(values@.subrange(0, j as int).map_values(|x: ServerSendableValue| value_bytes(id, value_model(x)))),
                decreases values@.len() - j,
            {
                let ghost before = buf@;
                match &values[j] {
                    ServerSendableValue::NormalValue(v) => {
                        let bytes = v.as_bytes(id);
                        append_bytes(&mut buf, bytes.as_slice());
                    },
                    ServerSendableValue::MTEValue(_) => {},
                }
                proof {
                    let s1 = values@.subrange(0, j + 1).map_values(|x: ServerSendableValue| value_bytes(id, value_model(x)));
                    assert(s1.drop_last() =~= values@.subrange(0, j as int).map_values(|x: ServerSendableValue| value_bytes(id, value_model(x))));
                    assert(s1.last() == value_bytes(id, value_model(values@[j as int])));
                    if values@[j as int] is MTEValue {
                        assert(buf@ =~= before + Seq::<u8>::empty());
                    }
                }
                j = j + 1;
            }
            proof {
                assert(values@.subrange(0, values@.len() as int) == values@);
                assert(id == t as i32);
                assert(values@.map_values(|x: ServerSendableValue| value_bytes(id, value_model(x))) =~= kept[t].map_values(
                    |v: ValueModel| value_bytes(id, v),
                ));
                assert(buf@ == values_bytes(t as i32, kept[t]));
            }
            let ghost acts = action_models(actions@);
            if out {
                actions.push(ServerAction::Binary(client_idx, buf));
                proof {
                    assert(action_models(actions@) =~= acts.push(ActionModel::Binary(client_idx, values_bytes(t as i32, kept[t]))));
                }
            }
            proof {
                assert(listing.subrange(0, i + 1) =~= listing.subrange(0, i as int).push(t));
                assert(action_models(actions@) =~= a0 + if out {
                    listing.subrange(0, i + 1).map_values(|t: TopicIdx| ActionModel::Binary(client_idx, values_bytes(t as i32, kept[t])))
                } else {
                    Seq::empty()
                });
            }
            i = i + 1;
        }
        proof {
            assert(listing.subrange(0, listing.len() as int) == listing);
            let a1 = action_models(actions@);
            assert(a1.subrange(0, a0.len() as int) =~= a0);
            assert(listing.to_set() =~= kept.dom());
            let em = if out {
                listing.map_values(|t: TopicIdx| ActionModel::Binary(client_idx, values_bytes(t as i32, kept[t])))
            } else {
                Seq::empty()
            };
            assert(a1.subrange(a0.len() as int, a1.len() as int) =~= em);
            assert(sent_kept(m0, sub_idx, listing, self.model(), a1.subrange(a0.len() as int, a1.len() as int)));
        }
    }
}

/// The result of an operation without its value.
pub open spec fn unit_result(r: Result<(), ErrorKind>) -> Result<NtSuccess, ErrorKind> {
    match r {
        Ok(_) => Ok(NtSuccess),
        Err(e) => Err(e),
    }
}

} // verus!
