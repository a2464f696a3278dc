//! Properties of the server that span its operations.

use vstd::prelude::*;

use crate::frc_type::type_string;

use crate::server::error::ErrorKind;
use crate::protocol::topic::implicit_publisher;
use crate::protocol::PublishProperties;
use crate::server::model::{stored_add_all, StoredModel, ValueModel, set_properties_spec, add_meta_spec, add_single_spec, add_topic_spec, announce_spec, append_sub, caring, interested_topics, lemma_announce_wf, lemma_append_sub_dom, meta_topic, model_wf, other_than, pub_meta_name, publish_spec, set_value_spec, sub_meta_name, subscribe_spec, unpublish_spec, unsubscribe_spec, ServerModel, SubModel, TopicModel};
use crate::server::session_model::{connect_spec, disconnect_safe, disconnected, lists_keys, publishers_of, unmark_announced};
use crate::server::util::{ClientIdx, SubIdx, TimestampedValue, TopicIdx};

verus! {

/// Filtering `s` out of a list that does not hold it leaves the list.
proof fn lemma_filter_absent(l: Seq<SubIdx>, s: SubIdx)
    requires
        forall|i: int| 0 <= i < l.len() ==> l[i] != s,
    ensures
        l.filter(other_than(s)) == l,
    decreases l.len(),
{
    reveal_with_fuel(Seq::filter, 1);
    if l.len() > 0 {
        lemma_filter_absent(l.drop_last(), s);
        assert(l.drop_last().push(l.last()) =~= l);
    }
}

/// After `s` joined the lists of some topics, filtering it out of a list
/// gives that list filtered before.
proof fn lemma_append_sub_filtered(ts: Map<TopicIdx, Seq<SubIdx>>, topics: Seq<(Seq<char>, TopicIdx)>, s: SubIdx, t: TopicIdx)
    requires
        ts.contains_key(t),
        forall|i: int| 0 <= i < topics.len() ==> ts.contains_key(#[trigger] topics[i].1),
    ensures
        append_sub(ts, topics, s).contains_key(t),
        append_sub(ts, topics, s)[t].filter(other_than(s)) == ts[t].filter(other_than(s)),
    decreases topics.len(),
{
    if topics.len() > 0 {
        let rest = topics.drop_last();
        assert forall|i: int| 0 <= i < rest.len() implies ts.contains_key(#[trigger] rest[i].1) by {
            assert(rest[i] == topics[i]);
        }
        lemma_append_sub_filtered(ts, rest, s, t);
        lemma_append_sub_dom(ts, rest, s);
        let before = append_sub(ts, rest, s);
        let u = topics.last().1;
        assert(ts.contains_key(topics[topics.len() - 1].1));
        if u == t {
            let l = before[t];
            reveal_with_fuel(Seq::filter, 1);
            assert(l.push(s).drop_last() =~= l);
            assert(l.push(s).filter(other_than(s)) == l.filter(other_than(s)));
        }
    }
}

/// Unsubscribing right after subscribing, with the same id, undoes the
/// subscription: the subscriptions, the values kept for them, the lists of
/// subscriptions of every topic, the topics and their values are as before.
/// Both operations succeed when the client is connected and the id is not in
/// use (a subscription under a used id replaces the one there); `order` lists
/// the topic map's entries, as subscribing is given them.
pub proof fn law_unsubscribe_undoes_subscribe(m: ServerModel, order: Seq<(Seq<char>, TopicIdx)>, sub: SubModel, c: ClientIdx)
    requires
        model_wf(m),
        m.clients.contains_key(c),
        !m.clients[c].subs.contains_key(sub.subuid as u32),
        forall|i: int| 0 <= i < order.len() ==> m.topic_map.contains_key(#[trigger] order[i].0) && m.topic_map[order[i].0] == order[i].1,
    ensures
        ({
            let (m1, r1, a1) = subscribe_spec(m, order, sub, c);
            let (m2, r2) = unsubscribe_spec(m1, sub.subuid, c);
            &&& r1 is Ok
            &&& r2 is Ok
            &&& m2.subscriptions == m.subscriptions
            &&& m2.sub_values == m.sub_values
            &&& m2.topic_subs == m.topic_subs
            &&& m2.topics == m.topics
            &&& m2.topic_map == m.topic_map
            &&& m2.values == m.values
        }),
{
    let s = m.counters.sub_idx;
    let it = interested_topics(order, sub);
    let (m1, r1, a1) = subscribe_spec(m, order, sub, c);
    assert(!m.sub_values.contains_key(s));
    assert(!m.subscriptions.contains_key(s));
    assert(m1.clients[c].subs[sub.subuid as u32] == s);
    let (m2, r2) = unsubscribe_spec(m1, sub.subuid, c);
    assert(m2.subscriptions =~= m.subscriptions);
    assert(m2.sub_values =~= m.sub_values);
    assert forall|i: int| 0 <= i < it.len() implies m.topic_subs.contains_key(#[trigger] it[i].1) by {
        order.lemma_filter_pred(caring(sub), i);
        order.lemma_filter_contains_rev(caring(sub), it[i]);
        let j = choose|j: int| 0 <= j < order.len() && order[j] == it[i];
        assert(m.topic_map.contains_key(order[j].0));
    }
    lemma_append_sub_dom(m.topic_subs, it, s);
    assert forall|t: TopicIdx| #[trigger] m.topic_subs.contains_key(t) implies m2.topic_subs[t] == m.topic_subs[t] by {
        lemma_append_sub_filtered(m.topic_subs, it, s, t);
        assert forall|i: int| 0 <= i < m.topic_subs[t].len() implies m.topic_subs[t][i] != s by {
            assert(m.topic_subs[t][i] < m.counters.sub_idx);
        }
        lemma_filter_absent(m.topic_subs[t], s);
    }
    assert(m2.topic_subs =~= m.topic_subs);
}

/// Subscribing under an id the client already uses replaces that
/// subscription: the request succeeds, the id maps to the new subscription,
/// and the old one is gone from the subscriptions, from the values kept and
/// from every topic's list; `order` lists the topic map's entries, as
/// subscribing is given them.
pub proof fn law_resubscribe_replaces(m: ServerModel, order: Seq<(Seq<char>, TopicIdx)>, sub: SubModel, c: ClientIdx)
    requires
        model_wf(m),
        m.clients.contains_key(c),
        m.clients[c].subs.contains_key(sub.subuid as u32),
        m.subscriptions.contains_key(m.clients[c].subs[sub.subuid as u32]),
        forall|i: int| 0 <= i < order.len() ==> m.topic_map.contains_key(#[trigger] order[i].0) && m.topic_map[order[i].0] == order[i].1,
    ensures
        ({
            let old_s = m.clients[c].subs[sub.subuid as u32];
            let new_s = m.counters.sub_idx;
            let (m1, r1, a1) = subscribe_spec(m, order, sub, c);
            &&& r1 is Ok
            &&& m1.clients[c].subs[sub.subuid as u32] == new_s
            &&& m1.subscriptions[new_s] == (sub, c)
            &&& !m1.subscriptions.contains_key(old_s)
            &&& !m1.sub_values.contains_key(old_s)
            &&& forall|t: TopicIdx| #[trigger] m1.topic_subs.contains_key(t) ==> !m1.topic_subs[t].contains(old_s)
        }),
{
    let old_s = m.clients[c].subs[sub.subuid as u32];
    let s = m.counters.sub_idx;
    assert(m.sub_values.contains_key(old_s));
    assert(old_s != s);
    let (mu, ru) = unsubscribe_spec(m, sub.subuid, c);
    crate::server::model::lemma_unsubscribe_wf(m, sub.subuid, c);
    assert(mu.counters == m.counters);
    assert(mu.topic_map == m.topic_map);
    let it = interested_topics(order, sub);
    assert forall|i: int| 0 <= i < it.len() implies mu.topic_subs.contains_key(#[trigger] it[i].1) by {
        order.lemma_filter_pred(caring(sub), i);
        order.lemma_filter_contains_rev(caring(sub), it[i]);
        let j = choose|j: int| 0 <= j < order.len() && order[j] == it[i];
        assert(m.topic_map.contains_key(order[j].0));
    }
    lemma_append_sub_dom(mu.topic_subs, it, s);
    let (m1, r1, a1) = subscribe_spec(m, order, sub, c);
    assert forall|t: TopicIdx| #[trigger] m1.topic_subs.contains_key(t) implies !m1.topic_subs[t].contains(old_s) by {
        if m1.topic_subs[t].contains(old_s) {
            let i = choose|i: int| 0 <= i < m1.topic_subs[t].len() && m1.topic_subs[t][i] == old_s;
            assert(mu.topic_subs.contains_key(t) && mu.topic_subs[t].contains(old_s));
            let j = choose|j: int| 0 <= j < mu.topic_subs[t].len() && mu.topic_subs[t][j] == old_s;
            assert(mu.topic_subs[t] == m.topic_subs[t].filter(other_than(old_s)));
            m.topic_subs[t].lemma_filter_contains_rev(other_than(old_s), old_s);
            m.topic_subs[t].filter_lemma(other_than(old_s));
        }
    }
}

/// After a value of the topic's type is set, the topic's latest value is at
/// least as recent as both the value set and the one it had: it is the value
/// set unless the one it had is at least as recent, and then the latest
/// values stay as they were.
pub proof fn law_set_value_keeps_latest(m: ServerModel, v: TimestampedValue, t: TopicIdx)
    requires
        set_value_spec(m, v, t).1 is Ok,
        type_string(v.ty) == m.topics[t].ty,
    ensures
        ({
            let m1 = set_value_spec(m, v, t).0;
            &&& m1.values.contains_key(t)
            &&& m1.values[t].timestamp >= v.timestamp
            &&& m.values.contains_key(t) ==> m1.values[t].timestamp >= m.values[t].timestamp
            &&& m1.values[t] == v || (m.values.contains_key(t) && m1.values == m.values && m.values[t].timestamp
                >= v.timestamp)
        }),
{
}

/// A client that just connected can disconnect, and disconnecting it removes
/// it: its identity is unmapped and it and its meta-topic indices are gone,
/// whatever the result.
pub proof fn law_disconnect_after_connect(
    m: ServerModel,
    addr: Seq<char>,
    name: Seq<char>,
    keys: Seq<u32>,
    after: ServerModel,
    r: Result<(), ErrorKind>,
)
    requires
        model_wf(m),
        connect_spec(m, addr, name).1 is Ok,
        disconnected(connect_spec(m, addr, name).0, (addr, connect_spec(m, addr, name).2), keys, after, r),
    ensures
        ({
            let (m1, r1, new_name) = connect_spec(m, addr, name);
            let c = r1->Ok_0;
            &&& disconnect_safe(m1, (addr, new_name))
            &&& !after.client_map.contains_key((addr, new_name))
            &&& !after.clients.contains_key(c)
            &&& !after.client_meta.contains_key(c)
        }),
{
    let (m1, r1, new_name) = connect_spec(m, addr, name);
    let key = (addr, new_name);
    let c = m.counters.client_idx;
    assert(m1.client_map.contains_key(key) && m1.client_map[key] == c);
    assert(m1.clients.contains_key(c));
    let pubs = m1.clients[c].pubs;
    assert(pubs == Map::<u32, TopicIdx>::empty());
    assert forall|t: TopicIdx| #[trigger] m1.pub_count.contains_key(t) implies publishers_of(pubs, t).len() <= m1.pub_count[t] by {
        assert(publishers_of(pubs, t) =~= Set::<u32>::empty());
    }
    assert(lists_keys(keys, pubs));
    if keys.len() > 0 {
        assert(keys.to_set().contains(keys[0]));
    }
    assert(keys.map_values(|p: u32| pubs[p]) =~= Seq::<TopicIdx>::empty());
}

/// Once a topic's announcement is withdrawn, no client has it announced.
pub proof fn law_withdrawn_everywhere(clients: Map<ClientIdx, crate::server::model::ClientModel>, t: TopicIdx)
    ensures
        forall|c: ClientIdx| #[trigger] unmark_announced(clients, t).contains_key(c) ==> !unmark_announced(clients, t)[c].announced.contains(t),
        unmark_announced(clients, t).dom() == clients.dom(),
{
    assert(unmark_announced(clients, t).dom() =~= clients.dom());
}

/// Adding and announcing a meta-topic under a name not yet mapped succeeds,
/// gives it the next topic index and a publisher count of 1, and keeps the
/// rest.
proof fn lemma_add_fresh_meta(m: ServerModel, name: Seq<char>)
    requires
        model_wf(m),
        !m.topic_map.contains_key(name),
        m.counters.topic_idx < u32::MAX,
    ensures
        ({
            let (m1, r1, a1) = add_meta_spec(m, name);
            let i = m.counters.topic_idx;
            &&& r1 is Ok
            &&& model_wf(m1)
            &&& m1.topic_map == m.topic_map.insert(name, i)
            &&& m1.topics == m.topics.insert(i, meta_topic(name))
            &&& m1.pub_count == m.pub_count.insert(i, 1u16)
            &&& m1.values == m.values
            &&& m1.client_meta == m.client_meta
            &&& m1.clients.dom() == m.clients.dom()
            &&& m1.counters.topic_idx == i + 1
        }),
{
    let (m0, i) = add_single_spec(m, meta_topic(name));
    crate::server::model::lemma_add_single_wf(m, meta_topic(name));
    lemma_announce_wf(m0, i, None);
}

/// A topic that one client starts to publish, under a fresh name with fresh
/// meta-topic names and without properties that keep it alive, and then stops
/// publishing, is removed: both requests succeed, and afterwards the topic,
/// its name, its publisher count and its value are gone, and no client has
/// it or either of its meta-topics announced any more.
pub proof fn law_unpublish_removes_sole_topic(m: ServerModel, t: TopicModel, pubuid: u32, c: ClientIdx)
    requires
        model_wf(m),
        m.counters.topic_idx + 3 <= u32::MAX,
        m.clients.contains_key(c),
        c == 0 || m.client_meta.contains_key(c),
        !t.name.contains('$'),
        !implicit_publisher(t.properties),
        !m.topic_map.contains_key(t.name),
        !m.topic_map.contains_key(pub_meta_name(t.name)),
        !m.topic_map.contains_key(sub_meta_name(t.name)),
    ensures
        ({
            let (m1, r1, a1) = publish_spec(m, t, pubuid, c);
            let (m2, r2) = unpublish_spec(m1, pubuid, c);
            let i = m.counters.topic_idx;
            &&& r1 == Ok::<TopicIdx, ErrorKind>(i)
            &&& r2 is Ok
            &&& !m2.topics.contains_key(i)
            &&& !m2.topic_map.contains_key(t.name)
            &&& !m2.pub_count.contains_key(i)
            &&& !m2.values.contains_key(i)
            &&& forall|k: ClientIdx| #[trigger] m2.clients.contains_key(k) ==> {
                &&& !m2.clients[k].announced.contains(i)
                &&& !m2.clients[k].announced.contains(m1.topic_map[pub_meta_name(t.name)])
                &&& !m2.clients[k].announced.contains(m1.topic_map[sub_meta_name(t.name)])
            }
        }),
{
    let i = m.counters.topic_idx;
    let name = t.name;
    reveal_strlit("$pub$");
    reveal_strlit("$sub$");
    let (ma, ia) = add_single_spec(m, t);
    crate::server::model::lemma_add_single_wf(m, t);
    assert(ma.topic_map == m.topic_map.insert(name, i));
    assert(pub_meta_name(name) != name) by {
        assert(pub_meta_name(name).len() != name.len());
    }
    assert(sub_meta_name(name) != name) by {
        assert(sub_meta_name(name).len() != name.len());
    }
    assert(pub_meta_name(name) != sub_meta_name(name)) by {
        assert(pub_meta_name(name)[1] == 'p');
        assert(sub_meta_name(name)[1] == 's');
    }
    lemma_add_fresh_meta(ma, pub_meta_name(name));
    let (mb, rb, ab) = add_meta_spec(ma, pub_meta_name(name));
    lemma_add_fresh_meta(mb, sub_meta_name(name));
    let (mc, rc, ac) = add_meta_spec(mb, sub_meta_name(name));
    assert(add_topic_spec(m, t).0 == mc);
    assert(add_topic_spec(m, t).1 == Ok::<TopicIdx, ErrorKind>(i));
    assert(mc.topics.contains_key(i));
    assert(mc.clients.contains_key(c));
    lemma_announce_wf(mc, i, Some((pubuid, c)));
    let (md, rd, ad) = announce_spec(mc, i, Some((pubuid, c)));
    assert(rd is Ok);
    let (m1, r1, a1) = publish_spec(m, t, pubuid, c);
    assert(m1.clients[c].pubs[pubuid] == i);
    assert(m1.pub_count[i] == 1);
    assert(m1.client_meta == m.client_meta);
    let (m2, r2) = unpublish_spec(m1, pubuid, c);
    assert(m1.topic_map.contains_key(pub_meta_name(name)));
    assert(m1.topic_map.remove(pub_meta_name(name)).contains_key(sub_meta_name(name)));
    assert(m1.topics[i].name == name);
}

/// A retained or persistent topic survives its last publisher: a topic that
/// one client starts to publish, under a fresh name with fresh meta-topic
/// names and with a property that keeps it alive, and then stops publishing,
/// stays, under its name, with one publisher counted.
pub proof fn law_retained_topic_survives_unpublish(m: ServerModel, t: TopicModel, pubuid: u32, c: ClientIdx)
    requires
        model_wf(m),
        m.counters.topic_idx + 3 <= u32::MAX,
        m.clients.contains_key(c),
        c == 0 || m.client_meta.contains_key(c),
        !t.name.contains('$'),
        implicit_publisher(t.properties),
        !m.topic_map.contains_key(t.name),
        !m.topic_map.contains_key(pub_meta_name(t.name)),
        !m.topic_map.contains_key(sub_meta_name(t.name)),
    ensures
        ({
            let (m1, r1, a1) = publish_spec(m, t, pubuid, c);
            let (m2, r2) = unpublish_spec(m1, pubuid, c);
            let i = m.counters.topic_idx;
            &&& r1 == Ok::<TopicIdx, ErrorKind>(i)
            &&& r2 is Ok
            &&& m2.topics.contains_key(i)
            &&& m2.topic_map.contains_key(t.name) && m2.topic_map[t.name] == i
            &&& m2.pub_count.contains_key(i) && m2.pub_count[i] == 1
        }),
{
    let i = m.counters.topic_idx;
    let name = t.name;
    reveal_strlit("$pub$");
    reveal_strlit("$sub$");
    let (ma, ia) = add_single_spec(m, t);
    crate::server::model::lemma_add_single_wf(m, t);
    assert(ma.topic_map == m.topic_map.insert(name, i));
    assert(pub_meta_name(name) != name) by {
        assert(pub_meta_name(name).len() != name.len());
    }
    assert(sub_meta_name(name) != name) by {
        assert(sub_meta_name(name).len() != name.len());
    }
    assert(pub_meta_name(name) != sub_meta_name(name)) by {
        assert(pub_meta_name(name)[1] == 'p');
        assert(sub_meta_name(name)[1] == 's');
    }
    lemma_add_fresh_meta(ma, pub_meta_name(name));
    let (mb, rb, ab) = add_meta_spec(ma, pub_meta_name(name));
    lemma_add_fresh_meta(mb, sub_meta_name(name));
    let (mc, rc, ac) = add_meta_spec(mb, sub_meta_name(name));
    assert(add_topic_spec(m, t).0 == mc);
    assert(add_topic_spec(m, t).1 == Ok::<TopicIdx, ErrorKind>(i));
    assert(mc.topics.contains_key(i));
    assert(mc.clients.contains_key(c));
    lemma_announce_wf(mc, i, Some((pubuid, c)));
    let (md, rd, ad) = announce_spec(mc, i, Some((pubuid, c)));
    assert(rd is Ok);
    let (m1, r1, a1) = publish_spec(m, t, pubuid, c);
    assert(m1.clients[c].pubs[pubuid] == i);
    assert(m1.pub_count[i] == 2);
    assert(m1.client_meta == m.client_meta);
    let (m2, r2) = unpublish_spec(m1, pubuid, c);
    assert(m1.topic_map.contains_key(pub_meta_name(name)));
    assert(m1.topic_map.remove(pub_meta_name(name)).contains_key(sub_meta_name(name)));
    assert(m1.topics[i].name == name);
}

/// Updating a topic's properties overwrites each flag the update sets and
/// keeps each flag it leaves unset (unset where the topic had no properties);
/// the topic's other fields, and every other topic, stay as they were. So a
/// set flag can be turned off again.
pub proof fn law_set_properties_overwrites_named_flags(m: ServerModel, name: Seq<char>, u: PublishProperties)
    requires
        set_properties_spec(m, name, u).1 is Ok,
    ensures
        ({
            let m1 = set_properties_spec(m, name, u).0;
            let t = m.topic_map[name];
            let before = m.topics[t];
            let after = m1.topics[t];
            &&& m1.topic_map == m.topic_map
            &&& m1.topics.dom() == m.topics.dom()
            &&& after.properties is Some
            &&& u.persistent is Some ==> after.properties->0.persistent == u.persistent
            &&& u.retained is Some ==> after.properties->0.retained == u.retained
            &&& u.persistent is None ==> after.properties->0.persistent == (match before.properties {
                Some(p) => p.persistent,
                None => None,
            })
            &&& u.retained is None ==> after.properties->0.retained == (match before.properties {
                Some(p) => p.retained,
                None => None,
            })
            &&& after.name == before.name && after.ty == before.ty
            &&& forall|k: TopicIdx| #[trigger] m.topics.contains_key(k) && k != t ==> m1.topics[k] == m.topics[k]
        }),
{
    let m1 = set_properties_spec(m, name, u).0;
    assert(m1.topics.dom() =~= m.topics.dom());
}

/// Adding `v` under topic `t` for each subscription of `subs`: a subscription
/// that keeps only the latest value then keeps `v` for `t`, one that keeps
/// all values has `v` last for `t`; each keeps its kind, and those not in
/// `subs` are untouched.
proof fn lemma_added_for_each(sv: Map<SubIdx, StoredModel>, subs: Seq<SubIdx>, t: TopicIdx, v: ValueModel, s: SubIdx)
    requires
        sv.contains_key(s),
    ensures
        ({
            let r = stored_add_all(sv, subs, t, v);
            &&& r.contains_key(s)
            &&& (r[s] is One) == (sv[s] is One)
            &&& !subs.contains(s) ==> r[s] == sv[s]
            &&& subs.contains(s) ==> match r[s] {
                StoredModel::One(k) => k.contains_key(t) && k[t] == v,
                StoredModel::All(k) => k.contains_key(t) && k[t].len() > 0 && k[t].last() == v,
            }
        }),
    decreases subs.len(),
{
    if subs.len() > 0 {
        lemma_added_for_each(sv, subs.drop_last(), t, v, s);
        let before = stored_add_all(sv, subs.drop_last(), t, v);
        if subs.last() != s && subs.contains(s) {
            let i = choose|i: int| 0 <= i < subs.len() && subs[i] == s;
            assert(subs.drop_last()[i] == s);
        }
        if subs.last() != s && !subs.contains(s) {
            assert(!subs.drop_last().contains(s)) by {
                if subs.drop_last().contains(s) {
                    let i = choose|i: int| 0 <= i < subs.drop_last().len() && subs.drop_last()[i] == s;
                    assert(subs[i] == s);
                }
            }
        }
        if subs.last() == s {
            assert(subs.contains(s)) by {
                assert(subs[subs.len() - 1] == s);
            }
        }
    }
}

/// Setting a value of the topic's type that is not older than the topic's
/// latest value reaches every subscriber of the topic: a subscription that
/// keeps only the latest value now keeps exactly that value for the topic
/// (never an earlier one), and one that keeps all values has it last.
pub proof fn law_subscribers_keep_the_value_set(m: ServerModel, v: TimestampedValue, t: TopicIdx, s: SubIdx)
    requires
        model_wf(m),
        set_value_spec(m, v, t).1 is Ok,
        type_string(v.ty) == m.topics[t].ty,
        !(m.values.contains_key(t) && v.timestamp < m.values[t].timestamp),
        m.topic_subs.contains_key(t),
        m.topic_subs[t].contains(s),
    ensures
        ({
            let m1 = set_value_spec(m, v, t).0;
            let vm = ValueModel::Normal { timestamp: v.timestamp, ty: v.ty, value: v.value@ };
            &&& m1.sub_values.contains_key(s)
            &&& (m1.sub_values[s] is One) == (m.sub_values[s] is One)
            &&& match m1.sub_values[s] {
                StoredModel::One(k) => k.contains_key(t) && k[t] == vm,
                StoredModel::All(k) => k.contains_key(t) && k[t].len() > 0 && k[t].last() == vm,
            }
            &&& forall|s2: SubIdx| #[trigger] m.sub_values.contains_key(s2) && !m.topic_subs[t].contains(s2)
                ==> m1.sub_values.contains_key(s2) && m1.sub_values[s2] == m.sub_values[s2]
        }),
{
    let vm = ValueModel::Normal { timestamp: v.timestamp, ty: v.ty, value: v.value@ };
    let i = choose|i: int| 0 <= i < m.topic_subs[t].len() && m.topic_subs[t][i] == s;
    assert(m.sub_values.contains_key(m.topic_subs[t][i]));
    lemma_added_for_each(m.sub_values, m.topic_subs[t], t, vm, s);
    assert forall|s2: SubIdx| #[trigger] m.sub_values.contains_key(s2) && !m.topic_subs[t].contains(s2)
        implies set_value_spec(m, v, t).0.sub_values.contains_key(s2) && set_value_spec(m, v, t).0.sub_values[s2]
        == m.sub_values[s2] by {
        lemma_added_for_each(m.sub_values, m.topic_subs[t], t, vm, s2);
    }
}

/// A value older than the topic's latest value changes nothing: it is
/// neither kept for any subscriber nor stored.
pub proof fn law_older_value_changes_nothing(m: ServerModel, v: TimestampedValue, t: TopicIdx)
    requires
        m.values.contains_key(t),
        v.timestamp < m.values[t].timestamp,
    ensures
        set_value_spec(m, v, t).0 == m,
{
}

} // verus!
