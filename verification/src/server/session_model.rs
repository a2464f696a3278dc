//! The model of the server's start, of clients connecting and disconnecting,
//! of flushes, and of withdrawn announcements.

use vstd::prelude::*;

use crate::protocol::metatopic::{ClientMetaValue, MetaTopicValue};
use crate::server::error::ErrorKind;
use crate::protocol::subscription::cares;
use crate::server::model::{
    add_single_spec, announced_properties, lemma_add_single_wf, lemma_remove_topic_wf, meta_topic, model_wf,
    remove_topic_spec, remove_meta_topic_spec, removed_metas, pub_meta_name, sub_meta_name, ActionModel, ClientModel, MsgModel, ServerModel, SubModel,
};
use crate::server::util::{ClientIdx, Counter, SubIdx, TopicIdx};
use crate::text::{decimal, has_infix};

verus! {

/// The number of connected clients among the first `k` client indices whose
/// name contains `name`.
pub open spec fn count_named(clients: Map<ClientIdx, ClientModel>, name: Seq<char>, k: nat) -> nat
    decreases k,
{
    if k == 0 {
        0
    } else {
        let c = (k - 1) as ClientIdx;
        count_named(clients, name, (k - 1) as nat) + if clients.contains_key(c) && has_infix(clients[c].name, name) {
            1nat
        } else {
            0nat
        }
    }
}

/// At most `k` clients are counted among the first `k` indices.
pub proof fn lemma_count_named_bound(clients: Map<ClientIdx, ClientModel>, name: Seq<char>, k: nat)
    ensures
        count_named(clients, name, k) <= k,
    decreases k,
{
    if k > 0 {
        lemma_count_named_bound(clients, name, (k - 1) as nat);
    }
}

/// The name a connecting client gets when `n` connected clients have names
/// that contain its own: its own if there are none, else followed by `@` and
/// `n`.
pub open spec fn numbered_name(name: Seq<char>, n: nat) -> Seq<char> {
    if n == 0 {
        name
    } else {
        name + "@"@ + decimal(n)
    }
}

/// A newly connected client, to which messages can be sent.
pub open spec fn new_client(addr: Seq<char>, name: Seq<char>) -> ClientModel {
    ClientModel {
        addr,
        name,
        pubs: Map::empty(),
        pubs_rev: Map::empty(),
        subs: Map::empty(),
        subs_rev: Map::empty(),
        has_output: true,
        announced: Set::empty(),
    }
}

/// The name of a client's publisher meta-topic.
pub open spec fn client_pub_meta_name(name: Seq<char>) -> Seq<char> {
    "$clientpub$"@ + name
}

/// The name of a client's subscriber meta-topic.
pub open spec fn client_sub_meta_name(name: Seq<char>) -> Seq<char> {
    "$clientsub$"@ + name
}

/// The effect of a client with address `addr` and name `name` connecting: an
/// error if that identity is connected. Otherwise the client's name gets the
/// count of connected names that contain it (see `numbered_name`), the client
/// gets the next client index and is
/// mapped under its new identity, its publisher and subscriber meta-topics are
/// added, and their indices are kept for it. Also gives the client's new name.
pub open spec fn connect_spec(m: ServerModel, addr: Seq<char>, name: Seq<char>) -> (ServerModel, Result<ClientIdx, ErrorKind>, Seq<char>) {
    if m.client_map.contains_key((addr, name)) {
        (m, Err(ErrorKind::ClientAlreadyExists), name)
    } else {
        let new_name = numbered_name(name, count_named(m.clients, name, m.counters.client_idx as nat));
        let c = m.counters.client_idx;
        let m1 = ServerModel {
            clients: m.clients.insert(c, new_client(addr, new_name)),
            client_map: m.client_map.insert((addr, new_name), c),
            counters: Counter { client_idx: (c + 1) as u32, ..m.counters },
            ..m
        };
        let (m2, ip) = add_single_spec(m1, meta_topic(client_pub_meta_name(new_name)));
        let (m3, is) = add_single_spec(m2, meta_topic(client_sub_meta_name(new_name)));
        (ServerModel { client_meta: m3.client_meta.insert(c, (ip, is)), ..m3 }, Ok(c), new_name)
    }
}

/// Connecting keeps the invariant.
pub proof fn lemma_connect_wf(m: ServerModel, addr: Seq<char>, name: Seq<char>)
    requires
        model_wf(m),
        m.counters.client_idx < u32::MAX,
        m.counters.topic_idx + 2 <= u32::MAX,
    ensures
        model_wf(connect_spec(m, addr, name).0),
{
    if !m.client_map.contains_key((addr, name)) {
        let new_name = numbered_name(name, count_named(m.clients, name, m.counters.client_idx as nat));
        let c = m.counters.client_idx;
        let m1 = ServerModel {
            clients: m.clients.insert(c, new_client(addr, new_name)),
            client_map: m.client_map.insert((addr, new_name), c),
            counters: Counter { client_idx: (c + 1) as u32, ..m.counters },
            ..m
        };
        assert(model_wf(m1));
        lemma_add_single_wf(m1, meta_topic(client_pub_meta_name(new_name)));
        let (m2, ip) = add_single_spec(m1, meta_topic(client_pub_meta_name(new_name)));
        lemma_add_single_wf(m2, meta_topic(client_sub_meta_name(new_name)));
    }
}

/// The number of times `t` occurs in `s`.
pub open spec fn occurrences(s: Seq<TopicIdx>, t: TopicIdx) -> nat
    decreases s.len(),
{
    if s.len() == 0 {
        0
    } else {
        occurrences(s.drop_first(), t) + if s[0] == t {
            1nat
        } else {
            0nat
        }
    }
}

/// `keys` lists the keys of `m`, each once.
pub open spec fn lists_keys(keys: Seq<u32>, m: Map<u32, TopicIdx>) -> bool {
    keys.no_duplicates() && keys.to_set() == m.dom()
}

/// The topics published under the publisher ids of `keys`.
pub open spec fn published(keys: Seq<u32>, pubs: Map<u32, TopicIdx>) -> Seq<TopicIdx> {
    keys.map_values(|p: u32| pubs[p])
}

/// The effect of dropping one publisher of topic `t`: if it has a publisher
/// count, the count goes down by one, and at 0 the topic is removed and no
/// client has it announced any more (see `release_withdrawals`).
pub open spec fn release(m: ServerModel, t: TopicIdx) -> (ServerModel, Result<(), ErrorKind>) {
    if !m.pub_count.contains_key(t) {
        (m, Ok(()))
    } else {
        let n = (m.pub_count[t] - 1) as u16;
        let m1 = ServerModel { pub_count: m.pub_count.insert(t, n), ..m };
        if n == 0 {
            let (m3, r3) = remove_topic_spec(m1, t);
            match r3 {
                Ok(_) => (
                    ServerModel {
                        clients: unmark_removed(m3.clients, t, removed_metas(m1, t).0, removed_metas(m1, t).1),
                        ..m3
                    },
                    Ok(()),
                ),
                Err(e) => (m3, Err(e)),
            }
        } else {
            (m1, Ok(()))
        }
    }
}

/// The withdrawals that `release(m, t)` sends: where the topic is removed, an
/// `UnAnnounce` of it to each client it was announced to.
pub open spec fn release_withdrawals(m: ServerModel, t: TopicIdx) -> Seq<ActionModel> {
    if m.pub_count.contains_key(t) && (m.pub_count[t] - 1) as u16 == 0 && remove_topic_spec(m, t).1 is Ok {
        removal_withdrawals(
            m.counters.client_idx as nat,
            m.clients,
            m.topics[t].name,
            t,
            removed_metas(m, t).0,
            removed_metas(m, t).1,
        )
    } else {
        Seq::empty()
    }
}

/// The withdrawals that `release_all(m, ts)` sends, in order.
pub open spec fn release_all_withdrawals(m: ServerModel, ts: Seq<TopicIdx>) -> Seq<ActionModel>
    decreases ts.len(),
{
    if ts.len() == 0 {
        Seq::empty()
    } else {
        let before = release_all_withdrawals(m, ts.drop_last());
        let (m1, r1) = release_all(m, ts.drop_last());
        match r1 {
            Err(_) => before,
            Ok(_) => before + release_withdrawals(m1, ts.last()),
        }
    }
}

/// The effect of dropping one publisher of each topic of `ts`, in order,
/// stopping at the first error.
pub open spec fn release_all(m: ServerModel, ts: Seq<TopicIdx>) -> (ServerModel, Result<(), ErrorKind>)
    decreases ts.len(),
{
    if ts.len() == 0 {
        (m, Ok(()))
    } else {
        let (m1, r1) = release_all(m, ts.drop_last());
        match r1 {
            Err(e) => (m1, Err(e)),
            Ok(_) => release(m1, ts.last()),
        }
    }
}

/// The meta-values after removing topic `t` from server `m`: where the
/// removal goes through, the topic's two meta-values go with it.
pub open spec fn removal_metas(metas: Map<TopicIdx, MetaTopicValue>, m: ServerModel, t: TopicIdx) -> Map<
    TopicIdx,
    MetaTopicValue,
> {
    if remove_topic_spec(m, t).1 is Ok {
        metas.remove(removed_metas(m, t).0).remove(removed_metas(m, t).1)
    } else {
        metas
    }
}

/// The meta-values after `release(m, t)`.
pub open spec fn release_metas(metas: Map<TopicIdx, MetaTopicValue>, m: ServerModel, t: TopicIdx) -> Map<
    TopicIdx,
    MetaTopicValue,
> {
    if m.pub_count.contains_key(t) && (m.pub_count[t] - 1) as u16 == 0 {
        removal_metas(metas, ServerModel { pub_count: m.pub_count.insert(t, 0u16), ..m }, t)
    } else {
        metas
    }
}

/// The meta-values after `release_all(m, ts)`.
pub open spec fn release_all_metas(metas: Map<TopicIdx, MetaTopicValue>, m: ServerModel, ts: Seq<TopicIdx>) -> Map<
    TopicIdx,
    MetaTopicValue,
>
    decreases ts.len(),
{
    if ts.len() == 0 {
        metas
    } else {
        let before = release_all_metas(metas, m, ts.drop_last());
        let (m1, r1) = release_all(m, ts.drop_last());
        match r1 {
            Err(_) => before,
            Ok(_) => release_metas(before, m1, ts.last()),
        }
    }
}

/// Dropping a publisher keeps the invariant, the clients, the counters and
/// the publisher counts of other topics.
pub proof fn lemma_release(m: ServerModel, t: TopicIdx)
    requires
        model_wf(m),
    ensures
        model_wf(release(m, t).0),
        release(m, t).0.clients.dom() == m.clients.dom(),
        release(m, t).0.counters == m.counters,
        release(m, t).0.client_map == m.client_map,
        release(m, t).0.client_meta == m.client_meta,
        release(m, t).0.pub_count.dom() == m.pub_count.dom(),
        forall|u: TopicIdx| u != t ==> #[trigger] release(m, t).0.pub_count.get(u) == m.pub_count.get(u),
        m.pub_count.contains_key(t) ==> release(m, t).0.pub_count[t] == (m.pub_count[t] - 1) as u16,
        m.pub_count.contains_key(t) ==> model_wf(ServerModel { pub_count: m.pub_count.insert(t, (m.pub_count[t] - 1) as u16), ..m }),
{
    if m.pub_count.contains_key(t) {
        let n = (m.pub_count[t] - 1) as u16;
        let m1 = ServerModel { pub_count: m.pub_count.insert(t, n), ..m };
        assert(model_wf(m1));
        assert(m.pub_count.insert(t, n).dom() =~= m.pub_count.dom());
        lemma_remove_topic_wf(m1, t);
        let m3 = remove_topic_spec(m1, t).0;
        let (ip, is) = removed_metas(m1, t);
        assert(unmark_announced(m3.clients, t).dom() =~= m3.clients.dom());
        assert(unmark_announced(unmark_announced(m3.clients, t), ip).dom() =~= m3.clients.dom());
        assert(unmark_removed(m3.clients, t, ip, is).dom() =~= m3.clients.dom());
    }
}

/// The publisher ids under which topic `t` is published in `pubs`.
pub open spec fn publishers_of(pubs: Map<u32, TopicIdx>, t: TopicIdx) -> Set<u32> {
    Set::new(|p: u32| pubs.contains_key(p) && pubs[p] == t)
}

/// A client's topics can all be dropped without a count going below 0: each
/// topic with a count is published under at most that many of the client's
/// ids.
pub open spec fn disconnect_safe(m: ServerModel, key: (Seq<char>, Seq<char>)) -> bool {
    m.client_map.contains_key(key) && m.clients.contains_key(m.client_map[key]) ==> {
        let pubs = m.clients[m.client_map[key]].pubs;
        forall|t: TopicIdx| #[trigger] m.pub_count.contains_key(t) ==> publishers_of(pubs, t).len() <= m.pub_count[t]
    }
}

/// The ids of `keys` under which topic `t` is published in `pubs`.
pub open spec fn listed_publishers(keys: Seq<u32>, pubs: Map<u32, TopicIdx>, t: TopicIdx) -> Set<u32> {
    Set::new(|p: u32| keys.contains(p) && pubs[p] == t)
}

/// In a listing of publisher ids without repeats, a topic occurs once for
/// each of its ids in the listing.
pub proof fn lemma_occurrences_count(keys: Seq<u32>, pubs: Map<u32, TopicIdx>, t: TopicIdx)
    requires
        keys.no_duplicates(),
    ensures
        listed_publishers(keys, pubs, t).finite(),
        occurrences(published(keys, pubs), t) == listed_publishers(keys, pubs, t).len(),
    decreases keys.len(),
{
    let here = listed_publishers(keys, pubs, t);
    if keys.len() == 0 {
        assert(here =~= Set::<u32>::empty());
    } else {
        let rest = keys.drop_first();
        assert(rest.no_duplicates()) by {
            assert forall|i: int, j: int| 0 <= i < rest.len() && 0 <= j < rest.len() && i != j implies rest[i] != rest[j] by {
                assert(rest[i] == keys[i + 1] && rest[j] == keys[j + 1]);
            }
        }
        lemma_occurrences_count(rest, pubs, t);
        let there = listed_publishers(rest, pubs, t);
        assert(published(keys, pubs).drop_first() =~= published(rest, pubs));
        assert(!rest.contains(keys[0])) by {
            if rest.contains(keys[0]) {
                let j = choose|j: int| 0 <= j < rest.len() && rest[j] == keys[0];
                assert(keys[j + 1] == keys[0]);
            }
        }
        assert forall|p: u32| keys.contains(p) <==> (p == keys[0] || rest.contains(p)) by {
            if keys.contains(p) && p != keys[0] {
                let i = choose|i: int| 0 <= i < keys.len() && keys[i] == p;
                assert(rest[i - 1] == p);
            }
            if rest.contains(p) {
                let j = choose|j: int| 0 <= j < rest.len() && rest[j] == p;
                assert(keys[j + 1] == p);
            }
            if p == keys[0] {
                assert(keys[0] == p);
            }
        }
        if pubs[keys[0]] == t {
            assert(here =~= there.insert(keys[0]));
        } else {
            assert(here =~= there);
        }
    }
}

/// The effect of disconnecting the client of identity `key`, its publisher
/// ids listed in `keys`: an error if the identity is not mapped; else it is
/// unmapped; an error if its client does not exist; else the client goes, one
/// publisher of each of its topics is dropped in the order of `keys`
/// (stopping at an error), and, if the client has meta-topics, they are
/// forgotten and removed, the publisher one first, stopping at an error.
pub open spec fn disconnect_spec(m: ServerModel, key: (Seq<char>, Seq<char>), keys: Seq<u32>) -> (ServerModel, Result<(), ErrorKind>) {
    if !m.client_map.contains_key(key) {
        (m, Err(ErrorKind::ClientDoesNotExist))
    } else {
        let c = m.client_map[key];
        let m1 = ServerModel { client_map: m.client_map.remove(key), ..m };
        if !m.clients.contains_key(c) {
            (m1, Err(ErrorKind::ClientDoesNotExist))
        } else {
            let m2 = ServerModel { clients: m1.clients.remove(c), ..m1 };
            let (m3, r3) = release_all(m2, published(keys, m.clients[c].pubs));
            match r3 {
                Err(e) => (m3, Err(e)),
                Ok(_) => if !m3.client_meta.contains_key(c) {
                    (m3, Ok(()))
                } else {
                    let (ip, is) = m3.client_meta[c];
                    let m4 = ServerModel { client_meta: m3.client_meta.remove(c), ..m3 };
                    let (m5, r5) = remove_meta_topic_spec(m4, ip);
                    match r5 {
                        Err(e) => (m5, Err(e)),
                        Ok(_) => remove_meta_topic_spec(m5, is),
                    }
                },
            }
        }
    }
}

/// The meta-values after `disconnect_spec(m, key, keys)`: those of each
/// topic removed on the way go with it.
pub open spec fn disconnect_metas(
    metas: Map<TopicIdx, MetaTopicValue>,
    m: ServerModel,
    key: (Seq<char>, Seq<char>),
    keys: Seq<u32>,
) -> Map<TopicIdx, MetaTopicValue> {
    if !m.client_map.contains_key(key) {
        metas
    } else {
        let c = m.client_map[key];
        let m1 = ServerModel { client_map: m.client_map.remove(key), ..m };
        if !m.clients.contains_key(c) {
            metas
        } else {
            let m2 = ServerModel { clients: m1.clients.remove(c), ..m1 };
            let ts = published(keys, m.clients[c].pubs);
            let (m3, r3) = release_all(m2, ts);
            let metas3 = release_all_metas(metas, m2, ts);
            match r3 {
                Err(_) => metas3,
                Ok(_) => if !m3.client_meta.contains_key(c) {
                    metas3
                } else {
                    let (ip, is) = m3.client_meta[c];
                    let m4 = ServerModel { client_meta: m3.client_meta.remove(c), ..m3 };
                    let (m5, r5) = remove_meta_topic_spec(m4, ip);
                    match r5 {
                        Err(_) => metas3,
                        Ok(_) => if remove_meta_topic_spec(m5, is).1 is Ok {
                            metas3.remove(ip).remove(is)
                        } else {
                            metas3.remove(ip)
                        },
                    }
                },
            }
        }
    }
}

/// The withdrawals that `disconnect_spec(m, key, keys)` sends: those of the
/// topics that dropping the client's publishers removes.
pub open spec fn disconnect_withdrawals(m: ServerModel, key: (Seq<char>, Seq<char>), keys: Seq<u32>) -> Seq<ActionModel> {
    if !m.client_map.contains_key(key) || !m.clients.contains_key(m.client_map[key]) {
        Seq::empty()
    } else {
        let c = m.client_map[key];
        let m2 = ServerModel { client_map: m.client_map.remove(key), clients: m.clients.remove(c), ..m };
        release_all_withdrawals(m2, published(keys, m.clients[c].pubs))
    }
}

/// What disconnecting did: the order `keys` lists the client's publisher ids
/// (when the client exists), and the state and result are those of that order.
pub open spec fn disconnected(m: ServerModel, key: (Seq<char>, Seq<char>), keys: Seq<u32>, after: ServerModel, r: Result<(), ErrorKind>) -> bool {
    &&& m.client_map.contains_key(key) && m.clients.contains_key(m.client_map[key]) ==> lists_keys(
        keys,
        m.clients[m.client_map[key]].pubs,
    )
    &&& disconnect_spec(m, key, keys) == (after, r)
}

/// The state of a started server, before its meta-topics: the server's own
/// client at index 0, to which nothing is sent.
pub open spec fn bare_model() -> ServerModel {
    ServerModel {
        topics: Map::empty(),
        topic_map: Map::empty(),
        pub_count: Map::empty(),
        values: Map::empty(),
        client_map: Map::empty(),
        clients: map![0u32 => ClientModel {
            addr: "0.0.0.0:0"@,
            name: Seq::empty(),
            pubs: Map::empty(),
            pubs_rev: Map::empty(),
            subs: Map::empty(),
            subs_rev: Map::empty(),
            has_output: false,
            announced: Set::empty(),
        }],
        client_meta: Map::empty(),
        subscriptions: Map::empty(),
        topic_subs: Map::empty(),
        sub_values: Map::empty(),
        counters: Counter { topic_idx: 0, sub_idx: 0, client_idx: 1 },
    }
}

/// The state of a started server: the bare state with the meta-topics
/// `$clients`, `$serversub` and `$serverpub` added, in that order.
pub open spec fn initial_model() -> ServerModel {
    let m1 = add_single_spec(bare_model(), meta_topic("$clients"@)).0;
    let m2 = add_single_spec(m1, meta_topic("$serversub"@)).0;
    add_single_spec(m2, meta_topic("$serverpub"@)).0
}

/// The flushes of the connected clients among the first `k` client indices
/// that can be sent to, in the order of the indices.
pub open spec fn flushes(k: nat, clients: Map<ClientIdx, ClientModel>) -> Seq<ActionModel>
    decreases k,
{
    if k == 0 {
        Seq::empty()
    } else {
        let c = (k - 1) as ClientIdx;
        flushes((k - 1) as nat, clients) + if clients.contains_key(c) && clients[c].has_output {
            seq![ActionModel::Flush(c)]
        } else {
            Seq::empty()
        }
    }
}

/// The clients after topic `t` stopped being announced to any of them.
pub open spec fn unmark_announced(clients: Map<ClientIdx, ClientModel>, t: TopicIdx) -> Map<ClientIdx, ClientModel> {
    clients.map_values(|c: ClientModel| ClientModel { announced: c.announced.remove(t), ..c })
}

/// The clients after topic `t` named `name` was removed with its publisher
/// and subscriber meta-topics `ip` and `is`: none has any of the three
/// announced.
pub open spec fn unmark_removed(clients: Map<ClientIdx, ClientModel>, t: TopicIdx, ip: TopicIdx, is: TopicIdx) -> Map<
    ClientIdx,
    ClientModel,
> {
    unmark_announced(unmark_announced(unmark_announced(clients, t), ip), is)
}

/// The withdrawals of topic `t` named `name` and of its publisher and
/// subscriber meta-topics `ip` and `is`, in that order, to the clients among
/// the first `k` indices each was announced to.
pub open spec fn removal_withdrawals(
    k: nat,
    clients: Map<ClientIdx, ClientModel>,
    name: Seq<char>,
    t: TopicIdx,
    ip: TopicIdx,
    is: TopicIdx,
) -> Seq<ActionModel> {
    withdrawals(k, clients, name, t) + withdrawals(k, unmark_announced(clients, t), pub_meta_name(name), ip)
        + withdrawals(k, unmark_announced(unmark_announced(clients, t), ip), sub_meta_name(name), is)
}

/// The messages withdrawing topic `t` under `name`, sent to the clients among
/// the first `k` client indices to which it was announced and that can be sent
/// to, in the order of the indices.
pub open spec fn withdrawals(k: nat, clients: Map<ClientIdx, ClientModel>, name: Seq<char>, t: TopicIdx) -> Seq<ActionModel>
    decreases k,
{
    if k == 0 {
        Seq::empty()
    } else {
        let c = (k - 1) as ClientIdx;
        withdrawals((k - 1) as nat, clients, name, t) + if clients.contains_key(c) && clients[c].announced.contains(t)
            && clients[c].has_output {
            seq![ActionModel::Messages(c, seq![MsgModel::UnAnnounce { name, id: t }])]
        } else {
            Seq::empty()
        }
    }
}

/// The `$clients` value after the client of address `addr` and name `name`
/// joined: a new list of that client if there was no value, the list with the
/// client appended if there was one, and otherwise the value unchanged.
pub open spec fn clients_joined(before: Option<MetaTopicValue>, after: MetaTopicValue, addr: Seq<char>, name: Seq<char>) -> bool {
    match before {
        None => after matches MetaTopicValue::Client(l) && l@.len() == 1 && l@[0].id@ == name && l@[0].conn@ == addr,
        Some(MetaTopicValue::Client(a)) => after matches MetaTopicValue::Client(l) && l@.len() == a@.len() + 1 && l@.drop_last()
            == a@ && l@.last().id@ == name && l@.last().conn@ == addr,
        Some(v) => after == v,
    }
}

/// The `$clients` entry of the client of address `addr` and name `name`.
pub open spec fn not_client(addr: Seq<char>, name: Seq<char>) -> spec_fn(ClientMetaValue) -> bool {
    |e: ClientMetaValue| !(e.id@ == name && e.conn@ == addr)
}

/// The meta-values after the client of address `addr` and name `name` left
/// the `$clients` list at `k`: its entries go from a list of clients there;
/// anything else is kept.
pub open spec fn client_left_at(
    before: Map<TopicIdx, MetaTopicValue>,
    after: Map<TopicIdx, MetaTopicValue>,
    k: TopicIdx,
    addr: Seq<char>,
    name: Seq<char>,
) -> bool {
    match before.get(k) {
        Some(MetaTopicValue::Client(a)) => {
            &&& after.dom() == before.dom()
            &&& forall|j: TopicIdx| #[trigger] after.contains_key(j) && j != k ==> after[j] == before[j]
            &&& after[k] matches MetaTopicValue::Client(l) && l@ == a@.filter(not_client(addr, name))
        },
        _ => after == before,
    }
}

/// The entries of the topic map whose name subscription `sub` cares about
/// and whose topic exists.
pub open spec fn announceable(m: ServerModel, sub: SubModel) -> spec_fn((Seq<char>, TopicIdx)) -> bool {
    |e: (Seq<char>, TopicIdx)| cares(sub.topics, sub.options, e.0) && m.topics.contains_key(e.1)
}

/// The announcement of the topic of each entry, under the entry's name.
pub open spec fn announcements_of(m: ServerModel, entries: Seq<(Seq<char>, TopicIdx)>) -> Seq<MsgModel> {
    entries.map_values(|e: (Seq<char>, TopicIdx)| MsgModel::Announce {
        name: e.0,
        id: e.1 as i32,
        ty: m.topics[e.1].ty,
        pubuid: None,
        properties: announced_properties(m.topics[e.1].properties),
    })
}

/// The effect of announcing to subscription `s` all topics it cares about,
/// the topic map's entries listed in `order`: an error if the subscription
/// does not exist, or its client does not; else the topics are marked
/// announced to the client, which is sent their announcements in that order.
pub open spec fn announce_all_spec(m: ServerModel, order: Seq<(Seq<char>, TopicIdx)>, s: SubIdx) -> (ServerModel, Result<(), ErrorKind>, Seq<ActionModel>) {
    if !m.subscriptions.contains_key(s) {
        (m, Err(ErrorKind::SubscriptionDoesNotExist), Seq::empty())
    } else {
        let (sub, c) = m.subscriptions[s];
        let listed = order.filter(announceable(m, sub));
        if !m.clients.contains_key(c) {
            (m, Err(ErrorKind::ClientDoesNotExist), Seq::empty())
        } else {
            let client = m.clients[c];
            (
                ServerModel {
                    clients: m.clients.insert(
                        c,
                        ClientModel { announced: client.announced + listed.map_values(|e: (Seq<char>, TopicIdx)| e.1).to_set(), ..client },
                    ),
                    ..m
                },
                Ok(()),
                if client.has_output {
                    seq![ActionModel::Messages(c, announcements_of(m, listed))]
                } else {
                    Seq::empty()
                },
            )
        }
    }
}

/// Announcing all topics to a subscription keeps the invariant.
pub proof fn lemma_announce_all_wf(m: ServerModel, order: Seq<(Seq<char>, TopicIdx)>, s: SubIdx)
    requires
        model_wf(m),
    ensures
        model_wf(announce_all_spec(m, order, s).0),
{
    if m.subscriptions.contains_key(s) && m.clients.contains_key(m.subscriptions[s].1) {
        let c = m.subscriptions[s].1;
        let m1 = announce_all_spec(m, order, s).0;
        assert(m1.clients.dom() =~= m.clients.dom());
    }
}

} // verus!
