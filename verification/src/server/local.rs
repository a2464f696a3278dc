//! What the program that runs the server does with topics itself: it
//! publishes as the server's own client, sets values and properties, and
//! reads values and names.

use vstd::prelude::*;

use crate::frc_type::{type_string, FrcTypeExt};
use crate::protocol::messages::{PublishTopic, SetProperties};
use crate::protocol::PublishProperties;
use crate::server::error::{kind, ErrorKind, NTServerError};
use crate::server::model::{properties_notices, publish_safe, publish_spec, set_properties_spec, set_value_spec, ServerModel, TopicModel};
use crate::server::state::{action_models, name_order, ServerAction, ServerState, SERVER_CLIENT_IDX};
use crate::server::util::{TimestampedValue, TopicIdx};
use crate::NtSuccess;

verus! {

/// The effect of the server publishing topic `name` with `props` under
/// publisher id `pubuid` and setting its first value `v`: the publish request
/// of the server's own client, then, if it succeeded, the value.
pub open spec fn publish_local_spec(m: ServerModel, name: Seq<char>, v: TimestampedValue, props: Option<PublishProperties>, pubuid: u32) -> (ServerModel, Result<(), ErrorKind>, Seq<crate::server::model::ActionModel>) {
    let (m1, r1, a1) = publish_spec(m, TopicModel { name, ty: type_string(v.ty), properties: props }, pubuid, SERVER_CLIENT_IDX);
    match r1 {
        Err(e) => (m1, Err(e), a1),
        Ok(i) => {
            let (m2, r2) = set_value_spec(m1, v, i);
            (m2, r2, a1)
        },
    }
}

/// The effect of setting the value of topic `name` to `v`: an error if the
/// name is not mapped, else setting the value of its topic.
pub open spec fn set_named_value_spec(m: ServerModel, name: Seq<char>, v: TimestampedValue) -> (ServerModel, Result<(), ErrorKind>) {
    if !m.topic_map.contains_key(name) {
        (m, Err(ErrorKind::TopicDoesNotExist))
    } else {
        set_value_spec(m, v, m.topic_map[name])
    }
}

/// A success without a value, or the kind of an error.
pub open spec fn success_outcome(r: Result<NtSuccess, NTServerError>) -> Result<(), ErrorKind> {
    match r {
        Ok(_) => Ok(()),
        Err(e) => Err(kind(e)),
    }
}

impl ServerState {
    /// Publishes topic `topic_name` as the server, with the type of `value`
    /// and properties `props`, under publisher id `pubuid`, and sets its
    /// value to `value`.
    pub fn publish_topic_w_props(
        &mut self,
        topic_name: String,
        value: TimestampedValue,
        props: Option<PublishProperties>,
        pubuid: u32,
        actions: &mut Vec<ServerAction>,
    ) -> (r: Result<NtSuccess, NTServerError>)
        requires
            old(self).wf(),
            old(self).counters.topic_idx + 3 <= u32::MAX,
            publish_safe(old(self).model(), topic_name@),
        ensures
            final(self).wf(),
            ({
                let (m, res, emitted) = publish_local_spec(old(self).model(), topic_name@, value, props, pubuid);
                &&& final(self).model() == m
                &&& success_outcome(r) == res
                &&& action_models(final(actions)@) == action_models(old(actions)@) + emitted
            }),
    {
        let ty = value.ty.stringify();
        let topic_idx = match self.inner_publish_topic(
            PublishTopic { name: topic_name, pubuid, ty, properties: props },
            SERVER_CLIENT_IDX,
            actions,
        ) {
            Ok(i) => i,
            Err(e) => {
                return Err(e);
            },
        };
        let r = self.set_value(value, topic_idx);
        proof {
            let (m1, r1, a1) = publish_spec(
                old(self).model(),
                TopicModel { name: topic_name@, ty: type_string(value.ty), properties: props },
                pubuid,
                SERVER_CLIENT_IDX,
            );
            assert(r1 == Ok::<TopicIdx, ErrorKind>(topic_idx));
        }
        r
    }

    /// Sets the value of topic `topic_name` to `value`; a value older than the
    /// topic's latest is kept for subscribers but does not become the latest.
    pub fn set_topic_value_w_timestamp(&mut self, topic_name: &String, value: TimestampedValue) -> (r: Result<
        NtSuccess,
        NTServerError,
    >)
        requires
            old(self).wf(),
        ensures
            final(self).wf(),
            ({
                let (m, res) = set_named_value_spec(old(self).model(), topic_name@, value);
                &&& final(self).model() == m
                &&& success_outcome(r) == res
            }),
            final(self).metatopic_value_map == old(self).metatopic_value_map,
    {
        let topic_idx = match self.get_topic_idx(topic_name) {
            Ok(i) => i,
            Err(e) => {
                return Err(e);
            },
        };
        self.set_value(value, topic_idx)
    }

    /// Updates the properties of topic `topic_name` with `props`.
    pub fn set_topic_props(&mut self, topic_name: String, props: PublishProperties, actions: &mut Vec<ServerAction>) -> (r: Result<NtSuccess, NTServerError>)
        requires
            old(self).wf(),
        ensures
            final(self).wf(),
            action_models(final(actions)@) == action_models(old(actions)@) + properties_notices(old(self).model(), topic_name@),
            ({
                let (m, res) = set_properties_spec(old(self).model(), topic_name@, props);
                &&& final(self).model() == m
                &&& success_outcome(r) == res
            }),
            final(self).metatopic_value_map == old(self).metatopic_value_map,
    {
        match self.set_properties(SetProperties { name: topic_name, update: props }, actions) {
            Ok(()) => Ok(NtSuccess),
            Err(e) => Err(e),
        }
    }

    /// The latest value of topic `topic_name`; an error if the name is not
    /// mapped or its topic has no value.
    pub fn get_topic_value(&self, topic_name: &String) -> (r: Result<TimestampedValue, NTServerError>)
        ensures
            ({
                let m = self.model();
                if m.topic_map.contains_key(topic_name@) && m.values.contains_key(m.topic_map[topic_name@]) {
                    let v = m.values[m.topic_map[topic_name@]];
                    r matches Ok(x) && x.timestamp == v.timestamp && x.ty == v.ty && x.value@ == v.value@
                } else {
                    r matches Err(e) && kind(e) == ErrorKind::TopicDoesNotExist
                }
            }),
    {
        let topic_idx = match self.get_topic_idx(topic_name) {
            Ok(i) => i,
            Err(e) => {
                return Err(e);
            },
        };
        self.get_value(topic_idx)
    }

    /// The names of the topics, in the order of the topic map.
    pub fn get_topic_names(&self) -> (names: Vec<String>)
        ensures
            names@.len() == self.topic_map.list().len(),
            forall|i: int| 0 <= i < names@.len() ==> #[trigger] names@[i]@ == name_order(self.topic_map.list())[i].0,
    {
        let entries = self.topic_map.entries();
        let mut names: Vec<String> = Vec::new();
        let mut i: usize = 0;
        while i < entries.len()
            invariant
                i <= entries@.len(),
                entries@ == self.topic_map.list(),
                names@.len() == i,
                forall|k: int| 0 <= k < i ==> #[trigger] names@[k]@ == entries@[k].0@,
            decreases entries@.len() - i,
        {
            names.push(entries[i].0.clone());
            i = i + 1;
        }
        names
    }
}

} // verus!
