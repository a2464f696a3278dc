//! The text messages of the protocol, sent as JSON arrays.

use vstd::prelude::*;

use crate::protocol::{PublishProperties, SubscriptionOptions};

verus! {

/// Client to server: the client wants to publish values on the named topic.
/// The server answers with an [`Announce`], even if the topic was announced
/// before.
#[derive(Debug)]
pub struct PublishTopic {
    pub name: String,
    pub pubuid: u32,
    pub ty: String,
    /// Initial topic properties; ignored if the topic was already published.
    pub properties: Option<PublishProperties>,
}

/// Client to server: the client stops publishing with the given publisher id.
#[derive(Debug, Clone, Copy, PartialEq, Eq)]
pub struct UnpublishTopic {
    pub pubuid: u32,
}

/// Client to server: change the properties of the named topic.
#[derive(Debug)]
pub struct SetProperties {
    pub name: String,
    pub update: PublishProperties,
}

/// Client to server: subscribe to value changes of the given topics (or topic
/// prefixes). Sending it again with the same id updates the subscription.
#[derive(Debug)]
pub struct Subscribe {
    pub subuid: i32,
    pub topics: Vec<String>,
    pub options: Option<SubscriptionOptions>,
}

/// Client to server: stop the subscription with the given id.
#[derive(Debug, Clone, Copy, PartialEq, Eq)]
pub struct Unsubscribe {
    pub subuid: i32,
}

/// Server to client: a topic exists, with its id, type and properties; `pubuid`
/// is set when the message answers a publish request of that client.
#[derive(Debug)]
pub struct Announce {
    pub name: String,
    pub id: i32,
    pub ty: String,
    pub pubuid: Option<i32>,
    pub properties: PublishProperties,
}

impl Clone for Announce {
    fn clone(&self) -> (a: Self)
        ensures
            a == *self,
    {
        Announce {
            name: self.name.clone(),
            id: self.id,
            ty: self.ty.clone(),
            pubuid: self.pubuid,
            properties: self.properties,
        }
    }
}

/// Server to client: a previously announced topic was deleted.
#[derive(Debug)]
pub struct UnAnnounce {
    pub name: String,
    pub id: u32,
}

impl Clone for UnAnnounce {
    fn clone(&self) -> (u: Self)
        ensures
            u == *self,
    {
        UnAnnounce { name: self.name.clone(), id: self.id }
    }
}

/// Server to client: the properties of an announced topic changed; `ack` is
/// true when the message answers a set-properties request of that client.
#[derive(Debug)]
pub struct Properties {
    pub name: String,
    pub ack: Option<bool>,
}

/// A connection closed: the address and name of the client that left. Passed
/// from a connection task to the message parser, never sent on the wire.
#[derive(Debug)]
pub struct Close {
    pub addr: String,
    pub name: String,
}

/// A text message of the protocol.
#[derive(Debug)]
pub enum NTMessage {
    Publish(PublishTopic),
    Unpublish(UnpublishTopic),
    Subscribe(Subscribe),
    Unsubscribe(Unsubscribe),
    SetProperties(SetProperties),
    Announce(Announce),
    UnAnnounce(UnAnnounce),
    Properties(Properties),
    Close(Close),
}

} // verus!
