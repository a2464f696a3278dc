//! Topics: what the server keeps of a topic, and what a client keeps of a
//! topic it publishes.

use vstd::prelude::*;

use crate::frc_type::{type_string, FrcType, FrcTypeExt};
use crate::protocol::messages::{NTMessage, PublishTopic, UnpublishTopic};
use crate::protocol::PublishProperties;
use crate::server::util::TimestampedValue;

verus! {

/// A topic, with its name, its type string and its properties.
#[derive(Debug)]
pub struct Topic {
    pub name: String,
    pub ty: String,
    pub properties: Option<PublishProperties>,
}

impl Clone for Topic {
    fn clone(&self) -> (t: Self)
        ensures
            t == *self,
    {
        Topic { name: self.name.clone(), ty: self.ty.clone(), properties: self.properties }
    }
}

/// A topic with persistent or retained set to true keeps living when its
/// publishers are gone.
pub open spec fn implicit_publisher(properties: Option<PublishProperties>) -> bool {
    match properties {
        Some(p) => p.retained == Some(true) || p.persistent == Some(true),
        None => false,
    }
}

impl Topic {
    /// A meta-topic of the given name: type `raw`, no properties.
    pub fn new_meta(name: String) -> (t: Self)
        ensures
            t.name == name,
            t.ty@ == "raw"@,
            t.properties is None,
    {
        Topic { name, ty: "raw".to_string(), properties: None }
    }

    /// The topic that a publish request names.
    pub fn from_publish_topic(pub_topic: PublishTopic) -> (t: Self)
        ensures
            t.name == pub_topic.name,
            t.ty == pub_topic.ty,
            t.properties == pub_topic.properties,
    {
        Topic { name: pub_topic.name, ty: pub_topic.ty, properties: pub_topic.properties }
    }

    /// Returns true if either persistent or retained is true in properties.
    pub fn has_implicit_publisher(&self) -> (b: bool)
        ensures
            b == implicit_publisher(self.properties),
    {
        if let Some(props) = &self.properties {
            if props.retained == Some(true) {
                return true;
            }
            if props.persistent == Some(true) {
                return true;
            }
        }
        false
    }
}

/// A topic that a client publishes, with the publisher id it chose.
#[derive(Debug)]
pub struct PublishedTopic {
    pub name: String,
    pub pubuid: u32,
    pub ty: FrcType,
    pub properties: Option<PublishProperties>,
}

impl PublishedTopic {
    /// The message that stops publishing this topic.
    pub fn as_unpublish(&self) -> (m: NTMessage)
        ensures
            m == NTMessage::Unpublish(UnpublishTopic { pubuid: self.pubuid }),
    {
        NTMessage::Unpublish(UnpublishTopic { pubuid: self.pubuid })
    }
}

/// The type of a topic: one of the known types, or any other type string.
#[derive(Debug)]
pub enum TopicType {
    Frc(FrcType),
    Arbitrary(String),
}

impl TopicType {
    /// The type string a topic type is written as.
    pub open spec fn type_text(self) -> Seq<char> {
        match self {
            TopicType::Frc(t) => type_string(t),
            TopicType::Arbitrary(s) => s@,
        }
    }

    /// The type string this type is written as on the wire.
    pub fn wire_name(&self) -> (s: String)
        ensures
            s@ == self.type_text(),
    {
        match self {
            TopicType::Frc(t) => t.stringify(),
            TopicType::Arbitrary(s) => s.clone(),
        }
    }
}

/// A value of the topic of the given name.
#[derive(Debug)]
pub struct TopicValue {
    pub topic: String,
    pub value: TimestampedValue,
}

} // verus!
