//! The data model of the NetworkTables 4 protocol: topic properties,
//! subscription options, topics, subscriptions, messages and meta-topics.

use vstd::prelude::*;

pub mod messages;
pub mod metatopic;
pub mod subscription;
pub mod topic;

verus! {

/// The properties of a topic.
#[derive(Debug, Clone, Copy, PartialEq, Eq)]
pub struct PublishProperties {
    /// If true, the last set value is saved to persistent storage and restored
    /// on server startup; such a topic is not deleted when its last publisher
    /// stops publishing.
    pub persistent: Option<bool>,
    /// A topic with this set to true is not deleted when its last publisher
    /// stops publishing.
    pub retained: Option<bool>,
}

impl Default for PublishProperties {
    fn default() -> (p: Self)
        ensures
            p.persistent is None,
            p.retained is None,
    {
        PublishProperties { persistent: None, retained: None }
    }
}

/// The options of a subscription.
#[derive(Debug, Clone, Copy, PartialEq, Eq)]
pub struct SubscriptionOptions {
    /// The period at which values are sent, in seconds, held as the bit
    /// pattern of an IEEE 754 double; the library carries it and never reads it.
    pub periodic: Option<u64>,
    /// If true, every value change is sent, not only the latest one of a period.
    pub all: Option<bool>,
    /// If true, only announcements are sent, no values.
    pub topics_only: Option<bool>,
    /// If true, the subscription's topic names are prefixes.
    pub prefix: Option<bool>,
}

impl Default for SubscriptionOptions {
    fn default() -> (o: Self)
        ensures
            o == no_options(),
    {
        SubscriptionOptions { periodic: None, all: None, topics_only: None, prefix: None }
    }
}

/// The options given when none were.
pub open spec fn no_options() -> SubscriptionOptions {
    SubscriptionOptions { periodic: None, all: None, topics_only: None, prefix: None }
}

/// `Option::unwrap_or(false)` on a flag.
pub open spec fn flag(b: Option<bool>) -> bool {
    match b {
        Some(v) => v,
        None => false,
    }
}

} // verus!
