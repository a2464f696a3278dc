//! Subscriptions and which topics they care about.

use vstd::prelude::*;

use crate::protocol::messages::{NTMessage, Unsubscribe};
use crate::protocol::{flag, no_options, SubscriptionOptions};
use crate::text::{has_prefix, starts_with};

verus! {

/// A subscription: its id, its topic names (or prefixes) and its options.
#[derive(Debug)]
pub struct Subscription {
    pub subuid: i32,
    pub topics: Vec<String>,
    pub options: Option<SubscriptionOptions>,
}

/// The options of a subscription, the defaults where none were given.
pub open spec fn options_or_default(options: Option<SubscriptionOptions>) -> SubscriptionOptions {
    match options {
        Some(o) => o,
        None => no_options(),
    }
}

/// The texts of a list of strings.
pub open spec fn texts(v: Seq<String>) -> Seq<Seq<char>> {
    v.map_values(|s: String| s@)
}

/// Whether the prefix `p` reaches the topic `name`: `p` begins the name, and
/// a meta-topic (a name beginning with `$`) is hidden from the empty prefix.
pub open spec fn prefix_matches(name: Seq<char>, p: Seq<char>) -> bool {
    has_prefix(name, p) && !(p.len() == 0 && has_prefix(name, "$"@))
}

/// Whether a subscription with these topics and options cares about the topic
/// `name`: with the prefix option, when one of its topics is a prefix that
/// reaches the name (see `prefix_matches`); otherwise when one of its topics
/// is the name.
pub open spec fn cares(topics: Seq<Seq<char>>, options: Option<SubscriptionOptions>, name: Seq<char>) -> bool {
    if flag(options_or_default(options).prefix) {
        exists|i: int| 0 <= i < topics.len() && prefix_matches(name, #[trigger] topics[i])
    } else {
        exists|i: int| 0 <= i < topics.len() && #[trigger] topics[i] == name
    }
}

impl Subscription {
    /// The message that ends this subscription.
    pub fn as_unsubscribe(&self) -> (m: NTMessage)
        ensures
            m == NTMessage::Unsubscribe(Unsubscribe { subuid: self.subuid }),
    {
        NTMessage::Unsubscribe(Unsubscribe { subuid: self.subuid })
    }

    /// The options, the defaults where none were given.
    pub fn get_options(&self) -> (o: SubscriptionOptions)
        ensures
            o == options_or_default(self.options),
    {
        match self.options {
            Some(o) => o,
            None => SubscriptionOptions::default(),
        }
    }

    /// Whether this subscription cares about the topic named `topic`.
    pub fn cares_about(&self, topic: &String) -> (b: bool)
        ensures
            b == cares(texts(self.topics@), self.options, topic@),
    {
        let prefix = match self.get_options().prefix {
            Some(p) => p,
            None => false,
        };
        let mut i: usize = 0;
        while i < self.topics.len()
            invariant
                i <= self.topics@.len(),
                prefix == flag(options_or_default(self.options).prefix),
                prefix ==> forall|k: int| 0 <= k < i ==> !prefix_matches(topic@, #[trigger] texts(self.topics@)[k]),
                !prefix ==> forall|k: int| 0 <= k < i ==> #[trigger] texts(self.topics@)[k] != topic@,
            decreases self.topics@.len() - i,
        {
            assert(texts(self.topics@)[i as int] == self.topics@[i as int]@);
            if prefix {
                proof {
                    reveal_strlit("");
                }
                let hidden = starts_with("", self.topics[i].as_str()) && starts_with(topic.as_str(), "$");
                proof {
                    let pat = self.topics@[i as int]@;
                    if pat.len() == 0 {
                        assert(""@.subrange(0, 0) =~= pat);
                    }
                    assert(hidden == (pat.len() == 0 && has_prefix(topic@, "$"@)));
                }
                if starts_with(topic.as_str(), self.topics[i].as_str()) && !hidden {
                    assert(prefix_matches(topic@, texts(self.topics@)[i as int]));
                    return true;
                }
            } else if self.topics[i] == *topic {
                return true;
            }
            i = i + 1;
        }
        false
    }
}

/// Without the prefix option (no options, or a prefix flag that is not
/// `Some(true)`), a subscription cares about exactly the names that are among
/// its topics: `/robot/speed` does not reach `/robot/speedLimit`.
pub proof fn law_exact_names_without_prefix(topics: Seq<Seq<char>>, options: Option<SubscriptionOptions>, name: Seq<char>)
    requires
        options is None || options->0.prefix != Some(true),
    ensures
        cares(topics, options, name) <==> topics.contains(name),
{
    if topics.contains(name) {
        let i = choose|i: int| 0 <= i < topics.len() && topics[i] == name;
        assert(topics[i] == name);
    }
}

/// With the prefix option, a subscription cares about a name exactly when one
/// of its topics is the beginning of the name, except that a name beginning
/// with `$` is not reached by the empty topic.
pub proof fn law_prefixes_with_prefix_option(topics: Seq<Seq<char>>, o: SubscriptionOptions, name: Seq<char>)
    requires
        o.prefix == Some(true),
    ensures
        cares(topics, Some(o), name) <==> exists|i: int|
            0 <= i < topics.len() && topics[i].len() <= name.len() && #[trigger] name.subrange(0, topics[i].len() as int)
                == topics[i] && !(topics[i].len() == 0 && name.len() > 0 && name[0] == '$'),
{
    reveal_strlit("$");
    assert forall|i: int| 0 <= i < topics.len() implies #[trigger] prefix_matches(name, topics[i]) == (topics[i].len()
        <= name.len() && name.subrange(0, topics[i].len() as int) == topics[i] && !(topics[i].len() == 0 && name.len()
        > 0 && name[0] == '$')) by {
        if name.len() > 0 && name[0] == '$' {
            assert(name.subrange(0, 1) =~= "$"@);
        }
        if has_prefix(name, "$"@) {
            assert(name.subrange(0, 1)[0] == name[0]);
        }
    }
    if cares(topics, Some(o), name) {
        let i = choose|i: int| 0 <= i < topics.len() && prefix_matches(name, #[trigger] topics[i]);
        assert(name.subrange(0, topics[i].len() as int) == topics[i]);
    }
    if exists|i: int|
        0 <= i < topics.len() && topics[i].len() <= name.len() && #[trigger] name.subrange(0, topics[i].len() as int)
            == topics[i] && !(topics[i].len() == 0 && name.len() > 0 && name[0] == '$') {
        let i = choose|i: int|
            0 <= i < topics.len() && topics[i].len() <= name.len() && #[trigger] name.subrange(0, topics[i].len() as int)
                == topics[i] && !(topics[i].len() == 0 && name.len() > 0 && name[0] == '$');
        assert(prefix_matches(name, topics[i]));
    }
}

} // verus!
