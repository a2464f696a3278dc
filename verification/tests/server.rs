use nettables::frc_type::FrcType;
use nettables::protocol::messages::{Close, NTMessage, PublishTopic, Subscribe, UnpublishTopic, Unsubscribe};
use nettables::protocol::metatopic::MetaTopicValue;
use nettables::protocol::topic::Topic;
use nettables::protocol::{PublishProperties, SubscriptionOptions};
use nettables::server::error::NTServerError;
use nettables::server::state::{ServerAction, ServerState};
use nettables::server::util::{ClientIdentity, TimestampedValue};

fn ident(addr: &str, name: &str) -> ClientIdentity {
    ClientIdentity::new(addr.to_string(), name.to_string())
}

fn int_value(timestamp: u64, v: u8) -> TimestampedValue {
    TimestampedValue { timestamp, ty: FrcType::Int, value: vec![v] }
}

fn publish(name: &str, pubuid: u32) -> NTMessage {
    NTMessage::Publish(PublishTopic { name: name.to_string(), pubuid, ty: "int".to_string(), properties: None })
}

fn subscribe(subuid: i32, topics: &[&str], options: Option<SubscriptionOptions>) -> NTMessage {
    NTMessage::Subscribe(Subscribe { subuid, topics: topics.iter().map(|t| t.to_string()).collect(), options })
}

fn connected() -> (ServerState, u32) {
    let mut state = ServerState::new();
    let mut id = ident("127.0.0.1:5000", "test");
    let idx = state.connect_client(&mut id).unwrap();
    (state, idx)
}

#[test]
fn new_server_has_its_meta_topics() {
    let state = ServerState::new();
    assert_eq!(state.topic_map.get(&"$clients".to_string()), Some(0));
    assert_eq!(state.topic_map.get(&"$serversub".to_string()), Some(1));
    assert_eq!(state.topic_map.get(&"$serverpub".to_string()), Some(2));
    assert_eq!(state.counters.topic_idx, 3);
    assert_eq!(state.counters.client_idx, 1);
    assert!(state.clients.get(&0).is_some());
    assert!(!state.clients.get(&0).unwrap().has_output);
    assert_eq!(state.pub_count.get(&0), Some(&1));
    assert!(state.get_topic_names().contains(&"$serverpub".to_string()));
}

#[test]
fn connecting_adds_client_and_meta_topics() {
    let (state, idx) = connected();
    assert_eq!(idx, 1);
    assert!(state.is_client_connected(&ident("127.0.0.1:5000", "test")));
    assert_eq!(state.topic_map.get(&"$clientpub$test".to_string()), Some(3));
    assert_eq!(state.topic_map.get(&"$clientsub$test".to_string()), Some(4));
    assert_eq!(state.client_metatopic_map.get(&1), Some(&(3, 4)));
    match state.metatopic_value_map.get(&0) {
        Some(MetaTopicValue::Client(list)) => {
            assert_eq!(list.len(), 1);
            assert_eq!(list[0].id, "test");
            assert_eq!(list[0].conn, "127.0.0.1:5000");
        }
        other => panic!("unexpected $clients value: {:?}", other),
    }
    let got = state.get_client_ident(1).unwrap();
    assert_eq!(got.name, "test");
    assert!(state.get_client_ident(9).is_none());
}

#[test]
fn connecting_twice_is_refused() {
    let (mut state, _) = connected();
    let mut again = ident("127.0.0.1:5000", "test");
    match state.connect_client(&mut again) {
        Err(NTServerError::ClientAlreadyExists(text)) => assert_eq!(text, "test@127.0.0.1:5000"),
        other => panic!("expected a refusal, got {:?}", other),
    }
}

#[test]
fn taken_names_get_a_count() {
    let (mut state, _) = connected();
    let mut other = ident("127.0.0.1:5001", "test");
    let idx = state.connect_client(&mut other).unwrap();
    assert_eq!(idx, 2);
    assert_eq!(other.name, "test@1");
    let mut third = ident("127.0.0.1:5002", "tes");
    state.connect_client(&mut third).unwrap();
    assert_eq!(third.name, "tes@2");
}

#[test]
fn publishing_announces_to_the_publisher() {
    let (mut state, c) = connected();
    let mut actions = Vec::new();
    let r = state.handle_message(c, publish("/a", 5), &mut actions);
    assert!(matches!(r, Some(Ok(()))));
    let t = state.topic_map.get(&"/a".to_string()).unwrap();
    assert_eq!(t, 5);
    assert_eq!(state.topic_map.get(&"$pub$/a".to_string()), Some(6));
    assert_eq!(state.topic_map.get(&"$sub$/a".to_string()), Some(7));
    let announced_with_pubuid = actions.iter().any(|a| match a {
        ServerAction::Messages(to, msgs) => *to == c && msgs.iter().any(|m| matches!(m, NTMessage::Announce(an) if an.name == "/a" && an.pubuid == Some(5) && an.id == 5)),
        _ => false,
    });
    assert!(announced_with_pubuid);
    match state.metatopic_value_map.get(&3) {
        Some(MetaTopicValue::ClientPublisher(list)) => {
            assert_eq!(list.len(), 1);
            assert_eq!(list[0].topic, "/a");
            assert_eq!(list[0].uid, 5);
        }
        other => panic!("unexpected publisher meta value: {:?}", other),
    }
}

#[test]
fn values_route_through_publisher_ids() {
    let (mut state, c) = connected();
    let mut actions = Vec::new();
    state.handle_message(c, publish("/a", 5), &mut actions);
    let t = state.topic_map.get(&"/a".to_string()).unwrap();
    assert!(matches!(state.apply_value(c, 5, int_value(10, 1)), Some(Ok(_))));
    assert!(state.apply_value(c, 99, int_value(10, 1)).is_none());
    assert!(state.apply_value(42, 5, int_value(10, 1)).is_none());
    let v = state.get_value(t).unwrap();
    assert_eq!(v.timestamp, 10);
    assert_eq!(v.value, vec![1]);
}

#[test]
fn older_values_do_not_replace_the_latest() {
    let (mut state, c) = connected();
    let mut actions = Vec::new();
    state.handle_message(c, publish("/a", 5), &mut actions);
    let t = state.topic_map.get(&"/a".to_string()).unwrap();
    state.set_value(int_value(20, 2), t).unwrap();
    state.set_value(int_value(10, 1), t).unwrap();
    assert_eq!(state.get_value(t).unwrap().value, vec![2]);
    state.set_value(int_value(30, 3), t).unwrap();
    assert_eq!(state.get_value(t).unwrap().timestamp, 30);
}

#[test]
fn setting_values_of_missing_or_meta_topics_fails() {
    let mut state = ServerState::new();
    assert!(matches!(state.set_value(int_value(1, 1), 0), Err(NTServerError::NotNormalTopic(_))));
    assert!(matches!(state.set_value(int_value(1, 1), 77), Err(NTServerError::TopicDoesNotExist(_))));
    assert!(matches!(state.get_value(77), Err(NTServerError::TopicDoesNotExist(_))));
    assert!(matches!(state.get_topic_idx(&"/none".to_string()), Err(NTServerError::TopicDoesNotExist(_))));
}

#[test]
fn subscribing_sends_announcements_and_latest_values() {
    let (mut state, c) = connected();
    let mut actions = Vec::new();
    state.handle_message(c, publish("/a", 5), &mut actions);
    let t = state.topic_map.get(&"/a".to_string()).unwrap();
    state.set_value(int_value(1000, 5), t).unwrap();
    let mut actions = Vec::new();
    assert!(matches!(state.handle_message(c, subscribe(9, &["/a"], None), &mut actions), Some(Ok(()))));
    assert_eq!(actions.len(), 2);
    match &actions[0] {
        ServerAction::Messages(to, msgs) => {
            assert_eq!(*to, c);
            assert_eq!(msgs.len(), 1);
            assert!(matches!(&msgs[0], NTMessage::Announce(a) if a.name == "/a" && a.ty == "int" && a.pubuid.is_none()));
        }
        other => panic!("unexpected action {:?}", other),
    }
    match &actions[1] {
        ServerAction::Binary(to, bytes) => {
            assert_eq!(*to, c);
            assert_eq!(bytes, &vec![0x94, 0xd2, 0, 0, 0, 5, 0xcd, 0x03, 0xe8, 0xcc, 2, 5]);
        }
        other => panic!("unexpected action {:?}", other),
    }
}

#[test]
fn prefix_subscriptions_match_by_prefix() {
    let (mut state, c) = connected();
    let mut actions = Vec::new();
    state.handle_message(c, publish("/robot/speed", 1), &mut actions);
    state.handle_message(c, publish("/other", 2), &mut actions);
    let options = SubscriptionOptions { periodic: None, all: None, topics_only: None, prefix: Some(true) };
    let mut actions = Vec::new();
    state.handle_message(c, subscribe(1, &["/robot/"], Some(options)), &mut actions);
    let names: Vec<String> = match &actions[0] {
        ServerAction::Messages(_, msgs) => msgs
            .iter()
            .filter_map(|m| match m {
                NTMessage::Announce(a) => Some(a.name.clone()),
                _ => None,
            })
            .collect(),
        other => panic!("unexpected action {:?}", other),
    };
    assert_eq!(names, vec!["/robot/speed".to_string()]);
}

#[test]
fn kept_values_leave_on_send() {
    let (mut state, c) = connected();
    let mut actions = Vec::new();
    state.handle_message(c, publish("/a", 5), &mut actions);
    let all = SubscriptionOptions { periodic: None, all: Some(true), topics_only: None, prefix: None };
    state.handle_message(c, subscribe(3, &["/a"], Some(all)), &mut actions);
    let sub_idx = *state.subscriptions.keys().next().unwrap();
    assert!(state.wants_values(sub_idx));
    assert!(state.kept_topics_fit(sub_idx));
    state.apply_value(c, 5, int_value(1, 7)).unwrap().unwrap();
    state.apply_value(c, 5, int_value(2, 8)).unwrap().unwrap();
    let mut out = Vec::new();
    state.send_kept_values(sub_idx, &mut out);
    assert_eq!(out.len(), 1);
    match &out[0] {
        ServerAction::Binary(to, bytes) => {
            assert_eq!(*to, c);
            let mut expected = vec![0x94, 0xd2, 0, 0, 0, 5, 1, 0xcc, 2, 7];
            expected.extend_from_slice(&[0x94, 0xd2, 0, 0, 0, 5, 2, 0xcc, 2, 8]);
            assert_eq!(bytes, &expected);
        }
        other => panic!("unexpected action {:?}", other),
    }
    let mut again = Vec::new();
    state.send_kept_values(sub_idx, &mut again);
    assert!(again.is_empty());
}

#[test]
fn topics_only_subscriptions_want_no_values() {
    let (mut state, c) = connected();
    let only = SubscriptionOptions { periodic: None, all: None, topics_only: Some(true), prefix: None };
    let mut actions = Vec::new();
    state.handle_message(c, subscribe(3, &["/a"], Some(only)), &mut actions);
    let sub_idx = *state.subscriptions.keys().next().unwrap();
    assert!(!state.wants_values(sub_idx));
    assert!(!state.wants_values(sub_idx + 100));
}

#[test]
fn unsubscribing_undoes_subscribing() {
    let (mut state, c) = connected();
    let mut actions = Vec::new();
    state.handle_message(c, publish("/a", 5), &mut actions);
    let t = state.topic_map.get(&"/a".to_string()).unwrap();
    let lists_before = state.topic_sub_map.get(&t).unwrap().clone();
    state.handle_message(c, subscribe(4, &["/a"], None), &mut actions);
    assert_eq!(state.subscriptions.len(), 1);
    assert_eq!(state.topic_sub_map.get(&t).unwrap().len(), lists_before.len() + 1);
    let r = state.handle_message(c, NTMessage::Unsubscribe(Unsubscribe { subuid: 4 }), &mut actions);
    assert!(matches!(r, Some(Ok(()))));
    assert!(state.subscriptions.is_empty());
    assert!(state.sub_values.is_empty());
    assert_eq!(state.topic_sub_map.get(&t).unwrap(), &lists_before);
    let again = state.unsubscribe(Unsubscribe { subuid: 4 }, c);
    assert!(matches!(again, Err(NTServerError::SubscriptionDoesNotExist(_))));
    assert!(matches!(state.unsubscribe(Unsubscribe { subuid: 4 }, 77), Err(NTServerError::ClientDoesNotExist(_))));
}

#[test]
fn unpublishing_the_only_publisher_removes_the_topic() {
    let (mut state, c) = connected();
    let mut actions = Vec::new();
    state.handle_message(c, publish("/a", 5), &mut actions);
    let t = state.topic_map.get(&"/a".to_string()).unwrap();
    state.set_value(int_value(1, 1), t).unwrap();
    assert!(state.can_unpublish(5, c));
    let r = state.handle_message(c, NTMessage::Unpublish(UnpublishTopic { pubuid: 5 }), &mut actions);
    assert!(matches!(r, Some(Ok(()))));
    assert!(state.topic_map.get(&"/a".to_string()).is_none());
    assert!(state.topic_map.get(&"$pub$/a".to_string()).is_none());
    assert!(state.topics.get(&t).is_none());
    assert!(state.pub_count.get(&t).is_none());
    assert!(state.get_value(t).is_err());
    let missing = state.inner_unpublish_topic(UnpublishTopic { pubuid: 5 }, c, &mut Vec::new());
    assert!(matches!(missing, Err(NTServerError::TopicDoesNotExist(_))));
}

#[test]
fn retained_topics_outlive_their_publisher() {
    let (mut state, c) = connected();
    let mut actions = Vec::new();
    let props = PublishProperties { persistent: None, retained: Some(true) };
    let msg = NTMessage::Publish(PublishTopic { name: "/kept".to_string(), pubuid: 1, ty: "int".to_string(), properties: Some(props) });
    state.handle_message(c, msg, &mut actions);
    let t = state.topic_map.get(&"/kept".to_string()).unwrap();
    assert_eq!(state.pub_count.get(&t), Some(&2));
    state.handle_message(c, NTMessage::Unpublish(UnpublishTopic { pubuid: 1 }), &mut actions);
    assert_eq!(state.topic_map.get(&"/kept".to_string()), Some(t));
    assert_eq!(state.pub_count.get(&t), Some(&1));
}

#[test]
fn setting_properties_updates_given_fields() {
    let (mut state, c) = connected();
    let mut actions = Vec::new();
    state.handle_message(c, publish("/a", 5), &mut actions);
    let t = state.topic_map.get(&"/a".to_string()).unwrap();
    state.set_topic_props("/a".to_string(), PublishProperties { persistent: Some(true), retained: None }, &mut Vec::new()).unwrap();
    state.set_topic_props("/a".to_string(), PublishProperties { persistent: None, retained: Some(false) }, &mut Vec::new()).unwrap();
    let props = state.topics.get(&t).unwrap().properties.unwrap();
    assert_eq!(props.persistent, Some(true));
    assert_eq!(props.retained, Some(false));
    assert!(matches!(
        state.set_topic_props("/none".to_string(), PublishProperties::default(), &mut Vec::new()),
        Err(NTServerError::TopicDoesNotExist(_))
    ));
}

#[test]
fn server_publishes_its_own_topics() {
    let mut state = ServerState::new();
    let mut actions = Vec::new();
    state.publish_topic_w_props("/server".to_string(), int_value(50, 9), None, 77, &mut actions).unwrap();
    let value = state.get_topic_value(&"/server".to_string()).unwrap();
    assert_eq!(value.timestamp, 50);
    assert_eq!(value.value, vec![9]);
    state.set_topic_value_w_timestamp(&"/server".to_string(), int_value(60, 10)).unwrap();
    assert_eq!(state.get_topic_value(&"/server".to_string()).unwrap().value, vec![10]);
    assert!(state.set_topic_value_w_timestamp(&"/none".to_string(), int_value(60, 10)).is_err());
    assert!(state.get_topic_value(&"/none".to_string()).is_err());
    match state.metatopic_value_map.get(&2) {
        Some(MetaTopicValue::ServerPublisher(list)) => assert_eq!(list.len(), 1),
        other => panic!("unexpected $serverpub value: {:?}", other),
    }
    assert!(actions.is_empty());
}

#[test]
fn disconnecting_removes_the_client() {
    let (mut state, c) = connected();
    let mut actions = Vec::new();
    state.handle_message(c, publish("/a", 5), &mut actions);
    let id = ident("127.0.0.1:5000", "test");
    assert!(state.can_disconnect(&id));
    let close = NTMessage::Close(Close { addr: "127.0.0.1:5000".to_string(), name: "test".to_string() });
    let r = state.handle_message(c, close, &mut actions);
    assert!(r.is_some());
    assert!(!state.is_client_connected(&id));
    assert!(state.clients.get(&c).is_none());
    assert!(state.topic_map.get(&"/a".to_string()).is_none());
    assert!(state.client_metatopic_map.get(&c).is_none());
    let again = state.disconnect_client(id, &mut Vec::new());
    assert!(matches!(again, Err(NTServerError::ClientDoesNotExist(_))));
}

#[test]
fn flushing_reaches_clients_with_output() {
    let (mut state, c) = connected();
    let mut actions = Vec::new();
    state.flush_all(&mut actions).unwrap();
    assert_eq!(actions.len(), 1);
    assert!(matches!(actions[0], ServerAction::Flush(to) if to == c));
    let mut one = Vec::new();
    state.flush_client(c, &mut one).unwrap();
    assert_eq!(one.len(), 1);
    let mut none = Vec::new();
    state.flush_client(0, &mut none).unwrap();
    assert!(none.is_empty());
    assert!(matches!(state.flush_client(55, &mut none), Err(NTServerError::ClientDoesNotExist(_))));
    let _ = &mut state;
}

#[test]
fn withdrawals_reach_clients_that_knew_the_topic() {
    let (mut state, c) = connected();
    let mut actions = Vec::new();
    state.handle_message(c, publish("/a", 5), &mut actions);
    let t = state.topic_map.get(&"/a".to_string()).unwrap();
    let mut out = Vec::new();
    state.un_announce_topics("/a".to_string(), t, &mut out).unwrap();
    assert_eq!(out.len(), 1);
    match &out[0] {
        ServerAction::Messages(to, msgs) => {
            assert_eq!(*to, c);
            assert!(matches!(&msgs[0], NTMessage::UnAnnounce(u) if u.name == "/a" && u.id == t));
        }
        other => panic!("unexpected action {:?}", other),
    }
    let mut twice = Vec::new();
    state.un_announce_topics("/a".to_string(), t, &mut twice).unwrap();
    assert!(twice.is_empty());
}

#[test]
fn announcing_all_topics_for_a_subscription() {
    let (mut state, c) = connected();
    let mut actions = Vec::new();
    state.handle_message(c, publish("/a", 5), &mut actions);
    state.handle_message(c, subscribe(8, &["/a", "/b"], None), &mut actions);
    let sub_idx = *state.subscriptions.keys().next().unwrap();
    let mut out = Vec::new();
    state.announce_all_topics_for(sub_idx, &mut out).unwrap();
    assert_eq!(out.len(), 1);
    match &out[0] {
        ServerAction::Messages(_, msgs) => assert_eq!(msgs.len(), 1),
        other => panic!("unexpected action {:?}", other),
    }
    assert!(matches!(state.announce_all_topics_for(999, &mut out), Err(NTServerError::SubscriptionDoesNotExist(_))));
}

#[test]
fn announcing_a_missing_topic_fails() {
    let (mut state, c) = connected();
    let mut actions = Vec::new();
    assert!(matches!(state.announce_topic(500, None, &mut actions), Err(NTServerError::TopicDoesNotExist(_))));
    assert!(matches!(state.announce_topic(0, Some((1, 77)), &mut actions), Err(NTServerError::ClientDoesNotExist(_))));
    assert!(state.announce_topic(0, Some((1, c)), &mut actions).is_ok());
}

#[test]
fn removing_a_topic_needs_its_meta_topics() {
    let mut state = ServerState::new();
    assert!(matches!(state.remove_topic(9), Err(NTServerError::TopicDoesNotExist(_))));
    assert!(matches!(state.remove_topic(0), Err(NTServerError::TopicDoesNotExist(_))));
    let mut actions = Vec::new();
    let t = state.add_topic(Topic { name: "/x".to_string(), ty: "int".to_string(), properties: None }, &mut actions).unwrap();
    assert!(state.remove_topic(t).is_ok());
    assert!(state.topic_map.get(&"/x".to_string()).is_none());
}

#[test]
fn other_messages_get_no_answer() {
    let (mut state, c) = connected();
    let mut actions = Vec::new();
    let msg = NTMessage::Properties(nettables::protocol::messages::Properties { name: "/a".to_string(), ack: None });
    assert!(state.handle_message(c, msg, &mut actions).is_none());
    assert!(actions.is_empty());
}

#[test]
fn identity_reads_back_from_its_text() {
    let id = ClientIdentity::from_display("robot@127.0.0.1:5810".to_string()).unwrap();
    assert_eq!(id.addr, "127.0.0.1:5810");
    assert_eq!(id.name, "robot");
}

#[test]
fn identity_text_is_normalised() {
    let id = ClientIdentity::from_display("a@+1.02.3.4:080".to_string()).unwrap();
    assert_eq!(id.addr, "1.2.3.4:80");
    assert_eq!(id.name, "a");
}

#[test]
fn identity_with_empty_name() {
    let id = ClientIdentity::from_display("@0.0.0.0:0".to_string()).unwrap();
    assert_eq!(id.addr, "0.0.0.0:0");
    assert_eq!(id.name, "");
}

#[test]
fn identity_stops_at_second_separators() {
    let id = ClientIdentity::from_display("x@10.0.0.1:99:7@rest".to_string()).unwrap();
    assert_eq!(id.addr, "10.0.0.1:99");
    assert_eq!(id.name, "x");
}

#[test]
fn identity_text_that_does_not_read() {
    assert!(ClientIdentity::from_display("no-separator".to_string()).is_none());
    assert!(ClientIdentity::from_display("a@1.2.3.4".to_string()).is_none());
    assert!(ClientIdentity::from_display("a@1.2.3.256:1".to_string()).is_none());
    assert!(ClientIdentity::from_display("a@1.2.3:1".to_string()).is_none());
    assert!(ClientIdentity::from_display("a@1.2.3.4.5:1".to_string()).is_none());
    assert!(ClientIdentity::from_display("a@1.2.3.4:65536".to_string()).is_none());
    assert!(ClientIdentity::from_display("a@1.2..4:1".to_string()).is_none());
    assert!(ClientIdentity::from_display("a@1.2.3.4:".to_string()).is_none());
}

fn frame(items: Vec<rmpv::Value>) -> Vec<u8> {
    let mut buf = Vec::new();
    rmpv::encode::write_value(&mut buf, &rmpv::Value::Array(items)).unwrap();
    buf
}

fn value_frame(uid: u64, timestamp: u64, code: u64, value: rmpv::Value) -> Vec<u8> {
    frame(vec![rmpv::Value::from(uid), rmpv::Value::from(timestamp), rmpv::Value::from(code), value])
}

fn published() -> (ServerState, u32, u32) {
    let (mut state, c) = connected();
    let mut actions = Vec::new();
    state.handle_message(c, publish("/a", 5), &mut actions);
    let t = state.topic_map.get(&"/a".to_string()).unwrap();
    (state, c, t)
}

#[test]
fn binary_value_is_set() {
    let (mut state, c, t) = published();
    assert!(!state.apply_binary(c, &value_frame(5, 10, 2, rmpv::Value::from(42))));
    let v = state.get_value(t).unwrap();
    assert_eq!(v.timestamp, 10);
    assert_eq!(v.ty, FrcType::Int);
    assert_eq!(v.value, vec![42]);
}

fn published_as(ty: &str) -> (ServerState, u32, u32) {
    let (mut state, c) = connected();
    let mut actions = Vec::new();
    state.handle_message(
        c,
        NTMessage::Publish(PublishTopic { name: "/a".to_string(), pubuid: 5, ty: ty.to_string(), properties: None }),
        &mut actions,
    );
    let t = state.topic_map.get(&"/a".to_string()).unwrap();
    (state, c, t)
}

#[test]
fn binary_value_type_comes_from_the_value() {
    let (mut state, c, t) = published_as("double");
    assert!(!state.apply_binary(c, &value_frame(5, 11, 0, rmpv::Value::F64(1.5))));
    let v = state.get_value(t).unwrap();
    assert_eq!(v.ty, FrcType::Double);
    assert_eq!(v.value, vec![0xcb, 0x3f, 0xf8, 0, 0, 0, 0, 0, 0]);
}

#[test]
fn binary_value_of_another_type_is_ignored() {
    let (mut state, c, t) = published();
    assert!(!state.apply_binary(c, &value_frame(5, 11, 2, rmpv::Value::F64(1.5))));
    assert!(state.get_value(t).is_err());
}

#[test]
fn binary_integer_beyond_i64_reads_as_zero() {
    let (mut state, c, t) = published();
    assert!(!state.apply_binary(c, &value_frame(5, 12, 2, rmpv::Value::from(u64::MAX))));
    let v = state.get_value(t).unwrap();
    assert_eq!(v.ty, FrcType::Int);
    assert_eq!(v.value, vec![0]);
}

#[test]
fn binary_empty_array_is_void() {
    let (mut state, c, t) = published_as("raw");
    assert!(!state.apply_binary(c, &value_frame(5, 13, 5, rmpv::Value::Array(vec![]))));
    let v = state.get_value(t).unwrap();
    assert_eq!(v.ty, FrcType::Void);
    assert_eq!(v.value, vec![0xc0]);
}

#[test]
fn binary_frames_apply_in_order() {
    let (mut state, c, t) = published();
    let mut bytes = value_frame(5, 20, 2, rmpv::Value::from(1));
    bytes.extend(value_frame(5, 21, 2, rmpv::Value::from(2)));
    assert!(!state.apply_binary(c, &bytes));
    let v = state.get_value(t).unwrap();
    assert_eq!(v.timestamp, 21);
    assert_eq!(v.value, vec![2]);
}

#[test]
fn binary_non_array_values_are_passed_over() {
    let (mut state, c, t) = published();
    let mut bytes = Vec::new();
    rmpv::encode::write_value(&mut bytes, &rmpv::Value::from(7)).unwrap();
    bytes.extend(value_frame(5, 30, 2, rmpv::Value::from(3)));
    assert!(!state.apply_binary(c, &bytes));
    assert_eq!(state.get_value(t).unwrap().value, vec![3]);
}

#[test]
fn binary_unreadable_frame_stops_after_earlier_ones() {
    let (mut state, c, t) = published();
    let mut bytes = value_frame(5, 40, 2, rmpv::Value::from(4));
    bytes.extend(frame(vec![rmpv::Value::from(5), rmpv::Value::from(41)]));
    bytes.extend(value_frame(5, 42, 2, rmpv::Value::from(6)));
    assert!(state.apply_binary(c, &bytes));
    let v = state.get_value(t).unwrap();
    assert_eq!(v.timestamp, 40);
    assert_eq!(v.value, vec![4]);
}

#[test]
fn binary_ids_that_do_not_fit_stop_reading() {
    let (mut state, c, _) = published();
    assert!(state.apply_binary(c, &value_frame(1 << 32, 1, 2, rmpv::Value::from(1))));
    assert!(state.apply_binary(c, &frame(vec![rmpv::Value::from(-1), rmpv::Value::from(1), rmpv::Value::from(1)])));
}

#[test]
fn binary_unknown_publisher_changes_nothing() {
    let (mut state, c, t) = published();
    assert!(!state.apply_binary(c, &value_frame(9, 50, 2, rmpv::Value::from(1))));
    assert!(state.get_value(t).is_err());
    assert!(!state.apply_binary(c, &[0xc1, 0x01]));
    assert!(!state.apply_binary(c, &[]));
}

fn announced_names(action: &ServerAction) -> Vec<String> {
    match action {
        ServerAction::Messages(_, msgs) => msgs
            .iter()
            .filter_map(|m| match m {
                NTMessage::Announce(a) => Some(a.name.clone()),
                _ => None,
            })
            .collect(),
        _ => Vec::new(),
    }
}

#[test]
fn disconnecting_removes_the_client_meta_topics() {
    let (mut state, c) = connected();
    let id = ident("127.0.0.1:5000", "test");
    assert!(state.disconnect_client(id, &mut Vec::new()).is_ok());
    assert!(state.topic_map.get(&"$clientpub$test".to_string()).is_none());
    assert!(state.topic_map.get(&"$clientsub$test".to_string()).is_none());
    assert!(state.topics.get(&3).is_none());
    assert!(state.topics.get(&4).is_none());
    assert!(state.client_metatopic_map.get(&c).is_none());
    match state.metatopic_value_map.get(&0) {
        Some(MetaTopicValue::Client(list)) => assert!(list.is_empty()),
        other => panic!("unexpected $clients value: {:?}", other),
    }
}

#[test]
fn resubscribing_replaces_the_subscription() {
    let (mut state, c) = connected();
    let mut actions = Vec::new();
    state.handle_message(c, publish("/a", 5), &mut actions);
    state.handle_message(c, publish("/b", 6), &mut actions);
    assert!(matches!(state.handle_message(c, subscribe(9, &["/a"], None), &mut actions), Some(Ok(()))));
    assert!(matches!(state.handle_message(c, subscribe(9, &["/b"], None), &mut actions), Some(Ok(()))));
    let mine: Vec<&(nettables::protocol::subscription::Subscription, u32)> =
        state.subscriptions.values().filter(|(s, owner)| *owner == c && s.subuid == 9).collect();
    assert_eq!(mine.len(), 1);
    assert_eq!(mine[0].0.topics, vec!["/b".to_string()]);
    let a = state.topic_map.get(&"/a".to_string()).unwrap();
    assert!(state.topic_sub_map.get(&a).unwrap().is_empty());
}

#[test]
fn older_values_are_not_queued() {
    let (mut state, c) = connected();
    let mut actions = Vec::new();
    state.handle_message(c, publish("/a", 5), &mut actions);
    state.handle_message(c, subscribe(9, &["/a"], None), &mut actions);
    let t = state.topic_map.get(&"/a".to_string()).unwrap();
    state.set_value(int_value(20, 2), t).unwrap();
    let mut actions = Vec::new();
    state.flush_client(c, &mut actions).unwrap();
    let sub = *state.subscriptions.keys().next().unwrap();
    state.send_kept_values(sub, &mut actions);
    state.set_value(int_value(10, 1), t).unwrap();
    let mut actions = Vec::new();
    state.send_kept_values(sub, &mut actions);
    assert!(actions.is_empty());
    assert_eq!(state.get_value(t).unwrap().value, vec![2]);
}

#[test]
fn meta_topics_are_hidden_from_the_empty_prefix() {
    let (mut state, c) = connected();
    let mut actions = Vec::new();
    state.handle_message(c, publish("/a", 5), &mut actions);
    let options = SubscriptionOptions { periodic: None, all: None, topics_only: None, prefix: Some(true) };
    let mut actions = Vec::new();
    state.handle_message(c, subscribe(1, &[""], Some(options)), &mut actions);
    assert_eq!(announced_names(&actions[0]), vec!["/a".to_string()]);
    let mut actions = Vec::new();
    state.handle_message(c, subscribe(2, &["$"], Some(options)), &mut actions);
    assert!(announced_names(&actions[0]).iter().all(|n| n.starts_with('$')));
    assert!(announced_names(&actions[0]).contains(&"$clients".to_string()));
}

#[test]
fn a_second_publisher_is_counted() {
    let (mut state, c) = connected();
    let mut actions = Vec::new();
    state.handle_message(c, publish("/a", 5), &mut actions);
    let t = state.topic_map.get(&"/a".to_string()).unwrap();
    assert_eq!(state.pub_count.get(&t), Some(&1));
    state.handle_message(c, publish("/a", 6), &mut actions);
    assert_eq!(state.pub_count.get(&t), Some(&2));
    state.handle_message(c, NTMessage::Unpublish(UnpublishTopic { pubuid: 5 }), &mut actions);
    assert_eq!(state.topic_map.get(&"/a".to_string()), Some(t));
    assert_eq!(state.pub_count.get(&t), Some(&1));
}

#[test]
fn a_repeated_publish_is_answered() {
    let (mut state, c) = connected();
    let mut actions = Vec::new();
    state.handle_message(c, publish("/a", 5), &mut actions);
    let mut actions = Vec::new();
    state.handle_message(c, publish("/a", 6), &mut actions);
    let answered = actions.iter().any(|a| match a {
        ServerAction::Messages(to, msgs) => {
            *to == c && msgs.iter().any(|m| matches!(m, NTMessage::Announce(x) if x.name == "/a" && x.pubuid == Some(6)))
        }
        _ => false,
    });
    assert!(answered);
}

#[test]
fn removing_a_topic_withdraws_its_announcement() {
    let (mut state, c) = connected();
    let mut actions = Vec::new();
    state.handle_message(c, subscribe(9, &["/a"], None), &mut actions);
    state.handle_message(c, publish("/a", 5), &mut actions);
    let t = state.topic_map.get(&"/a".to_string()).unwrap();
    let mut actions = Vec::new();
    assert!(matches!(state.handle_message(c, NTMessage::Unpublish(UnpublishTopic { pubuid: 5 }), &mut actions), Some(Ok(()))));
    let withdrawn = actions.iter().any(|a| match a {
        ServerAction::Messages(to, msgs) => {
            *to == c && msgs.iter().any(|m| matches!(m, NTMessage::UnAnnounce(u) if u.name == "/a" && u.id == t))
        }
        _ => false,
    });
    assert!(withdrawn);
    assert!(!state.clients.get(&c).unwrap().announced_topics.contains(&t));
}

#[test]
fn subscribing_marks_topics_announced() {
    let (mut state, c) = connected();
    let mut actions = Vec::new();
    state.handle_message(c, publish("/a", 5), &mut actions);
    let t = state.topic_map.get(&"/a".to_string()).unwrap();
    state.clients.get_mut(&c).unwrap().announced_topics.clear();
    state.handle_message(c, subscribe(9, &["/a"], None), &mut actions);
    assert!(state.clients.get(&c).unwrap().announced_topics.contains(&t));
}

#[test]
fn setting_properties_tells_subscribers() {
    let (mut state, c) = connected();
    let mut actions = Vec::new();
    state.handle_message(c, publish("/a", 5), &mut actions);
    state.handle_message(c, subscribe(9, &["/a"], None), &mut actions);
    let mut actions = Vec::new();
    state.set_topic_props("/a".to_string(), PublishProperties { persistent: Some(true), retained: None }, &mut actions).unwrap();
    assert_eq!(actions.len(), 1);
    match &actions[0] {
        ServerAction::Messages(to, msgs) => {
            assert_eq!(*to, c);
            assert!(matches!(&msgs[0], NTMessage::Properties(p) if p.name == "/a" && p.ack.is_none()));
        }
        other => panic!("unexpected action {:?}", other),
    }
}

#[test]
fn disconnecting_withdraws_removed_topics() {
    let (mut state, c) = connected();
    let mut other = ident("127.0.0.1:6000", "watcher");
    let w = state.connect_client(&mut other).unwrap();
    let mut actions = Vec::new();
    state.handle_message(w, subscribe(1, &["/a"], None), &mut actions);
    state.handle_message(c, publish("/a", 5), &mut actions);
    let t = state.topic_map.get(&"/a".to_string()).unwrap();
    let mut actions = Vec::new();
    let close = NTMessage::Close(Close { addr: "127.0.0.1:5000".to_string(), name: "test".to_string() });
    assert!(matches!(state.handle_message(c, close, &mut actions), Some(Ok(()))));
    let withdrawn = actions.iter().any(|a| match a {
        ServerAction::Messages(to, msgs) => {
            *to == w && msgs.iter().any(|m| matches!(m, NTMessage::UnAnnounce(u) if u.name == "/a" && u.id == t))
        }
        _ => false,
    });
    assert!(withdrawn);
}

#[test]
fn removing_a_topic_withdraws_its_meta_topics_too() {
    let (mut state, c) = connected();
    let mut actions = Vec::new();
    let options = SubscriptionOptions { periodic: None, all: None, topics_only: None, prefix: Some(true) };
    state.handle_message(c, subscribe(7, &["$"], Some(options)), &mut actions);
    state.handle_message(c, publish("/a", 5), &mut actions);
    let t = state.topic_map.get(&"/a".to_string()).unwrap();
    let ip = state.topic_map.get(&"$pub$/a".to_string()).unwrap();
    let is = state.topic_map.get(&"$sub$/a".to_string()).unwrap();
    let mut out = Vec::new();
    let r = state.inner_unpublish_topic(UnpublishTopic { pubuid: 5 }, c, &mut out);
    assert!(r.is_ok());
    let withdrawn: Vec<(String, u32)> = out
        .iter()
        .flat_map(|a| match a {
            ServerAction::Messages(to, msgs) if *to == c => msgs
                .iter()
                .filter_map(|m| match m {
                    NTMessage::UnAnnounce(u) => Some((u.name.clone(), u.id)),
                    _ => None,
                })
                .collect::<Vec<_>>(),
            _ => Vec::new(),
        })
        .collect();
    assert_eq!(
        withdrawn,
        vec![("/a".to_string(), t), ("$pub$/a".to_string(), ip), ("$sub$/a".to_string(), is)]
    );
}

#[test]
fn a_value_with_the_same_timestamp_is_queued_but_not_stored() {
    let (mut state, c) = connected();
    let mut actions = Vec::new();
    state.handle_message(c, publish("/a", 5), &mut actions);
    state.handle_message(c, subscribe(9, &["/a"], None), &mut actions);
    let t = state.topic_map.get(&"/a".to_string()).unwrap();
    state.set_value(int_value(20, 2), t).unwrap();
    let mut actions = Vec::new();
    state.flush_client(c, &mut actions).unwrap();
    let sub = *state.subscriptions.keys().next().unwrap();
    state.send_kept_values(sub, &mut actions);
    state.set_value(int_value(20, 7), t).unwrap();
    assert_eq!(state.get_value(t).unwrap().value, vec![2]);
    let mut actions = Vec::new();
    state.send_kept_values(sub, &mut actions);
    assert_eq!(actions.len(), 1);
    match &actions[0] {
        ServerAction::Binary(to, bytes) => {
            assert_eq!(*to, c);
            assert_eq!(bytes.last(), Some(&7));
        }
        other => panic!("unexpected action {:?}", other),
    }
}

#[test]
fn counters_hand_out_indices_in_order() {
    let mut c = nettables::server::util::Counter { topic_idx: 4, sub_idx: 10, client_idx: 1 };
    let subs: Vec<u32> = (0..3).map(|_| c.next_sub_idx()).collect();
    assert_eq!(subs, vec![10, 11, 12]);
    let clients: Vec<u32> = (0..2).map(|_| c.next_client_idx()).collect();
    assert_eq!(clients, vec![1, 2]);
    let topics: Vec<u32> = (0..2).map(|_| c.next_topic_idx()).collect();
    assert_eq!(topics, vec![4, 5]);
    assert_eq!(c, nettables::server::util::Counter { topic_idx: 6, sub_idx: 13, client_idx: 3 });
}
