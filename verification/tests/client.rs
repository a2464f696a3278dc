use nettables::client::frames::client_value_arrays;
use nettables::client::naming::clean_name;
use nettables::client::state::{encode_client_value, ClientEvent, ClientState, UnsignedIntOrNegativeOne, ValueArray, ValueFate};
use nettables::frc_type::FrcType;
use nettables::protocol::messages::{Announce, NTMessage, Properties, UnAnnounce, Unsubscribe};
use nettables::protocol::subscription::Subscription;
use nettables::protocol::topic::TopicType;
use nettables::protocol::{PublishProperties, SubscriptionOptions};

fn announce(name: &str, id: i32, ty: &str) -> NTMessage {
    NTMessage::Announce(Announce {
        name: name.to_string(),
        id,
        ty: ty.to_string(),
        pubuid: None,
        properties: PublishProperties::default(),
    })
}

fn array(id: Option<i64>, timestamp: Option<u64>, type_idx: Option<u64>, data_int: Option<i64>) -> ValueArray {
    ValueArray { len: 4, id, timestamp, type_idx, data_int }
}

#[test]
fn names_are_cleaned() {
    assert_eq!(clean_name("$a//b:c"), "ab/c");
    assert_eq!(clean_name("///x"), "/x");
    assert_eq!(clean_name("plain/name"), "plain/name");
    assert_eq!(clean_name("a:/b"), "a//b");
    assert_eq!(clean_name(""), "");
}

#[test]
fn ids_count_up_from_one() {
    let mut state = ClientState::new();
    assert_eq!(state.new_topic_id(), 1);
    assert_eq!(state.new_topic_id(), 2);
    assert_eq!(state.new_sub_id(), 1);
    state.topic_counter = u32::MAX;
    assert_eq!(state.new_topic_id(), 1);
    state.sub_counter = i32::MAX;
    assert_eq!(state.new_sub_id(), 1);
}

#[test]
fn time_sync_sets_the_offset() {
    let mut state = ClientState::new();
    assert_eq!(state.handle_new_timestamp(1000, 50_000, Some(800)), Some(()));
    assert_eq!(state.server_time_offset, 50_000 - 100 - 1000);
    assert_eq!(state.server_time_at(2000), 2000 + 48_900);
    assert_eq!(state.handle_new_timestamp(1000, 50_000, None), Some(()));
    assert_eq!(state.server_time_offset, 48_900);
}

#[test]
fn time_sync_fails_when_a_step_goes_negative() {
    let mut state = ClientState::new();
    assert_eq!(state.handle_new_timestamp(100, 50_000, Some(800)), None);
    assert_eq!(state.handle_new_timestamp(1000, 10, Some(0)), None);
    assert_eq!(state.handle_new_timestamp(1000, 900, Some(1000)), None);
    assert_eq!(state.handle_new_timestamp(1000, 500, Some(-1)), None);
    assert_eq!(state.server_time_offset, 0);
}

#[test]
fn opening_resends_publications_and_subscriptions() {
    let mut state = ClientState::new();
    let (_, topic) = state.publish_topic("/x", FrcType::Double, None);
    let (_, subuid) = state.subscribe_w_options(&vec!["/y".to_string()], None);
    state.handle_server_message(announce("/z", 3, "int"));
    state.server_time_offset = 99;
    let msgs = state.on_open();
    assert_eq!(msgs.len(), 2);
    assert!(matches!(&msgs[0], NTMessage::Publish(p) if p.name == "/x" && p.pubuid == topic.pubuid && p.ty == "double"));
    assert!(matches!(&msgs[1], NTMessage::Subscribe(s) if s.subuid == subuid && s.topics == vec!["/y".to_string()]));
    assert_eq!(state.server_time_offset, 0);
    assert_eq!(state.announced_topics.len(), 1);
    assert_eq!(state.announced_topics.get(&-1).unwrap().name, "Time");
}

#[test]
fn time_updates_need_the_time_topic() {
    let mut state = ClientState::new();
    assert!(state.time_update(5).is_none());
    state.on_open();
    assert_eq!(state.time_update(5).unwrap(), vec![0x94, 0xd2, 0xff, 0xff, 0xff, 0xff, 0, 0xcc, 2, 5]);
}

#[test]
fn announcements_are_kept_once() {
    let mut state = ClientState::new();
    match state.handle_server_message(announce("/a", 4, "int")) {
        ClientEvent::Announced(t) => assert_eq!(t.name, "/a"),
        other => panic!("unexpected event {:?}", other),
    }
    match state.handle_server_message(announce("/b", 4, "double")) {
        ClientEvent::Announced(t) => assert_eq!(t.name, "/a"),
        other => panic!("unexpected event {:?}", other),
    }
    match state.handle_server_message(NTMessage::UnAnnounce(UnAnnounce { name: "/a".to_string(), id: 4 })) {
        ClientEvent::Unannounced(Some(t)) => assert_eq!(t.name, "/a"),
        other => panic!("unexpected event {:?}", other),
    }
    match state.handle_server_message(NTMessage::UnAnnounce(UnAnnounce { name: "/a".to_string(), id: 4 })) {
        ClientEvent::Unannounced(None) => {}
        other => panic!("unexpected event {:?}", other),
    }
    let props = NTMessage::Properties(Properties { name: "/a".to_string(), ack: None });
    assert!(matches!(state.handle_server_message(props), ClientEvent::PropertiesChanged));
}

#[test]
fn value_arrays_find_their_fate() {
    let mut state = ClientState::new();
    state.handle_server_message(announce("/a", 4, "int"));
    match state.value_fate(array(Some(4), Some(0x1_0000_0005), Some(2), None)) {
        ValueFate::Deliver { topic, timestamp, ty } => {
            assert_eq!(topic.name, "/a");
            assert_eq!(timestamp, 5);
            assert_eq!(ty, FrcType::Int);
        }
        other => panic!("unexpected fate {:?}", other),
    }
    assert!(matches!(state.value_fate(array(Some(9), Some(1), Some(2), None)), ValueFate::Drop));
    assert!(matches!(state.value_fate(array(Some(4), Some(1), Some(6), None)), ValueFate::Drop));
    assert!(matches!(state.value_fate(array(Some(4), None, Some(2), None)), ValueFate::Drop));
    assert!(matches!(state.value_fate(array(Some(-2), Some(1), Some(2), None)), ValueFate::Drop));
    assert!(matches!(
        state.value_fate(array(Some(-1), Some(7), Some(2), Some(3))),
        ValueFate::TimeSync { server_time: 7, client_time: Some(3) }
    ));
    let short = ValueArray { len: 3, id: Some(4), timestamp: Some(1), type_idx: Some(2), data_int: None };
    assert!(matches!(state.value_fate(short), ValueFate::Drop));
}

#[test]
fn subscriptions_match_names_or_prefixes() {
    let mut state = ClientState::new();
    let (_, exact) = state.subscribe_w_options(&vec!["/a".to_string()], None);
    let prefix = SubscriptionOptions { periodic: None, all: None, topics_only: None, prefix: Some(true) };
    let (_, pre) = state.subscribe_w_options(&vec!["/".to_string()], Some(prefix));
    let mut both = state.matching_subscriptions(&"/a".to_string());
    both.sort();
    let mut expected = vec![exact, pre];
    expected.sort();
    assert_eq!(both, expected);
    assert_eq!(state.matching_subscriptions(&"/b".to_string()), vec![pre]);
    assert!(state.matching_subscriptions(&"b".to_string()).is_empty());
}

#[test]
fn publishing_cleans_the_name_and_sends_properties() {
    let mut state = ClientState::new();
    let props = PublishProperties { persistent: Some(true), retained: None };
    let (msgs, topic) = state.publish_topic("$x:y", FrcType::Boolean, Some(props));
    assert_eq!(topic.name, "xy".replace("xy", "x/y"));
    assert_eq!(topic.pubuid, 1);
    assert_eq!(msgs.len(), 2);
    assert!(matches!(&msgs[0], NTMessage::Publish(p) if p.name == "x/y" && p.ty == "boolean" && p.properties == Some(props)));
    assert!(matches!(&msgs[1], NTMessage::SetProperties(s) if s.name == "x/y" && s.update == props));
    assert!(state.client_published_topics.contains_key(&1));
    let (plain, _) = state.publish_topic("/p", FrcType::Int, None);
    assert_eq!(plain.len(), 1);
    assert!(matches!(topic.as_unpublish(), NTMessage::Unpublish(u) if u.pubuid == 1));
}

#[test]
fn subscribing_drops_repeated_names() {
    let mut state = ClientState::new();
    let names = vec!["/a".to_string(), "/b".to_string(), "/a".to_string()];
    let (msg, subuid) = state.subscribe_w_options(&names, None);
    assert!(matches!(&msg, NTMessage::Subscribe(s) if s.subuid == subuid && s.topics == vec!["/a".to_string(), "/b".to_string()]));
    assert!(matches!(state.unsubscribe(subuid), NTMessage::Unsubscribe(u) if u.subuid == subuid));
    assert!(state.subscriptions.is_empty());
}

#[test]
fn client_value_messages() {
    assert_eq!(
        encode_client_value(UnsignedIntOrNegativeOne::UnsignedInt(3), &FrcType::Int, 200, &[0x07]),
        vec![0x94, 0xce, 0, 0, 0, 3, 0xcc, 200, 0xcc, 2, 0x07]
    );
    assert_eq!(
        encode_client_value(UnsignedIntOrNegativeOne::NegativeOne, &FrcType::Int, 0, &[0x01]),
        vec![0x94, 0xd2, 0xff, 0xff, 0xff, 0xff, 0, 0xcc, 2, 0x01]
    );
    let mut buf = Vec::new();
    UnsignedIntOrNegativeOne::UnsignedInt(1).write_to_buf(&mut buf);
    assert_eq!(buf, vec![0xce, 0, 0, 0, 1]);
}

#[test]
fn topic_type_names() {
    assert_eq!(TopicType::Frc(FrcType::IntArray).wire_name(), "int[]");
    assert_eq!(TopicType::Frc(FrcType::Boolean).wire_name(), "boolean");
    assert_eq!(TopicType::Arbitrary("json".to_string()).wire_name(), "json");
}

#[test]
fn subscription_unsubscribe_message() {
    let sub = Subscription { subuid: 7, topics: vec!["/a".to_string()], options: None };
    assert!(matches!(sub.as_unsubscribe(), NTMessage::Unsubscribe(Unsubscribe { subuid: 7 })));
}

#[test]
fn value_arrays_are_read_in_order() {
    let mut bytes = Vec::new();
    let first = rmpv::Value::Array(vec![
        rmpv::Value::from(3),
        rmpv::Value::from(1000u64),
        rmpv::Value::from(2),
        rmpv::Value::from(42),
    ]);
    rmpv::encode::write_value(&mut bytes, &first).unwrap();
    rmpv::encode::write_value(&mut bytes, &rmpv::Value::from("skip")).unwrap();
    let second = rmpv::Value::Array(vec![rmpv::Value::from(-1), rmpv::Value::from(7u64)]);
    rmpv::encode::write_value(&mut bytes, &second).unwrap();
    let arrays = client_value_arrays(&bytes);
    assert_eq!(arrays.len(), 2);
    assert_eq!(arrays[0].0.len, 4);
    assert_eq!(arrays[0].0.id, Some(3));
    assert_eq!(arrays[0].0.timestamp, Some(1000));
    assert_eq!(arrays[0].0.type_idx, Some(2));
    assert_eq!(arrays[0].0.data_int, Some(42));
    assert_eq!(arrays[0].1, vec![42]);
    assert_eq!(arrays[1].0.len, 2);
    assert_eq!(arrays[1].0.id, Some(-1));
    assert_eq!(arrays[1].0.type_idx, None);
    assert!(arrays[1].1.is_empty());
    assert!(client_value_arrays(&[0xc1]).is_empty());
}
