use nettables::frc_type::{FrcType, FrcTypeExt};
use nettables::msgpack::{append_bytes, encode_meta_message, encode_time_sync_reply, encode_value_message};
use nettables::protocol::metatopic::{ClientMetaValue, MetaTopicValue, SubscriptionMetaValue};
use nettables::protocol::SubscriptionOptions;
use nettables::server::util::ServerSendableValue;
use nettables::text::{contains_char, contains_str, starts_with, to_decimal};
use nettables::{generate_uid, log_result, now};

#[test]
fn value_message_bytes() {
    let buf = encode_value_message(3, 1000, 2, &[0x05]);
    assert_eq!(buf, vec![0x94, 0xd2, 0, 0, 0, 3, 0xcd, 0x03, 0xe8, 0xcc, 2, 0x05]);
}

#[test]
fn value_message_negative_id_and_large_timestamp() {
    let buf = encode_value_message(-1, 0x1_0000_0000, 1, &[]);
    assert_eq!(
        buf,
        vec![0x94, 0xd2, 0xff, 0xff, 0xff, 0xff, 0xcf, 0, 0, 0, 1, 0, 0, 0, 0, 0xcc, 1]
    );
}

#[test]
fn value_message_small_timestamps() {
    assert_eq!(encode_value_message(0, 127, 0, &[])[6], 127);
    assert_eq!(&encode_value_message(0, 200, 0, &[])[6..8], &[0xcc, 200]);
    assert_eq!(&encode_value_message(0, 70000, 0, &[])[6..11], &[0xce, 0, 1, 0x11, 0x70]);
}

#[test]
fn meta_message_frames_entries() {
    let entries = vec![vec![0x80], vec![0x81, 0xa1, b'a', 0x01]];
    let buf = encode_meta_message(7, 5, &entries);
    assert_eq!(
        buf,
        vec![0x94, 0xd2, 0, 0, 0, 7, 5, 0xcc, 5, 0x92, 0x80, 0x81, 0xa1, b'a', 0x01]
    );
}

#[test]
fn time_sync_reply_bytes() {
    let buf = encode_time_sync_reply(10, 300);
    assert_eq!(buf, vec![0x94, 0xd2, 0xff, 0xff, 0xff, 0xff, 10, 0xcc, 2, 0xcd, 0x01, 0x2c]);
}

#[test]
fn append_keeps_order() {
    let mut buf = vec![1u8, 2];
    append_bytes(&mut buf, &[3, 4]);
    assert_eq!(buf, vec![1, 2, 3, 4]);
}

#[test]
fn type_codes_round_trip() {
    let types = vec![
        FrcType::Boolean,
        FrcType::Double,
        FrcType::Int,
        FrcType::Float,
        FrcType::String,
        FrcType::Raw,
        FrcType::BooleanArray,
        FrcType::DoubleArray,
        FrcType::IntArray,
        FrcType::FloatArray,
        FrcType::StringArray,
    ];
    let codes: Vec<u8> = types.iter().map(|t| t.as_u8()).collect();
    assert_eq!(codes, vec![0, 1, 2, 3, 4, 5, 16, 17, 18, 19, 20]);
    for t in types {
        assert_eq!(FrcType::from_u8(t.as_u8()), Some(t));
    }
    assert_eq!(FrcType::from_u8(6), None);
    assert_eq!(FrcType::Void.as_u8(), 5);
    assert_eq!(FrcType::Struct("s".to_string()).as_u8(), 5);
}

#[test]
fn type_strings() {
    assert_eq!(FrcType::Int.stringify(), "int");
    assert_eq!(FrcType::Void.stringify(), "raw");
    assert_eq!(FrcType::StringArray.stringify(), "string[]");
    assert_eq!(FrcType::Struct("struct:Pose".to_string()).stringify(), "struct:Pose");
    assert_eq!(FrcType::StructArray("struct:Pose".to_string()).stringify(), "struct:Pose[]");
}

#[test]
fn text_helpers() {
    assert!(starts_with("/nt/name", "/nt/"));
    assert!(!starts_with("/n", "/nt/"));
    assert!(contains_str("networktables.first.wpi.edu", "networktables"));
    assert!(!contains_str("net", "networktables"));
    assert!(contains_str("abc", ""));
    assert!(contains_char("$pub$x", '$'));
    assert!(!contains_char("plain", '$'));
    assert_eq!(to_decimal(0), "0");
    assert_eq!(to_decimal(1234567890), "1234567890");
}

#[test]
fn uids_count_up_and_wrap() {
    let mut seed = 5u64;
    assert_eq!(generate_uid(&mut seed), 5);
    assert_eq!(generate_uid(&mut seed), 6);
    let mut top = u64::MAX;
    assert_eq!(generate_uid(&mut top), u64::MAX);
    assert_eq!(top, 0);
}

#[test]
fn results_pass_through() {
    let ok: Result<u8, String> = Ok(3);
    assert_eq!(log_result(ok), Ok(3));
    let err: Result<u8, String> = Err("bad".to_string());
    assert_eq!(log_result(err), Err("bad".to_string()));
}

#[test]
fn clock_reads_after_epoch() {
    let t = now().expect("clock after the epoch");
    assert!(t > 1_500_000_000_000_000);
}

#[test]
fn meta_value_entries_are_maps() {
    let value = MetaTopicValue::Client(vec![ClientMetaValue { id: "a".to_string(), conn: "b".to_string() }]);
    let buf = value.as_bytes(3).unwrap();
    let expected: Vec<u8> = vec![0x91, 0x82, 0xa2, b'i', b'd', 0xa1, b'a', 0xa4, b'c', b'o', b'n', b'n', 0xa1, b'b'];
    assert!(buf.ends_with(&expected));
    assert_eq!(&buf[..6], &[0x94, 0xd2, 0, 0, 0, 3]);
    assert_eq!(&buf[buf.len() - expected.len() - 2..buf.len() - expected.len()], &[0xcc, 5]);
}

#[test]
fn meta_value_options_are_written_when_set() {
    let options = SubscriptionOptions { periodic: Some(0.5f64.to_bits()), all: None, topics_only: Some(true), prefix: None };
    let value = MetaTopicValue::Subscription(vec![SubscriptionMetaValue { client: "".to_string(), subuid: 7, options }]);
    let buf = value.as_bytes(1).unwrap();
    let mut expected: Vec<u8> = vec![0x91, 0x83, 0xa6];
    expected.extend(b"client");
    expected.push(0xa0);
    expected.push(0xa6);
    expected.extend(b"subuid");
    expected.push(7);
    expected.push(0xa7);
    expected.extend(b"options");
    expected.push(0x82);
    expected.push(0xa8);
    expected.extend(b"periodic");
    expected.push(0xcb);
    expected.extend(0.5f64.to_bits().to_be_bytes());
    expected.push(0xab);
    expected.extend(b"topics_only");
    expected.push(0xc3);
    assert!(buf.ends_with(&expected));
}

#[test]
fn sendable_meta_value_is_framed_like_the_meta_value() {
    let meta = MetaTopicValue::Client(vec![ClientMetaValue { id: "a".to_string(), conn: "b".to_string() }]);
    let direct = meta.as_bytes(4).unwrap();
    let sendable = ServerSendableValue::new_mte(meta);
    let buf = sendable.as_bytes(4).unwrap();
    assert_eq!(&buf[..6], &direct[..6]);
    let tail: Vec<u8> = vec![0xcc, 5, 0x91, 0x82, 0xa2, b'i', b'd', 0xa1, b'a', 0xa4, b'c', b'o', b'n', b'n', 0xa1, b'b'];
    assert!(buf.ends_with(&tail));
    let normal = ServerSendableValue::new_normal(nettables::server::util::TimestampedValue {
        timestamp: 1000,
        ty: FrcType::Int,
        value: vec![0x05],
    });
    assert_eq!(normal.as_bytes(3).unwrap(), vec![0x94, 0xd2, 0, 0, 0, 3, 0xcd, 0x03, 0xe8, 0xcc, 2, 0x05]);
}

#[test]
fn meta_value_message_at_a_given_time() {
    let value = MetaTopicValue::Client(vec![ClientMetaValue { id: "a".to_string(), conn: "b".to_string() }]);
    let buf = value.message_at(3, 1000);
    let expected: Vec<u8> = vec![
        0x94, 0xd2, 0, 0, 0, 3, 0xcd, 0x03, 0xe8, 0xcc, 5, 0x91, 0x82, 0xa2, b'i', b'd', 0xa1, b'a', 0xa4, b'c', b'o', b'n',
        b'n', 0xa1, b'b',
    ];
    assert_eq!(buf, expected);
    let empty = MetaTopicValue::Client(Vec::new());
    assert_eq!(empty.message_at(-1, 0), vec![0x94, 0xd2, 0xff, 0xff, 0xff, 0xff, 0, 0xcc, 5, 0x90]);
}

#[test]
fn reducing_by_what_was_merged_gives_the_entries_back() {
    let entry = |id: &str| ClientMetaValue { id: id.to_string(), conn: "h:1".to_string() };
    let mut value = MetaTopicValue::Client(vec![entry("a"), entry("b")]);
    let other = MetaTopicValue::Client(vec![entry("c")]);
    value.merge(MetaTopicValue::Client(vec![entry("c")]));
    match &value {
        MetaTopicValue::Client(list) => {
            let ids: Vec<&str> = list.iter().map(|e| e.id.as_str()).collect();
            assert_eq!(ids, vec!["a", "b", "c"]);
        }
        _ => panic!("kind changed"),
    }
    value.reduce(other);
    match &value {
        MetaTopicValue::Client(list) => {
            let ids: Vec<&str> = list.iter().map(|e| e.id.as_str()).collect();
            assert_eq!(ids, vec!["a", "b"]);
        }
        _ => panic!("kind changed"),
    }
    value.reduce(MetaTopicValue::Publisher(Vec::new()));
    assert_eq!(value.len(), 2);
}
