use nettables::client::state::{encode_client_value, UnsignedIntOrNegativeOne};
use nettables::frc_type::FrcType;
use nettables::server::connection::{classify_binary, client_name_of, fate_of, is_flush, judge_request, time_sync_reply, to_ascii_lower, BinaryFate, LastItem, RequestVerdict, handshake_accept};

#[test]
fn upgrade_requests_are_judged() {
    let v = judge_request(true, true, Some("WebSocket"), true, Some("networktables.first.wpi.edu"), "/nt/robot");
    assert!(matches!(v, RequestVerdict::Client(name) if name == "robot"));
    let rtt = judge_request(true, true, Some("websocket"), true, Some("RTT.networktables.first.wpi.edu"), "/nt/x");
    assert!(matches!(rtt, RequestVerdict::RoundTrip));
    assert!(matches!(judge_request(false, true, Some("websocket"), true, Some("networktables"), "/nt/x"), RequestVerdict::Reject));
    assert!(matches!(judge_request(true, false, Some("websocket"), true, Some("networktables"), "/nt/x"), RequestVerdict::Reject));
    assert!(matches!(judge_request(true, true, Some("h2c"), true, Some("networktables"), "/nt/x"), RequestVerdict::Reject));
    assert!(matches!(judge_request(true, true, None, true, Some("networktables"), "/nt/x"), RequestVerdict::Reject));
    assert!(matches!(judge_request(true, true, Some("websocket"), false, Some("networktables"), "/nt/x"), RequestVerdict::Reject));
    assert!(matches!(judge_request(true, true, Some("websocket"), true, Some("mqtt"), "/nt/x"), RequestVerdict::Reject));
    assert!(matches!(judge_request(true, true, Some("websocket"), true, None, "/nt/x"), RequestVerdict::Reject));
}

#[test]
fn client_names_come_from_the_path() {
    assert_eq!(client_name_of("/nt/robot"), "robot");
    assert_eq!(client_name_of("/nt//nt/robot"), "robot");
    assert_eq!(client_name_of("/robot"), "/robot");
    assert_eq!(client_name_of("/nt/"), "");
    assert_eq!(to_ascii_lower("WebSocket-Ä"), "websocket-Ä");
}

#[test]
fn binary_messages_find_their_fate() {
    assert_eq!(classify_binary(&[0x94]), BinaryFate::Drop);
    assert_eq!(classify_binary(&[0x93, 0xd2]), BinaryFate::Drop);
    let value = encode_client_value(UnsignedIntOrNegativeOne::UnsignedInt(3), &FrcType::Int, 9, &[0x01]);
    assert_eq!(classify_binary(&value), BinaryFate::Forward);
    let mut time = Vec::new();
    time.extend(encode_client_value(UnsignedIntOrNegativeOne::NegativeOne, &FrcType::Int, 0, &[0xcd, 0x01, 0x2c]));
    assert_eq!(classify_binary(&time), BinaryFate::TimeSync(300));
    let negative = encode_client_value(UnsignedIntOrNegativeOne::NegativeOne, &FrcType::Int, 0, &[0xff]);
    assert_eq!(classify_binary(&negative), BinaryFate::TimeSync(0));
    let text = encode_client_value(UnsignedIntOrNegativeOne::NegativeOne, &FrcType::Int, 0, &[0xa1, b'x']);
    assert_eq!(classify_binary(&text), BinaryFate::Drop);
    assert_eq!(classify_binary(&[0x94, 0xd2, 0x00]), BinaryFate::Forward);
}

#[test]
fn fates_follow_the_last_item() {
    let head = [0x94u8, 0xd2];
    assert_eq!(fate_of(&head, LastItem::Integer(Some(4))), BinaryFate::TimeSync(4));
    assert_eq!(fate_of(&head, LastItem::Integer(None)), BinaryFate::TimeSync(0));
    assert_eq!(fate_of(&head, LastItem::Other), BinaryFate::Drop);
    assert_eq!(fate_of(&head, LastItem::Unreadable), BinaryFate::Forward);
    assert_eq!(fate_of(&[0x94, 0xce], LastItem::Other), BinaryFate::Forward);
}

#[test]
fn time_sync_replies_echo_the_client_time() {
    let reply = time_sync_reply(300).expect("clock readable");
    assert_eq!(&reply[0..6], &[0x94, 0xd2, 0xff, 0xff, 0xff, 0xff]);
    assert_eq!(&reply[reply.len() - 5..], &[0xcc, 2, 0xcd, 0x01, 0x2c]);
}

#[test]
fn flush_requests_are_recognised() {
    assert!(is_flush(b"flush"));
    assert!(!is_flush(b"flus"));
    assert!(!is_flush(b"flushed"));
}

#[test]
fn handshake_accept_follows_the_websocket_example() {
    let accept = handshake_accept(Some(b"dGhlIHNhbXBsZSBub25jZQ==".as_slice()));
    assert_eq!(accept, Some("s3pPLMBiTxaQ9kYGzzhZRbK+xOo=".to_string()));
    assert_eq!(handshake_accept(None), None);
}
