use chat_hub::codec::chat_request_json;
use chat_hub::codec::decode_action;
use chat_hub::codec::login_request_json;
use chat_hub::message::Actions;
use chat_hub::message::ChatMessage;
use chat_hub::message::ChattersMessage;
use chat_hub::message::DecodeError;
use chat_hub::message::SystemMessage;

#[test]
fn system_message_json() {
    let m = SystemMessage { type_: "JoinSystem".to_string(), text: "alice joined!".to_string() };
    assert_eq!(m.to_json(), "{\"type\":\"JoinSystem\",\"text\":\"alice joined!\"}");
}

#[test]
fn login_system_json() {
    let m = SystemMessage { type_: "LoginSystem".to_string(), text: "alice".to_string() };
    assert_eq!(m.to_json(), "{\"type\":\"LoginSystem\",\"text\":\"alice\"}");
}

#[test]
fn chat_message_json() {
    let m = ChatMessage::new("alice".to_string(), 12345, "hi".to_string());
    assert_eq!(m.type_, "Message");
    assert_eq!(
        m.to_json(),
        "{\"type\":\"Message\",\"chatter\":\"alice\",\"time\":12345,\"text\":\"hi\"}"
    );
}

#[test]
fn chat_message_json_time_edges() {
    let m = ChatMessage::new("a".to_string(), 0, "t".to_string());
    assert_eq!(m.to_json(), "{\"type\":\"Message\",\"chatter\":\"a\",\"time\":0,\"text\":\"t\"}");
    let m = ChatMessage::new("a".to_string(), u64::MAX, "t".to_string());
    assert_eq!(
        m.to_json(),
        "{\"type\":\"Message\",\"chatter\":\"a\",\"time\":18446744073709551615,\"text\":\"t\"}"
    );
}

#[test]
fn chatters_message_json() {
    let m = ChattersMessage::new(vec!["alice".to_string()]);
    assert_eq!(m.type_, "Chatters");
    assert_eq!(m.to_json(), "{\"type\":\"Chatters\",\"chatters\":[\"alice\"]}");
}

#[test]
fn chatters_message_json_many_and_empty() {
    let m = ChattersMessage::new(vec![]);
    assert_eq!(m.to_json(), "{\"type\":\"Chatters\",\"chatters\":[]}");
    let m = ChattersMessage::new(vec!["a".to_string(), "b".to_string(), "c".to_string()]);
    assert_eq!(m.to_json(), "{\"type\":\"Chatters\",\"chatters\":[\"a\",\"b\",\"c\"]}");
}

#[test]
fn string_escaping() {
    let m = SystemMessage {
        type_: "JoinSystem".to_string(),
        text: "a\"b\\c\nd\te\r\u{8}\u{c}\u{1}\u{1f}".to_string(),
    };
    assert_eq!(
        m.to_json(),
        "{\"type\":\"JoinSystem\",\"text\":\"a\\\"b\\\\c\\nd\\te\\r\\b\\f\\u0001\\u001f\"}"
    );
}

#[test]
fn login_request_round_trip() {
    let t = login_request_json("alice");
    assert_eq!(t, "{\"type\":\"Login\",\"name\":\"alice\"}");
    assert_eq!(decode_action(&t), Ok(Actions::Login { name: "alice".to_string() }));
}

#[test]
fn chat_request_round_trip() {
    let t = chat_request_json("alice", "hi there");
    assert_eq!(t, "{\"type\":\"Message\",\"chatter\":\"alice\",\"text\":\"hi there\"}");
    assert_eq!(
        decode_action(&t),
        Ok(Actions::Message { chatter: "alice".to_string(), text: "hi there".to_string() })
    );
}

#[test]
fn escaped_request_round_trip() {
    let name = "a\"b\\c\nd\u{3}";
    let t = login_request_json(name);
    assert_eq!(decode_action(&t), Ok(Actions::Login { name: name.to_string() }));
}

#[test]
fn decode_escapes() {
    let r = decode_action("{\"type\":\"Login\",\"name\":\"a\\\"b\\/c\\u0041\"}");
    assert_eq!(r, Ok(Actions::Login { name: "a\"b/cA".to_string() }));
}

#[test]
fn decode_unknown_tag() {
    let r = decode_action("{\"type\":\"Nope\",\"text\":\"x\"}");
    assert_eq!(r, Err(DecodeError::UnknownTag));
}

#[test]
fn decode_malformed() {
    assert_eq!(decode_action(""), Err(DecodeError::Malformed));
    assert_eq!(decode_action("garbage"), Err(DecodeError::Malformed));
    assert_eq!(decode_action("{\"type\":\"Login\"}"), Err(DecodeError::Malformed));
    assert_eq!(decode_action("{\"type\":\"Login\",\"name\":\"x\""), Err(DecodeError::Malformed));
    assert_eq!(decode_action("{\"type\":\"Login\",\"name\":\"x\"}extra"), Err(DecodeError::Malformed));
    // unknown escape, and a non-00 unicode escape prefix
    assert_eq!(decode_action("{\"type\":\"Login\",\"name\":\"a\\qb\"}"), Err(DecodeError::Malformed));
    assert_eq!(decode_action("{\"type\":\"Login\",\"name\":\"\\u0141\"}"), Err(DecodeError::Malformed));
    // bare control character inside a string
    assert_eq!(decode_action("{\"type\":\"Login\",\"name\":\"a\nb\"}"), Err(DecodeError::Malformed));
}
