use chat_hub::client::decode_server_message;
use chat_hub::client::Model;
use chat_hub::client::ServerMessages;
use chat_hub::hub::ChatServer;
use chat_hub::message::DecodeError;

#[test]
fn decode_join_notice() {
    let r = decode_server_message("{\"type\":\"JoinSystem\",\"text\":\"alice joined!\"}");
    assert_eq!(r, Ok(ServerMessages::JoinSystem { text: "alice joined!".to_string() }));
}

#[test]
fn decode_login_ack() {
    let r = decode_server_message("{\"type\":\"LoginSystem\",\"text\":\"alice\"}");
    assert_eq!(r, Ok(ServerMessages::LoginSystem { text: "alice".to_string() }));
}

#[test]
fn decode_chat_line() {
    let r = decode_server_message(
        "{\"type\":\"Message\",\"chatter\":\"alice\",\"time\":12345,\"text\":\"hi\"}",
    );
    assert_eq!(
        r,
        Ok(ServerMessages::Message {
            chatter: "alice".to_string(),
            time: 12345,
            text: "hi".to_string()
        })
    );
}

#[test]
fn decode_roster() {
    let r = decode_server_message("{\"type\":\"Chatters\",\"chatters\":[\"alice\",\"bob\"]}");
    assert_eq!(
        r,
        Ok(ServerMessages::Chatters { chatters: vec!["alice".to_string(), "bob".to_string()] })
    );
    let r = decode_server_message("{\"type\":\"Chatters\",\"chatters\":[]}");
    assert_eq!(r, Ok(ServerMessages::Chatters { chatters: vec![] }));
}

#[test]
fn decode_server_errors() {
    assert_eq!(
        decode_server_message("{\"type\":\"Login\",\"name\":\"x\"}"),
        Err(DecodeError::UnknownTag)
    );
    assert_eq!(
        decode_server_message("{\"type\":\"LoginSystem\",\"text\":\"a\"}junk"),
        Err(DecodeError::Malformed)
    );
    assert_eq!(
        decode_server_message("{\"type\":\"Message\",\"chatter\":\"a\",\"time\":12e3,\"text\":\"h\"}"),
        Err(DecodeError::Malformed)
    );
    // a timestamp past u64::MAX
    assert_eq!(
        decode_server_message(
            "{\"type\":\"Message\",\"chatter\":\"a\",\"time\":99999999999999999999,\"text\":\"h\"}"
        ),
        Err(DecodeError::Malformed)
    );
}

#[test]
fn hub_output_decodes_on_the_client() {
    // what the hub broadcasts is exactly what the client can read back
    let mut hub = ChatServer::new();
    let join = hub.login_begin("alice", 1).unwrap();
    assert_eq!(
        decode_server_message(&join),
        Ok(ServerMessages::JoinSystem { text: "alice joined!".to_string() })
    );
    let (ack, _conn) = hub.login_ack("alice").unwrap();
    assert_eq!(
        decode_server_message(&ack),
        Ok(ServerMessages::LoginSystem { text: "alice".to_string() })
    );
    let roster = hub.chatters_message();
    assert_eq!(
        decode_server_message(&roster),
        Ok(ServerMessages::Chatters { chatters: vec!["alice".to_string()] })
    );
}

#[test]
fn model_login_flow() {
    let mut m = Model::new();
    assert_eq!(m.login, "");
    let r = m.update(ServerMessages::LoginSystem { text: "alice".to_string() });
    assert_eq!(r, (true, true));
    assert_eq!(m.login, "alice");
    assert!(m.messages.is_empty());
}

#[test]
fn model_rejected_login_changes_nothing() {
    let mut m = Model::new();
    let r = m.update(ServerMessages::LoginSystem { text: "false".to_string() });
    assert_eq!(r, (false, false));
    assert_eq!(m.login, "");
    assert!(m.messages.is_empty());
    assert!(m.chatters.is_empty());
}

#[test]
fn model_roster_replaced_messages_appended() {
    let mut m = Model::new();
    let r = m.update(ServerMessages::Chatters { chatters: vec!["alice".to_string()] });
    assert_eq!(r, (true, false));
    assert_eq!(m.chatters, vec!["alice".to_string()]);
    let r = m.update(ServerMessages::Chatters {
        chatters: vec!["alice".to_string(), "bob".to_string()],
    });
    assert_eq!(r, (true, false));
    assert_eq!(m.chatters, vec!["alice".to_string(), "bob".to_string()]);
    let r = m.update(ServerMessages::JoinSystem { text: "bob joined!".to_string() });
    assert_eq!(r, (true, false));
    let r = m.update(ServerMessages::Message {
        chatter: "bob".to_string(),
        time: 7,
        text: "hi".to_string(),
    });
    assert_eq!(r, (true, false));
    assert_eq!(m.messages.len(), 2);
    assert_eq!(m.login, "");
}
