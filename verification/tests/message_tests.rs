use pqgch_router::{ChatMessage, MessageType, RouteType, ToJson, assemble_chat_json, decimal_text, invalid_auth_reply};

fn msg(send_id: u64, recv_id: u64, msg_type: MessageType, cluster_id: u64, sender: &str, content: &str) -> ChatMessage {
    ChatMessage {
        send_id,
        recv_id,
        msg_type,
        cluster_id,
        sender: sender.to_owned(),
        content: content.to_owned(),
    }
}

const ALL: [MessageType; 15] = [
    MessageType::MemberAuth,
    MessageType::LeaderAuth,
    MessageType::Text,
    MessageType::AkeOne,
    MessageType::AkeTwo,
    MessageType::XiRiCommitment,
    MessageType::Key,
    MessageType::LeadAkeOne,
    MessageType::LeadAkeTwo,
    MessageType::LeaderXiRiCommitment,
    MessageType::QKDIDLeader,
    MessageType::QKDIDMember,
    MessageType::Ping,
    MessageType::Pong,
    MessageType::Error,
];

#[test]
fn codes_follow_declaration_order() {
    for (i, t) in ALL.iter().enumerate() {
        assert_eq!(t.to_u8() as usize, i);
    }
}

#[test]
fn code_round_trip() {
    for t in ALL.iter() {
        assert_eq!(MessageType::try_from(t.to_u8()), Ok(*t));
    }
}

#[test]
fn unknown_codes_are_refused() {
    assert_eq!(MessageType::try_from(15u8), Err(()));
    assert_eq!(MessageType::try_from(255u8), Err(()));
    assert_eq!(MessageType::try_from(14u8), Ok(MessageType::Error));
    assert_eq!(MessageType::try_from(0u8), Ok(MessageType::MemberAuth));
}

#[test]
fn route_types_per_kind() {
    let route = |t: MessageType| msg(0, 0, t, 0, "", "").route_type();
    assert_eq!(route(MessageType::Text), RouteType::Broadcast);
    assert_eq!(route(MessageType::AkeOne), RouteType::Direct);
    assert_eq!(route(MessageType::AkeTwo), RouteType::Direct);
    assert_eq!(route(MessageType::Pong), RouteType::Direct);
    assert_eq!(route(MessageType::XiRiCommitment), RouteType::ClusterBroadcast);
    assert_eq!(route(MessageType::Key), RouteType::ClusterBroadcast);
    assert_eq!(route(MessageType::QKDIDMember), RouteType::ClusterBroadcast);
    assert_eq!(route(MessageType::LeadAkeOne), RouteType::LeaderDirect);
    assert_eq!(route(MessageType::LeadAkeTwo), RouteType::LeaderDirect);
    assert_eq!(route(MessageType::QKDIDLeader), RouteType::LeaderDirect);
    assert_eq!(route(MessageType::LeaderXiRiCommitment), RouteType::LeaderBroadcast);
    assert_eq!(route(MessageType::MemberAuth), RouteType::NoRoute);
    assert_eq!(route(MessageType::LeaderAuth), RouteType::NoRoute);
    assert_eq!(route(MessageType::Ping), RouteType::NoRoute);
    assert_eq!(route(MessageType::Error), RouteType::NoRoute);
}

#[test]
fn err_builds_error_report() {
    let m = ChatMessage::err("boom".to_owned());
    assert_eq!(m.send_id, 0);
    assert_eq!(m.recv_id, 0);
    assert_eq!(m.cluster_id, 0);
    assert_eq!(m.msg_type, MessageType::Error);
    assert_eq!(m.sender, "");
    assert_eq!(m.content, "boom");
    assert_eq!(m.route_type(), RouteType::NoRoute);
}

#[test]
fn decimal_text_values() {
    assert_eq!(decimal_text(0), "0");
    assert_eq!(decimal_text(7), "7");
    assert_eq!(decimal_text(10), "10");
    assert_eq!(decimal_text(1234567890), "1234567890");
    assert_eq!(decimal_text(u64::MAX), "18446744073709551615");
}

#[test]
fn to_json_exact_line() {
    let m = msg(1, 2, MessageType::Text, 3, "alice", "hi");
    assert_eq!(
        m.to_json(),
        "{\"sendId\":1,\"recvId\":2,\"type\":2,\"clusterId\":3,\"sender\":\"alice\",\"content\":\"hi\"}\n"
    );
}

#[test]
fn to_json_escapes_strings() {
    let m = msg(0, 0, MessageType::Pong, 0, "a\"b", "line\nnext\\");
    assert_eq!(
        m.to_json(),
        "{\"sendId\":0,\"recvId\":0,\"type\":13,\"clusterId\":0,\"sender\":\"a\\\"b\",\"content\":\"line\\nnext\\\\\"}\n"
    );
}

#[test]
fn to_json_large_numbers() {
    let m = msg(u64::MAX, 42, MessageType::Error, 100, "", "");
    assert_eq!(
        m.to_json(),
        "{\"sendId\":18446744073709551615,\"recvId\":42,\"type\":14,\"clusterId\":100,\"sender\":\"\",\"content\":\"\"}\n"
    );
}

#[test]
fn json_line_shape() {
    let line = msg(5, 6, MessageType::Key, 7, "s", "c").to_json();
    assert!(line.starts_with('{'));
    assert!(line.ends_with("}\n"));
    assert_eq!(line.matches('\n').count(), 1);
}

#[test]
fn assemble_uses_given_literals() {
    let m = msg(9, 8, MessageType::AkeOne, 7, "ignored", "ignored");
    assert_eq!(
        assemble_chat_json(&m, "\"S\"", "\"C\""),
        "{\"sendId\":9,\"recvId\":8,\"type\":3,\"clusterId\":7,\"sender\":\"S\",\"content\":\"C\"}\n"
    );
}

#[test]
fn invalid_auth_reply_line() {
    assert_eq!(
        invalid_auth_reply(),
        "{\"sendId\":0,\"recvId\":0,\"type\":14,\"clusterId\":0,\"sender\":\"\",\"content\":\"invalid auth\"}\n"
    );
}

#[test]
fn to_json_escapes_control_characters() {
    let m = msg(0, 0, MessageType::Text, 0, "\u{1}\u{1f}", "\t\r\u{8}\u{c}");
    assert_eq!(
        m.to_json(),
        "{\"sendId\":0,\"recvId\":0,\"type\":2,\"clusterId\":0,\"sender\":\"\\u0001\\u001f\",\"content\":\"\\t\\r\\b\\f\"}\n"
    );
}

#[test]
fn to_json_keeps_non_ascii_and_slash() {
    let m = msg(0, 0, MessageType::Text, 0, "é/ü", "\u{7f}");
    assert_eq!(
        m.to_json(),
        "{\"sendId\":0,\"recvId\":0,\"type\":2,\"clusterId\":0,\"sender\":\"é/ü\",\"content\":\"\u{7f}\"}\n"
    );
}

#[test]
fn to_json_is_one_line_even_with_newlines_inside() {
    let line = msg(1, 2, MessageType::Text, 3, "a\nb", "\n\n").to_json();
    assert_eq!(line.matches('\n').count(), 1);
    assert!(line.ends_with('\n'));
}

#[test]
fn message_type_to_json() {
    assert_eq!(MessageType::MemberAuth.to_json(), "0\n");
    assert_eq!(MessageType::Pong.to_json(), "13\n");
    assert_eq!(MessageType::Error.to_json(), "14\n");
}

#[test]
fn message_describe() {
    let m = msg(1, 2, MessageType::AkeTwo, 3, "bob", "secret");
    assert_eq!(
        m.describe(),
        "{ SenderID: 1, ReceiverID: 2, Type: AkeTwo, ClusterID: 3, SenderName: bob }"
    );
    assert_eq!(MessageType::QKDIDLeader.name(), "QKDIDLeader");
    assert_eq!(MessageType::Error.name(), "Err");
    assert_eq!(
        ChatMessage::err("x".to_owned()).describe(),
        "{ SenderID: 0, ReceiverID: 0, Type: Err, ClusterID: 0, SenderName:  }"
    );
}
