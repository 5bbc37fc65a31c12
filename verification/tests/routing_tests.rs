use pqgch_router::{
    ChatMessage, ClientKey, MessageType, SessionCommand, SessionState, applies_route,
    client_key_for_auth, command_for_message, route_message,
};

fn msg(send_id: u64, recv_id: u64, msg_type: MessageType, cluster_id: u64) -> ChatMessage {
    ChatMessage {
        send_id,
        recv_id,
        msg_type,
        cluster_id,
        sender: "someone".to_owned(),
        content: "payload".to_owned(),
    }
}

fn key(user_id: u64, cluster_id: u64, is_leader: bool) -> ClientKey {
    ClientKey { user_id, cluster_id, is_leader }
}

#[test]
fn broadcast_applies_to_everyone() {
    let m = msg(1, 0, MessageType::Text, 5);
    assert!(applies_route(&m, key(1, 5, false)));
    assert!(applies_route(&m, key(9, 8, true)));
}

#[test]
fn direct_needs_cluster_and_user() {
    let m = msg(1, 2, MessageType::AkeOne, 5);
    assert!(applies_route(&m, key(2, 5, false)));
    assert!(applies_route(&m, key(2, 5, true)));
    assert!(!applies_route(&m, key(2, 6, false)));
    assert!(!applies_route(&m, key(3, 5, false)));
}

#[test]
fn leader_direct_matches_cluster_against_receiver() {
    // The receiver field names the cluster whose leader is addressed.
    let m = msg(1, 7, MessageType::LeadAkeOne, 5);
    assert!(applies_route(&m, key(100, 7, true)));
    assert!(!applies_route(&m, key(100, 7, false)));
    assert!(!applies_route(&m, key(100, 5, true)));
}

#[test]
fn cluster_broadcast_needs_cluster() {
    let m = msg(1, 0, MessageType::Key, 5);
    assert!(applies_route(&m, key(3, 5, false)));
    assert!(applies_route(&m, key(4, 5, true)));
    assert!(!applies_route(&m, key(3, 6, true)));
}

#[test]
fn leader_broadcast_needs_leader() {
    let m = msg(1, 0, MessageType::LeaderXiRiCommitment, 5);
    assert!(applies_route(&m, key(3, 9, true)));
    assert!(!applies_route(&m, key(3, 5, false)));
}

#[test]
fn unrouted_kinds_apply_to_nobody() {
    for t in [MessageType::MemberAuth, MessageType::LeaderAuth, MessageType::Ping, MessageType::Error] {
        let m = msg(1, 1, t, 1);
        assert!(!applies_route(&m, key(1, 1, true)));
        assert!(!applies_route(&m, key(1, 1, false)));
    }
}

fn session_with(keys: &[ClientKey]) -> SessionState {
    let mut s = SessionState::new();
    for k in keys {
        let acts = s.handle_command(SessionCommand::Join { key: *k }, 0);
        assert!(!acts.is_empty());
    }
    s
}

#[test]
fn route_message_skips_sender() {
    let a = key(1, 1, false);
    let b = key(2, 1, false);
    let c = key(3, 2, true);
    let s = session_with(&[a, b, c]);
    let m = msg(1, 0, MessageType::Text, 1);
    assert_eq!(route_message(&m, &s, Some(a)), vec![b, c]);
    assert_eq!(route_message(&m, &s, None), vec![a, b, c]);
}

#[test]
fn route_message_pong_may_reach_sender() {
    let a = key(1, 1, false);
    let s = session_with(&[a]);
    let pong = msg(0, 1, MessageType::Pong, 1);
    assert_eq!(route_message(&pong, &s, Some(a)), vec![a]);
}

#[test]
fn route_message_by_cluster() {
    let a = key(1, 1, false);
    let b = key(2, 2, false);
    let c = key(3, 1, true);
    let s = session_with(&[a, b, c]);
    let m = msg(1, 0, MessageType::QKDIDMember, 1);
    assert_eq!(route_message(&m, &s, Some(a)), vec![c]);
}

#[test]
fn auth_member_and_leader() {
    let member = msg(11, 0, MessageType::MemberAuth, 4);
    assert_eq!(client_key_for_auth(&member), Some(key(11, 4, false)));
    let leader = msg(12, 0, MessageType::LeaderAuth, 4);
    assert_eq!(client_key_for_auth(&leader), Some(key(12, 4, true)));
}

#[test]
fn auth_refuses_other_kinds() {
    for t in [MessageType::Text, MessageType::Ping, MessageType::Error, MessageType::Key] {
        assert_eq!(client_key_for_auth(&msg(1, 0, t, 1)), None);
    }
}

#[test]
fn command_for_ping_and_other() {
    let k = key(1, 2, false);
    match command_for_message(msg(1, 0, MessageType::Ping, 2), k) {
        SessionCommand::Ping { key } => assert_eq!(key, k),
        other => panic!("unexpected {:?}", other),
    }
    match command_for_message(msg(1, 0, MessageType::Text, 2), k) {
        SessionCommand::SendMessage { msg, sender_key } => {
            assert_eq!(sender_key, k);
            assert_eq!(msg.msg_type, MessageType::Text);
            assert_eq!(msg.content, "payload");
        },
        other => panic!("unexpected {:?}", other),
    }
}

#[test]
fn key_describe() {
    assert_eq!(key(7, 3, true).describe(), "client [ID: 7 / Cluster ID: 3 / Leader?: true]");
    assert_eq!(key(0, 12, false).describe(), "client [ID: 0 / Cluster ID: 12 / Leader?: false]");
}

#[test]
fn route_message_names_each_recipient_once() {
    let a = key(1, 1, false);
    let b = key(2, 1, true);
    let s = session_with(&[a, b]);
    let m = msg(9, 0, MessageType::Text, 1);
    let r = route_message(&m, &s, None);
    assert_eq!(r.len(), 2);
    assert_ne!(r[0], r[1]);
}
