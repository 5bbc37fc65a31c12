use pqgch_router::{
    ChatMessage, ClientKey, MessageType, SessionAction, SessionCommand, SessionState, ToJson,
    TIMEOUT_NS,
};

fn key(user_id: u64, cluster_id: u64, is_leader: bool) -> ClientKey {
    ClientKey { user_id, cluster_id, is_leader }
}

fn text(from: u64, cluster: u64, content: &str) -> ChatMessage {
    ChatMessage {
        send_id: from,
        recv_id: 0,
        msg_type: MessageType::Text,
        cluster_id: cluster,
        sender: format!("user{}", from),
        content: content.to_owned(),
    }
}

#[derive(Debug, PartialEq)]
enum Act {
    Deliver(ClientKey, String),
    Open(ClientKey),
    Close(ClientKey),
}

fn plain(acts: Vec<SessionAction>) -> Vec<Act> {
    acts.into_iter()
        .map(|a| match a {
            SessionAction::Deliver { to, payload } => Act::Deliver(to, payload),
            SessionAction::Open { key } => Act::Open(key),
            SessionAction::Close { key } => Act::Close(key),
        })
        .collect()
}

fn join(s: &mut SessionState, k: ClientKey, now: u64) -> Vec<Act> {
    plain(s.handle_command(SessionCommand::Join { key: k }, now))
}

fn send(s: &mut SessionState, m: ChatMessage, from: ClientKey) -> Vec<Act> {
    plain(s.handle_command(SessionCommand::SendMessage { msg: m, sender_key: from }, 0))
}

#[test]
fn first_join_opens_only() {
    let mut s = SessionState::new();
    let a = key(1, 1, false);
    assert_eq!(join(&mut s, a, 5), vec![Act::Open(a)]);
    assert_eq!(s.active_clients(), &vec![a]);
}

#[test]
fn send_reaches_others_and_is_stored() {
    let mut s = SessionState::new();
    let a = key(1, 1, false);
    let b = key(2, 1, false);
    join(&mut s, a, 0);
    join(&mut s, b, 0);
    let m = text(1, 1, "hello");
    let line = m.to_json();
    assert_eq!(send(&mut s, m, a), vec![Act::Deliver(b, line.clone())]);
    // A late joiner is replayed the stored message.
    let c = key(3, 2, true);
    assert_eq!(join(&mut s, c, 0), vec![Act::Open(c), Act::Deliver(c, line)]);
}

#[test]
fn replay_only_applicable_messages_in_order() {
    let mut s = SessionState::new();
    let a = key(1, 1, false);
    join(&mut s, a, 0);
    let m1 = text(1, 1, "first");
    let l1 = m1.to_json();
    send(&mut s, m1, a);
    let mut only_cluster_2 = text(1, 2, "cluster two");
    only_cluster_2.msg_type = MessageType::Key;
    send(&mut s, only_cluster_2, a);
    let m3 = text(1, 1, "third");
    let l3 = m3.to_json();
    send(&mut s, m3, a);
    let b = key(2, 1, false);
    assert_eq!(join(&mut s, b, 0), vec![Act::Open(b), Act::Deliver(b, l1), Act::Deliver(b, l3)]);
}

#[test]
fn duplicate_join_restarts_session() {
    let mut s = SessionState::new();
    let a = key(1, 1, false);
    let b = key(2, 1, false);
    join(&mut s, a, 0);
    join(&mut s, b, 0);
    send(&mut s, text(1, 1, "kept?"), a);
    let notice = ChatMessage::err("session terminated due to duplicate join".to_owned()).to_json();
    assert_eq!(
        join(&mut s, a, 9),
        vec![
            Act::Deliver(a, notice.clone()),
            Act::Deliver(b, notice),
            Act::Close(a),
            Act::Close(b),
            Act::Open(a),
        ]
    );
    assert_eq!(s.active_clients(), &vec![a]);
    // The history is gone: a new joiner gets nothing replayed.
    let c = key(3, 1, false);
    assert_eq!(join(&mut s, c, 9), vec![Act::Open(c)]);
}

#[test]
fn rejoin_after_leave_also_restarts() {
    let mut s = SessionState::new();
    let a = key(1, 1, false);
    let b = key(2, 1, false);
    join(&mut s, a, 0);
    join(&mut s, b, 0);
    assert_eq!(plain(s.handle_command(SessionCommand::Leave { key: a }, 0)), vec![Act::Close(a)]);
    let notice = ChatMessage::err("session terminated due to duplicate join".to_owned()).to_json();
    assert_eq!(
        join(&mut s, a, 0),
        vec![Act::Deliver(b, notice), Act::Close(b), Act::Open(a)]
    );
}

#[test]
fn last_leave_clears_session() {
    let mut s = SessionState::new();
    let a = key(1, 1, false);
    join(&mut s, a, 0);
    send(&mut s, text(1, 1, "x"), a);
    assert_eq!(plain(s.handle_command(SessionCommand::Leave { key: a }, 0)), vec![Act::Close(a)]);
    assert!(s.active_clients().is_empty());
    // Everything was forgotten: rejoining is a first join with no history.
    assert_eq!(join(&mut s, a, 0), vec![Act::Open(a)]);
}

#[test]
fn leave_of_stranger_does_nothing() {
    let mut s = SessionState::new();
    let a = key(1, 1, false);
    join(&mut s, a, 0);
    assert_eq!(plain(s.handle_command(SessionCommand::Leave { key: key(9, 9, false) }, 0)), vec![]);
    assert_eq!(s.active_clients(), &vec![a]);
}

#[test]
fn ping_is_answered_with_pong() {
    let mut s = SessionState::new();
    let a = key(4, 2, false);
    let twin = key(4, 2, true);
    join(&mut s, a, 0);
    join(&mut s, twin, 0);
    let pong = ChatMessage {
        send_id: 0,
        recv_id: 4,
        msg_type: MessageType::Pong,
        cluster_id: 2,
        sender: "pqgch-router".to_owned(),
        content: String::new(),
    }
    .to_json();
    assert_eq!(
        plain(s.handle_command(SessionCommand::Ping { key: a }, 10)),
        vec![Act::Deliver(a, pong.clone()), Act::Deliver(twin, pong)]
    );
}

#[test]
fn timeouts_drop_silent_clients() {
    let mut s = SessionState::new();
    let a = key(1, 1, false);
    let b = key(2, 1, false);
    join(&mut s, a, 1_000);
    join(&mut s, b, 1_000);
    // b keeps pinging, a stays silent.
    s.handle_command(SessionCommand::Ping { key: b }, 20_000);
    assert_eq!(plain(s.check_timeouts(1_000 + TIMEOUT_NS)), vec![]);
    assert_eq!(plain(s.check_timeouts(1_000 + TIMEOUT_NS + 1)), vec![Act::Close(a)]);
    assert_eq!(s.active_clients(), &vec![b]);
    // The last client timing out clears the session.
    assert_eq!(plain(s.check_timeouts(20_000 + TIMEOUT_NS + 1)), vec![Act::Close(b)]);
    assert!(s.active_clients().is_empty());
}

#[test]
fn clock_going_backwards_expires_nobody() {
    let mut s = SessionState::new();
    let a = key(1, 1, false);
    join(&mut s, a, 100_000);
    assert_eq!(plain(s.check_timeouts(0)), vec![]);
    assert_eq!(s.active_clients(), &vec![a]);
}

#[test]
fn stale_ping_is_remembered_but_harmless() {
    let mut s = SessionState::new();
    let a = key(1, 1, false);
    let ghost_client = key(5, 5, false);
    join(&mut s, a, 0);
    // A ping from a client that is not connected is answered to nobody.
    assert_eq!(plain(s.handle_command(SessionCommand::Ping { key: ghost_client }, 0)), vec![]);
    let later = TIMEOUT_NS + 10;
    s.handle_command(SessionCommand::Ping { key: a }, later);
    // ghost_client expires but is not connected: nothing to close.
    assert_eq!(plain(s.check_timeouts(later)), vec![]);
    assert_eq!(s.active_clients(), &vec![a]);
}

/// Carries out the actions on a set of open connections, as the network
/// layer does, checking that none opens an open one or uses a closed one.
fn track(open: &mut Vec<ClientKey>, acts: &[Act]) {
    for a in acts {
        match a {
            Act::Open(k) => {
                assert!(!open.contains(k));
                open.push(*k);
            }
            Act::Close(k) => {
                let i = open.iter().position(|x| x == k).expect("closing a closed connection");
                open.remove(i);
            }
            Act::Deliver(k, _) => assert!(open.contains(k)),
        }
    }
}

#[test]
fn actions_track_connections() {
    let mut s = SessionState::new();
    let mut open: Vec<ClientKey> = Vec::new();
    let a = key(1, 1, false);
    let b = key(2, 1, true);
    let c = key(3, 2, false);
    for k in [a, b, c] {
        let acts = join(&mut s, k, 0);
        track(&mut open, &acts);
    }
    let acts = send(&mut s, text(1, 1, "hi"), a);
    track(&mut open, &acts);
    let acts = plain(s.handle_command(SessionCommand::Leave { key: b }, 0));
    track(&mut open, &acts);
    let acts = join(&mut s, a, 5);
    track(&mut open, &acts);
    let acts = plain(s.check_timeouts(TIMEOUT_NS + 6));
    track(&mut open, &acts);
    let mut expected = s.active_clients().clone();
    expected.sort_by_key(|k| k.user_id);
    open.sort_by_key(|k| k.user_id);
    assert_eq!(open, expected);
}
