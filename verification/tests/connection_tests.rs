use pqgch_router::{
    ChatMessage, ClientKey, ConnectionEvent, ConnectionOutput, ConnectionPhase, MessageType,
    SessionCommand, connection_step, invalid_auth_reply,
};

fn msg(send_id: u64, msg_type: MessageType, cluster_id: u64) -> ChatMessage {
    ChatMessage {
        send_id,
        recv_id: 0,
        msg_type,
        cluster_id,
        sender: "n".to_owned(),
        content: "c".to_owned(),
    }
}

fn line(m: ChatMessage) -> ConnectionEvent {
    ConnectionEvent::Line { msg: m }
}

fn is_reject(out: &ConnectionOutput) -> bool {
    matches!(out, ConnectionOutput::Reply { payload } if *payload == invalid_auth_reply())
}

#[test]
fn member_auth_joins() {
    let (phase, out) = connection_step(ConnectionPhase::AwaitingAuth, line(msg(5, MessageType::MemberAuth, 2)));
    let key = ClientKey { user_id: 5, cluster_id: 2, is_leader: false };
    assert_eq!(phase, ConnectionPhase::Connected { key });
    assert!(matches!(out, ConnectionOutput::Command { cmd: SessionCommand::Join { key: k } } if k == key));
}

#[test]
fn leader_auth_joins_as_leader() {
    let (phase, _) = connection_step(ConnectionPhase::AwaitingAuth, line(msg(5, MessageType::LeaderAuth, 2)));
    assert_eq!(phase, ConnectionPhase::Connected { key: ClientKey { user_id: 5, cluster_id: 2, is_leader: true } });
}

#[test]
fn bad_first_lines_are_rejected() {
    for event in [line(msg(1, MessageType::Text, 1)), ConnectionEvent::BadLine, ConnectionEvent::EndOfInput] {
        let (phase, out) = connection_step(ConnectionPhase::AwaitingAuth, event);
        assert_eq!(phase, ConnectionPhase::Finished);
        assert!(is_reject(&out));
    }
}

#[test]
fn failed_first_read_ends_silently() {
    let (phase, out) = connection_step(ConnectionPhase::AwaitingAuth, ConnectionEvent::ReadFailed);
    assert_eq!(phase, ConnectionPhase::Finished);
    assert!(matches!(out, ConnectionOutput::Nothing));
}

#[test]
fn connected_lines_become_commands() {
    let key = ClientKey { user_id: 1, cluster_id: 1, is_leader: false };
    let phase = ConnectionPhase::Connected { key };
    let (p, out) = connection_step(phase, line(msg(1, MessageType::Ping, 1)));
    assert_eq!(p, phase);
    assert!(matches!(out, ConnectionOutput::Command { cmd: SessionCommand::Ping { key: k } } if k == key));
    let (p, out) = connection_step(phase, line(msg(1, MessageType::Text, 1)));
    assert_eq!(p, phase);
    assert!(matches!(out, ConnectionOutput::Command { cmd: SessionCommand::SendMessage { sender_key, .. } } if sender_key == key));
    let (p, out) = connection_step(phase, ConnectionEvent::BadLine);
    assert_eq!(p, phase);
    assert!(matches!(out, ConnectionOutput::Nothing));
}

#[test]
fn end_of_input_leaves() {
    let key = ClientKey { user_id: 1, cluster_id: 1, is_leader: false };
    let (p, out) = connection_step(ConnectionPhase::Connected { key }, ConnectionEvent::EndOfInput);
    assert_eq!(p, ConnectionPhase::Finished);
    assert!(matches!(out, ConnectionOutput::Command { cmd: SessionCommand::Leave { key: k } } if k == key));
}

#[test]
fn stop_ends_without_leaving() {
    let key = ClientKey { user_id: 1, cluster_id: 1, is_leader: false };
    for phase in [
        ConnectionPhase::AwaitingAuth,
        ConnectionPhase::Connected { key },
        ConnectionPhase::Draining { key },
        ConnectionPhase::Finished,
    ] {
        let (p, out) = connection_step(phase, ConnectionEvent::Stopped);
        assert_eq!(p, ConnectionPhase::Finished);
        assert!(matches!(out, ConnectionOutput::Nothing));
    }
}

#[test]
fn failed_read_waits_for_stop() {
    let key = ClientKey { user_id: 1, cluster_id: 1, is_leader: false };
    let (p, out) = connection_step(ConnectionPhase::Connected { key }, ConnectionEvent::ReadFailed);
    assert_eq!(p, ConnectionPhase::Draining { key });
    assert!(matches!(out, ConnectionOutput::Nothing));
    let (p, _) = connection_step(p, ConnectionEvent::EndOfInput);
    assert_eq!(p, ConnectionPhase::Draining { key });
}

#[test]
fn finished_is_final() {
    let (p, out) = connection_step(ConnectionPhase::Finished, line(msg(1, MessageType::MemberAuth, 1)));
    assert_eq!(p, ConnectionPhase::Finished);
    assert!(matches!(out, ConnectionOutput::Nothing));
}
