use vstd::prelude::*;
use vstd::string::*;

use crate::json::chat_json;
use crate::message::{ChatMessage, ChatMessageView, MessageType, ToJson, error_view};
use crate::routing::ClientKey;
use crate::session::SessionCommand;

verus! {

/// The identity an authentication message claims: members and leaders
/// authenticate with their own kind of message; anything else is refused.
pub open spec fn auth_key(auth: ChatMessageView) -> Option<ClientKey> {
    match auth.msg_type {
        MessageType::MemberAuth => Some(
            ClientKey { cluster_id: auth.cluster_id, user_id: auth.send_id, is_leader: false },
        ),
        MessageType::LeaderAuth => Some(
            ClientKey { cluster_id: auth.cluster_id, user_id: auth.send_id, is_leader: true },
        ),
        _ => None,
    }
}

/// The identity claimed by the first message of a connection, if it is an
/// authentication message.
pub fn client_key_for_auth(auth_msg: &ChatMessage) -> (r: Option<ClientKey>)
    ensures
        r == auth_key(auth_msg@),
{
    match auth_msg.msg_type {
        MessageType::MemberAuth => Some(
            ClientKey { cluster_id: auth_msg.cluster_id, user_id: auth_msg.send_id, is_leader: false },
        ),
        MessageType::LeaderAuth => Some(
            ClientKey { cluster_id: auth_msg.cluster_id, user_id: auth_msg.send_id, is_leader: true },
        ),
        _ => None,
    }
}

/// What a message from an authenticated client asks of the session: a ping
/// is a ping; anything else is a message to route.
pub fn command_for_message(app_msg: ChatMessage, client_key: ClientKey) -> (r: SessionCommand)
    ensures
        app_msg.msg_type == MessageType::Ping ==> r == (SessionCommand::Ping { key: client_key }),
        app_msg.msg_type != MessageType::Ping ==> r == (SessionCommand::SendMessage {
            msg: app_msg,
            sender_key: client_key,
        }),
{
    if let MessageType::Ping = app_msg.msg_type {
        return SessionCommand::Ping { key: client_key };
    }
    SessionCommand::SendMessage { msg: app_msg, sender_key: client_key }
}

/// The text of the reply to a failed authentication.
pub open spec fn invalid_auth_text() -> Seq<char> {
    "invalid auth"@
}

/// The line sent to a connection whose authentication failed.
pub fn invalid_auth_reply() -> (r: String)
    ensures
        r@ == chat_json(error_view(invalid_auth_text())),
{
    ChatMessage::err(String::from_str("invalid auth")).to_json()
}

/// Where a connection stands.
#[derive(Clone, Copy, Debug, PartialEq, Eq, Structural)]
pub enum ConnectionPhase {
    /// No line read yet: the first one must authenticate.
    AwaitingAuth,
    /// Authenticated as `key`; lines are read and handed to the session.
    Connected { key: ClientKey },
    /// Authenticated as `key`, but reading failed: only the stop signal is awaited.
    Draining { key: ClientKey },
    /// The connection is over.
    Finished,
}

/// What happened on a connection.
#[derive(Debug)]
pub enum ConnectionEvent {
    /// A line arrived that reads as a message.
    Line { msg: ChatMessage },
    /// A line arrived that is not a message.
    BadLine,
    /// The client closed its side.
    EndOfInput,
    /// Reading from the client failed.
    ReadFailed,
    /// The session told this connection to stop.
    Stopped,
}

/// What the connection's task is to do after an event.
#[derive(Debug)]
pub enum ConnectionOutput {
    Nothing,
    /// Write `payload` to the client (then the connection ends).
    Reply { payload: String },
    /// Hand `cmd` to the session.
    Command { cmd: SessionCommand },
}

/// The mathematical content of a [`ConnectionOutput`].
pub enum ConnectionOutputView {
    Nothing,
    Reply { payload: Seq<char> },
    Command { cmd: SessionCommand },
}

impl View for ConnectionOutput {
    type V = ConnectionOutputView;

    open spec fn view(&self) -> ConnectionOutputView {
        match self {
            ConnectionOutput::Nothing => ConnectionOutputView::Nothing,
            ConnectionOutput::Reply { payload } => ConnectionOutputView::Reply { payload: payload@ },
            ConnectionOutput::Command { cmd } => ConnectionOutputView::Command { cmd: *cmd },
        }
    }
}

/// What a message from authenticated `key` asks of the session.
pub open spec fn message_command(msg: ChatMessage, key: ClientKey) -> SessionCommand {
    if msg.msg_type == MessageType::Ping {
        SessionCommand::Ping { key: key }
    } else {
        SessionCommand::SendMessage { msg: msg, sender_key: key }
    }
}

/// The reply to a failed authentication, as output.
pub open spec fn reject_auth() -> ConnectionOutputView {
    ConnectionOutputView::Reply { payload: chat_json(error_view(invalid_auth_text())) }
}

/// How a connection moves on an event:
/// - the first line must be an authentication message, which joins the
///   session; a missing, unreadable or other first line is answered with the
///   authentication error and ends the connection, and a failed read ends it
///   silently;
/// - once connected, pings and messages go to the session, unreadable lines
///   are skipped, the end of input leaves the session, a failed read stops
///   reading, and the stop signal ends the connection without leaving;
/// - a finished connection stays finished and does nothing.
pub open spec fn connection_effect(phase: ConnectionPhase, event: ConnectionEvent) -> (ConnectionPhase, ConnectionOutputView) {
    match phase {
        ConnectionPhase::AwaitingAuth => match event {
            ConnectionEvent::Line { msg } => match auth_key(msg@) {
                Some(key) => (
                    ConnectionPhase::Connected { key: key },
                    ConnectionOutputView::Command { cmd: SessionCommand::Join { key: key } },
                ),
                None => (ConnectionPhase::Finished, reject_auth()),
            },
            ConnectionEvent::BadLine => (ConnectionPhase::Finished, reject_auth()),
            ConnectionEvent::EndOfInput => (ConnectionPhase::Finished, reject_auth()),
            _ => (ConnectionPhase::Finished, ConnectionOutputView::Nothing),
        },
        ConnectionPhase::Connected { key } => match event {
            ConnectionEvent::Line { msg } => (
                ConnectionPhase::Connected { key: key },
                ConnectionOutputView::Command { cmd: message_command(msg, key) },
            ),
            ConnectionEvent::BadLine => (ConnectionPhase::Connected { key: key }, ConnectionOutputView::Nothing),
            ConnectionEvent::EndOfInput => (
                ConnectionPhase::Finished,
                ConnectionOutputView::Command { cmd: SessionCommand::Leave { key: key } },
            ),
            ConnectionEvent::ReadFailed => (ConnectionPhase::Draining { key: key }, ConnectionOutputView::Nothing),
            ConnectionEvent::Stopped => (ConnectionPhase::Finished, ConnectionOutputView::Nothing),
        },
        ConnectionPhase::Draining { key } => match event {
            ConnectionEvent::Stopped => (ConnectionPhase::Finished, ConnectionOutputView::Nothing),
            _ => (ConnectionPhase::Draining { key: key }, ConnectionOutputView::Nothing),
        },
        ConnectionPhase::Finished => (ConnectionPhase::Finished, ConnectionOutputView::Nothing),
    }
}

/// Moves a connection on an event, as [`connection_effect`] says.
pub fn connection_step(phase: ConnectionPhase, event: ConnectionEvent) -> (r: (ConnectionPhase, ConnectionOutput))
    ensures
        r.0 == connection_effect(phase, event).0,
        r.1@ == connection_effect(phase, event).1,
{
    match phase {
        ConnectionPhase::AwaitingAuth => match event {
            ConnectionEvent::Line { msg } => match client_key_for_auth(&msg) {
                Some(key) => (
                    ConnectionPhase::Connected { key: key },
                    ConnectionOutput::Command { cmd: SessionCommand::Join { key: key } },
                ),
                None => (ConnectionPhase::Finished, ConnectionOutput::Reply { payload: invalid_auth_reply() }),
            },
            ConnectionEvent::BadLine | ConnectionEvent::EndOfInput => {
                (ConnectionPhase::Finished, ConnectionOutput::Reply { payload: invalid_auth_reply() })
            },
            _ => (ConnectionPhase::Finished, ConnectionOutput::Nothing),
        },
        ConnectionPhase::Connected { key } => match event {
            ConnectionEvent::Line { msg } => {
                let cmd = command_for_message(msg, key);
                (ConnectionPhase::Connected { key: key }, ConnectionOutput::Command { cmd: cmd })
            },
            ConnectionEvent::BadLine => (ConnectionPhase::Connected { key: key }, ConnectionOutput::Nothing),
            ConnectionEvent::EndOfInput => (
                ConnectionPhase::Finished,
                ConnectionOutput::Command { cmd: SessionCommand::Leave { key: key } },
            ),
            ConnectionEvent::ReadFailed => (ConnectionPhase::Draining { key: key }, ConnectionOutput::Nothing),
            ConnectionEvent::Stopped => (ConnectionPhase::Finished, ConnectionOutput::Nothing),
        },
        ConnectionPhase::Draining { key } => match event {
            ConnectionEvent::Stopped => (ConnectionPhase::Finished, ConnectionOutput::Nothing),
            _ => (ConnectionPhase::Draining { key: key }, ConnectionOutput::Nothing),
        },
        ConnectionPhase::Finished => (ConnectionPhase::Finished, ConnectionOutput::Nothing),
    }
}

} // verus!
