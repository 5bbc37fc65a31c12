use vstd::prelude::*;

use vstd::string::*;

use crate::json::{chat_json, decimal, decimal_text, json_string, assemble_chat_json};
use crate::routing::RouteType;

verus! {

/// The kinds of message that travel between clients and the relay.
///
/// On the wire a kind is its numeric code (see [`MessageType::to_u8`]).
#[derive(Debug, Clone, Copy, PartialEq, Eq, Structural)]
pub enum MessageType {
    MemberAuth,
    LeaderAuth,
    Text,
    AkeOne,
    AkeTwo,
    XiRiCommitment,
    Key,
    LeadAkeOne,
    LeadAkeTwo,
    LeaderXiRiCommitment,
    QKDIDLeader,
    QKDIDMember,
    Ping,
    Pong,
    Error,
}

/// The numeric wire code of each message kind, in declaration order.
pub open spec fn type_code(t: MessageType) -> u8 {
    match t {
        MessageType::MemberAuth => 0,
        MessageType::LeaderAuth => 1,
        MessageType::Text => 2,
        MessageType::AkeOne => 3,
        MessageType::AkeTwo => 4,
        MessageType::XiRiCommitment => 5,
        MessageType::Key => 6,
        MessageType::LeadAkeOne => 7,
        MessageType::LeadAkeTwo => 8,
        MessageType::LeaderXiRiCommitment => 9,
        MessageType::QKDIDLeader => 10,
        MessageType::QKDIDMember => 11,
        MessageType::Ping => 12,
        MessageType::Pong => 13,
        MessageType::Error => 14,
    }
}

/// The message kind a wire code denotes, if any: codes 0 to 14.
pub open spec fn type_of_code(v: u8) -> Option<MessageType> {
    if v == 0 { Some(MessageType::MemberAuth) }
    else if v == 1 { Some(MessageType::LeaderAuth) }
    else if v == 2 { Some(MessageType::Text) }
    else if v == 3 { Some(MessageType::AkeOne) }
    else if v == 4 { Some(MessageType::AkeTwo) }
    else if v == 5 { Some(MessageType::XiRiCommitment) }
    else if v == 6 { Some(MessageType::Key) }
    else if v == 7 { Some(MessageType::LeadAkeOne) }
    else if v == 8 { Some(MessageType::LeadAkeTwo) }
    else if v == 9 { Some(MessageType::LeaderXiRiCommitment) }
    else if v == 10 { Some(MessageType::QKDIDLeader) }
    else if v == 11 { Some(MessageType::QKDIDMember) }
    else if v == 12 { Some(MessageType::Ping) }
    else if v == 13 { Some(MessageType::Pong) }
    else if v == 14 { Some(MessageType::Error) }
    else { None }
}

impl MessageType {
    /// The wire code of this kind.
    pub fn to_u8(&self) -> (code: u8)
        ensures
            code == type_code(*self),
    {
        match self {
            MessageType::MemberAuth => 0,
            MessageType::LeaderAuth => 1,
            MessageType::Text => 2,
            MessageType::AkeOne => 3,
            MessageType::AkeTwo => 4,
            MessageType::XiRiCommitment => 5,
            MessageType::Key => 6,
            MessageType::LeadAkeOne => 7,
            MessageType::LeadAkeTwo => 8,
            MessageType::LeaderXiRiCommitment => 9,
            MessageType::QKDIDLeader => 10,
            MessageType::QKDIDMember => 11,
            MessageType::Ping => 12,
            MessageType::Pong => 13,
            MessageType::Error => 14,
        }
    }
}

impl TryFrom<u8> for MessageType {
    type Error = ();

    fn try_from(value: u8) -> (r: Result<MessageType, ()>) {
        match value {
            0 => Ok(MessageType::MemberAuth),
            1 => Ok(MessageType::LeaderAuth),
            2 => Ok(MessageType::Text),
            3 => Ok(MessageType::AkeOne),
            4 => Ok(MessageType::AkeTwo),
            5 => Ok(MessageType::XiRiCommitment),
            6 => Ok(MessageType::Key),
            7 => Ok(MessageType::LeadAkeOne),
            8 => Ok(MessageType::LeadAkeTwo),
            9 => Ok(MessageType::LeaderXiRiCommitment),
            10 => Ok(MessageType::QKDIDLeader),
            11 => Ok(MessageType::QKDIDMember),
            12 => Ok(MessageType::Ping),
            13 => Ok(MessageType::Pong),
            14 => Ok(MessageType::Error),
            _ => Err(()),
        }
    }
}

impl vstd::std_specs::convert::TryFromSpecImpl<u8> for MessageType {
    open spec fn obeys_try_from_spec() -> bool {
        true
    }

    open spec fn try_from_spec(v: u8) -> Result<MessageType, ()> {
        match type_of_code(v) {
            Some(t) => Ok(t),
            None => Err(()),
        }
    }
}

/// A chat message as it travels between clients and the relay.
#[derive(Debug, Clone)]
pub struct ChatMessage {
    pub send_id: u64,
    pub recv_id: u64,
    pub msg_type: MessageType,
    pub cluster_id: u64,
    pub sender: String,
    pub content: String,
}

/// The mathematical content of a [`ChatMessage`]: its strings as character sequences.
pub struct ChatMessageView {
    pub send_id: u64,
    pub recv_id: u64,
    pub msg_type: MessageType,
    pub cluster_id: u64,
    pub sender: Seq<char>,
    pub content: Seq<char>,
}

impl View for ChatMessage {
    type V = ChatMessageView;

    open spec fn view(&self) -> ChatMessageView {
        ChatMessageView {
            send_id: self.send_id,
            recv_id: self.recv_id,
            msg_type: self.msg_type,
            cluster_id: self.cluster_id,
            sender: self.sender@,
            content: self.content@,
        }
    }
}

/// How a message of each kind is routed.
pub open spec fn route_of_type(t: MessageType) -> RouteType {
    match t {
        MessageType::Text => RouteType::Broadcast,
        MessageType::AkeOne | MessageType::AkeTwo | MessageType::Pong => RouteType::Direct,
        MessageType::XiRiCommitment | MessageType::Key | MessageType::QKDIDMember => RouteType::ClusterBroadcast,
        MessageType::LeadAkeOne | MessageType::LeadAkeTwo | MessageType::QKDIDLeader => RouteType::LeaderDirect,
        MessageType::LeaderXiRiCommitment => RouteType::LeaderBroadcast,
        _ => RouteType::NoRoute,
    }
}

/// The error report the relay sends: kind `Error`, all numbers zero, no sender.
pub open spec fn error_view(message: Seq<char>) -> ChatMessageView {
    ChatMessageView {
        send_id: 0,
        recv_id: 0,
        msg_type: MessageType::Error,
        cluster_id: 0,
        sender: Seq::empty(),
        content: message,
    }
}

impl ChatMessage {
    /// The routing rule for this message's kind.
    pub fn route_type(&self) -> (r: RouteType)
        ensures
            r == route_of_type(self.msg_type),
    {
        match self.msg_type {
            MessageType::Text => RouteType::Broadcast,
            MessageType::AkeOne | MessageType::AkeTwo | MessageType::Pong => RouteType::Direct,
            MessageType::XiRiCommitment | MessageType::Key | MessageType::QKDIDMember => {
                RouteType::ClusterBroadcast
            },
            MessageType::LeadAkeOne | MessageType::LeadAkeTwo | MessageType::QKDIDLeader => {
                RouteType::LeaderDirect
            },
            MessageType::LeaderXiRiCommitment => RouteType::LeaderBroadcast,
            _ => RouteType::NoRoute,
        }
    }

    /// An error report carrying `message` as its content.
    pub fn err(message: String) -> (m: ChatMessage)
        ensures
            m@ == error_view(message@),
    {
        ChatMessage {
            send_id: 0,
            recv_id: 0,
            msg_type: MessageType::Error,
            cluster_id: 0,
            sender: String::new(),
            content: message,
        }
    }
}

/// Values that have a one-line JSON form, as sent to clients.
pub trait ToJson {
    fn to_json(&self) -> String;
}

impl ToJson for ChatMessage {
    /// The message as one line of JSON, ending in a newline; empty where a
    /// string field cannot be encoded.
    fn to_json(&self) -> (r: String)
        ensures
            r@ == chat_json(self@),
    {
        let sender = json_string(self.sender.as_str());
        let content = json_string(self.content.as_str());
        match (sender, content) {
            (Ok(s), Ok(c)) => assemble_chat_json(self, s.as_str(), c.as_str()),
            _ => String::new(),
        }
    }
}

impl ToJson for MessageType {
    /// The wire code in decimal, then a newline.
    fn to_json(&self) -> (r: String)
        ensures
            r@ == decimal(type_code(*self) as nat) + "\n"@,
    {
        let mut out = decimal_text(self.to_u8() as u64);
        out.append("\n");
        out
    }
}

/// The name of a message kind, as written in logs (the error kind keeps
/// its wire-protocol name `Err`).
pub open spec fn kind_name(t: MessageType) -> Seq<char> {
    match t {
        MessageType::MemberAuth => "MemberAuth"@,
        MessageType::LeaderAuth => "LeaderAuth"@,
        MessageType::Text => "Text"@,
        MessageType::AkeOne => "AkeOne"@,
        MessageType::AkeTwo => "AkeTwo"@,
        MessageType::XiRiCommitment => "XiRiCommitment"@,
        MessageType::Key => "Key"@,
        MessageType::LeadAkeOne => "LeadAkeOne"@,
        MessageType::LeadAkeTwo => "LeadAkeTwo"@,
        MessageType::LeaderXiRiCommitment => "LeaderXiRiCommitment"@,
        MessageType::QKDIDLeader => "QKDIDLeader"@,
        MessageType::QKDIDMember => "QKDIDMember"@,
        MessageType::Ping => "Ping"@,
        MessageType::Pong => "Pong"@,
        MessageType::Error => "Err"@,
    }
}

impl MessageType {
    /// The name of this kind.
    pub fn name(&self) -> (r: &'static str)
        ensures
            r@ == kind_name(*self),
    {
        match self {
            MessageType::MemberAuth => "MemberAuth",
            MessageType::LeaderAuth => "LeaderAuth",
            MessageType::Text => "Text",
            MessageType::AkeOne => "AkeOne",
            MessageType::AkeTwo => "AkeTwo",
            MessageType::XiRiCommitment => "XiRiCommitment",
            MessageType::Key => "Key",
            MessageType::LeadAkeOne => "LeadAkeOne",
            MessageType::LeadAkeTwo => "LeadAkeTwo",
            MessageType::LeaderXiRiCommitment => "LeaderXiRiCommitment",
            MessageType::QKDIDLeader => "QKDIDLeader",
            MessageType::QKDIDMember => "QKDIDMember",
            MessageType::Ping => "Ping",
            MessageType::Pong => "Pong",
            MessageType::Error => "Err",
        }
    }
}

/// The one-line summary of a message that the relay logs.
pub open spec fn message_summary(m: ChatMessageView) -> Seq<char> {
    "{ SenderID: "@ + decimal(m.send_id as nat) + ", ReceiverID: "@ + decimal(m.recv_id as nat)
        + ", Type: "@ + kind_name(m.msg_type) + ", ClusterID: "@ + decimal(m.cluster_id as nat)
        + ", SenderName: "@ + m.sender + " }"@
}

impl ChatMessage {
    /// A one-line summary of this message for logs (not its content).
    pub fn describe(&self) -> (r: String)
        ensures
            r@ == message_summary(self@),
    {
        let mut out = String::from_str("{ SenderID: ");
        let t = decimal_text(self.send_id);
        out.append(t.as_str());
        out.append(", ReceiverID: ");
        let t = decimal_text(self.recv_id);
        out.append(t.as_str());
        out.append(", Type: ");
        out.append(self.msg_type.name());
        out.append(", ClusterID: ");
        let t = decimal_text(self.cluster_id);
        out.append(t.as_str());
        out.append(", SenderName: ");
        out.append(self.sender.as_str());
        out.append(" }");
        out
    }
}

} // verus!
