//! Message routing and session bookkeeping for a group-chat relay.
//!
//! Clients authenticate as cluster members or cluster leaders, then exchange
//! typed chat messages.  The relay decides, for every message, which of the
//! connected clients receive it, stores the history of the session so that
//! late joiners can catch up, and tears the session down when it empties,
//! when a client joins twice, or when clients stop sending pings.
//!
//! The decisions live here and are verified; the network plumbing that
//! performs them lives in the application crate.

pub mod connection;
pub mod json;
pub mod laws;
pub mod message;
pub mod routing;
pub mod session;
mod seq_facts;

pub use connection::{
    ConnectionEvent, ConnectionOutput, ConnectionPhase, client_key_for_auth, command_for_message,
    connection_step, invalid_auth_reply,
};
pub use json::{assemble_chat_json, decimal_text};
pub use message::{ChatMessage, MessageType, ToJson};
pub use routing::{ClientKey, RouteType, applies_route, route_message};
pub use session::{SessionAction, SessionCommand, SessionState, TIMEOUT_NS};
