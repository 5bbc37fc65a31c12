use vstd::prelude::*;

use vstd::string::*;

use crate::json::{decimal, decimal_text};
use crate::message::{ChatMessage, ChatMessageView, MessageType, route_of_type};
use crate::seq_facts::{lemma_filter_no_duplicates, lemma_take_succ};
use crate::session::{SessionState, delivers_to, route_recipients};

verus! {

/// Who a connected client is: a user of a cluster, leader of it or not.
#[derive(Clone, Copy, Debug, PartialEq, Eq, Hash, Structural)]
pub struct ClientKey {
    pub user_id: u64,
    pub cluster_id: u64,
    pub is_leader: bool,
}

/// The routing rules a message kind can follow.
#[derive(Debug, Clone, Copy, PartialEq, Eq, Structural)]
pub enum RouteType {
    /// to every client
    Broadcast,
    /// to the client whose user and cluster are the message's receiver and cluster
    Direct,
    /// to every client of the message's cluster
    ClusterBroadcast,
    /// to the leaders of the cluster named by the message's receiver
    LeaderDirect,
    /// to every leader
    LeaderBroadcast,
    /// to no one
    NoRoute,
}

/// Whether the routing rule of `msg` selects `client`.
pub open spec fn route_applies(msg: ChatMessageView, client: ClientKey) -> bool {
    match route_of_type(msg.msg_type) {
        RouteType::Broadcast => true,
        RouteType::Direct => msg.cluster_id == client.cluster_id && msg.recv_id == client.user_id,
        RouteType::LeaderDirect => client.is_leader && client.cluster_id == msg.recv_id,
        RouteType::ClusterBroadcast => client.cluster_id == msg.cluster_id,
        RouteType::LeaderBroadcast => client.is_leader,
        RouteType::NoRoute => false,
    }
}

/// Whether the routing rule of `app_msg` selects `tx_client`.
pub fn applies_route(app_msg: &ChatMessage, tx_client: ClientKey) -> (r: bool)
    ensures
        r == route_applies(app_msg@, tx_client),
{
    match app_msg.route_type() {
        RouteType::Broadcast => true,
        RouteType::Direct => {
            let is_same_cluster = app_msg.cluster_id == tx_client.cluster_id;
            let client_match = app_msg.recv_id == tx_client.user_id;

            is_same_cluster && client_match
        },
        RouteType::LeaderDirect => {
            let leader_match = tx_client.cluster_id == app_msg.recv_id;

            tx_client.is_leader && leader_match
        },
        RouteType::ClusterBroadcast => tx_client.cluster_id == app_msg.cluster_id,
        RouteType::LeaderBroadcast => tx_client.is_leader,
        _ => false,
    }
}

/// The connected clients that receive `app_msg`, sent by `sender_key` (or by
/// the relay itself when `None`), in connection order.
pub fn route_message(app_msg: &ChatMessage, state: &SessionState, sender_key: Option<ClientKey>) -> (r: Vec<ClientKey>)
    ensures
        r@ == route_recipients(state@.active, app_msg@, sender_key),
        r@.no_duplicates(),
{
    let active = state.active_clients();
    proof {
        lemma_filter_no_duplicates(active@, delivers_to(app_msg@, sender_key));
    }
    let mut out: Vec<ClientKey> = Vec::new();
    let mut i: usize = 0;
    while i < active.len()
        invariant
            i <= active.len(),
            out@ == active@.take(i as int).filter(delivers_to(app_msg@, sender_key)),
        decreases active.len() - i,
    {
        proof {
            lemma_take_succ(active@, i as int);
            active@.take(i as int).lemma_filter_push(active@[i as int], delivers_to(app_msg@, sender_key));
        }
        let tx_client = active[i];
        // A client does not get its own message back, except a pong.
        let own = match sender_key {
            Some(sk) => tx_client == sk && app_msg.msg_type != MessageType::Pong,
            None => false,
        };
        if !own && applies_route(app_msg, tx_client) {
            out.push(tx_client);
        }
        i = i + 1;
    }
    assert(active@.take(active.len() as int) =~= active@);
    out
}

/// The one-line description of a client that the relay logs.
pub open spec fn key_summary(k: ClientKey) -> Seq<char> {
    "client [ID: "@ + decimal(k.user_id as nat) + " / Cluster ID: "@ + decimal(k.cluster_id as nat)
        + " / Leader?: "@ + (if k.is_leader { "true"@ } else { "false"@ }) + "]"@
}

impl ClientKey {
    /// A one-line description of this client for logs.
    pub fn describe(&self) -> (r: String)
        ensures
            r@ == key_summary(*self),
    {
        let mut out = String::from_str("client [ID: ");
        let t = decimal_text(self.user_id);
        out.append(t.as_str());
        out.append(" / Cluster ID: ");
        let t = decimal_text(self.cluster_id);
        out.append(t.as_str());
        out.append(" / Leader?: ");
        if self.is_leader {
            out.append("true");
        } else {
            out.append("false");
        }
        out.append("]");
        out
    }
}

} // verus!
