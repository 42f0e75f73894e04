//! The gossip layer's data and its receive decision: heartbeats record
//! the peer, newly learned templates are forwarded, state syncs are
//! ignored.  The transport loop performs the decided action.

use vstd::prelude::*;

verus! {

/// What is known of a peer.
pub struct PeerInfo {
    pub last_seen: i64,
    pub templates_count: u32,
}

/// A gossip datagram.
pub enum ClusterMessage {
    Heartbeat { node_id: String, templates_count: u32 },
    NewTemplate { pattern: String },
    SyncState(Vec<String>),
}

/// What the receiver does with one datagram.
pub enum ClusterAction {
    /// Record the sender as alive, with this information.
    RecordPeer(PeerInfo),
    /// Broadcast the pattern to the local template listeners.
    ForwardTemplate(String),
    /// Nothing.
    Ignore,
}

/// Decides the action for one received gossip message; `now` is the
/// receive time in seconds.
pub fn apply_cluster_message(msg: ClusterMessage, now: i64) -> (r: ClusterAction)
    ensures
        msg is Heartbeat ==> r is RecordPeer && r->RecordPeer_0.last_seen == now
            && r->RecordPeer_0.templates_count == msg->Heartbeat_templates_count,
        msg is NewTemplate ==> r is ForwardTemplate && r->ForwardTemplate_0@
            == msg->NewTemplate_pattern@,
        msg is SyncState ==> r is Ignore,
{
    match msg {
        ClusterMessage::Heartbeat { node_id: _, templates_count } => ClusterAction::RecordPeer(
            PeerInfo { last_seen: now, templates_count },
        ),
        ClusterMessage::NewTemplate { pattern } => ClusterAction::ForwardTemplate(pattern),
        ClusterMessage::SyncState(_) => ClusterAction::Ignore,
    }
}

} // verus!
