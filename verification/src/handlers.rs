//! Message handlers: one registered per message kind by the server layer.
//!
//! The server hands each incoming message to the handler of its kind and
//! sends back whatever the handler returns.  These handlers acknowledge by
//! echoing the message; wiring them to the broker is the server's part.

use vstd::prelude::*;

use crate::message::BinaryMessage;

verus! {

/// Handles one kind of message: consumes it, returns the response to
/// send back, if any.
pub trait MessageHandler {
    /// Handle one message.
    fn handle_message(&self, message: BinaryMessage) -> (r: Option<BinaryMessage>);
}

/// Acknowledges produce requests.
pub struct ProduceHandler;

impl MessageHandler for ProduceHandler {
    fn handle_message(&self, message: BinaryMessage) -> (r: Option<BinaryMessage>) {
        Some(message)
    }
}

/// Acknowledges fetch requests.
pub struct FetchHandler;

impl MessageHandler for FetchHandler {
    fn handle_message(&self, message: BinaryMessage) -> (r: Option<BinaryMessage>) {
        Some(message)
    }
}

/// Acknowledges metadata requests.
pub struct MetadataHandler;

impl MessageHandler for MetadataHandler {
    fn handle_message(&self, message: BinaryMessage) -> (r: Option<BinaryMessage>) {
        Some(message)
    }
}

/// Acknowledges offset-fetch requests.
pub struct OffsetFetchHandler;

impl MessageHandler for OffsetFetchHandler {
    fn handle_message(&self, message: BinaryMessage) -> (r: Option<BinaryMessage>) {
        Some(message)
    }
}

/// Acknowledges join-group requests.
pub struct JoinGroupHandler;

impl MessageHandler for JoinGroupHandler {
    fn handle_message(&self, message: BinaryMessage) -> (r: Option<BinaryMessage>) {
        Some(message)
    }
}

/// Acknowledges sync-group requests.
pub struct SyncGroupHandler;

impl MessageHandler for SyncGroupHandler {
    fn handle_message(&self, message: BinaryMessage) -> (r: Option<BinaryMessage>) {
        Some(message)
    }
}

/// Acknowledges create-topic requests.
pub struct CreateTopicHandler;

impl MessageHandler for CreateTopicHandler {
    fn handle_message(&self, message: BinaryMessage) -> (r: Option<BinaryMessage>) {
        Some(message)
    }
}

/// Acknowledges delete-topic requests.
pub struct DeleteTopicHandler;

impl MessageHandler for DeleteTopicHandler {
    fn handle_message(&self, message: BinaryMessage) -> (r: Option<BinaryMessage>) {
        Some(message)
    }
}

/// Acknowledges describe-topic requests.
pub struct DescribeTopicHandler;

impl MessageHandler for DescribeTopicHandler {
    fn handle_message(&self, message: BinaryMessage) -> (r: Option<BinaryMessage>) {
        Some(message)
    }
}

/// Acknowledges list-topics requests.
pub struct ListTopicsHandler;

impl MessageHandler for ListTopicsHandler {
    fn handle_message(&self, message: BinaryMessage) -> (r: Option<BinaryMessage>) {
        Some(message)
    }
}

/// Acknowledges update-topic-config requests.
pub struct UpdateTopicConfigHandler;

impl MessageHandler for UpdateTopicConfigHandler {
    fn handle_message(&self, message: BinaryMessage) -> (r: Option<BinaryMessage>) {
        Some(message)
    }
}

/// Acknowledges cluster-info requests.
pub struct GetClusterInfoHandler;

impl MessageHandler for GetClusterInfoHandler {
    fn handle_message(&self, message: BinaryMessage) -> (r: Option<BinaryMessage>) {
        Some(message)
    }
}

/// Acknowledges heartbeats.
pub struct HeartbeatHandler;

impl MessageHandler for HeartbeatHandler {
    fn handle_message(&self, message: BinaryMessage) -> (r: Option<BinaryMessage>) {
        Some(message)
    }
}

/// Acknowledges leave-group requests.
pub struct LeaveGroupHandler;

impl MessageHandler for LeaveGroupHandler {
    fn handle_message(&self, message: BinaryMessage) -> (r: Option<BinaryMessage>) {
        Some(message)
    }
}

} // verus!
