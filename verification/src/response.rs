//! The responses the server can return.  Like the requests, their bodies
//! travel serialized inside a protocol message.

use vstd::prelude::*;

verus! {

/// The outcome of a produce.
pub struct ProduceResponse {
    /// The topic appended to.
    pub topic: String,
    /// The partition appended to.
    pub partition: i32,
    /// The offset the first message received.
    pub offset: i64,
    /// Zero on success.
    pub error_code: i16,
}

/// The outcome of a fetch.
pub struct FetchResponse {
    /// The topic read.
    pub topic: String,
    /// The partition read.
    pub partition: i32,
    /// Zero on success.
    pub error_code: i16,
    /// The offset one past the last committed record.
    pub high_watermark: i64,
    /// The payloads read.
    pub messages: Vec<Vec<u8>>,
}

/// One broker node.
pub struct BrokerInfo {
    /// The node id.
    pub node_id: i32,
    /// The node's host.
    pub host: String,
    /// The node's port.
    pub port: i32,
}

/// One partition's metadata in a response.
pub struct PartitionMetadataInfo {
    /// The partition id.
    pub partition: i32,
    /// The leader's node id.
    pub leader: i32,
    /// The nodes holding replicas.
    pub replicas: Vec<i32>,
    /// The in-sync replicas.
    pub isr: Vec<i32>,
}

/// One topic's metadata in a response.
pub struct TopicMetadataInfo {
    /// The topic name.
    pub topic: String,
    /// The partitions' metadata.
    pub partitions: Vec<PartitionMetadataInfo>,
}

/// The cluster and topic metadata.
pub struct MetadataResponse {
    /// The broker nodes.
    pub brokers: Vec<BrokerInfo>,
    /// The topics' metadata.
    pub topics: Vec<TopicMetadataInfo>,
}

/// One partition's committed offset in a response.
pub struct PartitionOffset {
    /// The partition id.
    pub partition: i32,
    /// The committed offset.
    pub offset: i64,
    /// Zero on success.
    pub error_code: i16,
}

/// One topic's committed offsets in a response.
pub struct TopicOffset {
    /// The topic name.
    pub topic: String,
    /// The partitions' offsets.
    pub partitions: Vec<PartitionOffset>,
}

/// The offsets a consumer group committed.
pub struct OffsetFetchResponse {
    /// The consumer group.
    pub group_id: String,
    /// The topics' offsets.
    pub topics: Vec<TopicOffset>,
}

/// The outcome of joining a consumer group.
pub struct JoinGroupResponse {
    /// The consumer group.
    pub group_id: String,
    /// The joined member.
    pub member_id: String,
    /// The group's leader member.
    pub leader_id: String,
    /// Zero on success.
    pub error_code: i16,
}

/// The outcome of synchronising consumer-group state.
pub struct SyncGroupResponse {
    /// The consumer group.
    pub group_id: String,
    /// The member synchronised.
    pub member_id: String,
    /// Zero on success.
    pub error_code: i16,
}

/// The outcome of a heartbeat.
pub struct HeartbeatResponse {
    /// The consumer group.
    pub group_id: String,
    /// The member that beat.
    pub member_id: String,
    /// Zero on success.
    pub error_code: i16,
}

/// The outcome of leaving a consumer group.
pub struct LeaveGroupResponse {
    /// The consumer group.
    pub group_id: String,
    /// The member that left.
    pub member_id: String,
    /// Zero on success.
    pub error_code: i16,
}

/// Any response the server can return.
pub enum ServerResponse {
    /// The outcome of a produce.
    Produce(ProduceResponse),
    /// The outcome of a fetch.
    Fetch(FetchResponse),
    /// Cluster and topic metadata.
    Metadata(MetadataResponse),
    /// Committed consumer-group offsets.
    OffsetFetch(OffsetFetchResponse),
    /// The outcome of joining a group.
    JoinGroup(JoinGroupResponse),
    /// The outcome of synchronising group state.
    SyncGroup(SyncGroupResponse),
    /// The outcome of a heartbeat.
    Heartbeat(HeartbeatResponse),
    /// The outcome of leaving a group.
    LeaveGroup(LeaveGroupResponse),
}

} // verus!
