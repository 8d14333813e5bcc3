//! The requests a client can send.  The bodies travel serialized inside a
//! protocol message; turning bytes into these values sits outside the
//! library.

use vstd::prelude::*;

verus! {

/// Send messages to a topic.
pub struct ProduceRequest {
    /// The topic name.
    pub topic: String,
    /// The partition addressed, negative for unassigned.
    pub partition: i32,
    /// The payloads to append.
    pub messages: Vec<Vec<u8>>,
}

/// Fetch messages from a topic partition.
pub struct FetchRequest {
    /// The topic name.
    pub topic: String,
    /// The partition addressed.
    pub partition: i32,
    /// The first offset wanted.
    pub offset: i64,
    /// An upper bound on the bytes returned.
    pub max_bytes: i32,
}

/// Fetch metadata for these topics.
pub struct MetadataRequest {
    /// The topic names.
    pub topics: Vec<String>,
}

/// Fetch the offsets a consumer group committed.
pub struct OffsetFetchRequest {
    /// The consumer group.
    pub group_id: String,
    /// The topics asked about.
    pub topics: Vec<String>,
}

/// Join a consumer group.
pub struct JoinGroupRequest {
    /// The consumer group.
    pub group_id: String,
    /// The joining member.
    pub member_id: String,
    /// The member's protocol type.
    pub protocol_type: String,
}

/// Synchronise consumer-group state.
pub struct SyncGroupRequest {
    /// The consumer group.
    pub group_id: String,
    /// The member synchronising.
    pub member_id: String,
    /// The group generation.
    pub generation_id: i32,
}

/// Consumer-group heartbeat.
pub struct HeartbeatRequest {
    /// The consumer group.
    pub group_id: String,
    /// The member beating.
    pub member_id: String,
    /// The group generation.
    pub generation_id: i32,
}

/// Leave a consumer group.
pub struct LeaveGroupRequest {
    /// The consumer group.
    pub group_id: String,
    /// The leaving member.
    pub member_id: String,
}

/// Create a topic.
pub struct CreateTopicRequest {
    /// The topic name.
    pub name: String,
    /// How many partitions to create.
    pub num_partitions: usize,
    /// How many replicas each partition keeps.
    pub replication_factor: usize,
    /// Further configuration, as key-value pairs.
    pub configs: Vec<(String, String)>,
}

/// Delete a topic.
pub struct DeleteTopicRequest {
    /// The topic name.
    pub name: String,
}

/// Describe a topic.
pub struct DescribeTopicRequest {
    /// The topic name.
    pub name: String,
}

/// List all topics.
pub struct ListTopicsRequest {}

/// Update a topic's configuration.
pub struct UpdateTopicConfigRequest {
    /// The topic name.
    pub name: String,
    /// The new configuration, as key-value pairs.
    pub configs: Vec<(String, String)>,
}

/// Fetch cluster information.
pub struct GetClusterInfoRequest {}

/// Any request a client can send.
pub enum ClientRequest {
    /// Send messages to a topic.
    Produce(ProduceRequest),
    /// Fetch messages from a topic partition.
    Fetch(FetchRequest),
    /// Fetch topic metadata.
    Metadata(MetadataRequest),
    /// Fetch committed consumer-group offsets.
    OffsetFetch(OffsetFetchRequest),
    /// Join a consumer group.
    JoinGroup(JoinGroupRequest),
    /// Synchronise consumer-group state.
    SyncGroup(SyncGroupRequest),
    /// Create a topic.
    CreateTopic(CreateTopicRequest),
    /// Delete a topic.
    DeleteTopic(DeleteTopicRequest),
    /// Describe a topic.
    DescribeTopic(DescribeTopicRequest),
    /// List all topics.
    ListTopics(ListTopicsRequest),
    /// Update a topic's configuration.
    UpdateTopicConfig(UpdateTopicConfigRequest),
    /// Fetch cluster information.
    GetClusterInfo(GetClusterInfoRequest),
}

} // verus!
