//! The broker and storage configuration values, with their defaults.
//!
//! Loading overrides from a file or the environment sits outside the
//! library; it starts from these defaults and replaces fields.

use vstd::prelude::*;
use vstd::string::StringExecFns;

use crate::errors::StorageError;

verus! {

/// The broker's own settings.
pub struct BrokerConfig {
    /// The broker's id.
    pub id: u32,
    /// The host the broker listens on.
    pub host: String,
    /// The port the broker listens on.
    pub port: u16,
    /// How many threads serve the network.
    pub num_network_threads: u32,
    /// How many threads serve disk work.
    pub num_io_threads: u32,
    /// The send buffer size in bytes.
    pub socket_send_buffer_bytes: i32,
    /// The receive buffer size in bytes.
    pub socket_receive_buffer_bytes: i32,
    /// The largest accepted request in bytes.
    pub socket_request_max_bytes: i32,
    /// How many partitions a topic gets by default.
    pub num_partitions: u32,
    /// How many replicas a partition keeps by default.
    pub default_replication_factor: u32,
    /// The replication of the offsets topic.
    pub offsets_topic_replication_factor: u32,
    /// The replication of the transaction state log.
    pub transaction_state_log_replication_factor: u32,
    /// The least in-sync replicas of the transaction state log.
    pub transaction_state_log_min_isr: u32,
    /// How long logs are retained, in hours.
    pub log_retention_hours: u32,
    /// How many bytes of log are retained; negative for no bound.
    pub log_retention_bytes: i64,
    /// The size bound of one segment in bytes.
    pub log_segment_bytes: i64,
    /// How often retention is checked, in milliseconds.
    pub log_retention_check_interval_ms: u32,
    /// The coordinator connection string.
    pub zookeeper_connect: String,
    /// The coordinator connection timeout in milliseconds.
    pub zookeeper_connection_timeout_ms: u32,
    /// The delay before the first group rebalance, in milliseconds.
    pub group_initial_rebalance_delay_ms: u32,
    /// The least group session timeout in milliseconds.
    pub group_min_session_timeout_ms: u32,
    /// The largest group session timeout in milliseconds.
    pub group_max_session_timeout_ms: u32,
}

/// The storage settings.
pub struct StorageConfig {
    /// The directory logs live under.
    pub log_dir: String,
    /// The size bound of one segment in bytes.
    pub segment_size: usize,
    /// How often logs are flushed, in milliseconds.
    pub flush_interval_ms: u32,
    /// How often the flush scheduler runs, in milliseconds.
    pub flush_scheduler_interval_ms: u32,
    /// Recovery threads per data directory.
    pub num_recovery_threads_per_data_dir: u32,
    /// Partition recovery threads.
    pub num_partition_recovery_threads: u32,
    /// Whether topics are created on first use.
    pub auto_create_topics_enable: bool,
    /// Whether topics may be deleted.
    pub delete_topic_enable: bool,
    /// Whether background threads run.
    pub background_threads_enable: bool,
    /// How many background threads run.
    pub num_background_threads: u32,
    /// The compression applied to messages.
    pub compression_type: String,
    /// The largest accepted message in bytes.
    pub message_max_bytes: i32,
    /// The largest replica fetch in bytes.
    pub replica_fetch_max_bytes: i32,
    /// The smallest replica fetch in bytes.
    pub replica_fetch_min_bytes: i32,
    /// The longest replica fetch wait in milliseconds.
    pub replica_fetch_wait_max_ms: u32,
    /// How often the high watermark is checkpointed, in milliseconds.
    pub replica_high_watermark_checkpoint_interval_ms: u32,
    /// The replica socket timeout in milliseconds.
    pub replica_socket_timeout_ms: u32,
    /// The replica receive buffer size in bytes.
    pub replica_socket_receive_buffer_bytes: i32,
    /// The replica send buffer size in bytes.
    pub replica_socket_send_buffer_bytes: i32,
    /// The longest tolerated replica lag in milliseconds.
    pub replica_lag_time_max_ms: u32,
    /// The largest tolerated replica lag in messages.
    pub replica_lag_max_messages: u32,
}

/// The whole configuration.
pub struct ConfigStruct {
    /// The broker's own settings.
    pub broker: BrokerConfig,
    /// The storage settings.
    pub storage: StorageConfig,
}

impl ConfigStruct {
    /// The configuration with every field at its default.  Overlaying a
    /// configuration file or the environment on these values is the
    /// loader's part, outside the library.
    pub fn new() -> (r: Result<ConfigStruct, StorageError>)
        ensures
            match r {
                Ok(c) => {
                    &&& c.broker.id == 1
                    &&& c.broker.host@ == "127.0.0.1"@
                    &&& c.broker.port == 9092
                    &&& c.broker.num_network_threads == 3
                    &&& c.broker.num_io_threads == 8
                    &&& c.broker.socket_send_buffer_bytes == 102400
                    &&& c.broker.socket_receive_buffer_bytes == 102400
                    &&& c.broker.socket_request_max_bytes == 104857600
                    &&& c.broker.num_partitions == 3
                    &&& c.broker.default_replication_factor == 3
                    &&& c.broker.offsets_topic_replication_factor == 3
                    &&& c.broker.transaction_state_log_replication_factor == 3
                    &&& c.broker.transaction_state_log_min_isr == 2
                    &&& c.broker.log_retention_hours == 168
                    &&& c.broker.log_retention_bytes == -1
                    &&& c.broker.log_segment_bytes == 1073741824
                    &&& c.broker.log_retention_check_interval_ms == 300000
                    &&& c.broker.zookeeper_connect@ == "localhost:2181"@
                    &&& c.broker.zookeeper_connection_timeout_ms == 18000
                    &&& c.broker.group_initial_rebalance_delay_ms == 0
                    &&& c.broker.group_min_session_timeout_ms == 6000
                    &&& c.broker.group_max_session_timeout_ms == 300000
                    &&& c.storage.log_dir@ == "/var/lib/rust_kafka"@
                    &&& c.storage.segment_size == 1048576
                    &&& c.storage.flush_interval_ms == 1000
                    &&& c.storage.flush_scheduler_interval_ms == 3000
                    &&& c.storage.num_recovery_threads_per_data_dir == 1
                    &&& c.storage.num_partition_recovery_threads == 1
                    &&& c.storage.auto_create_topics_enable == true
                    &&& c.storage.delete_topic_enable == true
                    &&& c.storage.background_threads_enable == true
                    &&& c.storage.num_background_threads == 10
                    &&& c.storage.compression_type@ == "producer"@
                    &&& c.storage.message_max_bytes == 1000012
                    &&& c.storage.replica_fetch_max_bytes == 1048576
                    &&& c.storage.replica_fetch_min_bytes == 1
                    &&& c.storage.replica_fetch_wait_max_ms == 500
                    &&& c.storage.replica_high_watermark_checkpoint_interval_ms == 5000
                    &&& c.storage.replica_socket_timeout_ms == 30000
                    &&& c.storage.replica_socket_receive_buffer_bytes == 65536
                    &&& c.storage.replica_socket_send_buffer_bytes == 65536
                    &&& c.storage.replica_lag_time_max_ms == 10000
                    &&& c.storage.replica_lag_max_messages == 4000
                },
                Err(_) => false,
            },
    {
        let broker = BrokerConfig {
            id: 1,
            host: String::from_str("127.0.0.1"),
            port: 9092,
            num_network_threads: 3,
            num_io_threads: 8,
            socket_send_buffer_bytes: 102400,
            socket_receive_buffer_bytes: 102400,
            socket_request_max_bytes: 104857600,
            num_partitions: 3,
            default_replication_factor: 3,
            offsets_topic_replication_factor: 3,
            transaction_state_log_replication_factor: 3,
            transaction_state_log_min_isr: 2,
            log_retention_hours: 168,
            log_retention_bytes: -1,
            log_segment_bytes: 1073741824,
            log_retention_check_interval_ms: 300000,
            zookeeper_connect: String::from_str("localhost:2181"),
            zookeeper_connection_timeout_ms: 18000,
            group_initial_rebalance_delay_ms: 0,
            group_min_session_timeout_ms: 6000,
            group_max_session_timeout_ms: 300000,
        };
        let storage = StorageConfig {
            log_dir: String::from_str("/var/lib/rust_kafka"),
            segment_size: 1048576,
            flush_interval_ms: 1000,
            flush_scheduler_interval_ms: 3000,
            num_recovery_threads_per_data_dir: 1,
            num_partition_recovery_threads: 1,
            auto_create_topics_enable: true,
            delete_topic_enable: true,
            background_threads_enable: true,
            num_background_threads: 10,
            compression_type: String::from_str("producer"),
            message_max_bytes: 1000012,
            replica_fetch_max_bytes: 1048576,
            replica_fetch_min_bytes: 1,
            replica_fetch_wait_max_ms: 500,
            replica_high_watermark_checkpoint_interval_ms: 5000,
            replica_socket_timeout_ms: 30000,
            replica_socket_receive_buffer_bytes: 65536,
            replica_socket_send_buffer_bytes: 65536,
            replica_lag_time_max_ms: 10000,
            replica_lag_max_messages: 4000,
        };
        Ok(ConfigStruct { broker, storage })
    }
}

} // verus!
