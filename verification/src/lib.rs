//! A Kafka-style partitioned, append-only message log.
//!
//! Each partition stores its records in fixed-size segments; a segment is a
//! pair of byte stores, a log holding the records and a sparse index mapping
//! every hundredth offset to its byte position in the log.  A queue composes
//! the segments of one partition, a topic routes partition ids to queues, and
//! the broker routes (topic, payload) pairs to partitions.
//!
//! The crate holds the storage logic over in-memory byte stores whose layout
//! is byte-for-byte the on-disk format; persistence, networking and
//! configuration loading sit outside it and exchange plain values with it.

pub mod broker;
pub mod client;
pub mod codec;
pub mod config;
pub mod errors;
pub mod handlers;
pub mod index;
pub mod message;
pub mod metadata;
pub mod naming;
pub mod producer;
pub mod queue;
pub mod request;
pub mod retention;
pub mod response;
pub mod segment;
pub mod topic;
pub mod wire;

pub use codec::u32_from_be_bytes;
pub use codec::u32_to_be_bytes;
pub use codec::u64_from_be_bytes;
pub use codec::u64_to_be_bytes;
