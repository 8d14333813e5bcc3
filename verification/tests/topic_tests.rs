use minikafka::errors::StorageError;
use minikafka::metadata::MetadataManager;
use minikafka::metadata::PartitionMetadata;
use minikafka::metadata::TopicConfig;
use minikafka::metadata::TopicMetadata;
use minikafka::topic::Topic;

fn test_config() -> TopicConfig {
    TopicConfig {
        name: "test-topic".to_string(),
        partitions: 3,
        replication_factor: 1,
        segment_size: 1024 * 1024,
        base_dir: "target/topics".to_string(),
    }
}

fn test_metadata(id: usize) -> PartitionMetadata {
    PartitionMetadata { id, leader: 0, replicas: vec![0], isr: vec![0] }
}

#[test]
fn test_topic_creation() {
    let topic = Topic::new("test-topic".to_string(), test_config());
    assert_eq!(topic.get_name(), "test-topic");
    assert_eq!(topic.get_partition_count(), 0);
}

#[test]
fn test_topic_init_partition() {
    let mut topic = Topic::new("test-topic".to_string(), test_config());

    assert!(topic.init_partitions().is_ok());
    assert_eq!(topic.get_partition_count(), 3);

    assert!(topic.create_partition(0, test_metadata(0)).is_err());
}

#[test]
fn test_partition_creation() {
    let mut topic = Topic::new("test-topic".to_string(), test_config());

    assert!(topic.create_partition(0, test_metadata(0)).is_ok());
    assert_eq!(topic.get_partition_count(), 1);

    assert!(topic.create_partition(0, test_metadata(0)).is_err());
    assert!(topic.create_partition(3, test_metadata(3)).is_err());
}

#[test]
fn test_partition_deletion() {
    let mut topic = Topic::new("test-topic".to_string(), test_config());

    topic.create_partition(0, test_metadata(0)).unwrap();
    assert!(topic.delete_partition(0, 0).is_ok());
    assert_eq!(topic.get_partition_count(), 0);

    assert!(topic.delete_partition(0, 0).is_err());
}

#[test]
fn test_topic_delete() {
    let mut topic = Topic::new("test-topic".to_string(), test_config());
    topic.init_partitions().unwrap();
    topic.delete_topic(0).unwrap();
    assert_eq!(topic.get_partition_count(), 0);
}

#[test]
fn test_message_operations() {
    let mut topic = Topic::new("test-topic".to_string(), test_config());

    topic.create_partition(0, test_metadata(0)).unwrap();

    let message = vec![1, 2, 3, 4, 5];
    let result = topic.append_message(0, message.clone());
    assert!(result.is_ok());

    let read_result = topic.read_message(0, 0);
    assert!(read_result.is_ok());
    assert_eq!(read_result.unwrap().unwrap(), message);

    assert!(topic.read_message(1, 0).is_err());
}

#[test]
fn test_metadata_manager() {
    let mut manager = MetadataManager::new();

    let topic_metadata = TopicMetadata::new("test-topic".to_string(), test_config());
    assert!(manager.add_topic(topic_metadata).is_ok());

    let duplicate = TopicMetadata::new("test-topic".to_string(), test_config());
    assert!(manager.add_topic(duplicate).is_err());

    let result = manager.get_topic(&"test-topic".to_string());
    assert!(result.is_some());
    assert_eq!(result.unwrap().name, "test-topic");

    manager.remove_topic(&"test-topic".to_string());

    let result = manager.get_topic(&"test-topic".to_string());
    assert!(result.is_none());
}

#[test]
fn test_metadata_partitions() {
    let mut meta = TopicMetadata::new("t".to_string(), test_config());
    meta.add_partition(test_metadata(0));
    meta.add_partition(test_metadata(1));
    assert!(meta.get_partition(1).is_some());
    meta.remove_partition(1);
    assert!(meta.get_partition(1).is_none());
    assert!(meta.get_partition(0).is_some());
}

// With duplicate ids, the lookup hands back the first record.
#[test]
fn test_metadata_first_partition_wins() {
    let mut meta = TopicMetadata::new("t".to_string(), test_config());
    meta.add_partition(PartitionMetadata { id: 7, leader: 1, replicas: vec![1], isr: vec![1] });
    meta.add_partition(PartitionMetadata { id: 7, leader: 2, replicas: vec![2], isr: vec![2] });
    assert_eq!(meta.get_partition(7).unwrap().leader, 1);
}

// Removing an absent topic name changes nothing: the surviving records
// come back untouched.
#[test]
fn test_remove_topic_idempotent() {
    let mut manager = MetadataManager::new();
    manager.add_topic(TopicMetadata::new("kept".to_string(), test_config())).unwrap();
    manager.remove_topic(&"ghost".to_string());
    let kept = manager.get_topic(&"kept".to_string()).unwrap();
    assert_eq!(kept.name, "kept");
    assert_eq!(kept.config.partitions, 3);
    manager.remove_topic(&"kept".to_string());
    manager.remove_topic(&"kept".to_string());
    assert!(manager.get_topic(&"kept".to_string()).is_none());
}

// Each refusal names its cause: a partition id past the configured count
// is out of range, a filled slot already exists.
#[test]
fn test_creation_error_kinds() {
    let mut topic = Topic::new("t".to_string(), test_config());
    assert_eq!(topic.create_partition(3, test_metadata(3)), Err(StorageError::OutOfRange));
    topic.create_partition(0, test_metadata(0)).unwrap();
    assert_eq!(topic.create_partition(0, test_metadata(0)), Err(StorageError::AlreadyExists));
    assert_eq!(topic.get_partition_dir(1), "target/topics/t-1");
}

// Tombstoned partitions refuse work, and cleanup reclaims them only after
// the retention window.
#[test]
fn test_tombstone_lifecycle() {
    let mut topic = Topic::new("t".to_string(), test_config());
    topic.init_partitions().unwrap();
    topic.delete_partition(1, 50).unwrap();
    assert_eq!(
        topic.append_message(1, vec![1]),
        Err(minikafka::errors::StorageError::PartitionDeleted)
    );
    assert_eq!(
        topic.read_message(1, 0),
        Err(minikafka::errors::StorageError::PartitionDeleted)
    );
    let removed = topic.cleanup_deleted_partitions(100, 60);
    assert_eq!(removed, Vec::<usize>::new());
    let removed = topic.cleanup_deleted_partitions(100, 150);
    assert_eq!(removed, vec![1]);
    assert_eq!(
        topic.append_message(1, vec![1]),
        Err(minikafka::errors::StorageError::NotFound)
    );
}
