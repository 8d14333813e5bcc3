use minikafka::client::Consumer;
use minikafka::producer::Producer;
use minikafka::producer::ProducerConfig;

#[test]
fn test_consumer_creation() {
    let consumer = Consumer::new("test_consumer".to_string(), "test_group".to_string());

    assert_eq!(consumer.get_consumer_id(), "test_consumer");
    assert_eq!(consumer.get_group().group_id, "test_group");
    assert_eq!(consumer.get_group().members.len(), 1);
}

#[test]
fn test_consumer_group_management() {
    let mut consumer = Consumer::new("consumer1".to_string(), "group1".to_string());
    let group = consumer.get_group_mut();

    group.add_member("consumer2".to_string());
    assert_eq!(group.members.len(), 2);

    group.remove_member(&"consumer2".to_string());
    assert_eq!(group.members.len(), 1);
}

#[test]
fn test_offset_management() {
    let mut consumer = Consumer::new("test_consumer".to_string(), "test_group".to_string());

    assert_eq!(consumer.get_offset(0), 0);

    consumer.update_offset(0, 100);
    assert_eq!(consumer.get_offset(0), 100);

    assert_eq!(consumer.get_offset(1), 0);
}

#[test]
fn test_assigned_partitions() {
    let mut consumer = Consumer::new("consumer1".to_string(), "group1".to_string());
    let group = consumer.get_group_mut();
    assert!(group.get_assigned_partitions(&"consumer1".to_string()).is_some());
    assert!(group.get_assigned_partitions(&"ghost".to_string()).is_none());
}

// Removing one member leaves every other member's record word for word,
// and removing an absent id changes nothing.
#[test]
fn test_remove_member_preserves_others() {
    let mut consumer = Consumer::new("c1".to_string(), "g".to_string());
    let group = consumer.get_group_mut();
    group.add_member("c2".to_string());
    group.add_member("c3".to_string());
    group.remove_member(&"ghost".to_string());
    assert_eq!(group.members.len(), 3);
    group.remove_member(&"c2".to_string());
    assert_eq!(group.members.len(), 2);
    assert_eq!(group.members[0].member_id, "c1");
    assert_eq!(group.members[1].member_id, "c3");
}

#[test]
fn test_producer_creation() {
    let config = ProducerConfig::default();
    let producer = Producer::new("test_producer".to_string(), config);

    assert_eq!(producer.get_producer_id(), "test_producer");
    assert!(producer.get_config().auto_select_partition);
    assert_eq!(producer.get_config().partition_count, 1);
}

#[test]
fn test_partition_selection() {
    let mut config = ProducerConfig::default();
    config.partition_count = 3;
    let mut producer = Producer::new("test_producer".to_string(), config);

    let partition1 = producer.select_partition(None);
    let partition2 = producer.select_partition(None);
    let partition3 = producer.select_partition(None);
    let partition4 = producer.select_partition(None);

    assert_eq!(partition1, 0);
    assert_eq!(partition2, 1);
    assert_eq!(partition3, 2);
    assert_eq!(partition4, 0);

    let key1 = b"key1";
    let key2 = b"key2";
    let partition_key1 = producer.select_partition(Some(&key1[..]));
    let partition_key2 = producer.select_partition(Some(&key2[..]));

    assert_eq!(partition_key1, producer.select_partition(Some(&key1[..])));
    assert_eq!(partition_key2, producer.select_partition(Some(&key2[..])));
}

#[test]
fn test_message_sending() {
    let config = ProducerConfig::default();
    let mut producer = Producer::new("test_producer".to_string(), config);

    let message = vec![1, 2, 3];
    let result = producer.send_message(message.clone(), None);
    assert!(result.is_ok());

    let (partition_id, offset) = result.unwrap();
    assert_eq!(partition_id, 0);
    assert_eq!(offset, 0);
}
