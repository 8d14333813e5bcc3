use minikafka::broker::Broker;
use minikafka::errors::StorageError;

// Basic append and read through the facade: a five-byte payload routes to
// partition five mod three, receives offset zero, and reads back; the
// other partitions stay empty.
#[test]
fn test_send_and_fetch_message() {
    let mut broker = Broker::new();
    broker.create_topic(&"t".to_string(), 3).unwrap();

    let offset = broker.send_message(&"t".to_string(), vec![1, 2, 3, 4, 5]).unwrap();
    assert_eq!(offset, 0);

    let fetched = broker.fetch_message(&"t".to_string(), 2, 0).unwrap();
    assert_eq!(fetched, Some(vec![1, 2, 3, 4, 5]));

    let other = broker.fetch_message(&"t".to_string(), 0, 0).unwrap();
    assert_eq!(other, None);
}

// Routing follows the payload length: length mod partition count names
// the partition.
#[test]
fn test_routing_by_payload_length() {
    let mut broker = Broker::new();
    broker.create_topic(&"t".to_string(), 3).unwrap();

    broker.send_message(&"t".to_string(), vec![9; 4]).unwrap();
    assert_eq!(
        broker.fetch_message(&"t".to_string(), 1, 0).unwrap(),
        Some(vec![9; 4])
    );

    broker.send_message(&"t".to_string(), vec![8; 6]).unwrap();
    assert_eq!(
        broker.fetch_message(&"t".to_string(), 0, 0).unwrap(),
        Some(vec![8; 6])
    );
}

#[test]
fn test_create_topic_twice_rejected() {
    let mut broker = Broker::new();
    assert!(broker.create_topic(&"t".to_string(), 2).is_ok());
    assert_eq!(
        broker.create_topic(&"t".to_string(), 2),
        Err(StorageError::AlreadyExists)
    );
}

#[test]
fn test_send_to_missing_topic() {
    let mut broker = Broker::new();
    assert_eq!(
        broker.send_message(&"ghost".to_string(), vec![1]),
        Err(StorageError::NotFound)
    );
    assert_eq!(
        broker.fetch_message(&"ghost".to_string(), 0, 0),
        Err(StorageError::NotFound)
    );
}

// Committed offsets are per group and per topic partition.
#[test]
fn test_consumer_offsets() {
    let mut broker = Broker::new();
    broker.commit_offset(&"g1".to_string(), &"t".to_string(), 0, 42).unwrap();
    assert_eq!(
        broker.get_offset(&"g1".to_string(), &"t".to_string(), 0).unwrap(),
        Some(42)
    );
    assert_eq!(
        broker.get_offset(&"g2".to_string(), &"t".to_string(), 0).unwrap(),
        None
    );
    assert_eq!(
        broker.get_offset(&"g1".to_string(), &"t".to_string(), 1).unwrap(),
        None
    );
    broker.commit_offset(&"g1".to_string(), &"t".to_string(), 0, 43).unwrap();
    assert_eq!(
        broker.get_offset(&"g1".to_string(), &"t".to_string(), 0).unwrap(),
        Some(43)
    );
}

// Offsets within one partition stay contiguous across many sends.
#[test]
fn test_offsets_contiguous() {
    let mut broker = Broker::new();
    broker.create_topic(&"t".to_string(), 1).unwrap();
    for i in 0..5u64 {
        let off = broker.send_message(&"t".to_string(), vec![1, 2, 3]).unwrap();
        assert_eq!(off, i);
    }
    for i in 0..5u64 {
        assert_eq!(
            broker.fetch_message(&"t".to_string(), 0, i as u32).unwrap(),
            Some(vec![1, 2, 3])
        );
    }
}

// The raw-frame handler produces on type one and fetches on type two.
#[test]
fn test_request_handler_roundtrip() {
    let mut broker = Broker::new();
    broker.create_topic(&"default_topic".to_string(), 1).unwrap();
    let mut handler = minikafka::broker::RequestHandler::new(broker);

    let produce = minikafka::wire::BinaryMessage {
        msg_type: 1,
        msg_id: 7,
        payload: vec![10, 20, 30],
    };
    let response = handler.handle_request(produce);
    assert_eq!(response.msg_type, 1);
    assert_eq!(response.msg_id, 0);

    let fetch = minikafka::wire::BinaryMessage { msg_type: 2, msg_id: 0, payload: vec![] };
    let response = handler.handle_request(fetch);
    assert_eq!(response.msg_type, 2);
    assert_eq!(response.payload, vec![10, 20, 30]);

    let other = minikafka::wire::BinaryMessage { msg_type: 9, msg_id: 1, payload: vec![] };
    let response = handler.handle_request(other);
    assert_eq!(response.msg_type, 0);
}
