use minikafka::message::BinaryMessage;
use minikafka::message::MessageType;

#[test]
fn test_message_type_conversion() {
    assert_eq!(u8::from(MessageType::Produce), 0);
    assert_eq!(u8::from(MessageType::Fetch), 1);
    assert_eq!(u8::from(MessageType::Metadata), 2);
    assert_eq!(u8::from(MessageType::OffsetFetch), 3);
    assert_eq!(u8::from(MessageType::JoinGroup), 4);
    assert_eq!(u8::from(MessageType::SyncGroup), 5);
    assert_eq!(u8::from(MessageType::CreateTopic), 6);
    assert_eq!(u8::from(MessageType::DeleteTopic), 7);
    assert_eq!(u8::from(MessageType::DescribeTopic), 8);
    assert_eq!(u8::from(MessageType::ListTopics), 9);
    assert_eq!(u8::from(MessageType::UpdateTopicConfig), 10);
    assert_eq!(u8::from(MessageType::GetClusterInfo), 11);
    assert_eq!(u8::from(MessageType::Heartbeat), 12);
    assert_eq!(u8::from(MessageType::LeaveGroup), 13);
    assert_eq!(u8::from(MessageType::Unknown), 255);

    assert_eq!(MessageType::from(0), MessageType::Produce);
    assert_eq!(MessageType::from(1), MessageType::Fetch);
    assert_eq!(MessageType::from(2), MessageType::Metadata);
    assert_eq!(MessageType::from(3), MessageType::OffsetFetch);
    assert_eq!(MessageType::from(4), MessageType::JoinGroup);
    assert_eq!(MessageType::from(5), MessageType::SyncGroup);
    assert_eq!(MessageType::from(6), MessageType::CreateTopic);
    assert_eq!(MessageType::from(7), MessageType::DeleteTopic);
    assert_eq!(MessageType::from(8), MessageType::DescribeTopic);
    assert_eq!(MessageType::from(9), MessageType::ListTopics);
    assert_eq!(MessageType::from(10), MessageType::UpdateTopicConfig);
    assert_eq!(MessageType::from(11), MessageType::GetClusterInfo);
    assert_eq!(MessageType::from(12), MessageType::Heartbeat);
    assert_eq!(MessageType::from(13), MessageType::LeaveGroup);
    assert_eq!(MessageType::from(255), MessageType::Unknown);
}

#[test]
fn test_binary_message_creation() {
    let msg = BinaryMessage::new(MessageType::Produce, 123, 456, 789, vec![1, 2, 3, 4]);

    assert_eq!(msg.msg_type, MessageType::Produce);
    assert_eq!(msg.msg_id, 123);
    assert_eq!(msg.correlation_id, 456);
    assert_eq!(msg.client_id, 789);
    assert_eq!(msg.payload, vec![1, 2, 3, 4]);
}

#[test]
fn protocol_tests_test_binary_message_encode_decode() {
    let original_msg = BinaryMessage::new(MessageType::Produce, 123, 456, 789, vec![1, 2, 3, 4]);

    let encoded = original_msg.encode();
    assert!(encoded.len() >= 1 + 4 + 4 + 4);

    let decoded_msg = BinaryMessage::decode(&encoded).unwrap();
    assert_eq!(decoded_msg.msg_type, original_msg.msg_type);
    assert_eq!(decoded_msg.msg_id, original_msg.msg_id);
    assert_eq!(decoded_msg.correlation_id, original_msg.correlation_id);
    assert_eq!(decoded_msg.client_id, original_msg.client_id);
    assert_eq!(decoded_msg.payload, original_msg.payload);
}

#[test]
fn test_message_stream_decode() {
    let original_msg = BinaryMessage::new(MessageType::Produce, 123, 456, 789, vec![1, 2, 3, 4]);

    let encoded = original_msg.encode();

    let (decoded_msg, consumed) = BinaryMessage::decode_message(&encoded).unwrap();

    assert_eq!(decoded_msg.msg_type, original_msg.msg_type);
    assert_eq!(decoded_msg.msg_id, original_msg.msg_id);
    assert_eq!(decoded_msg.correlation_id, original_msg.correlation_id);
    assert_eq!(decoded_msg.client_id, original_msg.client_id);
    assert_eq!(decoded_msg.payload, original_msg.payload);
    assert_eq!(consumed, encoded.len());
}

#[test]
fn binary_message_test_test_binary_message_encode_decode() {
    let original_msg = minikafka::wire::BinaryMessage {
        msg_type: 1,
        msg_id: 42,
        payload: b"Hello, Kafka!".to_vec(),
    };

    let encoded = original_msg.encode();

    let decoded_msg = minikafka::wire::BinaryMessage::decode(&encoded).unwrap();

    assert_eq!(original_msg.msg_type, decoded_msg.msg_type);
    assert_eq!(original_msg.msg_id, decoded_msg.msg_id);
    assert_eq!(original_msg.payload, decoded_msg.payload);
}

#[test]
fn test_message_exact_frame_bytes() {
    let msg = BinaryMessage::new(MessageType::Fetch, 1, 2, 3, vec![0xAA, 0xBB]);
    let encoded = msg.encode();
    assert_eq!(
        encoded,
        vec![0, 0, 0, 15, 1, 0, 0, 0, 1, 0, 0, 0, 2, 0, 0, 0, 3, 0xAA, 0xBB]
    );
}

// The stream decoder fails exactly when no whole frame sits at the
// front, and succeeds as soon as the announced frame is complete.
#[test]
fn test_decode_message_frame_boundary() {
    let msg = BinaryMessage::new(MessageType::Fetch, 1, 2, 3, vec![9, 9]);
    let encoded = msg.encode();
    assert!(BinaryMessage::decode_message(&encoded[..encoded.len() - 1]).is_err());
    let mut extended = encoded.clone();
    extended.push(0xEE);
    let (decoded, consumed) = BinaryMessage::decode_message(&extended).unwrap();
    assert_eq!(consumed, encoded.len());
    assert_eq!(decoded.payload, vec![9, 9]);
}

#[test]
fn test_decode_short_buffer_rejected() {
    match BinaryMessage::decode(&[0u8; 10]) {
        Ok(_) => panic!("short buffer must not decode"),
        Err(e) => assert_eq!(e, minikafka::message::ProtocolError::BufferTooShort),
    }
}
