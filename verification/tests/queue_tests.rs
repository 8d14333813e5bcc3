use minikafka::errors::StorageError;
use minikafka::queue::LogQueue;

#[test]
fn test_append_message() {
    let mut queue = LogQueue::new(1024);
    let message = b"hello kafka";
    let offset = queue
        .append_message(message)
        .expect("Failed to append message");
    assert_eq!(offset, 0, "First message should be at offset 0");
}

#[test]
fn test_read_message() {
    let mut queue = LogQueue::new(1024);
    let message = b"hello kafka";
    let offset = queue
        .append_message(message)
        .expect("Failed to append message");

    let read_msg: Option<Vec<u8>> = queue.read_message(offset);
    assert_eq!(
        read_msg,
        Some(message.to_vec()),
        "Read message should match written message"
    );
}

#[test]
fn test_segment_rotation() {
    let mut queue = LogQueue::new(10);
    queue.append_message(b"1234567890").unwrap();
    queue.append_message(b"new segment").unwrap();
    queue.append_message(b"987654321").unwrap();
}

#[test]
fn test_write_times() {
    let mut queue = LogQueue::new(1024);
    for offset in 0..3000u64 {
        let message = format!("heool kafka {}", offset).into_bytes();
        match queue.append_message(&message) {
            Ok(write_offset) => {
                assert_eq!(offset, write_offset, "message offset is error");
                let read_message = queue.read_message(offset);
                assert_eq!(
                    read_message,
                    Some(message),
                    "Read message does not match written message"
                );
            }
            Err(e) => {
                panic!("Error: {:?}", e);
            }
        };
    }
}

// Segment rotation boundaries, as a small segment bound forces them: two
// 42-byte records fill a 64-byte segment, the third opens a segment at
// base offset 2.
#[test]
fn test_rotation_boundaries() {
    let mut queue = LogQueue::new(64);
    for i in 0..10u64 {
        let payload = [i as u8; 30];
        let off = queue.append_message(&payload).unwrap();
        assert_eq!(off, i);
    }
    assert_eq!(queue.segments.len(), 5);
    assert_eq!(queue.segments[0].base_offset, 0);
    assert_eq!(queue.segments[1].base_offset, 2);
    assert_eq!(queue.segments[2].base_offset, 4);
    let sixth = queue.read_message(5).unwrap();
    assert_eq!(sixth, [5u8; 30].to_vec());
}

// The size bound is soft: a payload longer than the bound still lands in
// a fresh segment, pushing it past the bound by one record.
#[test]
fn test_soft_bound_accepts_oversized_payload() {
    let mut queue = LogQueue::new(16);
    let payload = [7u8; 17];
    assert_eq!(queue.append_message(&payload), Ok(0));
    assert_eq!(queue.read_message(0), Some(payload.to_vec()));
}

// A zero segment bound cannot hold even an empty record.
#[test]
fn test_zero_bound_is_config_error() {
    let mut queue = LogQueue::new(0);
    assert_eq!(queue.append_message(b""), Err(StorageError::InvalidConfig));
}

// A fresh queue serves no offset at all.
#[test]
fn test_read_empty_queue() {
    let mut queue = LogQueue::new(1024);
    assert_eq!(queue.read_message(0), None);
}

// An offset at or past the next one reads as nothing.
#[test]
fn test_read_past_end() {
    let mut queue = LogQueue::new(1024);
    queue.append_message(b"a").unwrap();
    assert_eq!(queue.read_message(1), None);
    assert_eq!(queue.read_message(100), None);
}

// Reads behind the hint's segment report nothing once the hint advanced;
// reads at or past it still hit.
#[test]
fn test_read_hint_bias() {
    let mut queue = LogQueue::new(16);
    for i in 0..6u64 {
        queue.append_message(&[i as u8; 10]).unwrap();
    }
    assert_eq!(queue.read_message(5), Some(vec![5u8; 10]));
    assert_eq!(queue.read_message(0), None);
    assert_eq!(queue.read_message(5), Some(vec![5u8; 10]));
}

// Crash recovery at the queue level: reopening every segment's images
// rebuilds a queue whose next append continues where the last one
// stopped.
#[test]
fn test_queue_recovery() {
    let mut queue = LogQueue::new(64);
    for i in 0..10u64 {
        queue.append_message(format!("m{}", i).as_bytes()).unwrap();
    }
    let mut segments = Vec::new();
    for seg in &queue.segments {
        segments.push(
            minikafka::segment::LogSegment::open(
                seg.base_offset,
                seg.max_segment_size,
                seg.log.clone(),
                seg.mmap_index.as_bytes().clone(),
            )
            .expect("segment reopen failed"),
        );
    }
    let mut reopened = LogQueue::from_segments(segments, 64).expect("queue reopen failed");
    let next = reopened.append_message(b"fresh").unwrap();
    assert_eq!(next, 10);
    assert_eq!(reopened.read_message(3), Some(b"m3".to_vec()));
    assert_eq!(reopened.read_message(10), Some(b"fresh".to_vec()));
}
